//! Pages: an element tree with identity and a derived id-to-path index.
//!
//! The index maps every element id to the tree path (sequence of child
//! indices from the root) of the element carrying it. It is rebuilt
//! whenever a patch changes the tree's shape. Invariant: ids are unique
//! within a page and stable across patches.

use vstd::prelude::*;

use crate::element::{elem_at, lemma_elem_model_wf, lemma_view_children, model_wf, models_of, ElemModel, Element, ElementKind, KindModel};

verus! {

broadcast use lemma_view_children;

/// All (id, path) pairs of the tree rooted at `e`, reached below `prefix`:
/// the node's own id first, then the children's pairs in order.
pub open spec fn index_pairs(e: ElemModel, prefix: Seq<usize>) -> Seq<(Seq<char>, Seq<usize>)>
    decreases e, e.children.len() + 1,
{
    let own = match e.id {
        Some(s) => seq![(s, prefix)],
        None => Seq::<(Seq<char>, Seq<usize>)>::empty(),
    };
    own + index_pairs_children(e, prefix, 0)
}

/// The pairs of children `i` onward.
pub open spec fn index_pairs_children(e: ElemModel, prefix: Seq<usize>, i: int) -> Seq<
    (Seq<char>, Seq<usize>),
>
    decreases e, e.children.len() - i,
{
    if i < 0 || i >= e.children.len() {
        Seq::empty()
    } else {
        index_pairs(e.children[i], prefix.push(i as usize)) + index_pairs_children(e, prefix, i + 1)
    }
}

/// Unfolds the children pairs at a valid child index.
proof fn lemma_children_pairs_unfold(e: ElemModel, prefix: Seq<usize>, i: int)
    requires
        0 <= i < e.children.len(),
    ensures
        index_pairs_children(e, prefix, i) == index_pairs(e.children[i], prefix.push(i as usize))
            + index_pairs_children(e, prefix, i + 1),
{
}

/// The children pairs past the last child are empty.
proof fn lemma_children_pairs_end(e: ElemModel, prefix: Seq<usize>, i: int)
    requires
        i >= e.children.len(),
    ensures
        index_pairs_children(e, prefix, i) == Seq::<(Seq<char>, Seq<usize>)>::empty(),
{
}

/// No two pairs carry the same id.
pub open spec fn unique_ids(pairs: Seq<(Seq<char>, Seq<usize>)>) -> bool {
    forall|k1: int, k2: int|
        0 <= k1 < pairs.len() && 0 <= k2 < pairs.len() && k1 != k2 ==> (#[trigger] pairs[k1]).0 != (
        #[trigger] pairs[k2]).0
}

/// The views of the entries of an index vector.
pub open spec fn index_views(entries: Seq<(String, Vec<usize>)>) -> Seq<(Seq<char>, Seq<usize>)> {
    Seq::new(entries.len(), |i: int| (entries[i].0@, entries[i].1@))
}

/// Every pair of the subtree index points at an element of the subtree
/// that carries that id, at that path below the prefix.
proof fn lemma_pairs_sound(e: ElemModel, prefix: Seq<usize>, k: int)
    requires
        model_wf(e),
        0 <= k < index_pairs(e, prefix).len(),
    ensures
        ({
            let pr = index_pairs(e, prefix)[k];
            pr.1.len() >= prefix.len() && pr.1.subrange(0, prefix.len() as int) == prefix && match
                elem_at(e, pr.1.skip(prefix.len() as int)) {
                Some(el) => el.id == Some(pr.0),
                None => false,
            }
        }),
    decreases e, e.children.len() + 1,
{
    let own: Seq<(Seq<char>, Seq<usize>)> = match e.id {
        Some(s) => seq![(s, prefix)],
        None => Seq::empty(),
    };
    if k < own.len() {
        let pr = index_pairs(e, prefix)[k];
        assert(pr == (e.id->0, prefix));
        assert(pr.1.subrange(0, prefix.len() as int) =~= prefix);
        assert(pr.1.skip(prefix.len() as int) =~= Seq::<usize>::empty());
    } else {
        lemma_pairs_children_sound(e, prefix, 0, k - own.len());
    }
}

proof fn lemma_pairs_children_sound(e: ElemModel, prefix: Seq<usize>, i: int, k: int)
    requires
        model_wf(e),
        0 <= k < index_pairs_children(e, prefix, i).len(),
    ensures
        ({
            let pr = index_pairs_children(e, prefix, i)[k];
            pr.1.len() >= prefix.len() && pr.1.subrange(0, prefix.len() as int) == prefix && match
                elem_at(e, pr.1.skip(prefix.len() as int)) {
                Some(el) => el.id == Some(pr.0),
                None => false,
            }
        }),
    decreases e, e.children.len() - i,
{
    if i < 0 || i >= e.children.len() {
        lemma_children_pairs_end(e, prefix, i);
        assert(false);
    } else {
        lemma_children_pairs_unfold(e, prefix, i);
        let head = index_pairs(e.children[i], prefix.push(i as usize));
        if k < head.len() {
            assert(model_wf(e.children[i]));
            assert(i as usize as int == i);
            lemma_pairs_sound(e.children[i], prefix.push(i as usize), k);
            let pr = head[k];
            let pre2 = prefix.push(i as usize);
            assert(pr.1.subrange(0, pre2.len() as int) == pre2);
            assert(pr.1.subrange(0, prefix.len() as int) =~= prefix);
            let q = pr.1.skip(prefix.len() as int);
            assert(q.len() >= 1);
            assert(q[0] == pr.1[prefix.len() as int]);
            assert(pr.1[prefix.len() as int] == pre2[prefix.len() as int]);
            assert(q[0] == i as usize);
            assert(q.skip(1) =~= pr.1.skip(pre2.len() as int));
            assert((q[0] as int) < e.children.len());
            assert(elem_at(e, q) == elem_at(e.children[q[0] as int], q.skip(1)));
            assert(index_pairs_children(e, prefix, i)[k] == pr);
        } else {
            lemma_pairs_children_sound(e, prefix, i + 1, k - head.len());
            assert(index_pairs_children(e, prefix, i)[k] == index_pairs_children(e, prefix, i + 1)[
                k - head.len()]);
        }
    }
}

/// Pairs of a child subtree appear among the pairs of children `i` onward.
proof fn lemma_pairs_children_contains(
    e: ElemModel,
    prefix: Seq<usize>,
    i: int,
    c: int,
    k: int,
)
    requires
        0 <= i <= c < e.children.len(),
        0 <= k < index_pairs(e.children[c], prefix.push(c as usize)).len(),
    ensures
        exists|m: int|
            0 <= m < index_pairs_children(e, prefix, i).len() && #[trigger] index_pairs_children(
                e,
                prefix,
                i,
            )[m] == index_pairs(e.children[c], prefix.push(c as usize))[k],
    decreases c - i,
{
    let head = index_pairs(e.children[i], prefix.push(i as usize));
    if c == i {
        assert(index_pairs_children(e, prefix, i)[k] == head[k]);
    } else {
        lemma_pairs_children_contains(e, prefix, i + 1, c, k);
        let m0 = choose|m: int|
            0 <= m < index_pairs_children(e, prefix, i + 1).len() && #[trigger] index_pairs_children(
                e,
                prefix,
                i + 1,
            )[m] == index_pairs(e.children[c], prefix.push(c as usize))[k];
        assert(index_pairs_children(e, prefix, i)[head.len() + m0] == index_pairs_children(
            e,
            prefix,
            i + 1,
        )[m0]);
    }
}

/// Every element with an id appears in the subtree index, under the
/// concatenated path.
proof fn lemma_pairs_complete(e: ElemModel, prefix: Seq<usize>, q: Seq<usize>)
    requires
        elem_at(e, q) is Some,
        elem_at(e, q)->0.id is Some,
    ensures
        exists|k: int|
            0 <= k < index_pairs(e, prefix).len() && #[trigger] index_pairs(e, prefix)[k] == (
                elem_at(e, q)->0.id->0,
                prefix + q,
            ),
    decreases q.len(),
{
    let own: Seq<(Seq<char>, Seq<usize>)> = match e.id {
        Some(s) => seq![(s, prefix)],
        None => Seq::empty(),
    };
    if q.len() == 0 {
        assert(prefix + q =~= prefix);
        assert(index_pairs(e, prefix)[0] == (e.id->0, prefix));
    } else {
        let c = q[0] as int;
        assert(0 <= c < e.children.len());
        lemma_pairs_complete(e.children[c], prefix.push(q[0]), q.skip(1));
        let k0 = choose|k: int|
            0 <= k < index_pairs(e.children[c], prefix.push(q[0])).len() && #[trigger] index_pairs(
                e.children[c],
                prefix.push(q[0]),
            )[k] == (elem_at(e.children[c], q.skip(1))->0.id->0, prefix.push(q[0]) + q.skip(1));
        assert(prefix.push(q[0]) + q.skip(1) =~= prefix + q);
        lemma_pairs_children_contains(e, prefix, 0, c, k0);
        let m0 = choose|m: int|
            0 <= m < index_pairs_children(e, prefix, 0).len() && #[trigger] index_pairs_children(
                e,
                prefix,
                0,
            )[m] == index_pairs(e.children[c], prefix.push(c as usize))[k0];
        assert(index_pairs(e, prefix)[own.len() + m0] == index_pairs_children(e, prefix, 0)[m0]);
    }
}

/// A copy of a tree path.
pub fn clone_path(p: &Vec<usize>) -> (r: Vec<usize>)
    ensures
        r@ == p@,
{
    let mut r: Vec<usize> = Vec::new();
    let n = p.len();
    let mut i: usize = 0;
    while i < n
        invariant
            n == p@.len(),
            0 <= i <= n,
            r@ == p@.subrange(0, i as int),
        decreases n - i,
    {
        r.push(p[i]);
        assert(r@ =~= p@.subrange(0, i + 1 as int));
        i += 1;
    }
    assert(r@ =~= p@);
    r
}

/// Collects the (id, path) pairs of the subtree at `e` below `prefix`,
/// appending them to `out` in index order.
fn collect_index(e: &Element, prefix: &Vec<usize>, out: &mut Vec<(String, Vec<usize>)>)
    ensures
        index_views(final(out)@) == index_views(old(out)@) + index_pairs(e@, prefix@),
    decreases *e,
{
    let ghost mid0 = out@;
    match &e.id {
        Some(s) => {
            out.push((s.clone(), clone_path(prefix)));
        },
        None => {},
    }
    let ghost own: Seq<(Seq<char>, Seq<usize>)> = match e@.id {
        Some(s) => seq![(s, prefix@)],
        None => Seq::empty(),
    };
    proof {
        assert(index_views(out@) =~= index_views(mid0) + own);
    }
    let n = e.children.len();
    let mut i: usize = 0;
    while i < n
        invariant
            n == e.children@.len(),
            0 <= i <= n,
            index_views(out@) + index_pairs_children(e@, prefix@, i as int) == index_views(mid0)
                + index_pairs(e@, prefix@),
        decreases n - i,
    {
        let ghost before = out@;
        let child = &e.children[i];
        let mut prefix2 = clone_path(prefix);
        prefix2.push(i);
        proof {
            assert(e@.children[i as int] == e.children@[i as int]@);
            assert(prefix2@ =~= prefix@.push(i));
        }
        collect_index(child, &prefix2, out);
        proof {
            assert(index_views(out@) + index_pairs_children(e@, prefix@, i + 1 as int) =~= (
            index_views(before) + index_pairs(e@.children[i as int], prefix@.push(i)))
                + index_pairs_children(e@, prefix@, i + 1 as int));
            assert(index_pairs(e@.children[i as int], prefix@.push(i)) + index_pairs_children(
                e@,
                prefix@,
                i + 1 as int,
            ) =~= index_pairs_children(e@, prefix@, i as int));
            assert((index_views(before) + index_pairs(e@.children[i as int], prefix@.push(i)))
                + index_pairs_children(e@, prefix@, i + 1 as int) =~= index_views(before) + (
            index_pairs(e@.children[i as int], prefix@.push(i)) + index_pairs_children(
                e@,
                prefix@,
                i + 1 as int,
            )));
        }
        i += 1;
    }
    proof {
        assert(index_pairs_children(e@, prefix@, n as int) =~= Seq::<(Seq<char>, Seq<usize>)>::empty());
        assert(index_views(out@) + index_pairs_children(e@, prefix@, n as int) =~= index_views(
            out@,
        ));
        assert(index_views(out@) =~= index_views(mid0) + index_pairs(e@, prefix@));
    }
}

/// Builds the id-to-path index of the tree rooted at `root`.
fn build_index(root: &Element) -> (r: Vec<(String, Vec<usize>)>)
    ensures
        index_views(r@) == index_pairs(root@, Seq::empty()),
{
    let mut out: Vec<(String, Vec<usize>)> = Vec::new();
    let prefix: Vec<usize> = Vec::new();
    proof {
        assert(index_views(out@) =~= Seq::<(Seq<char>, Seq<usize>)>::empty());
    }
    collect_index(root, &prefix, &mut out);
    proof {
        assert(Seq::<(Seq<char>, Seq<usize>)>::empty() + index_pairs(root@, Seq::empty())
            =~= index_pairs(root@, Seq::empty()));
    }
    out
}

/// Whether no two entries of an index share an id.
fn check_unique(index: &Vec<(String, Vec<usize>)>) -> (r: bool)
    ensures
        r == unique_ids(index_views(index@)),
{
    let n = index.len();
    let mut i: usize = 0;
    while i < n
        invariant
            n == index@.len(),
            0 <= i <= n,
            forall|k1: int, k2: int|
                0 <= k1 < i && k1 < k2 < n ==> (#[trigger] index_views(index@)[k1]).0 != (
                #[trigger] index_views(index@)[k2]).0,
        decreases n - i,
    {
        let mut j = i + 1;
        while j < n
            invariant
                n == index@.len(),
                0 <= i < j <= n,
                forall|k2: int|
                    i < k2 < j ==> (#[trigger] index_views(index@)[k2]).0 != index_views(
                        index@,
                    )[i as int].0,
            decreases n - j,
        {
            if index[i].0.eq(&index[j].0) {
                assert(index_views(index@)[i as int].0 == index_views(index@)[j as int].0);
                assert(!unique_ids(index_views(index@)));
                return false;
            }
            j += 1;
        }
        i += 1;
    }
    proof {
        assert forall|k1: int, k2: int|
            0 <= k1 < index_views(index@).len() && 0 <= k2 < index_views(index@).len() && k1
                != k2 implies (#[trigger] index_views(index@)[k1]).0 != (#[trigger] index_views(
            index@,
        )[k2]).0 by {
            if k1 < k2 {
            } else {
            }
        }
    }
    true
}

/// One remotely defined screen: an element tree plus identity, with the
/// derived id-to-path index.
pub struct Page {
    id: String,
    name: String,
    root: Element,
    index: Vec<(String, Vec<usize>)>,
}

impl Page {
    /// The page's identity.
    pub closed spec fn spec_id(self) -> Seq<char> {
        self.id@
    }

    /// The page's display name.
    pub closed spec fn spec_name(self) -> Seq<char> {
        self.name@
    }

    /// The model of the page's element tree.
    pub closed spec fn spec_root(self) -> ElemModel {
        self.root@
    }

    /// Well-formedness: the index lists exactly the tree's (id, path)
    /// pairs, and no two elements share an id.
    pub closed spec fn wf(self) -> bool {
        index_views(self.index@) == index_pairs(self.root@, Seq::empty()) && unique_ids(
            index_pairs(self.root@, Seq::empty()),
        )
    }

    /// Builds a page over `root`. Fails exactly when two elements of
    /// `root` carry the same id: ids must be unique within a page.
    pub fn new(id: String, name: String, root: Element) -> (r: Option<Page>)
        ensures
            r is Some <==> unique_ids(index_pairs(root@, Seq::empty())),
            match r {
                Some(p) => p.wf() && p.spec_root() == root@ && p.spec_id() == id@ && p.spec_name()
                    == name@,
                None => true,
            },
    {
        let index = build_index(&root);
        if check_unique(&index) {
            Some(Page { id, name, root, index })
        } else {
            None
        }
    }

    /// The page's id.
    pub fn id(&self) -> (r: &String)
        ensures
            r@ == self.spec_id(),
    {
        &self.id
    }

    /// The page's name.
    pub fn name(&self) -> (r: &String)
        ensures
            r@ == self.spec_name(),
    {
        &self.name
    }

    /// The root element.
    pub fn root(&self) -> (r: &Element)
        ensures
            r@ == self.spec_root(),
    {
        &self.root
    }

    /// The tree path of the element with the given id: the reverse lookup
    /// used to re-anchor focus after any tree mutation.
    pub fn get_path(&self, id: &String) -> (r: Option<Vec<usize>>)
        requires
            self.wf(),
        ensures
            match r {
                Some(p) => elem_at(self.spec_root(), p@) is Some && elem_at(
                    self.spec_root(),
                    p@,
                )->0.id == Some(id@),
                None => forall|q: Seq<usize>|
                    elem_at(self.spec_root(), q) is Some ==> (#[trigger] elem_at(
                        self.spec_root(),
                        q,
                    ))->0.id != Some(id@),
            },
    {
        let n = self.index.len();
        let mut k: usize = 0;
        while k < n
            invariant
                n == self.index@.len(),
                0 <= k <= n,
                self.wf(),
                forall|m: int| 0 <= m < k ==> (#[trigger] index_views(self.index@)[m]).0 != id@,
            decreases n - k,
        {
            if self.index[k].0.eq(id) {
                let p = clone_path(&self.index[k].1);
                proof {
                    lemma_elem_model_wf(self.root);
                    assert(index_views(self.index@)[k as int] == (id@, p@));
                    lemma_pairs_sound(self.root@, Seq::empty(), k as int);
                    assert(p@.skip(0) =~= p@);
                }
                return Some(p);
            }
            proof {
                assert(index_views(self.index@)[k as int].0 == self.index@[k as int].0@);
            }
            k += 1;
        }
        proof {
            assert forall|q: Seq<usize>| elem_at(self.spec_root(), q) is Some implies (
            #[trigger] elem_at(self.spec_root(), q))->0.id != Some(id@) by {
                if elem_at(self.spec_root(), q)->0.id == Some(id@) {
                    lemma_pairs_complete(self.root@, Seq::empty(), q);
                    let k0 = choose|kk: int|
                        0 <= kk < index_pairs(self.root@, Seq::empty()).len() && #[trigger] index_pairs(
                            self.root@,
                            Seq::empty(),
                        )[kk] == (elem_at(self.root@, q)->0.id->0, Seq::empty() + q);
                    assert(index_views(self.index@)[k0].0 == id@);
                }
            }
        }
        None
    }

    /// The element carrying the given id, if any.
    pub fn get_by_id(&self, id: &String) -> (r: Option<&Element>)
        requires
            self.wf(),
        ensures
            match r {
                Some(el) => el@.id == Some(id@) && exists|q: Seq<usize>|
                    elem_at(self.spec_root(), q) == Some(el@),
                None => forall|q: Seq<usize>|
                    elem_at(self.spec_root(), q) is Some ==> (#[trigger] elem_at(
                        self.spec_root(),
                        q,
                    ))->0.id != Some(id@),
            },
    {
        match self.get_path(id) {
            Some(p) => {
                let r = elem_follow(&self.root, &p, 0);
                proof {
                    assert(p@.skip(0) =~= p@);
                }
                r
            },
            None => None,
        }
    }
}

/// Walks a tree path from position `i` on.
pub fn elem_follow<'a>(e: &'a Element, path: &Vec<usize>, i: usize) -> (r: Option<&'a Element>)
    requires
        i <= path@.len(),
    ensures
        match r {
            Some(el) => elem_at(e@, path@.skip(i as int)) == Some(el@),
            None => elem_at(e@, path@.skip(i as int)) is None,
        },
    decreases path@.len() - i,
{
    if i == path.len() {
        proof {
            assert(path@.skip(i as int) =~= Seq::<usize>::empty());
        }
        Some(e)
    } else {
        let c = path[i];
        proof {
            assert(path@.skip(i as int)[0] == path@[i as int]);
            assert(path@.skip(i as int).skip(1) =~= path@.skip(i + 1 as int));
        }
        if c < e.children.len() {
            proof {
                assert(e@.children[c as int] == e.children@[c as int]@);
            }
            elem_follow(&e.children[c], path, i + 1)
        } else {
            None
        }
    }
}

/// An id-addressed patch: may replace the element's text, kind, or child
/// subtree, but never its id.
pub struct ElementUpdate {
    pub id: String,
    pub text: Option<String>,
    pub kind: Option<ElementKind>,
    pub children: Option<Vec<Element>>,
}

/// The mathematical view of a patch.
#[verifier::ext_equal]
pub struct UpdateModel {
    pub id: Seq<char>,
    pub text: Option<Seq<char>>,
    pub kind: Option<KindModel>,
    pub children: Option<Seq<ElemModel>>,
}

impl View for ElementUpdate {
    type V = UpdateModel;

    open spec fn view(&self) -> UpdateModel {
        UpdateModel {
            id: self.id@,
            text: match self.text {
                Some(t) => Some(t@),
                None => None,
            },
            kind: match self.kind {
                Some(k) => Some(k@),
                None => None,
            },
            children: match self.children {
                Some(cs) => Some(models_of(cs@)),
                None => None,
            },
        }
    }
}

/// The views of a sequence of patches.
pub open spec fn update_views(s: Seq<ElementUpdate>) -> Seq<UpdateModel> {
    Seq::new(s.len(), |i: int| s[i]@)
}

/// An element with some of its content replaced; the id never changes.
pub open spec fn spec_patched(
    e: ElemModel,
    text: Option<Seq<char>>,
    kind: Option<KindModel>,
    children: Option<Seq<ElemModel>>,
) -> ElemModel {
    ElemModel {
        kind: match kind {
            Some(k) => k,
            None => e.kind,
        },
        id: e.id,
        dataset_path: e.dataset_path,
        children: match children {
            Some(cs) => cs,
            None => e.children,
        },
        text: match text {
            Some(t) => t,
            None => e.text,
        },
    }
}

/// The tree with the subtree at `q` replaced by `sub`; unchanged when the
/// path leaves the tree.
pub open spec fn spec_replace(e: ElemModel, q: Seq<usize>, sub: ElemModel) -> ElemModel
    decreases q.len(),
{
    if q.len() == 0 {
        sub
    } else if (q[0] as int) < e.children.len() {
        ElemModel {
            children: e.children.update(
                q[0] as int,
                spec_replace(e.children[q[0] as int], q.skip(1), sub),
            ),
            ..e
        }
    } else {
        e
    }
}

/// After a replacement at `q`, the element at `q` is the replacement.
proof fn lemma_elem_at_replace(e: ElemModel, q: Seq<usize>, sub: ElemModel)
    requires
        elem_at(e, q) is Some,
    ensures
        elem_at(spec_replace(e, q, sub), q) == Some(sub),
    decreases q.len(),
{
    if q.len() == 0 {
    } else {
        let c = q[0] as int;
        lemma_elem_at_replace(e.children[c], q.skip(1), sub);
    }
}

/// Replacing a subtree with itself changes nothing.
proof fn lemma_replace_self(e: ElemModel, q: Seq<usize>)
    requires
        elem_at(e, q) is Some,
    ensures
        spec_replace(e, q, elem_at(e, q)->0) == e,
    decreases q.len(),
{
    if q.len() == 0 {
    } else {
        let c = q[0] as int;
        lemma_replace_self(e.children[c], q.skip(1));
        assert(e.children.update(c, e.children[c]) =~= e.children);
        assert(spec_replace(e, q, elem_at(e, q)->0) =~= e);
    }
}

/// Two replacements at the same path collapse into the second.
proof fn lemma_replace_twice(e: ElemModel, q: Seq<usize>, a: ElemModel, b: ElemModel)
    requires
        elem_at(e, q) is Some,
    ensures
        spec_replace(spec_replace(e, q, a), q, b) == spec_replace(e, q, b),
    decreases q.len(),
{
    if q.len() == 0 {
    } else {
        let c = q[0] as int;
        lemma_replace_twice(e.children[c], q.skip(1), a, b);
        let e1 = spec_replace(e, q, a);
        assert(e1.children.len() == e.children.len());
        assert(e1.children[c] == spec_replace(e.children[c], q.skip(1), a));
        assert(spec_replace(e1, q, b).children =~= spec_replace(e, q, b).children);
        assert(spec_replace(e1, q, b) =~= spec_replace(e, q, b));
    }
}

/// Index pairs look only at ids and children: two nodes agreeing there
/// have the same pairs.
proof fn lemma_pairs_children_same(a: ElemModel, b: ElemModel, prefix: Seq<usize>, i: int)
    requires
        a.children == b.children,
    ensures
        index_pairs_children(a, prefix, i) == index_pairs_children(b, prefix, i),
    decreases a.children.len() - i,
{
    if i < 0 || i >= a.children.len() {
    } else {
        lemma_pairs_children_same(a, b, prefix, i + 1);
    }
}

proof fn lemma_pairs_same_structure(a: ElemModel, b: ElemModel, prefix: Seq<usize>)
    requires
        a.id == b.id,
        a.children == b.children,
    ensures
        index_pairs(a, prefix) == index_pairs(b, prefix),
{
    lemma_pairs_children_same(a, b, prefix, 0);
}

/// Children pairs agree when the pairs of each child agree.
proof fn lemma_pairs_children_pointwise(a: ElemModel, b: ElemModel, prefix: Seq<usize>, i: int)
    requires
        a.children.len() == b.children.len(),
        forall|j: int|
            0 <= j < a.children.len() ==> index_pairs(
                #[trigger] a.children[j],
                prefix.push(j as usize),
            ) == index_pairs(b.children[j], prefix.push(j as usize)),
    ensures
        index_pairs_children(a, prefix, i) == index_pairs_children(b, prefix, i),
    decreases a.children.len() - i,
{
    if i < 0 || i >= a.children.len() {
    } else {
        lemma_pairs_children_pointwise(a, b, prefix, i + 1);
    }
}

/// Replacing a subtree with one of the same id and children keeps the
/// index pairs: leaf-content updates do not move the index.
proof fn lemma_pairs_replace(e: ElemModel, q: Seq<usize>, sub: ElemModel, prefix: Seq<usize>)
    requires
        elem_at(e, q) is Some,
        sub.id == elem_at(e, q)->0.id,
        sub.children == elem_at(e, q)->0.children,
    ensures
        index_pairs(spec_replace(e, q, sub), prefix) == index_pairs(e, prefix),
    decreases q.len(),
{
    if q.len() == 0 {
        lemma_pairs_same_structure(sub, e, prefix);
    } else {
        let c = q[0] as int;
        lemma_pairs_replace(e.children[c], q.skip(1), sub, prefix.push(q[0]));
        let e2 = spec_replace(e, q, sub);
        assert(e2.children.len() == e.children.len());
        assert forall|j: int| 0 <= j < e2.children.len() implies index_pairs(
            #[trigger] e2.children[j],
            prefix.push(j as usize),
        ) == index_pairs(e.children[j], prefix.push(j as usize)) by {
            if j == c {
                assert(e2.children[j] == spec_replace(e.children[c], q.skip(1), sub));
                assert(prefix.push(j as usize) == prefix.push(q[0]));
            } else {
                assert(e2.children[j] == e.children[j]);
            }
        }
        lemma_pairs_children_pointwise(e2, e, prefix, 0);
        assert(e2.id == e.id);
    }
}

/// LAW (id uniqueness): in a tree whose index pairs carry no duplicate
/// id, no two distinct paths lead to elements with the same id.
pub proof fn lemma_id_unique(root: ElemModel, q1: Seq<usize>, q2: Seq<usize>)
    requires
        unique_ids(index_pairs(root, Seq::empty())),
        elem_at(root, q1) is Some,
        elem_at(root, q2) is Some,
        elem_at(root, q1)->0.id is Some,
        elem_at(root, q1)->0.id == elem_at(root, q2)->0.id,
    ensures
        q1 == q2,
{
    lemma_pairs_complete(root, Seq::empty(), q1);
    lemma_pairs_complete(root, Seq::empty(), q2);
    let pairs = index_pairs(root, Seq::empty());
    let s = elem_at(root, q1)->0.id->0;
    let k1 = choose|k: int| 0 <= k < pairs.len() && #[trigger] pairs[k] == (s, Seq::empty() + q1);
    let k2 = choose|k: int| 0 <= k < pairs.len() && #[trigger] pairs[k] == (s, Seq::empty() + q2);
    if k1 != k2 {
        assert(pairs[k1].0 != pairs[k2].0);
        assert(false);
    }
    assert(Seq::empty() + q1 =~= q1);
    assert(Seq::empty() + q2 =~= q2);
}

/// LAW (id uniqueness, page form): within a well-formed page no two
/// elements share an id.
pub proof fn lemma_page_id_unique(p: Page, q1: Seq<usize>, q2: Seq<usize>)
    requires
        p.wf(),
        elem_at(p.spec_root(), q1) is Some,
        elem_at(p.spec_root(), q2) is Some,
        elem_at(p.spec_root(), q1)->0.id is Some,
        elem_at(p.spec_root(), q1)->0.id == elem_at(p.spec_root(), q2)->0.id,
    ensures
        q1 == q2,
{
    lemma_id_unique(p.spec_root(), q1, q2);
}

/// The tree after one patch is applied at the (unique) path of its
/// target. A subtree replacement that would give two elements the same id
/// drops the whole patch; the guard looks only at ids, which text and
/// kind changes cannot affect.
pub open spec fn spec_patch_at(root: ElemModel, q: Seq<usize>, u: UpdateModel) -> ElemModel {
    let e = elem_at(root, q)->0;
    if u.children is Some && !unique_ids(
        index_pairs(spec_replace(root, q, spec_patched(e, None, None, u.children)), Seq::empty()),
    ) {
        root
    } else {
        spec_replace(root, q, spec_patched(e, u.text, u.kind, u.children))
    }
}

/// Whether some element of the tree carries the id.
pub open spec fn has_elem_with_id(root: ElemModel, id: Seq<char>) -> bool {
    exists|q: Seq<usize>|
        elem_at(root, q) is Some && (#[trigger] elem_at(root, q))->0.id == Some(id)
}

/// The path of the element carrying the id, where one exists. Under id
/// uniqueness it is the only such path.
pub open spec fn target_path(root: ElemModel, id: Seq<char>) -> Option<Seq<usize>> {
    if has_elem_with_id(root, id) {
        Some(
            choose|q: Seq<usize>|
                elem_at(root, q) is Some && (#[trigger] elem_at(root, q))->0.id == Some(id),
        )
    } else {
        None
    }
}

/// One patch applied to a tree: dropped silently when no element carries
/// its id, acting at the target's path otherwise.
pub open spec fn apply_patch(root: ElemModel, u: UpdateModel) -> ElemModel {
    match target_path(root, u.id) {
        Some(q) => spec_patch_at(root, q, u),
        None => root,
    }
}

/// The first `i` patches applied in order.
pub open spec fn apply_patches(root: ElemModel, us: Seq<UpdateModel>, i: int) -> ElemModel
    decreases i,
{
    if i <= 0 {
        root
    } else {
        apply_patch(apply_patches(root, us, i - 1), us[i - 1])
    }
}

/// The view of an optional owned string.
pub open spec fn opt_string_v(o: Option<String>) -> Option<Seq<char>> {
    match o {
        Some(s) => Some(s@),
        None => None,
    }
}

/// The view of an optional element kind.
pub open spec fn opt_kind_v(o: Option<ElementKind>) -> Option<KindModel> {
    match o {
        Some(k) => Some(k@),
        None => None,
    }
}

/// Replaces the children of the element at the path by `new_children`,
/// returning the children it had.
fn swap_children_at(e: &mut Element, path: &Vec<usize>, i: usize, new_children: Vec<Element>) -> (r:
    Vec<Element>)
    requires
        i <= path@.len(),
        elem_at(old(e)@, path@.skip(i as int)) is Some,
    ensures
        final(e)@ == spec_replace(
            old(e)@,
            path@.skip(i as int),
            spec_patched(
                elem_at(old(e)@, path@.skip(i as int))->0,
                None,
                None,
                Some(models_of(new_children@)),
            ),
        ),
        models_of(r@) == elem_at(old(e)@, path@.skip(i as int))->0.children,
    decreases path@.len() - i,
{
    if i == path.len() {
        proof {
            assert(path@.skip(i as int) =~= Seq::<usize>::empty());
        }
        let mut tmp = new_children;
        core::mem::swap(&mut e.children, &mut tmp);
        proof {
            assert(e@ =~= spec_patched(old(e)@, None, None, Some(models_of(e.children@))));
        }
        tmp
    } else {
        let ghost q = path@.skip(i as int);
        proof {
            assert(q[0] == path@[i as int]);
            assert(q.skip(1) =~= path@.skip(i + 1 as int));
        }
        let c = path[i];
        assert(c < e.children.len());
        let ghost before_children = e.children@;
        let mut child = e.children.remove(c);
        let r = swap_children_at(&mut child, path, i + 1, new_children);
        e.children.insert(c, child);
        proof {
            assert(e.children@ =~= before_children.update(c as int, e.children@[c as int]));
            assert(e@.children =~= old(e)@.children.update(c as int, e.children@[c as int]@));
            assert(e@ =~= spec_replace(
                old(e)@,
                q,
                spec_patched(elem_at(old(e)@, q)->0, None, None, Some(models_of(new_children@))),
            ));
        }
        r
    }
}

/// Sets the text and kind of the element at the path, leaving its id,
/// dataset binding and children alone.
fn set_fields_at(
    e: &mut Element,
    path: &Vec<usize>,
    i: usize,
    text: Option<String>,
    kind: Option<ElementKind>,
)
    requires
        i <= path@.len(),
        elem_at(old(e)@, path@.skip(i as int)) is Some,
    ensures
        final(e)@ == spec_replace(
            old(e)@,
            path@.skip(i as int),
            spec_patched(
                elem_at(old(e)@, path@.skip(i as int))->0,
                opt_string_v(text),
                opt_kind_v(kind),
                None,
            ),
        ),
    decreases path@.len() - i,
{
    if i == path.len() {
        proof {
            assert(path@.skip(i as int) =~= Seq::<usize>::empty());
        }
        match text {
            Some(t) => {
                e.text = t;
            },
            None => {},
        }
        match kind {
            Some(k) => {
                e.kind = k;
            },
            None => {},
        }
        proof {
            assert(e@ =~= spec_patched(old(e)@, opt_string_v(text), opt_kind_v(kind), None));
        }
    } else {
        let ghost q = path@.skip(i as int);
        proof {
            assert(q[0] == path@[i as int]);
            assert(q.skip(1) =~= path@.skip(i + 1 as int));
        }
        let c = path[i];
        assert(c < e.children.len());
        let ghost before_children = e.children@;
        let mut child = e.children.remove(c);
        set_fields_at(&mut child, path, i + 1, text, kind);
        e.children.insert(c, child);
        proof {
            assert(e.children@ =~= before_children.update(c as int, e.children@[c as int]));
            assert(e@.children =~= old(e)@.children.update(c as int, e.children@[c as int]@));
            assert(e@ =~= spec_replace(
                old(e)@,
                q,
                spec_patched(
                    elem_at(old(e)@, q)->0,
                    opt_string_v(text),
                    opt_kind_v(kind),
                    None,
                ),
            ));
        }
    }
}

impl Page {
    /// Applies id-addressed patches in order. A patch addressing an
    /// unknown id is dropped silently; a patch never changes an id; a
    /// subtree replacement that would give two elements the same id is
    /// dropped whole. The index is rebuilt when a patch changes the
    /// tree's shape, and left alone on leaf-content updates.
    pub fn apply_changes(&mut self, patches: Vec<ElementUpdate>)
        requires
            old(self).wf(),
        ensures
            final(self).wf(),
            final(self).spec_id() == old(self).spec_id(),
            final(self).spec_name() == old(self).spec_name(),
            final(self).spec_root() == apply_patches(
                old(self).spec_root(),
                update_views(patches@),
                patches@.len() as int,
            ),
    {
        let ghost us = update_views(patches@);
        let mut ps = patches;
        let n = ps.len();
        let mut k: usize = 0;
        while k < n
            invariant
                n == patches@.len(),
                0 <= k <= n,
                ps@ == patches@.skip(k as int),
                us == update_views(patches@),
                self.wf(),
                self.id@ == old(self).spec_id(),
                self.name@ == old(self).spec_name(),
                self.root@ == apply_patches(old(self).spec_root(), us, k as int),
            decreases n - k,
        {
            proof {
                assert(ps@[0] == patches@[k as int]);
            }
            let ghost ps_before = ps@;
            let p = ps.remove(0);
            proof {
                assert(ps@ =~= patches@.skip(k + 1 as int));
            }
            let ghost u = p@;
            proof {
                assert(u == us[k as int]);
            }
            let ghost mid = self.root@;
            match self.get_path(&p.id) {
                None => {
                    proof {
                        if has_elem_with_id(mid, u.id) {
                            let qc = choose|q: Seq<usize>|
                                elem_at(mid, q) is Some && (#[trigger] elem_at(mid, q))->0.id
                                    == Some(u.id);
                            assert(false);
                        }
                        assert(apply_patch(mid, u) == mid);
                    }
                },
                Some(path) => {
                    let ghost qq = path@;
                    let ghost e0 = elem_at(mid, qq)->0;
                    let ElementUpdate { id: _, text, kind, children } = p;
                    let ghost text_v = opt_string_v(text);
                    let ghost kind_v = opt_kind_v(kind);
                    let mut kept = true;
                    match children {
                        Some(cs) => {
                            let ghost cs_models = models_of(cs@);
                            let ghost a = spec_patched(e0, None, None, Some(cs_models));
                            proof {
                                assert(path@.skip(0) =~= path@);
                            }
                            let old_children = swap_children_at(&mut self.root, &path, 0, cs);
                            let ghost tree1 = self.root@;
                            proof {
                                assert(tree1 == spec_replace(mid, qq, a));
                                lemma_elem_at_replace(mid, qq, a);
                            }
                            let new_index = build_index(&self.root);
                            if check_unique(&new_index) {
                                self.index = new_index;
                            } else {
                                proof {
                                    assert(path@.skip(0) =~= path@);
                                }
                                let _ = swap_children_at(&mut self.root, &path, 0, old_children);
                                kept = false;
                                proof {
                                    let b = spec_patched(
                                        a,
                                        None,
                                        None,
                                        Some(models_of(old_children@)),
                                    );
                                    assert(b =~= e0);
                                    lemma_replace_twice(mid, qq, a, e0);
                                    lemma_replace_self(mid, qq);
                                    assert(self.root@ == mid);
                                }
                            }
                        },
                        None => {},
                    }
                    if kept {
                        let ghost before_fields = self.root@;
                        let ghost a1 = elem_at(before_fields, qq)->0;
                        proof {
                            assert(path@.skip(0) =~= path@);
                            if u.children is Some {
                            } else {
                                assert(before_fields == mid);
                                assert(a1 == e0);
                            }
                        }
                        set_fields_at(&mut self.root, &path, 0, text, kind);
                        proof {
                            assert(self.root@ == spec_replace(
                                before_fields,
                                qq,
                                spec_patched(a1, text_v, kind_v, None),
                            ));
                            lemma_pairs_replace(
                                before_fields,
                                qq,
                                spec_patched(a1, text_v, kind_v, None),
                                Seq::empty(),
                            );
                            if u.children is Some {
                                let a = spec_patched(e0, None, None, u.children);
                                assert(before_fields == spec_replace(mid, qq, a));
                                assert(a1 == a);
                                lemma_replace_twice(mid, qq, a, spec_patched(a1, text_v, kind_v, None));
                                assert(spec_patched(a, text_v, kind_v, None) =~= spec_patched(
                                    e0,
                                    u.text,
                                    u.kind,
                                    u.children,
                                ));
                                assert(self.root@ == spec_replace(
                                    mid,
                                    qq,
                                    spec_patched(e0, u.text, u.kind, u.children),
                                ));
                            } else {
                                assert(spec_patched(a1, text_v, kind_v, None) =~= spec_patched(
                                    e0,
                                    u.text,
                                    u.kind,
                                    u.children,
                                ));
                                assert(self.root@ == spec_replace(
                                    mid,
                                    qq,
                                    spec_patched(e0, u.text, u.kind, u.children),
                                ));
                            }
                        }
                    }
                    proof {
                        assert(elem_at(mid, qq) is Some && elem_at(mid, qq)->0.id == Some(u.id));
                        assert(has_elem_with_id(mid, u.id));
                        let qc = choose|q2: Seq<usize>|
                            elem_at(mid, q2) is Some && (#[trigger] elem_at(mid, q2))->0.id
                                == Some(u.id);
                        lemma_id_unique(mid, qq, qc);
                        assert(target_path(mid, u.id) == Some(qq));
                        assert(self.root@ == spec_patch_at(mid, qq, u));
                        assert(apply_patch(mid, u) == self.root@);
                    }
                },
            }
            proof {
                let i1: int = k as int + 1;
                assert(apply_patches(old(self).spec_root(), us, i1 - 1) == mid);
                assert(apply_patch(mid, us[i1 - 1]) == self.root@);
                assert(apply_patches(old(self).spec_root(), us, i1) == self.root@);
            }
            k += 1;
        }
    }
}

/// LAW (round-trip patch): a patch that sets its target's text to a value
/// leaves an element at the same path whose text is that value and whose
/// id is unchanged: patches replace content, never identity.
pub proof fn lemma_patch_round_trip(root: ElemModel, q: Seq<usize>, u: UpdateModel)
    requires
        unique_ids(index_pairs(root, Seq::empty())),
        elem_at(root, q) is Some,
        elem_at(root, q)->0.id == Some(u.id),
        u.text is Some,
        u.kind is None,
        u.children is None,
    ensures
        elem_at(apply_patch(root, u), q) is Some,
        elem_at(apply_patch(root, u), q)->0.text == u.text->0,
        elem_at(apply_patch(root, u), q)->0.id == elem_at(root, q)->0.id,
{
    assert(has_elem_with_id(root, u.id));
    let qc = choose|q2: Seq<usize>|
        elem_at(root, q2) is Some && (#[trigger] elem_at(root, q2))->0.id == Some(u.id);
    lemma_id_unique(root, q, qc);
    assert(target_path(root, u.id) == Some(q));
    let e = elem_at(root, q)->0;
    let sub = spec_patched(e, u.text, u.kind, u.children);
    assert(apply_patch(root, u) == spec_replace(root, q, sub));
    lemma_elem_at_replace(root, q, sub);
}

} // verus!
