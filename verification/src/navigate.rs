//! The navigation engine: computing the next focus from the element
//! tree, the dataset store, the current focus state, and a direction.
//!
//! Containers constrain axes: `Rows` answers only `Up`/`Down`, `Columns`
//! only `Left`/`Right`. A dataset-bound node stands for one instance of
//! its child list per row of the bound dataset; sibling search walks
//! those instances in row-major order, while entry into a candidate
//! subtree always chooses row 0. `Grid` is unimplemented: any attempt to
//! enter or search within one fails explicitly.

use vstd::prelude::*;

use crate::dataset::{opt_row_view, DatasetData, DatasetStore};
use crate::element::{
    elem_at, lemma_view_children, model_wf, opt_row_v, spec_resolve_kind, spec_selectable,
    ElemModel, Element, ElementKind, KindModel, Row,
};

verus! {

broadcast use lemma_view_children;

/// The direction of a focus-movement request.
#[derive(Clone, Copy, Debug)]
pub enum SelectDirection {
    Up,
    Down,
    Left,
    Right,
}

/// Navigation met a `Grid` container, which is declared but
/// unimplemented: traversal fails explicitly rather than mis-navigate.
#[derive(Clone, Copy, Debug)]
pub enum NavError {
    GridUnsupported,
}

/// A focus found by the search: the element's id, the dataset-row
/// indices fixed on the way (root to leaf order), and the row in scope.
#[verifier::ext_equal]
pub struct FocusHit {
    pub id: Seq<char>,
    pub tail: Seq<usize>,
    pub datum: Option<Row>,
}

/// The outcome of entering a subtree or scanning siblings.
#[verifier::ext_equal]
pub enum NavFind {
    Found(FocusHit),
    NotFound,
    Unsupported,
}

/// The outcome of replaying the focus path and searching the ancestors.
#[verifier::ext_equal]
pub enum ReplayFind {
    Stale,
    Still,
    Moved(FocusHit),
    Unsupported,
}

/// Prepends a chosen dataset-row index to a found focus.
pub open spec fn nav_prepend(r: usize, nf: NavFind) -> NavFind {
    match nf {
        NavFind::Found(hit) => NavFind::Found(
            FocusHit { id: hit.id, tail: seq![r] + hit.tail, datum: hit.datum },
        ),
        _ => nf,
    }
}

/// The dataset rows bound to an element, if it is bound and they exist.
pub open spec fn bound_rows(e: ElemModel, store: DatasetStore) -> Option<Seq<DatasetData>> {
    match e.dataset_path {
        Some(p) => store.spec_rows(p),
        None => None,
    }
}

/// Entry into a candidate subtree: containers descend in entry order
/// (reversed only for `Columns` entered leftward, always forward for
/// `Rows`), a dataset-bound container always chooses row 0, and a leaf
/// is a hit exactly when it is selectable, does not resolve to
/// `Nothing`, and carries an id.
pub open spec fn spec_enter(
    e: ElemModel,
    datum: Option<Row>,
    store: DatasetStore,
    dir: SelectDirection,
) -> NavFind
    decreases e, e.children.len() + 2,
{
    match e.kind {
        KindModel::Rows | KindModel::Columns => {
            if e.dataset_path is Some {
                match bound_rows(e, store) {
                    Some(rows) => if rows.len() > 0 {
                        nav_prepend(0, enter_kids(e, Some(rows[0]@), store, dir))
                    } else {
                        NavFind::NotFound
                    },
                    None => NavFind::NotFound,
                }
            } else {
                enter_kids(e, datum, store, dir)
            }
        },
        KindModel::Grid(_, _) => NavFind::Unsupported,
        _ => {
            if spec_selectable(e) && !(spec_resolve_kind(e.kind, datum) is Nothing) && e.id
                is Some {
                NavFind::Found(FocusHit { id: e.id->0, tail: Seq::empty(), datum })
            } else {
                NavFind::NotFound
            }
        },
    }
}

/// The order in which a container's children are tried on entry.
pub open spec fn enter_kids(
    e: ElemModel,
    datum: Option<Row>,
    store: DatasetStore,
    dir: SelectDirection,
) -> NavFind
    decreases e, e.children.len() + 1,
{
    if e.kind is Columns && dir is Left {
        enter_scan_rev(e, datum, store, dir, e.children.len() - 1)
    } else {
        enter_scan_fwd(e, datum, store, dir, 0)
    }
}

/// Forward entry scan over children `i` onward: the first child that
/// yields a hit wins; an unimplemented container fails the whole entry.
pub open spec fn enter_scan_fwd(
    e: ElemModel,
    datum: Option<Row>,
    store: DatasetStore,
    dir: SelectDirection,
    i: int,
) -> NavFind
    decreases e, e.children.len() - i,
{
    if i < 0 || i >= e.children.len() {
        NavFind::NotFound
    } else {
        match spec_enter(e.children[i], datum, store, dir) {
            NavFind::NotFound => enter_scan_fwd(e, datum, store, dir, i + 1),
            other => other,
        }
    }
}

/// Backward entry scan over children `i` downward.
pub open spec fn enter_scan_rev(
    e: ElemModel,
    datum: Option<Row>,
    store: DatasetStore,
    dir: SelectDirection,
    i: int,
) -> NavFind
    decreases e, i + 1,
{
    if i < 0 || i >= e.children.len() {
        NavFind::NotFound
    } else {
        match spec_enter(e.children[i], datum, store, dir) {
            NavFind::NotFound => enter_scan_rev(e, datum, store, dir, i - 1),
            other => other,
        }
    }
}

/// How many sibling instances an element offers: one per child, times
/// one per dataset row when the element is bound (none when the bound
/// dataset is missing).
pub open spec fn expanded_count(e: ElemModel, store: DatasetStore) -> int {
    match e.dataset_path {
        Some(p) => match store.spec_rows(p) {
            Some(rows) => rows.len() * e.children.len() as int,
            None => 0,
        },
        None => e.children.len() as int,
    }
}

/// The instance at expanded position `k`: the chosen row index (where
/// bound), the child element, and the row in scope for it.
pub open spec fn expanded_entry(
    e: ElemModel,
    store: DatasetStore,
    datum: Option<Row>,
    k: int,
) -> (Option<usize>, ElemModel, Option<Row>) {
    match e.dataset_path {
        Some(p) => {
            let rows = store.spec_rows(p)->0;
            let clen = e.children.len() as int;
            let r = k / clen;
            let c = k % clen;
            (Some(r as usize), e.children[c], Some(rows[r]@))
        },
        None => (None, e.children[k], datum),
    }
}

/// Forward sibling scan from expanded position `k` on: each candidate is
/// entered; a hit is extended with the candidate's row index.
pub open spec fn search_fwd(
    e: ElemModel,
    datum: Option<Row>,
    store: DatasetStore,
    dir: SelectDirection,
    k: int,
) -> NavFind
    decreases expanded_count(e, store) - k,
{
    if k < 0 || k >= expanded_count(e, store) {
        NavFind::NotFound
    } else {
        let (ri, child, d) = expanded_entry(e, store, datum, k);
        match spec_enter(child, d, store, dir) {
            NavFind::NotFound => search_fwd(e, datum, store, dir, k + 1),
            NavFind::Found(hit) => match ri {
                Some(r) => nav_prepend(r, NavFind::Found(hit)),
                None => NavFind::Found(hit),
            },
            NavFind::Unsupported => NavFind::Unsupported,
        }
    }
}

/// Backward sibling scan from expanded position `k` down.
pub open spec fn search_rev(
    e: ElemModel,
    datum: Option<Row>,
    store: DatasetStore,
    dir: SelectDirection,
    k: int,
) -> NavFind
    decreases k + 1,
{
    if k < 0 || k >= expanded_count(e, store) {
        NavFind::NotFound
    } else {
        let (ri, child, d) = expanded_entry(e, store, datum, k);
        match spec_enter(child, d, store, dir) {
            NavFind::NotFound => search_rev(e, datum, store, dir, k - 1),
            NavFind::Found(hit) => match ri {
                Some(r) => nav_prepend(r, NavFind::Found(hit)),
                None => NavFind::Found(hit),
            },
            NavFind::Unsupported => NavFind::Unsupported,
        }
    }
}

/// The sibling search at one ancestor: only the matching axis answers,
/// backward from the current instance for `Up`/`Left`, forward for
/// `Down`/`Right`; an ancestor on the orthogonal axis yields nothing,
/// letting the search continue further up.
pub open spec fn spec_sibling_search(
    e: ElemModel,
    index: int,
    datum: Option<Row>,
    store: DatasetStore,
    dir: SelectDirection,
) -> NavFind {
    match e.kind {
        KindModel::Columns => match dir {
            SelectDirection::Left => search_rev(e, datum, store, dir, index - 1),
            SelectDirection::Right => search_fwd(e, datum, store, dir, index + 1),
            _ => NavFind::NotFound,
        },
        KindModel::Rows => match dir {
            SelectDirection::Up => search_rev(e, datum, store, dir, index - 1),
            SelectDirection::Down => search_fwd(e, datum, store, dir, index + 1),
            _ => NavFind::NotFound,
        },
        KindModel::Grid(_, _) => NavFind::Unsupported,
        _ => NavFind::NotFound,
    }
}

/// Combines what the levels below an ancestor produced with the sibling
/// search at the ancestor itself: a move below gets the row consumed at
/// this level prepended; a level that stands still lets this ancestor
/// search its own siblings, closest ancestor first.
pub open spec fn step_level(
    e: ElemModel,
    store: DatasetStore,
    idx: int,
    datum: Option<Row>,
    dir: SelectDirection,
    below: ReplayFind,
    consumed: Option<usize>,
) -> ReplayFind {
    match below {
        ReplayFind::Stale => ReplayFind::Stale,
        ReplayFind::Unsupported => ReplayFind::Unsupported,
        ReplayFind::Moved(hit) => ReplayFind::Moved(
            FocusHit {
                id: hit.id,
                tail: match consumed {
                    Some(r) => seq![r] + hit.tail,
                    None => hit.tail,
                },
                datum: hit.datum,
            },
        ),
        ReplayFind::Still => match spec_sibling_search(e, idx, datum, store, dir) {
            NavFind::Found(hit) => ReplayFind::Moved(hit),
            NavFind::NotFound => ReplayFind::Still,
            NavFind::Unsupported => ReplayFind::Unsupported,
        },
    }
}

/// Replays the stored tree path top down, consuming one stored
/// dataset-row index at each bound ancestor to reconstruct the exact
/// data context the focus was created under, then searches the
/// ancestors, closest first. A path that no longer fits the tree or the
/// data (missing child, missing dataset, exhausted or out-of-range row
/// index) is stale: the caller re-derives the focus from scratch.
pub open spec fn spec_replay_scan(
    e: ElemModel,
    store: DatasetStore,
    path: Seq<usize>,
    dsi: Seq<usize>,
    datum: Option<Row>,
    dir: SelectDirection,
) -> ReplayFind
    decreases path.len(),
{
    if path.len() == 0 {
        ReplayFind::Still
    } else {
        let c = path[0] as int;
        if c >= e.children.len() {
            ReplayFind::Stale
        } else {
            match e.dataset_path {
                Some(p) => {
                    if dsi.len() == 0 {
                        ReplayFind::Stale
                    } else {
                        match store.spec_rows(p) {
                            None => ReplayFind::Stale,
                            Some(rows) => {
                                let r = dsi[0] as int;
                                if r >= rows.len() {
                                    ReplayFind::Stale
                                } else {
                                    let idx = r * e.children.len() + c;
                                    step_level(
                                        e,
                                        store,
                                        idx,
                                        datum,
                                        dir,
                                        spec_replay_scan(
                                            e.children[c],
                                            store,
                                            path.skip(1),
                                            dsi.skip(1),
                                            Some(rows[r]@),
                                            dir,
                                        ),
                                        Some(dsi[0]),
                                    )
                                }
                            },
                        }
                    }
                },
                None => step_level(
                    e,
                    store,
                    c,
                    datum,
                    dir,
                    spec_replay_scan(e.children[c], store, path.skip(1), dsi, datum, dir),
                    None,
                ),
            }
        }
    }
}

/// The first descent with no current focus: always child 0, recording
/// row 0 at every dataset-bound node, until a leaf; the leaf becomes the
/// focus exactly when it resolves to a selectable kind and carries an
/// id.
pub open spec fn spec_descend(e: ElemModel, store: DatasetStore, datum: Option<Row>) -> NavFind
    decreases e,
{
    if e.kind is Grid {
        NavFind::Unsupported
    } else if e.children.len() == 0 {
        if spec_selectable(e) && !(spec_resolve_kind(e.kind, datum) is Nothing) && e.id is Some {
            NavFind::Found(FocusHit { id: e.id->0, tail: Seq::empty(), datum })
        } else {
            NavFind::NotFound
        }
    } else {
        let d2 = if e.dataset_path is Some {
            match bound_rows(e, store) {
                Some(rows) => if rows.len() > 0 {
                    Some(rows[0]@)
                } else {
                    None
                },
                None => None,
            }
        } else {
            datum
        };
        let below = spec_descend(e.children[0], store, d2);
        if e.dataset_path is Some {
            nav_prepend(0, below)
        } else {
            below
        }
    }
}

/// The outcome of the replay-and-scan pass, as executable data.
pub enum ReplayStep {
    Stale,
    Still,
    Moved(String, Vec<usize>, Option<DatasetData>),
}

/// Enters a candidate subtree, mirroring `spec_enter`.
fn enter(
    e: &Element,
    datum: Option<&DatasetData>,
    store: &DatasetStore,
    dir: SelectDirection,
) -> (r: Result<Option<(String, Vec<usize>, Option<DatasetData>)>, NavError>)
    ensures
        ({
            let nf = spec_enter(e@, opt_row_v(datum), *store, dir);
            match r {
                Ok(Some(t)) => nf == NavFind::Found(
                    FocusHit { id: t.0@, tail: t.1@, datum: opt_row_view(t.2) },
                ),
                Ok(None) => nf is NotFound,
                Err(_) => nf is Unsupported,
            }
        }),
    decreases *e, 1int,
{
    match &e.kind {
        ElementKind::Rows | ElementKind::Columns => {
            match &e.dataset_path {
                Some(p) => {
                    match store.get_rows(p) {
                        Some(rows) => {
                            if rows.len() > 0 {
                                let sub = enter_children(e, Some(&rows[0]), store, dir);
                                match sub {
                                    Ok(Some((id, tail, dmv))) => {
                                        let mut t2: Vec<usize> = Vec::new();
                                        t2.push(0);
                                        let mut tail2 = tail;
                                        t2.append(&mut tail2);
                                        proof {
                                            assert(t2@ =~= seq![0usize] + t2@.skip(1));
                                        }
                                        Ok(Some((id, t2, dmv)))
                                    },
                                    Ok(None) => Ok(None),
                                    Err(err) => Err(err),
                                }
                            } else {
                                Ok(None)
                            }
                        },
                        None => Ok(None),
                    }
                },
                None => enter_children(e, datum, store, dir),
            }
        },
        ElementKind::Grid(_, _) => Err(NavError::GridUnsupported),
        _ => {
            if e.selectable() && !e.resolves_to_nothing(datum) {
                match &e.id {
                    Some(id) => {
                        let dmv = match datum {
                            Some(d) => Some(d.duplicate()),
                            None => None,
                        };
                        Ok(Some((id.clone(), Vec::new(), dmv)))
                    },
                    None => Ok(None),
                }
            } else {
                Ok(None)
            }
        },
    }
}

/// Scans a container's children in entry order, mirroring `enter_kids`.
fn enter_children(
    e: &Element,
    datum: Option<&DatasetData>,
    store: &DatasetStore,
    dir: SelectDirection,
) -> (r: Result<Option<(String, Vec<usize>, Option<DatasetData>)>, NavError>)
    ensures
        ({
            let nf = enter_kids(e@, opt_row_v(datum), *store, dir);
            match r {
                Ok(Some(t)) => nf == NavFind::Found(
                    FocusHit { id: t.0@, tail: t.1@, datum: opt_row_view(t.2) },
                ),
                Ok(None) => nf is NotFound,
                Err(_) => nf is Unsupported,
            }
        }),
    decreases *e, 0int,
{
    let n = e.children.len();
    let rev = matches!(e.kind, ElementKind::Columns) && matches!(dir, SelectDirection::Left);
    if rev {
        let mut i = n;
        while i > 0
            invariant
                n == e.children@.len(),
                0 <= i <= n,
                enter_scan_rev(e@, opt_row_v(datum), *store, dir, n - 1) == enter_scan_rev(
                    e@,
                    opt_row_v(datum),
                    *store,
                    dir,
                    i as int - 1,
                ),
                matches!(e.kind, ElementKind::Columns) && matches!(dir, SelectDirection::Left),
            decreases i,
        {
            i = i - 1;
            let sub = enter(&e.children[i], datum, store, dir);
            proof {
                assert(e@.children[i as int] == e.children@[i as int]@);
            }
            match sub {
                Ok(Some(t)) => {
                    return Ok(Some(t));
                },
                Ok(None) => {},
                Err(err) => {
                    return Err(err);
                },
            }
        }
        proof {
            assert(enter_scan_rev(e@, opt_row_v(datum), *store, dir, -1) is NotFound);
        }
        Ok(None)
    } else {
        let mut i: usize = 0;
        while i < n
            invariant
                n == e.children@.len(),
                0 <= i <= n,
                enter_scan_fwd(e@, opt_row_v(datum), *store, dir, 0) == enter_scan_fwd(
                    e@,
                    opt_row_v(datum),
                    *store,
                    dir,
                    i as int,
                ),
                !(e@.kind is Columns && dir is Left),
            decreases n - i,
        {
            let sub = enter(&e.children[i], datum, store, dir);
            proof {
                assert(e@.children[i as int] == e.children@[i as int]@);
            }
            match sub {
                Ok(Some(t)) => {
                    return Ok(Some(t));
                },
                Ok(None) => {},
                Err(err) => {
                    return Err(err);
                },
            }
            i = i + 1;
        }
        proof {
            assert(enter_scan_fwd(e@, opt_row_v(datum), *store, dir, n as int) is NotFound);
        }
        Ok(None)
    }
}

/// Searches an ancestor's sibling instances from the current expanded
/// position in the requested direction, mirroring `spec_sibling_search`.
fn sibling_search(
    e: &Element,
    index: u128,
    datum: Option<&DatasetData>,
    store: &DatasetStore,
    dir: SelectDirection,
) -> (r: Result<Option<(String, Vec<usize>, Option<DatasetData>)>, NavError>)
    requires
        (index as int) < expanded_count(e@, *store),
    ensures
        ({
            let nf = spec_sibling_search(e@, index as int, opt_row_v(datum), *store, dir);
            match r {
                Ok(Some(t)) => nf == NavFind::Found(
                    FocusHit { id: t.0@, tail: t.1@, datum: opt_row_view(t.2) },
                ),
                Ok(None) => nf is NotFound,
                Err(_) => nf is Unsupported,
            }
        }),
{
    let fwd: bool;
    match &e.kind {
        ElementKind::Columns => {
            match dir {
                SelectDirection::Left => {
                    fwd = false;
                },
                SelectDirection::Right => {
                    fwd = true;
                },
                _ => {
                    return Ok(None);
                },
            }
        },
        ElementKind::Rows => {
            match dir {
                SelectDirection::Up => {
                    fwd = false;
                },
                SelectDirection::Down => {
                    fwd = true;
                },
                _ => {
                    return Ok(None);
                },
            }
        },
        ElementKind::Grid(_, _) => {
            return Err(NavError::GridUnsupported);
        },
        _ => {
            return Ok(None);
        },
    }
    let total = count_expanded(e, store);
    assert(index < total);
    if fwd {
        search_forward(e, index + 1, datum, store, dir)
    } else {
        search_backward(e, index, datum, store, dir)
    }
}

/// The expanded instance count, as executable arithmetic.
pub(crate) fn count_expanded(e: &Element, store: &DatasetStore) -> (r: u128)
    ensures
        r as int == expanded_count(e@, *store),
{
    let clen = e.children.len();
    match &e.dataset_path {
        Some(p) => {
            match store.get_rows(p) {
                Some(rows) => {
                    let rl = rows.len();
                    proof {
                        assert(rl <= u64::MAX);
                        assert(clen <= u64::MAX);
                        assert((rl as int) * (clen as int) <= u128::MAX) by (nonlinear_arith)
                            requires
                                rl <= u64::MAX,
                                clen <= u64::MAX,
                                u64::MAX * u64::MAX + 2 * u64::MAX == u128::MAX,
                        ;
                    }
                    (rl as u128) * (clen as u128)
                },
                None => 0,
            }
        },
        None => clen as u128,
    }
}

/// The instance at expanded position `k`, as executable data.
pub(crate) fn entry_at<'a>(
    e: &'a Element,
    store: &'a DatasetStore,
    datum: Option<&'a DatasetData>,
    k: u128,
) -> (r: (Option<usize>, &'a Element, Option<&'a DatasetData>))
    requires
        (k as int) < expanded_count(e@, *store),
    ensures
        ({
            let (ri, child, d) = expanded_entry(e@, *store, opt_row_v(datum), k as int);
            r.0 == ri && r.1@ == child && opt_row_v(r.2) == d
        }),
        exists|ci: int| 0 <= ci < e.children@.len() && *(r.1) == #[trigger] e.children@[ci],
{
    let clen = e.children.len();
    match &e.dataset_path {
        Some(p) => {
            match store.get_rows(p) {
                Some(rows) => {
                    proof {
                        assert(e@.dataset_path == Some(p@));
                        assert(store.spec_rows(p@) == Some(rows@));
                        assert(e@.children.len() == clen as int);
                        assert(expanded_count(e@, *store) == rows@.len() * (clen as int));
                        assert((k as int) < rows@.len() * (clen as int));
                        assert(clen > 0) by (nonlinear_arith)
                            requires
                                (k as int) < rows@.len() * (clen as int),
                                k >= 0,
                        ;
                    }
                    let rr = k / (clen as u128);
                    let cc = k % (clen as u128);
                    proof {
                        assert(rr as int == k as int / (clen as int));
                        assert(cc as int == k as int % (clen as int));
                        assert(rr < rows@.len() && cc < clen) by (nonlinear_arith)
                            requires
                                clen > 0,
                                rr as int == k as int / (clen as int),
                                cc as int == k as int % (clen as int),
                                (k as int) < rows@.len() * (clen as int),
                                k >= 0,
                        ;
                    }
                    proof {
                        assert(rows@.len() == rows.len());
                        assert(clen == e.children.len());
                    }
                    let r = rr as usize;
                    let c = cc as usize;
                    proof {
                        assert(r as int == k as int / (clen as int));
                        assert(e@.children[cc as int] == e.children@[c as int]@);
                    }
                    proof {
                        assert(e.children@[c as int] == e.children@[c as int]);
                    }
                    (Some(r), &e.children[c], Some(&rows[r]))
                },
                None => {
                    proof {
                        assert(false);
                    }
                    (None, &e.children[0], None)
                },
            }
        },
        None => {
            let c = k as usize;
            proof {
                assert(e.children@[c as int] == e.children@[c as int]);
            }
            (None, &e.children[c], datum)
        },
    }
}

/// Forward scan over expanded positions `from` onward.
fn search_forward(
    e: &Element,
    from: u128,
    datum: Option<&DatasetData>,
    store: &DatasetStore,
    dir: SelectDirection,
) -> (r: Result<Option<(String, Vec<usize>, Option<DatasetData>)>, NavError>)
    ensures
        ({
            let nf = search_fwd(e@, opt_row_v(datum), *store, dir, from as int);
            match r {
                Ok(Some(t)) => nf == NavFind::Found(
                    FocusHit { id: t.0@, tail: t.1@, datum: opt_row_view(t.2) },
                ),
                Ok(None) => nf is NotFound,
                Err(_) => nf is Unsupported,
            }
        }),
{
    let total = count_expanded(e, store);
    let mut k = from;
    if k >= total {
        return Ok(None);
    }
    while k < total
        invariant
            total as int == expanded_count(e@, *store),
            from <= k <= total,
            search_fwd(e@, opt_row_v(datum), *store, dir, from as int) == search_fwd(
                e@,
                opt_row_v(datum),
                *store,
                dir,
                k as int,
            ),
        decreases total - k,
    {
        let (ri, child, d) = entry_at(e, store, datum, k);
        let sub = enter(child, d, store, dir);
        match sub {
            Ok(Some((id, tail, dmv))) => {
                match ri {
                    Some(rr) => {
                        let mut t2: Vec<usize> = Vec::new();
                        t2.push(rr);
                        let mut tail2 = tail;
                        t2.append(&mut tail2);
                        return Ok(Some((id, t2, dmv)));
                    },
                    None => {
                        return Ok(Some((id, tail, dmv)));
                    },
                }
            },
            Ok(None) => {},
            Err(err) => {
                return Err(err);
            },
        }
        k = k + 1;
    }
    Ok(None)
}

/// Backward scan over expanded positions strictly below `upto`.
fn search_backward(
    e: &Element,
    upto: u128,
    datum: Option<&DatasetData>,
    store: &DatasetStore,
    dir: SelectDirection,
) -> (r: Result<Option<(String, Vec<usize>, Option<DatasetData>)>, NavError>)
    requires
        (upto as int) <= expanded_count(e@, *store),
    ensures
        ({
            let nf = search_rev(e@, opt_row_v(datum), *store, dir, upto as int - 1);
            match r {
                Ok(Some(t)) => nf == NavFind::Found(
                    FocusHit { id: t.0@, tail: t.1@, datum: opt_row_view(t.2) },
                ),
                Ok(None) => nf is NotFound,
                Err(_) => nf is Unsupported,
            }
        }),
{
    let mut k = upto;
    while k > 0
        invariant
            (upto as int) <= expanded_count(e@, *store),
            0 <= k <= upto,
            search_rev(e@, opt_row_v(datum), *store, dir, upto as int - 1) == search_rev(
                e@,
                opt_row_v(datum),
                *store,
                dir,
                k as int - 1,
            ),
        decreases k,
    {
        k = k - 1;
        let (ri, child, d) = entry_at(e, store, datum, k);
        let sub = enter(child, d, store, dir);
        match sub {
            Ok(Some((id, tail, dmv))) => {
                match ri {
                    Some(rr) => {
                        let mut t2: Vec<usize> = Vec::new();
                        t2.push(rr);
                        let mut tail2 = tail;
                        t2.append(&mut tail2);
                        return Ok(Some((id, t2, dmv)));
                    },
                    None => {
                        return Ok(Some((id, tail, dmv)));
                    },
                }
            },
            Ok(None) => {},
            Err(err) => {
                return Err(err);
            },
        }
    }
    Ok(None)
}

/// Replays the focus path from position `pi`, consuming stored
/// dataset-row indices from `di`, then searches ancestors on unwind,
/// closest first; mirrors `spec_replay_scan`.
pub(crate) fn replay_scan(
    e: &Element,
    store: &DatasetStore,
    path: &Vec<usize>,
    pi: usize,
    dsi: &Vec<usize>,
    di: usize,
    datum: Option<&DatasetData>,
    dir: SelectDirection,
) -> (r: Result<ReplayStep, NavError>)
    requires
        pi <= path@.len(),
        di <= dsi@.len(),
    ensures
        ({
            let rf = spec_replay_scan(
                e@,
                *store,
                path@.skip(pi as int),
                dsi@.skip(di as int),
                opt_row_v(datum),
                dir,
            );
            match r {
                Ok(ReplayStep::Stale) => rf is Stale,
                Ok(ReplayStep::Still) => rf is Still,
                Ok(ReplayStep::Moved(id, tail, dmv)) => rf == ReplayFind::Moved(
                    FocusHit { id: id@, tail: tail@, datum: opt_row_view(dmv) },
                ),
                Err(_) => rf is Unsupported,
            }
        }),
    decreases path@.len() - pi,
{
    if pi == path.len() {
        proof {
            assert(path@.skip(pi as int) =~= Seq::<usize>::empty());
        }
        return Ok(ReplayStep::Still);
    }
    let ghost q = path@.skip(pi as int);
    let ghost ds = dsi@.skip(di as int);
    proof {
        assert(q[0] == path@[pi as int]);
        assert(q.skip(1) =~= path@.skip(pi + 1 as int));
    }
    let c = path[pi];
    if c >= e.children.len() {
        return Ok(ReplayStep::Stale);
    }
    proof {
        assert(e@.children[c as int] == e.children@[c as int]@);
    }
    match &e.dataset_path {
        Some(p) => {
            if di == dsi.len() {
                return Ok(ReplayStep::Stale);
            }
            proof {
                assert(ds[0] == dsi@[di as int]);
                assert(ds.skip(1) =~= dsi@.skip(di + 1 as int));
            }
            match store.get_rows(p) {
                None => Ok(ReplayStep::Stale),
                Some(rows) => {
                    let rr = dsi[di];
                    if rr >= rows.len() {
                        return Ok(ReplayStep::Stale);
                    }
                    let clen = e.children.len();
    proof {
                        assert(rows@.len() == rows.len());
                        let rri: int = rr as int;
                        let cleni: int = clen as int;
                        let ci: int = c as int;
                        let rl: int = rows@.len() as int;
                        assert(rri * cleni + ci < rl * cleni) by (nonlinear_arith)
                            requires
                                0 <= rri,
                                rri < rl,
                                0 <= ci,
                                ci < cleni,
                        ;
                        assert(rl * cleni <= u128::MAX) by (nonlinear_arith)
                            requires
                                0 <= rl,
                                rl <= u64::MAX,
                                0 <= cleni,
                                cleni <= u64::MAX,
                                u64::MAX * u64::MAX + 2 * u64::MAX == u128::MAX,
                        ;
                    }
                    let idx: u128 = (rr as u128) * (clen as u128) + (c as u128);
                    let below = replay_scan(
                        &e.children[c],
                        store,
                        path,
                        pi + 1,
                        dsi,
                        di + 1,
                        Some(&rows[rr]),
                        dir,
                    );
                    match below {
                        Ok(ReplayStep::Stale) => Ok(ReplayStep::Stale),
                        Ok(ReplayStep::Moved(id, tail, dmv)) => {
                            let mut t2: Vec<usize> = Vec::new();
                            t2.push(rr);
                            let mut tail2 = tail;
                            t2.append(&mut tail2);
                            Ok(ReplayStep::Moved(id, t2, dmv))
                        },
                        Ok(ReplayStep::Still) => {
                            proof {
                                assert(expanded_count(e@, *store) == rows@.len() * (clen as int));
                            }
                            match sibling_search(e, idx, datum, store, dir) {
                                Ok(Some((id, tail, dmv))) => Ok(ReplayStep::Moved(id, tail, dmv)),
                                Ok(None) => Ok(ReplayStep::Still),
                                Err(err) => Err(err),
                            }
                        },
                        Err(err) => Err(err),
                    }
                },
            }
        },
        None => {
            let below = replay_scan(&e.children[c], store, path, pi + 1, dsi, di, datum, dir);
            match below {
                Ok(ReplayStep::Stale) => Ok(ReplayStep::Stale),
                Ok(ReplayStep::Moved(id, tail, dmv)) => Ok(ReplayStep::Moved(id, tail, dmv)),
                Ok(ReplayStep::Still) => {
                    proof {
                        assert(expanded_count(e@, *store) == e.children@.len() as int);
                    }
                    match sibling_search(e, c as u128, datum, store, dir) {
                        Ok(Some((id, tail, dmv))) => Ok(ReplayStep::Moved(id, tail, dmv)),
                        Ok(None) => Ok(ReplayStep::Still),
                        Err(err) => Err(err),
                    }
                },
                Err(err) => Err(err),
            }
        },
    }
}

/// Descends from a node with no current focus, always entering child 0
/// and recording row 0 at every dataset-bound node; mirrors
/// `spec_descend`.
pub(crate) fn descend(
    e: &Element,
    datum: Option<&DatasetData>,
    store: &DatasetStore,
) -> (r: Result<Option<(String, Vec<usize>, Option<DatasetData>)>, NavError>)
    ensures
        ({
            let nf = spec_descend(e@, *store, opt_row_v(datum));
            match r {
                Ok(Some(t)) => nf == NavFind::Found(
                    FocusHit { id: t.0@, tail: t.1@, datum: opt_row_view(t.2) },
                ),
                Ok(None) => nf is NotFound,
                Err(_) => nf is Unsupported,
            }
        }),
    decreases *e,
{
    if matches!(e.kind, ElementKind::Grid(_, _)) {
        return Err(NavError::GridUnsupported);
    }
    if e.children.len() == 0 {
        if e.selectable() && !e.resolves_to_nothing(datum) {
            match &e.id {
                Some(id) => {
                    let dmv = match datum {
                        Some(d) => Some(d.duplicate()),
                        None => None,
                    };
                    Ok(Some((id.clone(), Vec::new(), dmv)))
                },
                None => Ok(None),
            }
        } else {
            Ok(None)
        }
    } else {
        proof {
            assert(e@.children[0] == e.children@[0]@);
        }
        match &e.dataset_path {
            Some(p) => {
                let d2: Option<&DatasetData> = match store.get_rows(p) {
                    Some(rows) => if rows.len() > 0 {
                        Some(&rows[0])
                    } else {
                        None
                    },
                    None => None,
                };
                match descend(&e.children[0], d2, store) {
                    Ok(Some((id, tail, dmv))) => {
                        let mut t2: Vec<usize> = Vec::new();
                        t2.push(0);
                        let mut tail2 = tail;
                        t2.append(&mut tail2);
                        Ok(Some((id, t2, dmv)))
                    },
                    Ok(None) => Ok(None),
                    Err(err) => Err(err),
                }
            },
            None => descend(&e.children[0], datum, store),
        }
    }
}

/// How many dataset-bound ancestors stand strictly above the element at
/// `q`: the nodes along the path with a child taken, counting those with
/// a dataset binding.
pub open spec fn bound_count(e: ElemModel, q: Seq<usize>) -> int
    decreases q.len(),
{
    if q.len() == 0 {
        0
    } else if (q[0] as int) < e.children.len() {
        (if e.dataset_path is Some {
            1int
        } else {
            0int
        }) + bound_count(e.children[q[0] as int], q.skip(1))
    } else {
        0
    }
}

/// A hit names an element of the subtree, and its dataset-row tail is
/// exactly one index per dataset-bound ancestor strictly above it.
pub open spec fn hit_counts_bound(e: ElemModel, hit: FocusHit) -> bool {
    exists|q: Seq<usize>|
        elem_at(e, q) is Some && (#[trigger] elem_at(e, q))->0.id == Some(hit.id)
            && hit.tail.len() == bound_count(e, q)
}

proof fn lemma_enter_scan_fwd_found(
    e: ElemModel,
    datum: Option<Row>,
    store: DatasetStore,
    dir: SelectDirection,
    i: int,
)
    requires
        enter_scan_fwd(e, datum, store, dir, i) is Found,
    ensures
        exists|c: int|
            0 <= c < e.children.len() && #[trigger] spec_enter(e.children[c], datum, store, dir)
                == enter_scan_fwd(e, datum, store, dir, i),
    decreases e.children.len() - i,
{
    if i < 0 || i >= e.children.len() {
    } else {
        match spec_enter(e.children[i], datum, store, dir) {
            NavFind::NotFound => {
                lemma_enter_scan_fwd_found(e, datum, store, dir, i + 1);
            },
            _ => {},
        }
    }
}

proof fn lemma_enter_scan_rev_found(
    e: ElemModel,
    datum: Option<Row>,
    store: DatasetStore,
    dir: SelectDirection,
    i: int,
)
    requires
        enter_scan_rev(e, datum, store, dir, i) is Found,
    ensures
        exists|c: int|
            0 <= c < e.children.len() && #[trigger] spec_enter(e.children[c], datum, store, dir)
                == enter_scan_rev(e, datum, store, dir, i),
    decreases i + 1,
{
    if i < 0 || i >= e.children.len() {
    } else {
        match spec_enter(e.children[i], datum, store, dir) {
            NavFind::NotFound => {
                lemma_enter_scan_rev_found(e, datum, store, dir, i - 1);
            },
            _ => {},
        }
    }
}

/// Entering a subtree counts one dataset-row index per bound ancestor
/// strictly above the hit.
pub proof fn lemma_enter_counts_bound(
    e: ElemModel,
    datum: Option<Row>,
    store: DatasetStore,
    dir: SelectDirection,
)
    requires
        model_wf(e),
        spec_enter(e, datum, store, dir) is Found,
    ensures
        hit_counts_bound(e, spec_enter(e, datum, store, dir)->Found_0),
    decreases e, e.children.len() + 2,
{
    let nf = spec_enter(e, datum, store, dir);
    let hit = nf->Found_0;
    match e.kind {
        KindModel::Rows | KindModel::Columns => {
            let (d2, bound) = if e.dataset_path is Some {
                (Some(bound_rows(e, store)->0[0]@), true)
            } else {
                (datum, false)
            };
            let kids = enter_kids(e, d2, store, dir);
            let inner = kids->Found_0;
            if e.kind is Columns && dir is Left {
                lemma_enter_scan_rev_found(e, d2, store, dir, e.children.len() - 1);
            } else {
                lemma_enter_scan_fwd_found(e, d2, store, dir, 0);
            }
            let c = choose|c: int|
                0 <= c < e.children.len() && #[trigger] spec_enter(e.children[c], d2, store, dir)
                    == kids;
            assert(model_wf(e.children[c]));
            lemma_enter_counts_bound(e.children[c], d2, store, dir);
            let q1 = choose|q: Seq<usize>|
                elem_at(e.children[c], q) is Some && (#[trigger] elem_at(e.children[c], q))->0.id
                    == Some(inner.id) && inner.tail.len() == bound_count(e.children[c], q);
            let q = seq![c as usize] + q1;
            assert(q.skip(1) =~= q1);
            assert(elem_at(e, q) == elem_at(e.children[c], q1));
            if bound {
                assert(hit.tail == seq![0usize] + inner.tail);
            }
            assert(hit.tail.len() == bound_count(e, q));
            assert(elem_at(e, q)->0.id == Some(hit.id));
        },
        KindModel::Grid(_, _) => {},
        _ => {
            let q = Seq::<usize>::empty();
            assert(elem_at(e, q) == Some(e));
            assert(bound_count(e, q) == 0);
        },
    }
}

proof fn lemma_search_fwd_counts_bound(
    e: ElemModel,
    datum: Option<Row>,
    store: DatasetStore,
    dir: SelectDirection,
    k: int,
)
    requires
        model_wf(e),
        search_fwd(e, datum, store, dir, k) is Found,
    ensures
        hit_counts_bound(e, search_fwd(e, datum, store, dir, k)->Found_0),
    decreases expanded_count(e, store) - k,
{
    if k < 0 || k >= expanded_count(e, store) {
    } else {
        let (ri, child, d) = expanded_entry(e, store, datum, k);
        match spec_enter(child, d, store, dir) {
            NavFind::NotFound => {
                lemma_search_fwd_counts_bound(e, datum, store, dir, k + 1);
            },
            NavFind::Found(h1) => {
                lemma_entry_child_wf(e, store, datum, k);
                lemma_enter_counts_bound(child, d, store, dir);
                lemma_candidate_counts_bound(e, store, datum, k, h1, search_fwd(e, datum, store, dir, k)->Found_0);
            },
            NavFind::Unsupported => {},
        }
    }
}

proof fn lemma_search_rev_counts_bound(
    e: ElemModel,
    datum: Option<Row>,
    store: DatasetStore,
    dir: SelectDirection,
    k: int,
)
    requires
        model_wf(e),
        search_rev(e, datum, store, dir, k) is Found,
    ensures
        hit_counts_bound(e, search_rev(e, datum, store, dir, k)->Found_0),
    decreases k + 1,
{
    if k < 0 || k >= expanded_count(e, store) {
    } else {
        let (ri, child, d) = expanded_entry(e, store, datum, k);
        match spec_enter(child, d, store, dir) {
            NavFind::NotFound => {
                lemma_search_rev_counts_bound(e, datum, store, dir, k - 1);
            },
            NavFind::Found(h1) => {
                lemma_entry_child_wf(e, store, datum, k);
                lemma_enter_counts_bound(child, d, store, dir);
                lemma_candidate_counts_bound(e, store, datum, k, h1, search_rev(e, datum, store, dir, k)->Found_0);
            },
            NavFind::Unsupported => {},
        }
    }
}

/// The candidate at an expanded position is one of the children.
proof fn lemma_entry_child_wf(e: ElemModel, store: DatasetStore, datum: Option<Row>, k: int)
    requires
        model_wf(e),
        0 <= k < expanded_count(e, store),
    ensures
        model_wf(expanded_entry(e, store, datum, k).1),
{
    match e.dataset_path {
        Some(p) => {
            let clen = e.children.len() as int;
            let rows = store.spec_rows(p)->0;
            let c = k % clen;
            assert(clen > 0 && 0 <= c < clen) by (nonlinear_arith)
                requires
                    0 <= k,
                    k < rows.len() * clen,
                    c == k % clen,
            ;
            assert(model_wf(e.children[c]));
        },
        None => {
            assert(model_wf(e.children[k]));
        },
    }
}

/// Lifts the count from an entered candidate instance to the searched
/// ancestor: a bound ancestor contributes the candidate's row index.
proof fn lemma_candidate_counts_bound(
    e: ElemModel,
    store: DatasetStore,
    datum: Option<Row>,
    k: int,
    h1: FocusHit,
    hit: FocusHit,
)
    requires
        model_wf(e),
        0 <= k < expanded_count(e, store),
        hit_counts_bound(expanded_entry(e, store, datum, k).1, h1),
        hit == (match expanded_entry(e, store, datum, k).0 {
            Some(r) => FocusHit { id: h1.id, tail: seq![r] + h1.tail, datum: h1.datum },
            None => h1,
        }),
    ensures
        hit_counts_bound(e, hit),
{
    let (ri, child, d) = expanded_entry(e, store, datum, k);
    let q1 = choose|q: Seq<usize>|
        elem_at(child, q) is Some && (#[trigger] elem_at(child, q))->0.id == Some(h1.id)
            && h1.tail.len() == bound_count(child, q);
    let c: int = match e.dataset_path {
        Some(p) => k % (e.children.len() as int),
        None => k,
    };
    if e.dataset_path is Some {
        let clen = e.children.len() as int;
        let rows = store.spec_rows(e.dataset_path->0)->0;
        assert(clen > 0 && 0 <= c < clen) by (nonlinear_arith)
            requires
                0 <= k,
                k < rows.len() * clen,
                c == k % clen,
        ;
    }
    assert(0 <= c < e.children.len());
    assert(child == e.children[c]);
    let q = seq![c as usize] + q1;
    assert(q.skip(1) =~= q1);
    assert(elem_at(e, q) == elem_at(e.children[c], q1));
    assert(hit.tail.len() == bound_count(e, q));
    assert(elem_at(e, q)->0.id == Some(hit.id));
}

/// The sibling search at an ancestor counts one dataset-row index per
/// bound ancestor strictly above the hit, within that ancestor.
pub proof fn lemma_sibling_counts_bound(
    e: ElemModel,
    index: int,
    datum: Option<Row>,
    store: DatasetStore,
    dir: SelectDirection,
)
    requires
        model_wf(e),
        spec_sibling_search(e, index, datum, store, dir) is Found,
    ensures
        hit_counts_bound(e, spec_sibling_search(e, index, datum, store, dir)->Found_0),
{
    match e.kind {
        KindModel::Columns => match dir {
            SelectDirection::Left => lemma_search_rev_counts_bound(e, datum, store, dir, index - 1),
            SelectDirection::Right => lemma_search_fwd_counts_bound(
                e,
                datum,
                store,
                dir,
                index + 1,
            ),
            _ => {},
        },
        KindModel::Rows => match dir {
            SelectDirection::Up => lemma_search_rev_counts_bound(e, datum, store, dir, index - 1),
            SelectDirection::Down => lemma_search_fwd_counts_bound(e, datum, store, dir, index + 1),
            _ => {},
        },
        _ => {},
    }
}

/// The replay-and-scan pass counts one dataset-row index per bound
/// ancestor strictly above whatever focus it moves to.
pub proof fn lemma_replay_counts_bound(
    e: ElemModel,
    store: DatasetStore,
    path: Seq<usize>,
    dsi: Seq<usize>,
    datum: Option<Row>,
    dir: SelectDirection,
)
    requires
        model_wf(e),
        spec_replay_scan(e, store, path, dsi, datum, dir) is Moved,
    ensures
        hit_counts_bound(e, spec_replay_scan(e, store, path, dsi, datum, dir)->Moved_0),
    decreases path.len(),
{
    if path.len() == 0 {
    } else {
        let c = path[0] as int;
        if c >= e.children.len() {
        } else {
            match e.dataset_path {
                Some(p) => {
                    if dsi.len() == 0 {
                    } else {
                        match store.spec_rows(p) {
                            None => {},
                            Some(rows) => {
                                let r = dsi[0] as int;
                                if r >= rows.len() {
                                } else {
                                    let idx = r * e.children.len() + c;
                                    let below = spec_replay_scan(
                                        e.children[c],
                                        store,
                                        path.skip(1),
                                        dsi.skip(1),
                                        Some(rows[r]@),
                                        dir,
                                    );
                                    match below {
                                        ReplayFind::Moved(h1) => {
                                            assert(model_wf(e.children[c]));
                                            lemma_replay_counts_bound(
                                                e.children[c],
                                                store,
                                                path.skip(1),
                                                dsi.skip(1),
                                                Some(rows[r]@),
                                                dir,
                                            );
                                            let q1 = choose|q: Seq<usize>|
                                                elem_at(e.children[c], q) is Some && (
                                                #[trigger] elem_at(e.children[c], q))->0.id
                                                    == Some(h1.id) && h1.tail.len() == bound_count(
                                                    e.children[c],
                                                    q,
                                                );
                                            let q = seq![c as usize] + q1;
                                            assert(q.skip(1) =~= q1);
                                            assert(elem_at(e, q) == elem_at(e.children[c], q1));
                                            let hit = spec_replay_scan(
                                                e,
                                                store,
                                                path,
                                                dsi,
                                                datum,
                                                dir,
                                            )->Moved_0;
                                            assert(hit.tail == seq![dsi[0]] + h1.tail);
                                            assert(hit.tail.len() == bound_count(e, q));
                                        },
                                        ReplayFind::Still => {
                                            lemma_sibling_counts_bound(e, idx, datum, store, dir);
                                        },
                                        _ => {},
                                    }
                                }
                            },
                        }
                    }
                },
                None => {
                    let below = spec_replay_scan(
                        e.children[c],
                        store,
                        path.skip(1),
                        dsi,
                        datum,
                        dir,
                    );
                    match below {
                        ReplayFind::Moved(h1) => {
                            assert(model_wf(e.children[c]));
                            lemma_replay_counts_bound(
                                e.children[c],
                                store,
                                path.skip(1),
                                dsi,
                                datum,
                                dir,
                            );
                            let q1 = choose|q: Seq<usize>|
                                elem_at(e.children[c], q) is Some && (#[trigger] elem_at(
                                    e.children[c],
                                    q,
                                ))->0.id == Some(h1.id) && h1.tail.len() == bound_count(
                                    e.children[c],
                                    q,
                                );
                            let q = seq![c as usize] + q1;
                            assert(q.skip(1) =~= q1);
                            assert(elem_at(e, q) == elem_at(e.children[c], q1));
                            let hit = spec_replay_scan(e, store, path, dsi, datum, dir)->Moved_0;
                            assert(hit.tail == h1.tail);
                            assert(hit.tail.len() == bound_count(e, q));
                        },
                        ReplayFind::Still => {
                            lemma_sibling_counts_bound(e, c, datum, store, dir);
                        },
                        _ => {},
                    }
                },
            }
        }
    }
}

/// The first descent counts one dataset-row index per bound ancestor
/// strictly above the focus it derives.
pub proof fn lemma_descend_counts_bound(e: ElemModel, store: DatasetStore, datum: Option<Row>)
    requires
        model_wf(e),
        spec_descend(e, store, datum) is Found,
    ensures
        hit_counts_bound(e, spec_descend(e, store, datum)->Found_0),
    decreases e,
{
    if e.kind is Grid {
    } else if e.children.len() == 0 {
        let q = Seq::<usize>::empty();
        assert(elem_at(e, q) == Some(e));
    } else {
        let d2 = if e.dataset_path is Some {
            match bound_rows(e, store) {
                Some(rows) => if rows.len() > 0 {
                    Some(rows[0]@)
                } else {
                    None
                },
                None => None,
            }
        } else {
            datum
        };
        assert(model_wf(e.children[0]));
        lemma_descend_counts_bound(e.children[0], store, d2);
        let h1 = spec_descend(e.children[0], store, d2)->Found_0;
        let q1 = choose|q: Seq<usize>|
            elem_at(e.children[0], q) is Some && (#[trigger] elem_at(e.children[0], q))->0.id
                == Some(h1.id) && h1.tail.len() == bound_count(e.children[0], q);
        let q = seq![0usize] + q1;
        assert(q.skip(1) =~= q1);
        assert(elem_at(e, q) == elem_at(e.children[0], q1));
        let hit = spec_descend(e, store, datum)->Found_0;
        if e.dataset_path is Some {
            assert(hit.tail == seq![0usize] + h1.tail);
        } else {
            assert(hit.tail == h1.tail);
        }
        assert(hit.tail.len() == bound_count(e, q));
    }
}

} // verus!
