//! The element tree: one page's visual structure.
//!
//! An element has a kind, an optional stable id, an optional dataset
//! binding, owned children, and raw or templated content. A `Variable`
//! kind carries a template that is resolved against the data row in scope.
//!
//! Contracts speak of `ElemModel`, the mathematical view of an element:
//! the same tree with sequences in place of vectors and strings.

use vstd::prelude::*;

use crate::dataset::{assoc_get, DatasetData};
use crate::text::push_char;

verus! {

/// The view of a data row: its field pairs.
pub type Row = Seq<(Seq<char>, Seq<char>)>;

/// The kind of a node in a page's element tree.
///
/// `Nothing` contributes no geometry and is skipped by navigation.
/// `Grid` is declared but unimplemented: traversal and layout fail
/// explicitly on it. `Variable` carries a template whose effective kind
/// and content depend on the data row in scope.
pub enum ElementKind {
    Nothing,
    Spacer,
    Text,
    TextEntry,
    Button,
    Rows,
    Columns,
    Grid(u32, u32),
    Variable(String),
}

/// A node in a page's element tree.
///
/// When `dataset_path` is set, the node's child subtree is logically
/// replicated once per row of the bound dataset; the replication is
/// resolved on access, never materialized.
pub struct Element {
    pub kind: ElementKind,
    pub id: Option<String>,
    pub dataset_path: Option<String>,
    pub children: Vec<Element>,
    pub text: String,
}

/// The mathematical view of an element kind.
#[verifier::ext_equal]
pub enum KindModel {
    Nothing,
    Spacer,
    Text,
    TextEntry,
    Button,
    Rows,
    Columns,
    Grid(u32, u32),
    Variable(Seq<char>),
}

/// The mathematical view of an element tree.
#[verifier::ext_equal]
pub struct ElemModel {
    pub kind: KindModel,
    pub id: Option<Seq<char>>,
    pub dataset_path: Option<Seq<char>>,
    pub children: Seq<ElemModel>,
    pub text: Seq<char>,
}

impl View for ElementKind {
    type V = KindModel;

    open spec fn view(&self) -> KindModel {
        match self {
            ElementKind::Nothing => KindModel::Nothing,
            ElementKind::Spacer => KindModel::Spacer,
            ElementKind::Text => KindModel::Text,
            ElementKind::TextEntry => KindModel::TextEntry,
            ElementKind::Button => KindModel::Button,
            ElementKind::Rows => KindModel::Rows,
            ElementKind::Columns => KindModel::Columns,
            ElementKind::Grid(r, c) => KindModel::Grid(*r, *c),
            ElementKind::Variable(t) => KindModel::Variable(t@),
        }
    }
}

/// The mathematical view of an element.
pub open spec fn elem_model(e: Element) -> ElemModel
    decreases e,
{
    ElemModel {
        kind: e.kind@,
        id: match e.id {
            Some(s) => Some(s@),
            None => None,
        },
        dataset_path: match e.dataset_path {
            Some(s) => Some(s@),
            None => None,
        },
        children: Seq::new(
            e.children@.len(),
            |i: int|
                if 0 <= i < e.children@.len() {
                    elem_model(e.children@[i])
                } else {
                    vstd::pervasive::arbitrary()
                },
        ),
        text: e.text@,
    }
}

impl View for Element {
    type V = ElemModel;

    open spec fn view(&self) -> ElemModel {
        elem_model(*self)
    }
}

/// The models of a sequence of elements, in order.
pub open spec fn models_of(s: Seq<Element>) -> Seq<ElemModel> {
    Seq::new(s.len(), |i: int| s[i]@)
}

/// The view of an element lists the views of its children, in order.
pub broadcast proof fn lemma_view_children(e: Element)
    ensures
        (#[trigger] e@).children.len() == e.children@.len(),
        forall|i: int| 0 <= i < e.children@.len() ==> e@.children[i] == #[trigger] e.children@[i]@,
        e@.children == models_of(e.children@),
{
    assert(e@.children =~= models_of(e.children@));
}

/// A bounded model: every node has at most `usize::MAX` children, as any
/// tree held in vectors does.
pub open spec fn model_wf(e: ElemModel) -> bool
    decreases e,
{
    e.children.len() <= usize::MAX && forall|i: int|
        0 <= i < e.children.len() ==> model_wf(#[trigger] e.children[i])
}

/// The view of any element held in memory is a bounded model.
pub broadcast proof fn lemma_elem_model_wf(e: Element)
    ensures
        #[trigger] model_wf(e@),
    decreases e,
{
    lemma_view_children(e);
    assert(e.children@.len() == e.children.len());
    assert forall|i: int| 0 <= i < e@.children.len() implies model_wf(#[trigger] e@.children[i]) by {
        lemma_elem_model_wf(e.children[i]);
    }
    assert(e@.children.len() <= usize::MAX);
}

/// The row view of an optional borrowed row.
pub open spec fn opt_row_v(o: Option<&DatasetData>) -> Option<Row> {
    match o {
        Some(r) => Some(r@),
        None => None,
    }
}

/// The first position at or after `from` holding `c`.
pub open spec fn find_char(t: Seq<char>, c: char, from: int) -> Option<int>
    decreases t.len() - from,
{
    if from < 0 || from >= t.len() {
        None
    } else if t[from] == c {
        Some(from)
    } else {
        find_char(t, c, from + 1)
    }
}

/// Template substitution from position `i` on: every `{name}` is replaced
/// by the row's value for `name`. The result is `None` when a brace is
/// left unclosed or a named field is missing from the row.
pub open spec fn spec_subst_from(t: Seq<char>, i: int, row: Row) -> Option<Seq<char>>
    decreases t.len() - i,
{
    if i < 0 || i >= t.len() {
        Some(Seq::empty())
    } else if t[i] == '{' {
        match find_char(t, '}', i + 1) {
            None => None,
            Some(j) => if i < j && j < t.len() {
                match assoc_get(row, t.subrange(i + 1, j)) {
                    None => None,
                    Some(v) => match spec_subst_from(t, j + 1, row) {
                        None => None,
                        Some(rest) => Some(v + rest),
                    },
                }
            } else {
                None
            },
        }
    } else {
        match spec_subst_from(t, i + 1, row) {
            None => None,
            Some(rest) => Some(seq![t[i]] + rest),
        }
    }
}

/// Template substitution over the whole template.
pub open spec fn spec_subst(t: Seq<char>, row: Row) -> Option<Seq<char>> {
    spec_subst_from(t, 0, row)
}

/// The kind an element takes once the data row in scope is applied.
/// Only `Variable` depends on the row: with a row whose fields cover the
/// template it becomes `Text`; with a row that misses a field (or an
/// unclosed brace) it becomes `Nothing`; with no row in scope it stays
/// unresolved.
pub open spec fn spec_resolve_kind(k: KindModel, datum: Option<Row>) -> KindModel {
    match k {
        KindModel::Variable(t) => match datum {
            Some(row) => if spec_subst(t, row) is Some {
                KindModel::Text
            } else {
                KindModel::Nothing
            },
            None => KindModel::Variable(t),
        },
        _ => k,
    }
}

/// The unresolved marker shown for a `Variable` element with no row in
/// scope: never empty.
pub open spec fn spec_marker(t: Seq<char>) -> Seq<char> {
    seq!['e'] + t
}

/// The content an element shows once the data row in scope is applied.
pub open spec fn spec_content(e: ElemModel, datum: Option<Row>) -> Seq<char> {
    match e.kind {
        KindModel::Variable(t) => match datum {
            Some(row) => match spec_subst(t, row) {
                Some(s) => s,
                None => spec_marker(t),
            },
            None => spec_marker(t),
        },
        _ => e.text,
    }
}

/// Only buttons and text entries are ever selectable.
pub open spec fn spec_selectable(e: ElemModel) -> bool {
    e.kind is TextEntry || e.kind is Button
}

/// The element reached from `e` by following child indices.
pub open spec fn elem_at(e: ElemModel, path: Seq<usize>) -> Option<ElemModel>
    decreases path.len(),
{
    if path.len() == 0 {
        Some(e)
    } else if (path[0] as int) < e.children.len() {
        elem_at(e.children[path[0] as int], path.skip(1))
    } else {
        None
    }
}

/// The first `'}'` at or after `from`.
fn find_close(t: &str, n: usize, from: usize) -> (r: Option<usize>)
    requires
        n == t@.len(),
        from <= n,
    ensures
        match r {
            Some(j) => find_char(t@, '}', from as int) == Some(j as int) && from <= j < n,
            None => find_char(t@, '}', from as int) is None,
        },
{
    let mut j = from;
    while j < n
        invariant
            n == t@.len(),
            from <= j <= n,
            find_char(t@, '}', from as int) == find_char(t@, '}', j as int),
        decreases n - j,
    {
        if t.get_char(j) == '}' {
            return Some(j);
        }
        j += 1;
    }
    None
}

/// Substitution from position `i`, mirroring `spec_subst_from`.
fn subst_from(t: &str, n: usize, i: usize, row: &DatasetData) -> (r: Option<String>)
    requires
        n == t@.len(),
        i <= n,
    ensures
        match r {
            Some(s) => spec_subst_from(t@, i as int, row@) == Some(s@),
            None => spec_subst_from(t@, i as int, row@) is None,
        },
    decreases n - i,
{
    if i == n {
        return Some(String::new());
    }
    let c = t.get_char(i);
    if c == '{' {
        match find_close(t, n, i + 1) {
            None => None,
            Some(j) => {
                let name = t.substring_char(i + 1, j).to_owned();
                match row.get(&name) {
                    None => None,
                    Some(value) => {
                        match subst_from(t, n, j + 1, row) {
                            None => None,
                            Some(rest) => {
                                let mut s = value.clone();
                                s.append(rest.as_str());
                                Some(s)
                            },
                        }
                    },
                }
            },
        }
    } else {
        match subst_from(t, n, i + 1, row) {
            None => None,
            Some(rest) => {
                let mut s = String::new();
                push_char(&mut s, c);
                s.append(rest.as_str());
                proof {
                    assert(s@ =~= seq![t@[i as int]] + rest@);
                }
                Some(s)
            },
        }
    }
}

/// Substitutes the row's fields into the template, or reports a missing
/// field or unclosed brace.
pub fn substitute(t: &str, row: &DatasetData) -> (r: Option<String>)
    ensures
        match r {
            Some(s) => spec_subst(t@, row@) == Some(s@),
            None => spec_subst(t@, row@) is None,
        },
{
    let n = t.unicode_len();
    subst_from(t, n, 0, row)
}

impl Element {
    /// Whether the element's kind is a selectable capability.
    pub fn selectable(&self) -> (r: bool)
        ensures
            r == spec_selectable(self@),
    {
        match self.kind {
            ElementKind::TextEntry => true,
            ElementKind::Button => true,
            _ => false,
        }
    }

    /// Whether the element resolves to `Nothing` under the row in scope.
    pub fn resolves_to_nothing(&self, datum: Option<&DatasetData>) -> (r: bool)
        ensures
            r == (spec_resolve_kind(self@.kind, opt_row_v(datum)) is Nothing),
    {
        match &self.kind {
            ElementKind::Nothing => true,
            ElementKind::Variable(t) => match datum {
                Some(row) => substitute(t.as_str(), row).is_none(),
                None => false,
            },
            _ => false,
        }
    }

    /// The content the element shows under the row in scope: raw text,
    /// a substituted template, or the unresolved marker.
    pub fn render_content(&self, datum: Option<&DatasetData>) -> (r: String)
        ensures
            r@ == spec_content(self@, opt_row_v(datum)),
    {
        match &self.kind {
            ElementKind::Variable(t) => {
                match datum {
                    Some(row) => match substitute(t.as_str(), row) {
                        Some(s) => s,
                        None => {
                            let mut m = String::new();
                            push_char(&mut m, 'e');
                            m.append(t.as_str());
                            proof {
                                assert(m@ =~= spec_marker(t@));
                            }
                            m
                        },
                    },
                    None => {
                        let mut m = String::new();
                        push_char(&mut m, 'e');
                        m.append(t.as_str());
                        proof {
                            assert(m@ =~= spec_marker(t@));
                        }
                        m
                    },
                }
            },
            _ => self.text.clone(),
        }
    }
}

} // verus!
