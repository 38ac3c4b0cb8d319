//! Per-page ephemeral state: the current focus, its dataset-row path,
//! the cached resolved row, and uncommitted input text keyed by element
//! id and dataset-row path.

use vstd::prelude::*;

use crate::dataset::{opt_row_view, DatasetData, DatasetStore};
use crate::element::Row;
use crate::element::elem_at;
use crate::navigate::{
    descend, replay_scan, spec_descend, spec_replay_scan, NavError, NavFind, ReplayFind,
    ReplayStep, SelectDirection,
};
use crate::page::{has_elem_with_id, target_path, Page};

verus! {

/// The key of an uncommitted input buffer: element id and dataset-row
/// path, as views.
pub type InputKey = (Seq<char>, Seq<usize>);

/// The view of the input buffers: key/value pairs in insertion order,
/// looked up first match.
pub type Inputs = Seq<(InputKey, Seq<char>)>;

/// The value bound to a key, if any.
pub open spec fn input_get(inputs: Inputs, key: InputKey) -> Option<Seq<char>>
    decreases inputs.len(),
{
    if inputs.len() == 0 {
        None
    } else if inputs[0].0 == key {
        Some(inputs[0].1)
    } else {
        input_get(inputs.skip(1), key)
    }
}

/// The buffers with `key` bound to `v`: the first pair with that key is
/// replaced, or a new pair appended.
pub open spec fn input_set(inputs: Inputs, key: InputKey, v: Seq<char>) -> Inputs
    decreases inputs.len(),
{
    if inputs.len() == 0 {
        seq![(key, v)]
    } else if inputs[0].0 == key {
        seq![(key, v)] + inputs.skip(1)
    } else {
        seq![inputs[0]] + input_set(inputs.skip(1), key, v)
    }
}

/// The buffers with the first pair holding `key` removed.
pub open spec fn input_remove(inputs: Inputs, key: InputKey) -> Inputs
    decreases inputs.len(),
{
    if inputs.len() == 0 {
        inputs
    } else if inputs[0].0 == key {
        inputs.skip(1)
    } else {
        seq![inputs[0]] + input_remove(inputs.skip(1), key)
    }
}

/// What one directional request does to the focus: with no focus (or a
/// focus whose id has left the page, or a stored context that no longer
/// fits the tree and data) the focus is re-derived by the first descent;
/// otherwise the stored context is replayed and the ancestors searched.
pub open spec fn spec_select_next(
    root: crate::element::ElemModel,
    store: DatasetStore,
    focus: Option<Seq<char>>,
    dsi: Seq<usize>,
    dir: SelectDirection,
) -> NavFind {
    match focus {
        None => spec_descend(root, store, None),
        Some(id) => match target_path(root, id) {
            None => spec_descend(root, store, None),
            Some(path) => match spec_replay_scan(root, store, path, dsi, None, dir) {
                ReplayFind::Stale => spec_descend(root, store, None),
                ReplayFind::Still => NavFind::NotFound,
                ReplayFind::Moved(hit) => NavFind::Found(hit),
                ReplayFind::Unsupported => NavFind::Unsupported,
            },
        },
    }
}

/// How a backspace edits a state: the focused instance's buffer loses
/// its last character; an absent buffer is not created; without a focus
/// nothing changes.
pub open spec fn rel_backspace(a: PageState, b: PageState) -> bool {
    &&& b.spec_selected() == a.spec_selected()
    &&& b.spec_datasets() == a.spec_datasets()
    &&& b.spec_datum() == a.spec_datum()
    &&& match a.spec_selected() {
        Some(id) => {
            let key = (id, a.spec_datasets());
            match input_get(a.spec_inputs(), key) {
                Some(s) => b.spec_inputs() == input_set(
                    a.spec_inputs(),
                    key,
                    if s.len() > 0 {
                        s.drop_last()
                    } else {
                        s
                    },
                ),
                None => b == a,
            }
        },
        None => b == a,
    }
}

/// How a typed character edits a state: appended to the focused
/// instance's buffer, which is created when absent.
pub open spec fn rel_append_char(a: PageState, b: PageState, ch: char) -> bool {
    &&& b.spec_selected() == a.spec_selected()
    &&& b.spec_datasets() == a.spec_datasets()
    &&& b.spec_datum() == a.spec_datum()
    &&& match a.spec_selected() {
        Some(id) => {
            let key = (id, a.spec_datasets());
            let before = match input_get(a.spec_inputs(), key) {
                Some(s) => s,
                None => Seq::<char>::empty(),
            };
            b.spec_inputs() == input_set(a.spec_inputs(), key, before.push(ch))
        },
        None => b == a,
    }
}

/// How pasted text edits a state: appended to the focused instance's
/// buffer, which is created when absent.
pub open spec fn rel_append_str(a: PageState, b: PageState, pasted: Seq<char>) -> bool {
    &&& b.spec_selected() == a.spec_selected()
    &&& b.spec_datasets() == a.spec_datasets()
    &&& b.spec_datum() == a.spec_datum()
    &&& match a.spec_selected() {
        Some(id) => {
            let key = (id, a.spec_datasets());
            let before = match input_get(a.spec_inputs(), key) {
                Some(s) => s,
                None => Seq::<char>::empty(),
            };
            b.spec_inputs() == input_set(a.spec_inputs(), key, before + pasted)
        },
        None => b == a,
    }
}

/// How taking the focused instance's buffer edits a state, and what
/// comes out: the buffer is removed and returned.
pub open spec fn rel_take(a: PageState, b: PageState, taken: Option<Seq<char>>) -> bool {
    &&& b.spec_selected() == a.spec_selected()
    &&& b.spec_datasets() == a.spec_datasets()
    &&& b.spec_datum() == a.spec_datum()
    &&& match a.spec_selected() {
        Some(id) => {
            let key = (id, a.spec_datasets());
            &&& b.spec_inputs() == input_remove(a.spec_inputs(), key)
            &&& taken == input_get(a.spec_inputs(), key)
        },
        None => b == a && taken is None,
    }
}

/// How one directional request edits a state, given whether the call
/// succeeded: the focus moves as `spec_select_next` says, stays put at a
/// document boundary, and is untouched when traversal met a `Grid`.
pub open spec fn rel_select_next(
    a: PageState,
    b: PageState,
    root: crate::element::ElemModel,
    store: DatasetStore,
    dir: SelectDirection,
    is_ok: bool,
) -> bool {
    &&& b.spec_inputs() == a.spec_inputs()
    &&& ({
        let nf = spec_select_next(root, store, a.spec_selected(), a.spec_datasets(), dir);
        if is_ok {
            match nf {
                NavFind::Found(hit) => b.spec_selected() == Some(hit.id) && b.spec_datasets()
                    == hit.tail && b.spec_datum() == hit.datum,
                NavFind::NotFound => b == a,
                NavFind::Unsupported => false,
            }
        } else {
            nf is Unsupported && b == a
        }
    })
}

/// A state never touched: no focus, no buffers.
pub open spec fn fresh_state(st: PageState) -> bool {
    &&& st.spec_selected() is None
    &&& st.spec_datasets() == Seq::<usize>::empty()
    &&& st.spec_datum() is None
    &&& st.spec_inputs() == Seq::<(InputKey, Seq<char>)>::empty()
}


/// LAW (dataset-row path length): after any successful navigation the
/// focus dataset-row path holds exactly one row index per dataset-bound
/// ancestor strictly above the focused element: the found hit names an
/// element of the tree whose tail length equals that count.
pub proof fn lemma_select_next_counts_bound(
    root: crate::element::ElemModel,
    store: DatasetStore,
    focus: Option<Seq<char>>,
    dsi: Seq<usize>,
    dir: SelectDirection,
)
    requires
        crate::element::model_wf(root),
        spec_select_next(root, store, focus, dsi, dir) is Found,
    ensures
        crate::navigate::hit_counts_bound(
            root,
            spec_select_next(root, store, focus, dsi, dir)->Found_0,
        ),
{
    match focus {
        None => crate::navigate::lemma_descend_counts_bound(root, store, None),
        Some(id) => match target_path(root, id) {
            None => crate::navigate::lemma_descend_counts_bound(root, store, None),
            Some(path) => match spec_replay_scan(root, store, path, dsi, None, dir) {
                ReplayFind::Stale => crate::navigate::lemma_descend_counts_bound(
                    root,
                    store,
                    None,
                ),
                ReplayFind::Still => {},
                ReplayFind::Moved(hit) => crate::navigate::lemma_replay_counts_bound(
                    root,
                    store,
                    path,
                    dsi,
                    None,
                    dir,
                ),
                ReplayFind::Unsupported => {},
            },
        },
    }
}

/// Per-page ephemeral UI state.
pub struct PageState {
    selected: Option<String>,
    selected_datasets: Vec<usize>,
    selected_datum: Option<DatasetData>,
    uncommited_inputs: Vec<((String, Vec<usize>), String)>,
}

impl PageState {
    /// The focused element's id, if any.
    pub closed spec fn spec_selected(self) -> Option<Seq<char>> {
        match self.selected {
            Some(s) => Some(s@),
            None => None,
        }
    }

    /// The focus dataset-row path: one row index per dataset-bound
    /// ancestor strictly above the focus, root to leaf.
    pub closed spec fn spec_datasets(self) -> Seq<usize> {
        self.selected_datasets@
    }

    /// The cached resolved row at the focus.
    pub closed spec fn spec_datum(self) -> Option<Row> {
        opt_row_view(self.selected_datum)
    }

    /// The uncommitted input buffers.
    pub closed spec fn spec_inputs(self) -> Inputs {
        Seq::new(
            self.uncommited_inputs@.len(),
            |i: int|
                (
                    (self.uncommited_inputs@[i].0.0@, self.uncommited_inputs@[i].0.1@),
                    self.uncommited_inputs@[i].1@,
                ),
        )
    }

    /// The focused element's id.
    pub fn get_selected_id(&self) -> (r: Option<&String>)
        ensures
            match r {
                Some(s) => self.spec_selected() == Some(s@),
                None => self.spec_selected() is None,
            },
    {
        self.selected.as_ref()
    }

    /// The focus dataset-row path.
    pub fn get_selected_datasets(&self) -> (r: &Vec<usize>)
        ensures
            r@ == self.spec_datasets(),
    {
        &self.selected_datasets
    }

    /// The cached resolved row at the focus.
    pub fn get_selected_datum(&self) -> (r: &Option<DatasetData>)
        ensures
            opt_row_view(*r) == self.spec_datum(),
    {
        &self.selected_datum
    }
}

impl Default for PageState {
    /// The state of a page never touched: no focus, no buffers.
    fn default() -> (r: PageState)
        ensures
            r.spec_selected() is None,
            r.spec_datasets() == Seq::<usize>::empty(),
            r.spec_datum() is None,
            r.spec_inputs() == Seq::<(InputKey, Seq<char>)>::empty(),
    {
        let r = PageState {
            selected: None,
            selected_datasets: Vec::new(),
            selected_datum: None,
            uncommited_inputs: Vec::new(),
        };
        proof {
            assert(r.spec_inputs() =~= Seq::<(InputKey, Seq<char>)>::empty());
        }
        r
    }
}

proof fn lemma_input_get_at(inputs: Inputs, key: InputKey, i: int)
    requires
        0 <= i < inputs.len(),
        inputs[i].0 == key,
        forall|j: int| 0 <= j < i ==> (#[trigger] inputs[j]).0 != key,
    ensures
        input_get(inputs, key) == Some(inputs[i].1),
    decreases i,
{
    if i == 0 {
    } else {
        assert(inputs.skip(1)[i - 1] == inputs[i]);
        assert forall|j: int| 0 <= j < i - 1 implies (#[trigger] inputs.skip(1)[j]).0 != key by {
            assert(inputs.skip(1)[j] == inputs[j + 1]);
        }
        lemma_input_get_at(inputs.skip(1), key, i - 1);
    }
}

proof fn lemma_input_get_none(inputs: Inputs, key: InputKey)
    requires
        forall|j: int| 0 <= j < inputs.len() ==> (#[trigger] inputs[j]).0 != key,
    ensures
        input_get(inputs, key) is None,
    decreases inputs.len(),
{
    if inputs.len() == 0 {
    } else {
        assert forall|j: int| 0 <= j < inputs.len() - 1 implies (#[trigger] inputs.skip(1)[j]).0
            != key by {
            assert(inputs.skip(1)[j] == inputs[j + 1]);
        }
        lemma_input_get_none(inputs.skip(1), key);
    }
}

proof fn lemma_input_set_at(inputs: Inputs, key: InputKey, v: Seq<char>, i: int)
    requires
        0 <= i < inputs.len(),
        inputs[i].0 == key,
        forall|j: int| 0 <= j < i ==> (#[trigger] inputs[j]).0 != key,
    ensures
        input_set(inputs, key, v) == inputs.update(i, (key, v)),
    decreases i,
{
    if i == 0 {
        assert(input_set(inputs, key, v) =~= inputs.update(0, (key, v)));
    } else {
        assert(inputs.skip(1)[i - 1] == inputs[i]);
        assert forall|j: int| 0 <= j < i - 1 implies (#[trigger] inputs.skip(1)[j]).0 != key by {
            assert(inputs.skip(1)[j] == inputs[j + 1]);
        }
        lemma_input_set_at(inputs.skip(1), key, v, i - 1);
        assert(seq![inputs[0]] + inputs.skip(1).update(i - 1, (key, v)) =~= inputs.update(
            i,
            (key, v),
        ));
    }
}

proof fn lemma_input_set_none(inputs: Inputs, key: InputKey, v: Seq<char>)
    requires
        forall|j: int| 0 <= j < inputs.len() ==> (#[trigger] inputs[j]).0 != key,
    ensures
        input_set(inputs, key, v) == inputs.push((key, v)),
    decreases inputs.len(),
{
    if inputs.len() == 0 {
        assert(input_set(inputs, key, v) =~= inputs.push((key, v)));
    } else {
        assert forall|j: int| 0 <= j < inputs.len() - 1 implies (#[trigger] inputs.skip(1)[j]).0
            != key by {
            assert(inputs.skip(1)[j] == inputs[j + 1]);
        }
        lemma_input_set_none(inputs.skip(1), key, v);
        assert(seq![inputs[0]] + inputs.skip(1).push((key, v)) =~= inputs.push((key, v)));
    }
}

proof fn lemma_input_remove_at(inputs: Inputs, key: InputKey, i: int)
    requires
        0 <= i < inputs.len(),
        inputs[i].0 == key,
        forall|j: int| 0 <= j < i ==> (#[trigger] inputs[j]).0 != key,
    ensures
        input_remove(inputs, key) == inputs.remove(i),
    decreases i,
{
    if i == 0 {
        assert(input_remove(inputs, key) =~= inputs.remove(0));
    } else {
        assert(inputs.skip(1)[i - 1] == inputs[i]);
        assert forall|j: int| 0 <= j < i - 1 implies (#[trigger] inputs.skip(1)[j]).0 != key by {
            assert(inputs.skip(1)[j] == inputs[j + 1]);
        }
        lemma_input_remove_at(inputs.skip(1), key, i - 1);
        assert(seq![inputs[0]] + inputs.skip(1).remove(i - 1) =~= inputs.remove(i));
    }
}

proof fn lemma_input_remove_none(inputs: Inputs, key: InputKey)
    requires
        forall|j: int| 0 <= j < inputs.len() ==> (#[trigger] inputs[j]).0 != key,
    ensures
        input_remove(inputs, key) == inputs,
    decreases inputs.len(),
{
    if inputs.len() == 0 {
    } else {
        assert forall|j: int| 0 <= j < inputs.len() - 1 implies (#[trigger] inputs.skip(1)[j]).0
            != key by {
            assert(inputs.skip(1)[j] == inputs[j + 1]);
        }
        lemma_input_remove_none(inputs.skip(1), key);
        assert(seq![inputs[0]] + inputs.skip(1) =~= inputs);
    }
}

/// Whether two tree paths hold the same indices.
fn paths_equal(a: &Vec<usize>, b: &Vec<usize>) -> (r: bool)
    ensures
        r == (a@ == b@),
{
    if a.len() != b.len() {
        proof {
            assert(a@ != b@);
        }
        return false;
    }
    let n = a.len();
    let mut i: usize = 0;
    while i < n
        invariant
            n == a@.len() == b@.len(),
            0 <= i <= n,
            forall|j: int| 0 <= j < i ==> a@[j] == b@[j],
        decreases n - i,
    {
        if a[i] != b[i] {
            return false;
        }
        i += 1;
    }
    proof {
        assert(a@ =~= b@);
    }
    true
}

impl PageState {
    /// The position of a buffer key, scanning in order.
    fn find_input(&self, id: &String, dataset_indices: &Vec<usize>) -> (r: Option<usize>)
        ensures
            match r {
                Some(i) => i < self.spec_inputs().len() && self.spec_inputs()[i as int].0 == (
                    id@,
                    dataset_indices@,
                ) && forall|j: int|
                    0 <= j < i ==> (#[trigger] self.spec_inputs()[j]).0 != (id@, dataset_indices@),
                None => forall|j: int|
                    0 <= j < self.spec_inputs().len() ==> (#[trigger] self.spec_inputs()[j]).0 != (
                        id@,
                        dataset_indices@,
                    ),
            },
    {
        let n = self.uncommited_inputs.len();
        let mut i: usize = 0;
        while i < n
            invariant
                n == self.uncommited_inputs@.len(),
                0 <= i <= n,
                forall|j: int|
                    0 <= j < i ==> (#[trigger] self.spec_inputs()[j]).0 != (id@, dataset_indices@),
            decreases n - i,
        {
            if self.uncommited_inputs[i].0.0.eq(id) && paths_equal(
                &self.uncommited_inputs[i].0.1,
                dataset_indices,
            ) {
                return Some(i);
            }
            proof {
                assert(self.spec_inputs()[i as int].0 == (
                    self.uncommited_inputs@[i as int].0.0@,
                    self.uncommited_inputs@[i as int].0.1@,
                ));
            }
            i += 1;
        }
        None
    }

    /// The uncommitted text for an element instance, if any.
    pub fn get_uncommited_input(&self, id: &String, dataset_indices: &Vec<usize>) -> (r: Option<
        &String,
    >)
        ensures
            match r {
                Some(s) => input_get(self.spec_inputs(), (id@, dataset_indices@)) == Some(s@),
                None => input_get(self.spec_inputs(), (id@, dataset_indices@)) is None,
            },
    {
        match self.find_input(id, dataset_indices) {
            Some(i) => {
                proof {
                    lemma_input_get_at(self.spec_inputs(), (id@, dataset_indices@), i as int);
                }
                Some(&self.uncommited_inputs[i].1)
            },
            None => {
                proof {
                    lemma_input_get_none(self.spec_inputs(), (id@, dataset_indices@));
                }
                None
            },
        }
    }

    /// Stores uncommitted text for an element instance, replacing any
    /// previous text.
    pub fn set_uncommited_input(&mut self, id: String, dataset_indices: &Vec<usize>, value: String)
        ensures
            final(self).spec_inputs() == input_set(
                old(self).spec_inputs(),
                (id@, dataset_indices@),
                value@,
            ),
            final(self).spec_selected() == old(self).spec_selected(),
            final(self).spec_datasets() == old(self).spec_datasets(),
            final(self).spec_datum() == old(self).spec_datum(),
    {
        let ghost key: InputKey = (id@, dataset_indices@);
        match self.find_input(&id, dataset_indices) {
            Some(i) => {
                proof {
                    lemma_input_set_at(old(self).spec_inputs(), key, value@, i as int);
                }
                let ghost before = self.spec_inputs();
                let path = crate::page::clone_path(dataset_indices);
                self.uncommited_inputs[i] = ((id, path), value);
                proof {
                    assert(self.spec_inputs() =~= before.update(i as int, (key, value@)));
                }
            },
            None => {
                proof {
                    lemma_input_set_none(old(self).spec_inputs(), key, value@);
                }
                let ghost before = self.spec_inputs();
                let path = crate::page::clone_path(dataset_indices);
                self.uncommited_inputs.push(((id, path), value));
                proof {
                    assert(self.spec_inputs() =~= before.push((key, value@)));
                }
            },
        }
    }

    /// Discards the uncommitted text for an element instance.
    pub fn clear_uncommitted_input(&mut self, id: &String, dataset_indices: &Vec<usize>)
        ensures
            final(self).spec_inputs() == input_remove(
                old(self).spec_inputs(),
                (id@, dataset_indices@),
            ),
            final(self).spec_selected() == old(self).spec_selected(),
            final(self).spec_datasets() == old(self).spec_datasets(),
            final(self).spec_datum() == old(self).spec_datum(),
    {
        let ghost key: InputKey = (id@, dataset_indices@);
        match self.find_input(id, dataset_indices) {
            Some(i) => {
                proof {
                    lemma_input_remove_at(old(self).spec_inputs(), key, i as int);
                }
                let ghost before = self.spec_inputs();
                let _ = self.uncommited_inputs.remove(i);
                proof {
                    assert(self.spec_inputs() =~= before.remove(i as int));
                }
            },
            None => {
                proof {
                    lemma_input_remove_none(old(self).spec_inputs(), key);
                }
            },
        }
    }

    /// Stores uncommitted text for the focused element instance; without
    /// a focus nothing changes.
    pub fn set_selected_uncommited_input(&mut self, value: String)
        ensures
            match old(self).spec_selected() {
                Some(id) => final(self).spec_inputs() == input_set(
                    old(self).spec_inputs(),
                    (id, old(self).spec_datasets()),
                    value@,
                ),
                None => *final(self) == *old(self),
            },
            final(self).spec_selected() == old(self).spec_selected(),
            final(self).spec_datasets() == old(self).spec_datasets(),
            final(self).spec_datum() == old(self).spec_datum(),
    {
        let id = match &self.selected {
            Some(s) => s.clone(),
            None => {
                return ;
            },
        };
        let path = crate::page::clone_path(&self.selected_datasets);
        self.set_uncommited_input(id, &path, value);
    }

    /// Takes (removes and returns) the focused element instance's
    /// uncommitted text.
    pub fn take_selected_uncommited_input_mut(&mut self) -> (r: Option<String>)
        ensures
            rel_take(*old(self), *final(self), match r {
                Some(t) => Some(t@),
                None => None,
            }),
            final(self).spec_selected() == old(self).spec_selected(),
            final(self).spec_datasets() == old(self).spec_datasets(),
            final(self).spec_datum() == old(self).spec_datum(),
            match old(self).spec_selected() {
                Some(id) => {
                    let key = (id, old(self).spec_datasets());
                    &&& final(self).spec_inputs() == input_remove(old(self).spec_inputs(), key)
                    &&& (match r {
                        Some(s) => input_get(old(self).spec_inputs(), key) == Some(s@),
                        None => input_get(old(self).spec_inputs(), key) is None,
                    })
                },
                None => *final(self) == *old(self) && r is None,
            },
    {
        let id = match &self.selected {
            Some(s) => s.clone(),
            None => {
                return None;
            },
        };
        let path = crate::page::clone_path(&self.selected_datasets);
        let ghost key: InputKey = (id@, path@);
        match self.find_input(&id, &path) {
            Some(i) => {
                proof {
                    lemma_input_get_at(old(self).spec_inputs(), key, i as int);
                    lemma_input_remove_at(old(self).spec_inputs(), key, i as int);
                }
                let ghost before = self.spec_inputs();
                let entry = self.uncommited_inputs.remove(i);
                proof {
                    assert(self.spec_inputs() =~= before.remove(i as int));
                }
                Some(entry.1)
            },
            None => {
                proof {
                    lemma_input_get_none(old(self).spec_inputs(), key);
                    lemma_input_remove_none(old(self).spec_inputs(), key);
                }
                None
            },
        }
    }

    /// Appends a character to the focused instance's uncommitted text,
    /// creating the buffer when absent; without a focus nothing changes.
    pub fn append_selected_char(&mut self, ch: char)
        ensures
            rel_append_char(*old(self), *final(self), ch),
            final(self).spec_selected() == old(self).spec_selected(),
            final(self).spec_datasets() == old(self).spec_datasets(),
            final(self).spec_datum() == old(self).spec_datum(),
            match old(self).spec_selected() {
                Some(id) => {
                    let key = (id, old(self).spec_datasets());
                    let before = match input_get(old(self).spec_inputs(), key) {
                        Some(s) => s,
                        None => Seq::<char>::empty(),
                    };
                    final(self).spec_inputs() == input_set(
                        old(self).spec_inputs(),
                        key,
                        before.push(ch),
                    )
                },
                None => *final(self) == *old(self),
            },
    {
        let id = match &self.selected {
            Some(s) => s.clone(),
            None => {
                return ;
            },
        };
        let path = crate::page::clone_path(&self.selected_datasets);
        let mut buf = match self.get_uncommited_input(&id, &path) {
            Some(s) => s.clone(),
            None => String::new(),
        };
        crate::text::push_char(&mut buf, ch);
        self.set_uncommited_input(id, &path, buf);
    }

    /// Appends pasted text to the focused instance's uncommitted text,
    /// creating the buffer when absent; without a focus nothing changes.
    pub fn append_selected_str(&mut self, pasted: &str)
        ensures
            rel_append_str(*old(self), *final(self), pasted@),
            final(self).spec_selected() == old(self).spec_selected(),
            final(self).spec_datasets() == old(self).spec_datasets(),
            final(self).spec_datum() == old(self).spec_datum(),
            match old(self).spec_selected() {
                Some(id) => {
                    let key = (id, old(self).spec_datasets());
                    let before = match input_get(old(self).spec_inputs(), key) {
                        Some(s) => s,
                        None => Seq::<char>::empty(),
                    };
                    final(self).spec_inputs() == input_set(
                        old(self).spec_inputs(),
                        key,
                        before + pasted@,
                    )
                },
                None => *final(self) == *old(self),
            },
    {
        let id = match &self.selected {
            Some(s) => s.clone(),
            None => {
                return ;
            },
        };
        let path = crate::page::clone_path(&self.selected_datasets);
        let mut buf = match self.get_uncommited_input(&id, &path) {
            Some(s) => s.clone(),
            None => String::new(),
        };
        buf.append(pasted);
        self.set_uncommited_input(id, &path, buf);
    }

    /// Removes the last character of the focused instance's uncommitted
    /// text, if the buffer exists; an empty buffer stays empty and an
    /// absent buffer is not created.
    pub fn backspace_selected(&mut self)
        ensures
            rel_backspace(*old(self), *final(self)),
            final(self).spec_selected() == old(self).spec_selected(),
            final(self).spec_datasets() == old(self).spec_datasets(),
            final(self).spec_datum() == old(self).spec_datum(),
            match old(self).spec_selected() {
                Some(id) => {
                    let key = (id, old(self).spec_datasets());
                    match input_get(old(self).spec_inputs(), key) {
                        Some(s) => final(self).spec_inputs() == input_set(
                            old(self).spec_inputs(),
                            key,
                            if s.len() > 0 {
                                s.drop_last()
                            } else {
                                s
                            },
                        ),
                        None => *final(self) == *old(self),
                    }
                },
                None => *final(self) == *old(self),
            },
    {
        let id = match &self.selected {
            Some(s) => s.clone(),
            None => {
                return ;
            },
        };
        let path = crate::page::clone_path(&self.selected_datasets);
        let mut buf = match self.get_uncommited_input(&id, &path) {
            Some(s) => s.clone(),
            None => {
                return ;
            },
        };
        let _ = crate::text::pop_char(&mut buf);
        self.set_uncommited_input(id, &path, buf);
    }

    /// Moves the focus one step in the requested direction, or derives a
    /// first focus. At a document boundary — no ancestor yields a match
    /// up to and including the root — the focus is left unchanged. A
    /// traversal that meets a `Grid` fails explicitly and changes
    /// nothing.
    pub fn select_next(&mut self, page: &Page, data: &DatasetStore, direction: SelectDirection) -> (r:
        Result<(), NavError>)
        requires
            page.wf(),
        ensures
            rel_select_next(*old(self), *final(self), page.spec_root(), *data, direction, r is Ok),
            final(self).spec_inputs() == old(self).spec_inputs(),
            ({
                let nf = spec_select_next(
                    page.spec_root(),
                    *data,
                    old(self).spec_selected(),
                    old(self).spec_datasets(),
                    direction,
                );
                match r {
                    Ok(u) => match nf {
                        NavFind::Found(hit) => {
                            &&& final(self).spec_selected() == Some(hit.id)
                            &&& final(self).spec_datasets() == hit.tail
                            &&& final(self).spec_datum() == hit.datum
                        },
                        NavFind::NotFound => *final(self) == *old(self),
                        NavFind::Unsupported => false,
                    },
                    Err(_) => nf is Unsupported && *final(self) == *old(self),
                }
            }),
    {
        let focus_id = match &self.selected {
            Some(s) => Some(s.clone()),
            None => None,
        };
        let outcome: Result<Option<(String, Vec<usize>, Option<DatasetData>)>, NavError> = match &focus_id {
            None => descend(page.root(), None, data),
            Some(id) => {
                match page.get_path(id) {
                    None => {
                        proof {
                            if has_elem_with_id(page.spec_root(), id@) {
                                let qc = choose|q: Seq<usize>|
                                    elem_at(page.spec_root(), q) is Some && (#[trigger] elem_at(
                                        page.spec_root(),
                                        q,
                                    ))->0.id == Some(id@);
                                assert(false);
                            }
                        }
                        descend(page.root(), None, data)
                    },
                    Some(path) => {
                        proof {
                            assert(has_elem_with_id(page.spec_root(), id@));
                            let qc = choose|q: Seq<usize>|
                                elem_at(page.spec_root(), q) is Some && (#[trigger] elem_at(
                                    page.spec_root(),
                                    q,
                                ))->0.id == Some(id@);
                            crate::page::lemma_page_id_unique(*page, path@, qc);
                            assert(target_path(page.spec_root(), id@) == Some(path@));
                            assert(path@.skip(0) =~= path@);
                            assert(self.selected_datasets@.skip(0) =~= self.selected_datasets@);
                        }
                        match replay_scan(
                            page.root(),
                            data,
                            &path,
                            0,
                            &self.selected_datasets,
                            0,
                            None,
                            direction,
                        ) {
                            Ok(ReplayStep::Stale) => descend(page.root(), None, data),
                            Ok(ReplayStep::Still) => Ok(None),
                            Ok(ReplayStep::Moved(mid, mtail, mdatum)) => Ok(
                                Some((mid, mtail, mdatum)),
                            ),
                            Err(err) => Err(err),
                        }
                    },
                }
            },
        };
        match outcome {
            Ok(Some((id, tail, dmv))) => {
                self.selected = Some(id);
                self.selected_datasets = tail;
                self.selected_datum = dmv;
                Ok(())
            },
            Ok(None) => Ok(()),
            Err(err) => Err(err),
        }
    }
}

} // verus!
