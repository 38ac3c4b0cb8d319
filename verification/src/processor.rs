//! The model processor: the state machine that owns the page set, the
//! dataset store and the per-page states, consumes input events and
//! decoded protocol messages, and says what to render and what to send
//! back to the host.

use vstd::prelude::*;

use crate::dataset::{DatasetData, DatasetStore};
use crate::element::{elem_at, spec_resolve_kind, ElemModel, Element, ElementKind, KindModel};
use crate::messages::{InputEvent, KeyCode, KeyEventKind, ModelUpdate, UiInput, UiMessage};
use crate::navigate::{NavError, NavFind, SelectDirection};
use crate::page::{has_elem_with_id, target_path, ElementUpdate, Page};
use crate::page_list::{find_page, PageList};
use crate::page_state::{
    fresh_state, input_get, rel_append_char, rel_append_str, rel_backspace, rel_select_next,
    rel_take, PageState,
};

verus! {

/// Which of the two screens the client is in.
pub enum ModelView {
    List,
    Page,
}

/// The first position holding the state of the given page id.
pub open spec fn state_find(states: Seq<(Seq<char>, PageState)>, id: Seq<char>) -> Option<int>
    decreases states.len(),
{
    if states.len() == 0 {
        None
    } else if states[0].0 == id {
        Some(0)
    } else {
        match state_find(states.skip(1), id) {
            Some(i) => Some(i + 1),
            None => None,
        }
    }
}

proof fn lemma_state_find_at(states: Seq<(Seq<char>, PageState)>, id: Seq<char>, i: int)
    requires
        0 <= i < states.len(),
        states[i].0 == id,
        forall|j: int| 0 <= j < i ==> (#[trigger] states[j]).0 != id,
    ensures
        state_find(states, id) == Some(i),
    decreases i,
{
    if i == 0 {
    } else {
        assert(states.skip(1)[i - 1] == states[i]);
        assert forall|j: int| 0 <= j < i - 1 implies (#[trigger] states.skip(1)[j]).0 != id by {
            assert(states.skip(1)[j] == states[j + 1]);
        }
        lemma_state_find_at(states.skip(1), id, i - 1);
    }
}

proof fn lemma_state_find_none(states: Seq<(Seq<char>, PageState)>, id: Seq<char>)
    requires
        forall|j: int| 0 <= j < states.len() ==> (#[trigger] states[j]).0 != id,
    ensures
        state_find(states, id) is None,
    decreases states.len(),
{
    if states.len() == 0 {
    } else {
        assert forall|j: int| 0 <= j < states.len() - 1 implies (#[trigger] states.skip(1)[j]).0
            != id by {
            assert(states.skip(1)[j] == states[j + 1]);
        }
        lemma_state_find_none(states.skip(1), id);
    }
}

proof fn lemma_state_find_none_rev(states: Seq<(Seq<char>, PageState)>, id: Seq<char>)
    requires
        state_find(states, id) is None,
    ensures
        forall|j: int| 0 <= j < states.len() ==> (#[trigger] states[j]).0 != id,
    decreases states.len(),
{
    if states.len() == 0 {
    } else {
        lemma_state_find_none_rev(states.skip(1), id);
        assert forall|j: int| 0 <= j < states.len() implies (#[trigger] states[j]).0 != id by {
            if j > 0 {
                assert(states.skip(1)[j - 1] == states[j]);
            }
        }
    }
}

/// How the state table changes when the state of one page id is touched:
/// an existing entry is rewritten in place by the relation, or a fresh
/// state is put through it and appended; every other entry stays.
pub open spec fn states_touched(
    olds: Seq<(Seq<char>, PageState)>,
    news: Seq<(Seq<char>, PageState)>,
    id: Seq<char>,
    rel: spec_fn(PageState, PageState) -> bool,
) -> bool {
    match state_find(olds, id) {
        Some(i) => {
            &&& news.len() == olds.len()
            &&& forall|j: int| 0 <= j < olds.len() && j != i ==> news[j] == #[trigger] olds[j]
            &&& news[i].0 == olds[i].0
            &&& rel(olds[i].1, news[i].1)
        },
        None => exists|st0: PageState, st1: PageState|
            fresh_state(st0) && #[trigger] rel(st0, st1) && news == olds.push((id, st1)),
    }
}

/// One outbound text submission.
pub open spec fn msg_is_text_for(
    m: UiMessage,
    pid: Seq<char>,
    eid: Seq<char>,
    dsi: Seq<usize>,
    text: Seq<char>,
) -> bool {
    match m {
        UiMessage::InputFor(p, e, d, inp) => p@ == pid && e@ == eid && d@ == dsi && match inp {
            UiInput::Text(t) => t@ == text,
            UiInput::Click => false,
        },
        _ => false,
    }
}

/// One outbound click submission.
pub open spec fn msg_is_click_for(
    m: UiMessage,
    pid: Seq<char>,
    eid: Seq<char>,
    dsi: Seq<usize>,
) -> bool {
    match m {
        UiMessage::InputFor(p, e, d, inp) => p@ == pid && e@ == eid && d@ == dsi && inp is Click,
        _ => false,
    }
}

/// What Enter does to the focused element of a page in page view: a
/// focused text entry gives up its uncommitted text as a text
/// submission; a focused button emits a click submission; anything else
/// (no focus, a vanished id, or another kind) does nothing.
pub open spec fn rel_enter_commit(
    page: Page,
    a: PageState,
    b: PageState,
    msgs: Seq<UiMessage>,
) -> bool {
    match a.spec_selected() {
        None => b == a && msgs.len() == 0,
        Some(id) => match target_path(page.spec_root(), id) {
            None => b == a && msgs.len() == 0,
            Some(q) => {
                let el = elem_at(page.spec_root(), q)->0;
                match spec_resolve_kind(el.kind, a.spec_datum()) {
                    KindModel::TextEntry => {
                        let key = (id, a.spec_datasets());
                        match input_get(a.spec_inputs(), key) {
                            Some(text) => rel_take(a, b, Some(text)) && msgs.len() == 1
                                && msg_is_text_for(
                                msgs[0],
                                page.spec_id(),
                                id,
                                a.spec_datasets(),
                                text,
                            ),
                            None => rel_take(a, b, None) && msgs.len() == 0,
                        }
                    },
                    KindModel::Button => b == a && msgs.len() == 1 && msg_is_click_for(
                        msgs[0],
                        page.spec_id(),
                        id,
                        a.spec_datasets(),
                    ),
                    _ => b == a && msgs.len() == 0,
                }
            },
        },
    }
}

/// What the renderer should draw next.
pub enum RenderTarget {
    PageList,
    Page,
}

/// The orchestrating state machine. It is the sole mutator of the page
/// set, the dataset store and the page states; rendering and transport
/// stay outside and exchange plain values with it.
pub struct ModelProcessor {
    view: ModelView,
    page_set: PageList,
    page_states: Vec<(String, PageState)>,
    datasets: DatasetStore,
    exit: bool,
}

impl ModelProcessor {
    /// Which screen is showing.
    pub closed spec fn spec_view(self) -> ModelView {
        self.view
    }

    /// The page set.
    pub closed spec fn spec_page_set(self) -> PageList {
        self.page_set
    }

    /// The per-page states, in creation order.
    pub closed spec fn spec_states(self) -> Seq<(Seq<char>, PageState)> {
        Seq::new(
            self.page_states@.len(),
            |i: int| (self.page_states@[i].0@, self.page_states@[i].1),
        )
    }

    /// The dataset store.
    pub closed spec fn spec_store(self) -> DatasetStore {
        self.datasets
    }

    /// Whether the loop should stop.
    pub closed spec fn spec_exit(self) -> bool {
        self.exit
    }

    /// The page set's cursor stays clamped.
    pub closed spec fn wf(self) -> bool {
        self.page_set.wf()
    }

    /// A processor before any message: list view, nothing loaded.
    pub fn new() -> (r: ModelProcessor)
        ensures
            r.wf(),
            r.spec_view() is List,
            r.spec_page_set().spec_pages().len() == 0,
            r.spec_states().len() == 0,
            forall|p: Seq<char>| r.spec_store().spec_rows(p) is None,
            !r.spec_exit(),
    {
        let r = ModelProcessor {
            view: ModelView::List,
            page_set: PageList::new(),
            page_states: Vec::new(),
            datasets: DatasetStore::new(),
            exit: false,
        };
        proof {
            assert(r.spec_states() =~= Seq::<(Seq<char>, PageState)>::empty());
        }
        r
    }

    /// Whether the loop should stop.
    pub fn should_exit(&self) -> (r: bool)
        ensures
            r == self.spec_exit(),
    {
        self.exit
    }

    /// The page set, for rendering the page list.
    pub fn page_set(&self) -> (r: &PageList)
        ensures
            *r == self.spec_page_set(),
    {
        &self.page_set
    }

    /// The dataset store, for rendering bound content.
    pub fn datasets(&self) -> (r: &DatasetStore)
        ensures
            *r == self.spec_store(),
    {
        &self.datasets
    }

    /// The selected page, if any.
    pub fn get_current_page(&self) -> (r: Option<&Page>)
        requires
            self.wf(),
        ensures
            match r {
                Some(p) => self.spec_page_set().spec_pages().len() > 0 && *p == self.spec_page_set(
                ).spec_pages()[self.spec_page_set().spec_selected()],
                None => self.spec_page_set().spec_pages().len() == 0,
            },
    {
        self.page_set.selected_page()
    }

    /// The selected page, as the manager the navigation works against.
    pub fn get_current_mgr(&self) -> (r: Option<&Page>)
        requires
            self.wf(),
        ensures
            match r {
                Some(p) => self.spec_page_set().spec_pages().len() > 0 && *p == self.spec_page_set(
                ).spec_pages()[self.spec_page_set().spec_selected()],
                None => self.spec_page_set().spec_pages().len() == 0,
            },
    {
        self.page_set.selected_page()
    }

    /// The state recorded for a page id, if one exists yet.
    pub fn get_page_state(&self, id: &String) -> (r: Option<&PageState>)
        ensures
            match r {
                Some(st) => state_find(self.spec_states(), id@) is Some && *st == self.spec_states(
                )[state_find(self.spec_states(), id@)->0].1,
                None => state_find(self.spec_states(), id@) is None,
            },
    {
        let n = self.page_states.len();
        let mut i: usize = 0;
        while i < n
            invariant
                n == self.page_states@.len(),
                0 <= i <= n,
                forall|j: int| 0 <= j < i ==> (#[trigger] self.spec_states()[j]).0 != id@,
            decreases n - i,
        {
            if self.page_states[i].0.eq(id) {
                proof {
                    assert(self.spec_states()[i as int].0 == id@);
                    lemma_state_find_at(self.spec_states(), id@, i as int);
                }
                return Some(&self.page_states[i].1);
            }
            proof {
                assert(self.spec_states()[i as int].0 == self.page_states@[i as int].0@);
            }
            i += 1;
        }
        proof {
            lemma_state_find_none(self.spec_states(), id@);
        }
        None
    }

    /// The position of the state for a page id, creating a fresh state
    /// when the page was never touched.
    fn ensure_state_index(&mut self, id: &String) -> (i: usize)
        ensures
            final(self).spec_view() == old(self).spec_view(),
            final(self).spec_page_set() == old(self).spec_page_set(),
            final(self).spec_store() == old(self).spec_store(),
            final(self).spec_exit() == old(self).spec_exit(),
            (i as int) < final(self).spec_states().len(),
            final(self).spec_states()[i as int].0 == id@,
            match state_find(old(self).spec_states(), id@) {
                Some(j) => final(self).spec_states() == old(self).spec_states() && i as int == j,
                None => i as int == old(self).spec_states().len() && fresh_state(
                    final(self).spec_states()[i as int].1,
                ) && final(self).spec_states() == old(self).spec_states().push(
                    (id@, final(self).spec_states()[i as int].1),
                ),
            },
    {
        let n = self.page_states.len();
        let mut i: usize = 0;
        while i < n
            invariant
                n == self.page_states@.len(),
                0 <= i <= n,
                self == old(self),
                forall|j: int| 0 <= j < i ==> (#[trigger] self.spec_states()[j]).0 != id@,
            decreases n - i,
        {
            if self.page_states[i].0.eq(id) {
                proof {
                    assert(self.spec_states()[i as int].0 == id@);
                    lemma_state_find_at(self.spec_states(), id@, i as int);
                }
                return i;
            }
            proof {
                assert(self.spec_states()[i as int].0 == self.page_states@[i as int].0@);
            }
            i += 1;
        }
        proof {
            lemma_state_find_none(self.spec_states(), id@);
        }
        let ghost before = self.spec_states();
        self.page_states.push((id.clone(), PageState::default()));
        proof {
            assert(self.spec_states() =~= before.push(
                (id@, self.spec_states()[before.len() as int].1),
            ));
        }
        n
    }

    /// Replaces the whole page set; the cursor rests at 0.
    pub fn set_pages(&mut self, pages: Vec<Page>)
        requires
            old(self).wf(),
            forall|i: int| 0 <= i < pages@.len() ==> (#[trigger] pages@[i]).wf(),
        ensures
            final(self).wf(),
            final(self).spec_page_set().spec_pages() == pages@,
            final(self).spec_page_set().spec_selected() == 0,
            final(self).spec_view() == old(self).spec_view(),
            final(self).spec_states() == old(self).spec_states(),
            final(self).spec_store() == old(self).spec_store(),
            final(self).spec_exit() == old(self).spec_exit(),
    {
        self.page_set.clear();
        self.page_set.add_pages(pages);
        proof {
            assert(final(self).spec_page_set().spec_pages() =~= pages@);
        }
    }

    /// Replaces the page carrying the new page's id, or appends it.
    pub fn upsert_page(&mut self, page: Page)
        requires
            old(self).wf(),
            page.wf(),
        ensures
            final(self).wf(),
            ({
                let old_pages = old(self).spec_page_set().spec_pages();
                match find_page(old_pages, page.spec_id()) {
                    Some(i) => final(self).spec_page_set().spec_pages() == old_pages.update(
                        i,
                        page,
                    ),
                    None => final(self).spec_page_set().spec_pages() == old_pages.push(page),
                }
            }),
            final(self).spec_page_set().spec_selected() == old(self).spec_page_set().spec_selected(),
            final(self).spec_view() == old(self).spec_view(),
            final(self).spec_states() == old(self).spec_states(),
            final(self).spec_store() == old(self).spec_store(),
            final(self).spec_exit() == old(self).spec_exit(),
    {
        self.page_set.upsert_page(page);
    }

    /// Moves the page-list cursor one page back, stopping at the first.
    pub fn select_prev_page(&mut self)
        requires
            old(self).wf(),
        ensures
            final(self).wf(),
            final(self).spec_page_set().spec_pages() == old(self).spec_page_set().spec_pages(),
            final(self).spec_page_set().spec_selected() == if old(self).spec_page_set().spec_selected() > 0 {
                old(self).spec_page_set().spec_selected() - 1
            } else {
                0
            },
            final(self).spec_view() == old(self).spec_view(),
            final(self).spec_states() == old(self).spec_states(),
            final(self).spec_store() == old(self).spec_store(),
            final(self).spec_exit() == old(self).spec_exit(),
    {
        self.page_set.select_prev_page();
    }

    /// Moves the page-list cursor one page forward, stopping at the last.
    pub fn select_next_page(&mut self)
        requires
            old(self).wf(),
        ensures
            final(self).wf(),
            final(self).spec_page_set().spec_pages() == old(self).spec_page_set().spec_pages(),
            final(self).spec_page_set().spec_selected() == if old(self).spec_page_set().spec_selected() + 1 < old(self).spec_page_set().spec_pages().len() {
                old(self).spec_page_set().spec_selected() + 1
            } else {
                old(self).spec_page_set().spec_selected()
            },
            final(self).spec_view() == old(self).spec_view(),
            final(self).spec_states() == old(self).spec_states(),
            final(self).spec_store() == old(self).spec_store(),
            final(self).spec_exit() == old(self).spec_exit(),
    {
        self.page_set.select_next_page();
    }

    /// Picks what to draw: the page view falls back to the list when no
    /// page is selected any more.
    pub fn render_view(&mut self) -> (r: RenderTarget)
        requires
            old(self).wf(),
        ensures
            final(self).wf(),
            final(self).spec_page_set() == old(self).spec_page_set(),
            final(self).spec_states() == old(self).spec_states(),
            final(self).spec_store() == old(self).spec_store(),
            final(self).spec_exit() == old(self).spec_exit(),
            match old(self).spec_view() {
                ModelView::List => r is PageList && final(self).spec_view() is List,
                ModelView::Page => {
                    if old(self).spec_page_set().spec_pages().len() > 0 {
                        r is Page && final(self).spec_view() is Page
                    } else {
                        r is PageList && final(self).spec_view() is List
                    }
                },
            },
    {
        match self.view {
            ModelView::List => RenderTarget::PageList,
            ModelView::Page => {
                if self.page_set.len() > 0 {
                    RenderTarget::Page
                } else {
                    self.view = ModelView::List;
                    RenderTarget::PageList
                }
            },
        }
    }
}

impl ModelProcessor {
    /// The selected page together with its state, created fresh on first
    /// touch; nothing when no page is selected.
    pub fn get_current_mgr_state(&mut self) -> (r: Option<(&Page, &PageState)>)
        requires
            old(self).wf(),
        ensures
            final(self).wf(),
            final(self).spec_view() == old(self).spec_view(),
            final(self).spec_page_set() == old(self).spec_page_set(),
            final(self).spec_store() == old(self).spec_store(),
            final(self).spec_exit() == old(self).spec_exit(),
            match r {
                Some((pg, st)) => {
                    &&& old(self).spec_page_set().spec_pages().len() > 0
                    &&& *pg == old(self).spec_page_set().spec_pages()[old(self).spec_page_set().spec_selected()]
                    &&& states_touched(
                        old(self).spec_states(),
                        final(self).spec_states(),
                        pg.spec_id(),
                        |a: PageState, b: PageState| b == a,
                    )
                    &&& state_find(final(self).spec_states(), pg.spec_id()) is Some
                    &&& *st == final(self).spec_states()[state_find(
                        final(self).spec_states(),
                        pg.spec_id(),
                    )->0].1
                },
                None => old(self).spec_page_set().spec_pages().len() == 0 && final(self).spec_states()
                    == old(self).spec_states(),
            },
    {
        let pid = match self.page_set.selected_page() {
            Some(pg) => pg.id().clone(),
            None => {
                return None;
            },
        };
        let i = self.ensure_state_index(&pid);
        proof {
            let olds = old(self).spec_states();
            let news = self.spec_states();
            match state_find(olds, pid@) {
                Some(j) => {
                    assert(state_find(news, pid@) == Some(j));
                    assert((|a: PageState, b: PageState| b == a)(news[j].1, news[j].1));
                },
                None => {
                    lemma_state_find_none_rev(olds, pid@);
                    assert forall|j: int| 0 <= j < i implies (#[trigger] news[j]).0 != pid@ by {
                        assert(news[j] == olds[j]);
                    }
                    lemma_state_find_at(news, pid@, i as int);
                    let st1 = news[i as int].1;
                    assert(fresh_state(st1));
                    assert((|a: PageState, b: PageState| b == a)(st1, st1));
                    assert(news == olds.push((pid@, st1)));
                },
            }
        }
        let pg = match self.page_set.selected_page() {
            Some(pg) => pg,
            None => {
                proof {
                    assert(false);
                }
                return None;
            },
        };
        Some((pg, &self.page_states[i].1))
    }

    /// Consumes one update: terminal events drive focus, buffers and the
    /// two views; protocol updates go to the matching store. The returned
    /// messages travel back to the host. A directional key whose
    /// traversal meets a `Grid` fails explicitly and changes no state.
    pub fn update(&mut self, upd: ModelUpdate) -> (r: Result<Vec<UiMessage>, NavError>)
        requires
            old(self).wf(),
            match upd {
                ModelUpdate::SetPages(pages) => forall|i: int|
                    0 <= i < pages@.len() ==> (#[trigger] pages@[i]).wf(),
                ModelUpdate::SetPage(page) => page.wf(),
                _ => true,
            },
        ensures
            final(self).wf(),
            match upd {
                ModelUpdate::SetPages(pages) => {
                    &&& r is Ok && (r->Ok_0)@.len() == 0
                    &&& final(self).spec_page_set().spec_pages() == pages@
                    &&& final(self).spec_page_set().spec_selected() == 0
                    &&& final(self).spec_view() == old(self).spec_view()
                    &&& final(self).spec_states() == old(self).spec_states()
                    &&& final(self).spec_store() == old(self).spec_store()
                    &&& final(self).spec_exit() == old(self).spec_exit()
                },
                ModelUpdate::SetPage(page) => {
                    &&& r is Ok && (r->Ok_0)@.len() == 0
                    &&& ({
                        let old_pages = old(self).spec_page_set().spec_pages();
                        match find_page(old_pages, page.spec_id()) {
                            Some(i) => final(self).spec_page_set().spec_pages()
                                == old_pages.update(i, page),
                            None => final(self).spec_page_set().spec_pages() == old_pages.push(
                                page,
                            ),
                        }
                    })
                    &&& final(self).spec_page_set().spec_selected() == old(self).spec_page_set().spec_selected()
                    &&& final(self).spec_view() == old(self).spec_view()
                    &&& final(self).spec_states() == old(self).spec_states()
                    &&& final(self).spec_store() == old(self).spec_store()
                    &&& final(self).spec_exit() == old(self).spec_exit()
                },
                ModelUpdate::UpdateElementsFor(id, patches) => {
                    &&& r is Ok && (r->Ok_0)@.len() == 0
                    &&& final(self).spec_page_set().spec_selected() == old(self).spec_page_set().spec_selected()
                    &&& final(self).spec_page_set().spec_pages().len() == old(self).spec_page_set().spec_pages().len()
                    &&& ({
                        let old_pages = old(self).spec_page_set().spec_pages();
                        match find_page(old_pages, id@) {
                            Some(i) => {
                                &&& forall|j: int|
                                    0 <= j < old_pages.len() && j != i ==> final(self).spec_page_set().spec_pages()[j] == #[trigger] old_pages[j]
                                &&& final(self).spec_page_set().spec_pages()[i].spec_id()
                                    == old_pages[i].spec_id()
                                &&& final(self).spec_page_set().spec_pages()[i].spec_name()
                                    == old_pages[i].spec_name()
                                &&& final(self).spec_page_set().spec_pages()[i].spec_root()
                                    == crate::page::apply_patches(
                                    old_pages[i].spec_root(),
                                    crate::page::update_views(patches@),
                                    patches@.len() as int,
                                )
                            },
                            None => final(self).spec_page_set().spec_pages() == old_pages,
                        }
                    })
                    &&& final(self).spec_view() == old(self).spec_view()
                    &&& final(self).spec_states() == old(self).spec_states()
                    &&& final(self).spec_store() == old(self).spec_store()
                    &&& final(self).spec_exit() == old(self).spec_exit()
                },
                ModelUpdate::UpdateDataset(path, rows) => {
                    &&& r is Ok && (r->Ok_0)@.len() == 0
                    &&& final(self).spec_store().spec_rows(path@) == Some(rows@)
                    &&& forall|p: Seq<char>|
                        p != path@ ==> #[trigger] final(self).spec_store().spec_rows(p) == old(self).spec_store().spec_rows(p)
                    &&& final(self).spec_view() == old(self).spec_view()
                    &&& final(self).spec_page_set() == old(self).spec_page_set()
                    &&& final(self).spec_states() == old(self).spec_states()
                    &&& final(self).spec_exit() == old(self).spec_exit()
                },
                ModelUpdate::Event(ev) => match ev {
                    InputEvent::Key(code, kind) => {
                        if kind is Release {
                            r is Ok && (r->Ok_0)@.len() == 0 && *final(self) == *old(self)
                        } else {
                            match code {
                                KeyCode::Backspace => r is Ok && (r->Ok_0)@.len() == 0
                                    && ModelProcessor::touched_in_page_view(
                                    *old(self),
                                    *final(self),
                                    |a: PageState, b: PageState| rel_backspace(a, b),
                                ),
                                KeyCode::Enter => match old(self).spec_view() {
                                    ModelView::List => r is Ok && (r->Ok_0)@.len() == 0 && final(self).spec_view() == (if old(self).spec_page_set().spec_pages().len() > 0 {
                                        ModelView::Page
                                    } else {
                                        ModelView::List
                                    }) && final(self).spec_page_set() == old(self).spec_page_set()
                                        && final(self).spec_states() == old(self).spec_states()
                                        && final(self).spec_store() == old(self).spec_store()
                                        && final(self).spec_exit() == old(self).spec_exit(),
                                    ModelView::Page => r is Ok && ModelProcessor::enter_commit_step(
                                        *old(self),
                                        *final(self),
                                        (r->Ok_0)@,
                                    ),
                                },
                                KeyCode::Left => ModelProcessor::direction_step(
                                    *old(self),
                                    *final(self),
                                    SelectDirection::Left,
                                    r,
                                ),
                                KeyCode::Right => ModelProcessor::direction_step(
                                    *old(self),
                                    *final(self),
                                    SelectDirection::Right,
                                    r,
                                ),
                                KeyCode::Up => ModelProcessor::direction_step(
                                    *old(self),
                                    *final(self),
                                    SelectDirection::Up,
                                    r,
                                ),
                                KeyCode::Down => ModelProcessor::direction_step(
                                    *old(self),
                                    *final(self),
                                    SelectDirection::Down,
                                    r,
                                ),
                                KeyCode::Char(ch) => match old(self).spec_view() {
                                    ModelView::List => r is Ok && (r->Ok_0)@.len() == 0 && final(self).spec_exit() == (ch == 'q' || old(self).spec_exit()) && final(self).spec_view() == old(self).spec_view() && final(self).spec_page_set() == old(self).spec_page_set() && final(self).spec_states() == old(self).spec_states() && final(self).spec_store() == old(self).spec_store(),
                                    ModelView::Page => r is Ok && (r->Ok_0)@.len() == 0
                                        && ModelProcessor::touched_in_page_view(
                                        *old(self),
                                        *final(self),
                                        |a: PageState, b: PageState| rel_append_char(a, b, ch),
                                    ),
                                },
                                KeyCode::Esc => r is Ok && (r->Ok_0)@.len() == 0 && final(self).spec_view() == (if old(self).spec_view() is Page {
                                    ModelView::List
                                } else {
                                    old(self).spec_view()
                                }) && final(self).spec_page_set() == old(self).spec_page_set()
                                    && final(self).spec_states() == old(self).spec_states()
                                    && final(self).spec_store() == old(self).spec_store()
                                    && final(self).spec_exit() == old(self).spec_exit(),
                                KeyCode::Other => r is Ok && (r->Ok_0)@.len() == 0 && *final(self)
                                    == *old(self),
                            }
                        }
                    },
                    InputEvent::Paste(s) => match old(self).spec_view() {
                        ModelView::Page => r is Ok && (r->Ok_0)@.len() == 0 && ModelProcessor::touched_in_page_view(
                            *old(self),
                            *final(self),
                            |a: PageState, b: PageState| rel_append_str(a, b, s@),
                        ),
                        ModelView::List => r is Ok && (r->Ok_0)@.len() == 0 && *final(self) == *old(self),
                    },
                    _ => r is Ok && (r->Ok_0)@.len() == 0 && *final(self) == *old(self),
                },
            },
    {
        match upd {
            ModelUpdate::SetPages(pages) => {
                self.page_set.clear();
                self.page_set.add_pages(pages);
                proof {
                    assert(self.spec_page_set().spec_pages() =~= pages@);
                }
                Ok(Vec::new())
            },
            ModelUpdate::SetPage(page) => {
                self.page_set.upsert_page(page);
                Ok(Vec::new())
            },
            ModelUpdate::UpdateElementsFor(id, patches) => {
                self.page_set.apply_changes_for(&id, patches);
                Ok(Vec::new())
            },
            ModelUpdate::UpdateDataset(path, rows) => {
                self.datasets.insert(path, rows);
                Ok(Vec::new())
            },
            ModelUpdate::Event(ev) => {
                match ev {
                    InputEvent::Key(code, kind) => {
                        if matches!(kind, KeyEventKind::Release) {
                            return Ok(Vec::new());
                        }
                        match code {
                            KeyCode::Backspace => {
                                if matches!(self.view, ModelView::Page) {
                                    self.touch_selected_backspace();
                                }
                                Ok(Vec::new())
                            },
                            KeyCode::Enter => {
                                match self.view {
                                    ModelView::List => {
                                        if self.page_set.len() > 0 {
                                            self.view = ModelView::Page;
                                        }
                                        Ok(Vec::new())
                                    },
                                    ModelView::Page => Ok(self.commit_selected()),
                                }
                            },
                            KeyCode::Left => self.handle_direction(SelectDirection::Left),
                            KeyCode::Right => self.handle_direction(SelectDirection::Right),
                            KeyCode::Up => self.handle_direction(SelectDirection::Up),
                            KeyCode::Down => self.handle_direction(SelectDirection::Down),
                            KeyCode::Char(ch) => {
                                match self.view {
                                    ModelView::List => {
                                        if ch == 'q' {
                                            self.exit = true;
                                        }
                                        Ok(Vec::new())
                                    },
                                    ModelView::Page => {
                                        self.touch_selected_char(ch);
                                        Ok(Vec::new())
                                    },
                                }
                            },
                            KeyCode::Esc => {
                                if matches!(self.view, ModelView::Page) {
                                    self.view = ModelView::List;
                                }
                                Ok(Vec::new())
                            },
                            KeyCode::Other => Ok(Vec::new()),
                        }
                    },
                    InputEvent::Paste(s) => {
                        if matches!(self.view, ModelView::Page) {
                            self.touch_selected_paste(&s);
                        }
                        Ok(Vec::new())
                    },
                    _ => Ok(Vec::new()),
                }
            },
        }
    }

    /// Applies a backspace to the selected page's state, in page view.
    fn touch_selected_backspace(&mut self)
        requires
            old(self).wf(),
            old(self).spec_view() is Page,
        ensures
            final(self).wf(),
            ModelProcessor::touched_in_page_view(
                *old(self),
                *final(self),
                |a: PageState, b: PageState| rel_backspace(a, b),
            ),
    {
        let pid = match self.page_set.selected_page() {
            Some(pg) => pg.id().clone(),
            None => {
                return ;
            },
        };
        let ghost olds = self.spec_states();
        let i = self.ensure_state_index(&pid);
        let ghost mids = self.spec_states();
        let mut entry = self.page_states.remove(i);
        let ghost a = entry.1;
        entry.1.backspace_selected();
        let ghost b = entry.1;
        self.page_states.insert(i, entry);
        proof {
            assert(self.spec_states() =~= mids.update(i as int, (pid@, b)));
            self.lemma_touch_glue(olds, mids, i as int, pid@, a, b);
            assert((|x: PageState, y: PageState| rel_backspace(x, y))(a, b));
        }
    }

    /// Appends a typed character to the selected page's state, in page
    /// view.
    fn touch_selected_char(&mut self, ch: char)
        requires
            old(self).wf(),
            old(self).spec_view() is Page,
        ensures
            final(self).wf(),
            ModelProcessor::touched_in_page_view(
                *old(self),
                *final(self),
                |a: PageState, b: PageState| rel_append_char(a, b, ch),
            ),
    {
        let pid = match self.page_set.selected_page() {
            Some(pg) => pg.id().clone(),
            None => {
                return ;
            },
        };
        let ghost olds = self.spec_states();
        let i = self.ensure_state_index(&pid);
        let ghost mids = self.spec_states();
        let mut entry = self.page_states.remove(i);
        let ghost a = entry.1;
        entry.1.append_selected_char(ch);
        let ghost b = entry.1;
        self.page_states.insert(i, entry);
        proof {
            assert(self.spec_states() =~= mids.update(i as int, (pid@, b)));
            self.lemma_touch_glue(olds, mids, i as int, pid@, a, b);
            assert((|x: PageState, y: PageState| rel_append_char(x, y, ch))(a, b));
        }
    }

    /// Appends pasted text to the selected page's state, in page view.
    fn touch_selected_paste(&mut self, s: &str)
        requires
            old(self).wf(),
            old(self).spec_view() is Page,
        ensures
            final(self).wf(),
            ModelProcessor::touched_in_page_view(
                *old(self),
                *final(self),
                |a: PageState, b: PageState| rel_append_str(a, b, s@),
            ),
    {
        let pid = match self.page_set.selected_page() {
            Some(pg) => pg.id().clone(),
            None => {
                return ;
            },
        };
        let ghost olds = self.spec_states();
        let i = self.ensure_state_index(&pid);
        let ghost mids = self.spec_states();
        let mut entry = self.page_states.remove(i);
        let ghost a = entry.1;
        entry.1.append_selected_str(s);
        let ghost b = entry.1;
        self.page_states.insert(i, entry);
        proof {
            assert(self.spec_states() =~= mids.update(i as int, (pid@, b)));
            self.lemma_touch_glue(olds, mids, i as int, pid@, a, b);
            assert((|x: PageState, y: PageState| rel_append_str(x, y, s@))(a, b));
        }
    }

    /// After touching the entry at `i`, the state table relates to the
    /// old one as `states_touched` wants, whatever the relation shown of
    /// the touched pair.
    proof fn lemma_touch_glue(
        &self,
        olds: Seq<(Seq<char>, PageState)>,
        mids: Seq<(Seq<char>, PageState)>,
        i: int,
        pid: Seq<char>,
        a: PageState,
        b: PageState,
    )
        requires
            0 <= i < mids.len(),
            mids[i].0 == pid,
            mids[i].1 == a,
            match state_find(olds, pid) {
                Some(j) => mids == olds && i == j,
                None => i == olds.len() && fresh_state(a) && mids == olds.push((pid, a)),
            },
            self.spec_states() == mids.update(i, (pid, b)),
        ensures
            forall|rel: spec_fn(PageState, PageState) -> bool|
                #[trigger] rel(a, b) ==> states_touched(olds, self.spec_states(), pid, rel),
    {
        let news = self.spec_states();
        assert forall|rel: spec_fn(PageState, PageState) -> bool| #[trigger] rel(a, b) implies
            states_touched(olds, news, pid, rel) by {
            match state_find(olds, pid) {
                Some(j) => {
                    assert(news[i].0 == olds[i].0);
                    assert(news[i].1 == b);
                },
                None => {
                    assert(news =~= olds.push((pid, b)));
                },
            }
        }
    }

    /// A directional key: page-list cursor in list view, focus movement
    /// in page view.
    fn handle_direction(&mut self, dir: SelectDirection) -> (r: Result<Vec<UiMessage>, NavError>)
        requires
            old(self).wf(),
        ensures
            final(self).wf(),
            ModelProcessor::direction_step(*old(self), *final(self), dir, r),
    {
        match self.view {
            ModelView::List => {
                match dir {
                    SelectDirection::Up => {
                        self.page_set.select_prev_page();
                    },
                    SelectDirection::Down => {
                        self.page_set.select_next_page();
                    },
                    _ => {},
                }
                Ok(Vec::new())
            },
            ModelView::Page => {
                let pid = match self.page_set.selected_page() {
                    Some(pg) => pg.id().clone(),
                    None => {
                        return Ok(Vec::new());
                    },
                };
                let ghost olds = self.spec_states();
                let ghost root = self.spec_page_set().spec_pages()[self.spec_page_set().spec_selected()].spec_root();
                let i = self.ensure_state_index(&pid);
                let ghost mids = self.spec_states();
                let mut entry = self.page_states.remove(i);
                let ghost a = entry.1;
                let res = match self.page_set.selected_page() {
                    Some(pg) => entry.1.select_next(pg, &self.datasets, dir),
                    None => {
                        proof {
                            assert(false);
                        }
                        Ok(())
                    },
                };
                let ghost b = entry.1;
                self.page_states.insert(i, entry);
                proof {
                    assert(self.spec_states() =~= mids.update(i as int, (pid@, b)));
                    self.lemma_touch_glue(olds, mids, i as int, pid@, a, b);
                    let is_ok = res is Ok;
                    assert((|x: PageState, y: PageState|
                        rel_select_next(x, y, root, old(self).spec_store(), dir, is_ok))(a, b));
                }
                match res {
                    Ok(_) => Ok(Vec::new()),
                    Err(err) => Err(err),
                }
            },
        }
    }

    /// Enter in page view: commits the focused text entry or button of
    /// the selected page, emitting the submission to send.
    fn commit_selected(&mut self) -> (msgs: Vec<UiMessage>)
        requires
            old(self).wf(),
            old(self).spec_view() is Page,
        ensures
            final(self).wf(),
            ModelProcessor::enter_commit_step(*old(self), *final(self), msgs@),
    {
        let pid = match self.page_set.selected_page() {
            Some(pg) => pg.id().clone(),
            None => {
                return Vec::new();
            },
        };
        let ghost olds = self.spec_states();
        let ghost page = self.spec_page_set().spec_pages()[self.spec_page_set().spec_selected()];
        let i = self.ensure_state_index(&pid);
        let ghost mids = self.spec_states();
        let mut entry = self.page_states.remove(i);
        let ghost a = entry.1;
        let mut msgs: Vec<UiMessage> = Vec::new();
        let sel_id = match entry.1.get_selected_id() {
            Some(s) => Some(s.clone()),
            None => None,
        };
        match sel_id {
            None => {},
            Some(sid) => {
                let pg2 = match self.page_set.selected_page() {
                    Some(p) => p,
                    None => {
                        proof {
                            assert(false);
                        }
                        &self.page_set.pages()[0]
                    },
                };
                proof {
                    assert(*pg2 == page);
                }
                match pg2.get_by_id(&sid) {
                    None => {
                        proof {
                            if has_elem_with_id(page.spec_root(), sid@) {
                                let qc = choose|q: Seq<usize>|
                                    elem_at(page.spec_root(), q) is Some && (#[trigger] elem_at(
                                        page.spec_root(),
                                        q,
                                    ))->0.id == Some(sid@);
                                assert(false);
                            }
                            assert(target_path(page.spec_root(), sid@) is None);
                        }
                    },
                    Some(el) => {
                        proof {
                            assert(has_elem_with_id(page.spec_root(), sid@));
                            let q0 = choose|q: Seq<usize>|
                                elem_at(page.spec_root(), q) == Some(el@);
                            let qc = choose|q: Seq<usize>|
                                elem_at(page.spec_root(), q) is Some && (#[trigger] elem_at(
                                    page.spec_root(),
                                    q,
                                ))->0.id == Some(sid@);
                            crate::page::lemma_page_id_unique(page, q0, qc);
                            assert(target_path(page.spec_root(), sid@) == Some(q0));
                            assert(elem_at(page.spec_root(), q0)->0 == el@);
                        }
                        match &el.kind {
                            ElementKind::TextEntry => {
                                match entry.1.take_selected_uncommited_input_mut() {
                                    Some(text) => {
                                        let dsi = crate::page::clone_path(
                                            entry.1.get_selected_datasets(),
                                        );
                                        msgs.push(
                                            UiMessage::InputFor(
                                                pid.clone(),
                                                sid,
                                                dsi,
                                                UiInput::Text(text),
                                            ),
                                        );
                                    },
                                    None => {},
                                }
                            },
                            ElementKind::Button => {
                                let dsi = crate::page::clone_path(entry.1.get_selected_datasets());
                                msgs.push(
                                    UiMessage::InputFor(pid.clone(), sid, dsi, UiInput::Click),
                                );
                            },
                            _ => {},
                        }
                    },
                }
            },
        }
        let ghost b = entry.1;
        self.page_states.insert(i, entry);
        proof {
            assert(self.spec_states() =~= mids.update(i as int, (pid@, b)));
            self.lemma_touch_glue(olds, mids, i as int, pid@, a, b);
            assert((|x: PageState, y: PageState| rel_enter_commit(page, x, y, msgs@))(a, b));
        }
        msgs
    }

    /// Only the selected page's state was touched, through the relation;
    /// outside page view, or with no page selected, nothing changed.
    pub open spec fn touched_in_page_view(
        a: ModelProcessor,
        b: ModelProcessor,
        rel: spec_fn(PageState, PageState) -> bool,
    ) -> bool {
        &&& b.spec_view() == a.spec_view()
        &&& b.spec_page_set() == a.spec_page_set()
        &&& b.spec_store() == a.spec_store()
        &&& b.spec_exit() == a.spec_exit()
        &&& if a.spec_view() is Page && a.spec_page_set().spec_pages().len() > 0 {
            states_touched(
                a.spec_states(),
                b.spec_states(),
                a.spec_page_set().spec_pages()[a.spec_page_set().spec_selected()].spec_id(),
                rel,
            )
        } else {
            b.spec_states() == a.spec_states()
        }
    }

    /// Enter in page view: only the selected page's state was touched,
    /// by the commit relation, which also pins the outbound messages.
    pub open spec fn enter_commit_step(
        a: ModelProcessor,
        b: ModelProcessor,
        msgs: Seq<UiMessage>,
    ) -> bool {
        &&& b.spec_view() == a.spec_view()
        &&& b.spec_page_set() == a.spec_page_set()
        &&& b.spec_store() == a.spec_store()
        &&& b.spec_exit() == a.spec_exit()
        &&& if a.spec_page_set().spec_pages().len() > 0 {
            states_touched(
                a.spec_states(),
                b.spec_states(),
                a.spec_page_set().spec_pages()[a.spec_page_set().spec_selected()].spec_id(),
                |x: PageState, y: PageState|
                    rel_enter_commit(
                        a.spec_page_set().spec_pages()[a.spec_page_set().spec_selected()],
                        x,
                        y,
                        msgs,
                    ),
            )
        } else {
            b.spec_states() == a.spec_states() && msgs.len() == 0
        }
    }

    /// A directional key: in list view it moves the page cursor; in page
    /// view it moves the focus within the selected page.
    pub open spec fn direction_step(
        a: ModelProcessor,
        b: ModelProcessor,
        dir: SelectDirection,
        r: Result<Vec<UiMessage>, NavError>,
    ) -> bool {
        match a.spec_view() {
            ModelView::List => {
                &&& r is Ok && (r->Ok_0)@.len() == 0
                &&& b.spec_view() == a.spec_view()
                &&& b.spec_states() == a.spec_states()
                &&& b.spec_store() == a.spec_store()
                &&& b.spec_exit() == a.spec_exit()
                &&& b.spec_page_set().spec_pages() == a.spec_page_set().spec_pages()
                &&& b.spec_page_set().spec_selected() == (match dir {
                    SelectDirection::Up => if a.spec_page_set().spec_selected() > 0 {
                        a.spec_page_set().spec_selected() - 1
                    } else {
                        0
                    },
                    SelectDirection::Down => if a.spec_page_set().spec_selected() + 1
                        < a.spec_page_set().spec_pages().len() {
                        a.spec_page_set().spec_selected() + 1
                    } else {
                        a.spec_page_set().spec_selected()
                    },
                    _ => a.spec_page_set().spec_selected(),
                })
            },
            ModelView::Page => {
                &&& (r is Ok ==> (r->Ok_0)@.len() == 0)
                &&& ModelProcessor::touched_in_page_view(
                    a,
                    b,
                    |x: PageState, y: PageState|
                        rel_select_next(
                            x,
                            y,
                            a.spec_page_set().spec_pages()[a.spec_page_set().spec_selected()].spec_root(),
                            a.spec_store(),
                            dir,
                            r is Ok,
                        ),
                )
            },
        }
    }
}

} // verus!
