//! The page set: an ordered list of pages with a single-selection cursor.
//!
//! The cursor stays within `[0, len - 1]` after every mutation, or at 0
//! when the list is empty; directional moves clamp at both ends and never
//! wrap around.

use vstd::prelude::*;

use crate::page::{apply_patches, update_views, ElementUpdate, Page};

verus! {

/// The first position holding a page with the given id.
pub open spec fn find_page(pages: Seq<Page>, id: Seq<char>) -> Option<int>
    decreases pages.len(),
{
    if pages.len() == 0 {
        None
    } else if pages[0].spec_id() == id {
        Some(0)
    } else {
        match find_page(pages.skip(1), id) {
            Some(i) => Some(i + 1),
            None => None,
        }
    }
}

/// `find_page` returns the first matching position.
proof fn lemma_find_page_at(pages: Seq<Page>, id: Seq<char>, i: int)
    requires
        0 <= i < pages.len(),
        pages[i].spec_id() == id,
        forall|j: int| 0 <= j < i ==> (#[trigger] pages[j]).spec_id() != id,
    ensures
        ({
            let r = find_page(pages, id);
            r is Some && 0 <= r->0 <= i && pages[r->0].spec_id() == id
        }),
    decreases i,
{
    if i == 0 {
    } else {
        assert(pages.skip(1)[i - 1] == pages[i]);
        assert forall|j: int| 0 <= j < i - 1 implies (#[trigger] pages.skip(1)[j]).spec_id()
            != id by {
            assert(pages.skip(1)[j] == pages[j + 1]);
        }
        lemma_find_page_at(pages.skip(1), id, i - 1);
        let r = find_page(pages.skip(1), id);
        assert(pages.skip(1)[r->0] == pages[r->0 + 1]);
    }
}

proof fn lemma_find_page_none(pages: Seq<Page>, id: Seq<char>)
    requires
        forall|j: int| 0 <= j < pages.len() ==> (#[trigger] pages[j]).spec_id() != id,
    ensures
        find_page(pages, id) is None,
    decreases pages.len(),
{
    if pages.len() == 0 {
    } else {
        assert forall|j: int| 0 <= j < pages.len() - 1 implies (#[trigger] pages.skip(
            1,
        )[j]).spec_id() != id by {
            assert(pages.skip(1)[j] == pages[j + 1]);
        }
        lemma_find_page_none(pages.skip(1), id);
    }
}

/// An ordered collection of pages keyed by id, with a clamped cursor.
pub struct PageList {
    pages: Vec<Page>,
    selected: usize,
}

impl PageList {
    /// The pages, in order.
    pub closed spec fn spec_pages(self) -> Seq<Page> {
        self.pages@
    }

    /// The cursor.
    pub closed spec fn spec_selected(self) -> int {
        self.selected as int
    }

    /// Cursor clamped and every page well formed.
    pub closed spec fn wf(self) -> bool {
        &&& (if self.pages@.len() == 0 {
            self.selected == 0
        } else {
            (self.selected as int) < self.pages@.len()
        })
        &&& forall|i: int| 0 <= i < self.pages@.len() ==> (#[trigger] self.pages@[i]).wf()
    }

    /// An empty page list.
    pub fn new() -> (r: PageList)
        ensures
            r.wf(),
            r.spec_pages().len() == 0,
            r.spec_selected() == 0,
    {
        PageList { pages: Vec::new(), selected: 0 }
    }

    /// How many pages the list holds.
    pub fn len(&self) -> (r: usize)
        ensures
            r == self.spec_pages().len(),
    {
        self.pages.len()
    }

    /// The cursor position.
    pub fn selected_index(&self) -> (r: usize)
        ensures
            r == self.spec_selected(),
    {
        self.selected
    }

    /// The pages, for iteration in order.
    pub fn pages(&self) -> (r: &Vec<Page>)
        ensures
            r@ == self.spec_pages(),
    {
        &self.pages
    }

    /// Removes every page and rests the cursor at 0.
    pub fn clear(&mut self)
        ensures
            final(self).wf(),
            final(self).spec_pages().len() == 0,
            final(self).spec_selected() == 0,
    {
        self.pages = Vec::new();
        self.selected = 0;
    }

    /// Appends pages in order; the cursor moves to 0 when it would fall
    /// past the end.
    pub fn add_pages(&mut self, pages: Vec<Page>)
        requires
            old(self).wf(),
            forall|i: int| 0 <= i < pages@.len() ==> (#[trigger] pages@[i]).wf(),
        ensures
            final(self).wf(),
            final(self).spec_pages() == old(self).spec_pages() + pages@,
            final(self).spec_selected() == if old(self).spec_selected() < old(
                self,
            ).spec_pages().len() + pages@.len() {
                old(self).spec_selected()
            } else {
                0
            },
    {
        let mut other = pages;
        self.pages.append(&mut other);
        if self.selected >= self.pages.len() {
            self.selected = 0;
        }
    }

    /// Replaces the page carrying the new page's id, keeping its
    /// position; appends the page when its id is new.
    pub fn upsert_page(&mut self, page: Page)
        requires
            old(self).wf(),
            page.wf(),
        ensures
            final(self).wf(),
            final(self).spec_selected() == old(self).spec_selected(),
            ({
                let old_pages = old(self).spec_pages();
                match find_page(old_pages, page.spec_id()) {
                    Some(i) => final(self).spec_pages() == old_pages.update(i, page),
                    None => final(self).spec_pages() == old_pages.push(page),
                }
            }),
    {
        let n = self.pages.len();
        let mut i: usize = 0;
        while i < n
            invariant
                n == self.pages@.len(),
                0 <= i <= n,
                self == old(self),
                old(self).wf(),
                page.wf(),
                forall|j: int| 0 <= j < i ==> (#[trigger] self.pages@[j]).spec_id() != page.spec_id(),
            decreases n - i,
        {
            if self.pages[i].id().eq(page.id()) {
                proof {
                    lemma_find_page_at(self.pages@, page.spec_id(), i as int);
                    assert forall|j: int| 0 <= j < i implies (#[trigger] self.pages@[j]).spec_id()
                        != page.spec_id() by {}
                    let r = find_page(self.pages@, page.spec_id());
                    if r->0 < i {
                        assert(self.pages@[r->0].spec_id() != page.spec_id());
                        assert(false);
                    }
                    assert(r == Some(i as int));
                }
                let ghost before = self.pages@;
                self.pages[i] = page;
                proof {
                    assert(self.pages@ == before.update(i as int, page));
                    assert(before == old(self).spec_pages());
                    assert(self.pages@ =~= old(self).spec_pages().update(i as int, page));
                    assert forall|j: int| 0 <= j < self.pages@.len() implies (
                    #[trigger] self.pages@[j]).wf() by {
                        if j == i {
                            assert(self.pages@[j] == page);
                            assert(page.wf());
                        } else {
                            assert(self.pages@[j] == old(self).spec_pages()[j]);
                            assert(old(self).wf());
                            assert((old(self).spec_pages()[j]).wf());
                        }
                    }
                    assert(final(self).spec_selected() == old(self).spec_selected());
                }
                return ;
            }
            i += 1;
        }
        proof {
            lemma_find_page_none(self.pages@, page.spec_id());
        }
        self.pages.push(page);
    }

    /// The selected page, when the list is not empty.
    pub fn selected_page(&self) -> (r: Option<&Page>)
        requires
            self.wf(),
        ensures
            match r {
                Some(p) => self.spec_pages().len() > 0 && *p == self.spec_pages()[self.spec_selected()]
                    && p.wf(),
                None => self.spec_pages().len() == 0,
            },
    {
        if self.pages.len() == 0 {
            None
        } else {
            Some(&self.pages[self.selected])
        }
    }

    /// Moves the cursor one page back, stopping at the first page.
    pub fn select_prev_page(&mut self)
        requires
            old(self).wf(),
        ensures
            final(self).wf(),
            final(self).spec_pages() == old(self).spec_pages(),
            final(self).spec_selected() == if old(self).spec_selected() > 0 {
                old(self).spec_selected() - 1
            } else {
                0
            },
    {
        if self.selected > 0 {
            self.selected = self.selected - 1;
        }
    }

    /// Moves the cursor one page forward, stopping at the last page.
    pub fn select_next_page(&mut self)
        requires
            old(self).wf(),
        ensures
            final(self).wf(),
            final(self).spec_pages() == old(self).spec_pages(),
            final(self).spec_selected() == if old(self).spec_selected() + 1 < old(
                self,
            ).spec_pages().len() {
                old(self).spec_selected() + 1
            } else {
                old(self).spec_selected()
            },
    {
        let n = self.pages.len();
        if self.selected + 1 < n {
            self.selected = self.selected + 1;
        }
    }

    /// Applies patches to the page carrying the id; with no such page
    /// the update is skipped silently.
    pub fn apply_changes_for(&mut self, id: &String, patches: Vec<ElementUpdate>)
        requires
            old(self).wf(),
        ensures
            final(self).wf(),
            final(self).spec_selected() == old(self).spec_selected(),
            final(self).spec_pages().len() == old(self).spec_pages().len(),
            ({
                let old_pages = old(self).spec_pages();
                match find_page(old_pages, id@) {
                    Some(i) => {
                        &&& forall|j: int|
                            0 <= j < old_pages.len() && j != i ==> final(self).spec_pages()[j]
                                == #[trigger] old_pages[j]
                        &&& final(self).spec_pages()[i].spec_id() == old_pages[i].spec_id()
                        &&& final(self).spec_pages()[i].spec_name() == old_pages[i].spec_name()
                        &&& final(self).spec_pages()[i].spec_root() == apply_patches(
                            old_pages[i].spec_root(),
                            update_views(patches@),
                            patches@.len() as int,
                        )
                    },
                    None => final(self).spec_pages() == old(self).spec_pages(),
                }
            }),
    {
        let n = self.pages.len();
        let mut i: usize = 0;
        while i < n
            invariant
                n == self.pages@.len(),
                0 <= i <= n,
                self == old(self),
                old(self).wf(),
                forall|j: int| 0 <= j < i ==> (#[trigger] self.pages@[j]).spec_id() != id@,
            decreases n - i,
        {
            if self.pages[i].id().eq(id) {
                proof {
                    lemma_find_page_at(self.pages@, id@, i as int);
                    let r = find_page(self.pages@, id@);
                    if r->0 < i {
                        assert(self.pages@[r->0].spec_id() != id@);
                        assert(false);
                    }
                    assert(r == Some(i as int));
                }
                let ghost before = self.pages@;
                proof {
                    assert(before == old(self).spec_pages());
                    assert(old(self).wf());
                    assert((old(self).spec_pages()[i as int]).wf());
                    assert(before[i as int].wf());
                }
                let mut page = self.pages.remove(i);
                page.apply_changes(patches);
                self.pages.insert(i, page);
                proof {
                    assert(self.pages@ =~= before.update(i as int, self.pages@[i as int]));
                    assert forall|j: int| 0 <= j < self.pages@.len() implies (
                    #[trigger] self.pages@[j]).wf() by {
                        if j == i {
                            assert(self.pages@[j] == self.pages@[i as int]);
                            assert(self.pages@[i as int].wf());
                        } else {
                            assert(self.pages@[j] == before[j]);
                            assert((old(self).spec_pages()[j]).wf());
                        }
                    }
                }
                return ;
            }
            i += 1;
        }
        proof {
            lemma_find_page_none(self.pages@, id@);
        }
    }
}

} // verus!
