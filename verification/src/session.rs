//! Back/forward history of visited pages.
//!
//! The history is a list of page URLs together with a cursor.  The invariant
//! [`SessionHistory::wf`] keeps the cursor inside the list whenever the list
//! is non-empty; every operation preserves it.

use vstd::prelude::*;

verus! {

/// One visited page, identified by its URL.
#[derive(Debug, Clone)]
pub struct Page {
    url: String,
}

impl Page {
    /// The URL this page was loaded from.
    pub closed spec fn url_spec(&self) -> Seq<char> {
        self.url@
    }

    pub fn new(url: &str) -> (r: Self)
        ensures
            r.url_spec() == url@,
    {
        Self { url: url.to_owned() }
    }

    pub fn url(&self) -> (r: &str)
        ensures
            r@ == self.url_spec(),
    {
        self.url.as_str()
    }
}

/// Ordered record of visited pages with a cursor on the current one.
#[derive(Debug, Clone)]
pub struct SessionHistory {
    pages: Vec<Page>,
    current: usize,
}

impl SessionHistory {
    /// The URLs of the recorded pages, oldest first.
    pub closed spec fn urls(&self) -> Seq<Seq<char>> {
        self.pages@.map_values(|p: Page| p.url@)
    }

    /// The cursor: index of the page currently shown.
    pub closed spec fn cur(&self) -> int {
        self.current as int
    }

    /// The cursor stays inside the list whenever the list is non-empty.
    pub open spec fn wf(&self) -> bool {
        if self.urls().len() == 0 {
            self.cur() == 0
        } else {
            0 <= self.cur() < self.urls().len()
        }
    }

    /// Whether a step forward is possible.
    pub open spec fn can_fwd(&self) -> bool {
        self.urls().len() > 1 && self.cur() < self.urls().len() - 1
    }

    /// Whether a step backward is possible.
    pub open spec fn can_bwd(&self) -> bool {
        self.urls().len() > 1 && self.cur() > 0
    }

    pub fn new() -> (r: Self)
        ensures
            r.wf(),
            r.urls() == Seq::<Seq<char>>::empty(),
            r.cur() == 0,
    {
        let r = Self { pages: Vec::new(), current: 0 };
        proof {
            assert(r.urls() =~= Seq::<Seq<char>>::empty());
        }
        r
    }

    /// Moves the cursor one page back and returns that page, or returns
    /// `None` and changes nothing when no older page exists.
    pub fn go_back(&mut self) -> (r: Option<&Page>)
        requires
            old(self).wf(),
        ensures
            final(self).wf(),
            final(self).urls() == old(self).urls(),
            if old(self).can_bwd() {
                &&& final(self).cur() == old(self).cur() - 1
                &&& (r matches Some(p) && p.url_spec() == old(self).urls()[old(self).cur() - 1])
            } else {
                &&& final(self).cur() == old(self).cur()
                &&& r is None
            },
    {
        if !self.can_go_backward() {
            return None;
        }
        self.current = self.current - 1;
        Some(&self.pages[self.current])
    }

    /// Moves the cursor one page forward and returns that page, or returns
    /// `None` and changes nothing when no newer page exists.
    pub fn go_forward(&mut self) -> (r: Option<&Page>)
        requires
            old(self).wf(),
        ensures
            final(self).wf(),
            final(self).urls() == old(self).urls(),
            if old(self).can_fwd() {
                &&& final(self).cur() == old(self).cur() + 1
                &&& (r matches Some(p) && p.url_spec() == old(self).urls()[old(self).cur() + 1])
            } else {
                &&& final(self).cur() == old(self).cur()
                &&& r is None
            },
    {
        let n = self.pages.len();
        if !self.can_go_forward() {
            return None;
        }
        proof {
            assert(self.cur() < n - 1);
        }
        self.current = self.current + 1;
        Some(&self.pages[self.current])
    }

    pub fn can_go_forward(&self) -> (r: bool)
        ensures
            r == self.can_fwd(),
    {
        self.pages.len() > 1 && self.current < self.pages.len() - 1
    }

    pub fn can_go_backward(&self) -> (r: bool)
        ensures
            r == self.can_bwd(),
    {
        self.pages.len() > 1 && self.current > 0
    }

    /// Records a visit to `new_url`.  A visit to the page right after the
    /// cursor only advances the cursor; any other visit drops the pages after
    /// the cursor and appends the new one.
    pub fn navigate(&mut self, new_url: &str)
        requires
            old(self).wf(),
        ensures
            final(self).wf(),
            if old(self).can_fwd() && old(self).urls()[old(self).cur() + 1] == new_url@ {
                &&& final(self).urls() == old(self).urls()
                &&& final(self).cur() == old(self).cur() + 1
            } else {
                &&& final(self).urls() == (if old(self).urls().len() == 0 {
                    Seq::<Seq<char>>::empty()
                } else {
                    old(self).urls().take(old(self).cur() + 1)
                }).push(new_url@)
                &&& final(self).cur() == final(self).urls().len() - 1
            },
    {
        let n = self.pages.len();
        proof {
            assert(self.urls().len() == n);
        }
        if self.can_go_forward() {
            let page = &self.pages[self.current + 1];
            if crate::text::str_eq(new_url, page.url.as_str()) {
                self.current = self.current + 1;
                return;
            }
        }
        self.pages.truncate(self.current + 1);
        self.pages.push(Page::new(new_url));
        proof {
            if old(self).urls().len() == 0 {
                assert(self.pages@.map_values(|p: Page| p.url@) =~= Seq::<Seq<char>>::empty().push(
                    new_url@,
                ));
            } else {
                assert(self.pages@.map_values(|p: Page| p.url@) =~= old(self).urls().take(
                    old(self).cur() + 1,
                ).push(new_url@));
            }
        }
        self.current = self.pages.len() - 1;
    }
}

} // verus!
