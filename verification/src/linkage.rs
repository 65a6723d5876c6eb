//! The linkage map: for each page, the identifiers that it links to.

use crate::views::string_views;
use vstd::prelude::*;

verus! {

/// One page and the identifiers found on it, in extraction order.
struct PageLinks {
    page: String,
    links: Vec<String>,
}

/// A mapping from page identifier to the sequence of identifiers that the
/// page links to. A page occurs once; the sequence keeps its order and its
/// duplicates.
pub struct LinkageMap {
    entries: Vec<PageLinks>,
}

impl View for LinkageMap {
    type V = Map<Seq<char>, Seq<Seq<char>>>;

    /// The mapping itself: each page with its links.
    open spec fn view(&self) -> Map<Seq<char>, Seq<Seq<char>>> {
        Map::new(
            |page: Seq<char>| self.pages().contains(page),
            |page: Seq<char>| self.links()[self.pages().index_of(page)],
        )
    }
}

impl LinkageMap {
    /// The pages, in the order in which they were first inserted.
    pub closed spec fn pages(&self) -> Seq<Seq<char>> {
        Seq::new(self.entries@.len(), |i: int| self.entries@[i].page@)
    }

    /// The links of each page, in the order of `pages`.
    pub closed spec fn links(&self) -> Seq<Seq<Seq<char>>> {
        Seq::new(self.entries@.len(), |i: int| string_views(self.entries@[i].links@))
    }

    /// No page occurs twice.
    #[verifier::type_invariant]
    pub closed spec fn well_formed(&self) -> bool {
        self.pages().no_duplicates()
    }

    /// How the mapping reads off the entries.
    pub proof fn lemma_entries(&self)
        requires
            self.well_formed(),
        ensures
            self.pages().no_duplicates(),
            self.links().len() == self.pages().len(),
            self@.dom() == self.pages().to_set(),
            forall|i: int|
                0 <= i < self.pages().len() ==> self@[#[trigger] self.pages()[i]] == self.links()[i],
    {
        assert(self@.dom() =~= self.pages().to_set());
        assert forall|i: int| 0 <= i < self.pages().len() implies self@[#[trigger] self.pages()[i]]
            == self.links()[i] by {
            let page = self.pages()[i];
            assert(self.pages().contains(page));
            let found = self.pages().index_of(page);
            assert(0 <= found < self.pages().len() && self.pages()[found] == page);
        }
    }

    /// An empty mapping.
    pub fn new() -> (map: Self)
        ensures
            map@ == Map::<Seq<char>, Seq<Seq<char>>>::empty(),
            map.pages() == Seq::<Seq<char>>::empty(),
    {
        let map = LinkageMap { entries: Vec::new() };
        assert(map.pages() =~= Seq::<Seq<char>>::empty());
        assert(map@ =~= Map::<Seq<char>, Seq<Seq<char>>>::empty());
        map
    }

    /// The number of pages.
    pub fn len(&self) -> (count: usize)
        ensures
            count == self.pages().len(),
            count == self@.dom().len(),
    {
        proof {
            use_type_invariant(self);
            self.lemma_entries();
            self.pages().unique_seq_to_set();
        }
        self.entries.len()
    }

    /// The page at position `index`.
    pub fn page_at(&self, index: usize) -> (page: &str)
        requires
            index < self.pages().len(),
        ensures
            page@ == self.pages()[index as int],
    {
        self.entries[index].page.as_str()
    }

    /// The links of the page at position `index`.
    pub fn links_at(&self, index: usize) -> (links: &Vec<String>)
        requires
            index < self.pages().len(),
        ensures
            string_views(links@) == self.links()[index as int],
    {
        &self.entries[index].links
    }

    /// The position of `page` among the pages, if it is one of them.
    fn position(&self, page: &String) -> (found: Option<usize>)
        ensures
            match found {
                Some(index) => index < self.pages().len() && self.pages()[index as int] == page@,
                None => !self.pages().contains(page@),
            },
    {
        let mut i: usize = 0;
        while i < self.entries.len()
            invariant
                i <= self.entries@.len(),
                forall|j: int| 0 <= j < i ==> self.pages()[j] != page@,
            decreases self.entries@.len() - i,
        {
            if self.entries[i].page == *page {
                return Some(i);
            }
            i += 1;
        }
        None
    }

    /// The links of `page`, or `None` where the mapping does not hold it.
    pub fn get(&self, page: &str) -> (links: Option<&Vec<String>>)
        ensures
            match links {
                Some(links) => self@.contains_key(page@) && string_views(links@) == self@[page@],
                None => !self@.contains_key(page@),
            },
    {
        proof {
            use_type_invariant(self);
            self.lemma_entries();
        }
        let wanted = page.to_owned();
        match self.position(&wanted) {
            Some(index) => Some(&self.entries[index].links),
            None => None,
        }
    }

    /// Sets the links of `page`, and returns those that it had before, if the
    /// mapping held it. A new page goes to the end of `pages`; one that is
    /// held keeps its place.
    pub fn insert(&mut self, page: String, links: Vec<String>) -> (previous: Option<Vec<String>>)
        ensures
            final(self)@ == old(self)@.insert(page@, string_views(links@)),
            match previous {
                Some(previous) => old(self)@.contains_key(page@) && string_views(previous@) == old(
                    self,
                )@[page@],
                None => !old(self)@.contains_key(page@),
            },
            final(self).pages() == if old(self)@.contains_key(page@) {
                old(self).pages()
            } else {
                old(self).pages().push(page@)
            },
    {
        proof {
            use_type_invariant(&*self);
            self.lemma_entries();
        }
        let found = self.position(&page);
        let mut entries: Vec<PageLinks> = Vec::new();
        std::mem::swap(&mut self.entries, &mut entries);
        let previous = match found {
            Some(index) => {
                let replaced = entries.remove(index);
                entries.insert(index, PageLinks { page, links });
                Some(replaced.links)
            },
            None => {
                entries.push(PageLinks { page, links });
                None
            },
        };
        proof {
            let pages = Seq::new(entries@.len(), |i: int| entries@[i].page@);
            if found is Some {
                assert(pages =~= old(self).pages());
            } else {
                assert(pages =~= old(self).pages().push(page@));
            }
        }
        self.entries = entries;
        proof {
            if found is Some {
                assert(self.pages() =~= old(self).pages());
                assert(self.links() =~= old(self).links().update(
                    found.unwrap() as int,
                    string_views(links@),
                ));
            } else {
                assert(self.pages() =~= old(self).pages().push(page@));
                assert(self.links() =~= old(self).links().push(string_views(links@)));
            }
            self.lemma_entries();
            let before = old(self)@;
            let after = before.insert(page@, string_views(links@));
            assert forall|key: Seq<char>| after.contains_key(key) implies #[trigger] self@[key]
                == after[key] by {
                if key == page@ {
                    if found is Some {
                        assert(self.pages()[found.unwrap() as int] == key);
                    } else {
                        assert(self.pages()[old(self).pages().len() as int] == key);
                    }
                } else {
                    assert(old(self).pages().contains(key));
                    let at = old(self).pages().index_of(key);
                    assert(old(self).pages()[at] == key);
                    assert(self.pages()[at] == key);
                    assert(self.links()[at] == old(self).links()[at]);
                }
            }
            assert forall|key: Seq<char>| self@.contains_key(key) <==> after.contains_key(key) by {
                if self.pages().contains(key) {
                    let at = self.pages().index_of(key);
                    assert(self.pages()[at] == key);
                    if key != page@ {
                        assert(old(self).pages()[at] == key);
                    }
                }
                if old(self).pages().contains(key) {
                    let at = old(self).pages().index_of(key);
                    assert(self.pages()[at] == key);
                }
                if key == page@ {
                    if found is Some {
                        assert(self.pages()[found.unwrap() as int] == key);
                    } else {
                        assert(self.pages()[old(self).pages().len() as int] == key);
                    }
                }
            }
            assert(self@ =~= after);
        }
        previous
    }
}

} // verus!
