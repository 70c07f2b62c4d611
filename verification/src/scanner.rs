//! The scanner: the words to probe, the status codes to ignore, the results
//! found, the site, and the file extensions to try.

use crate::found::{as_map, entry_views, report_ordered, same_entries, Entry, Found};
use crate::ignore::{add_code, holds_code, with_code, with_codes, DEFAULT_IGNORED};
use crate::text::views;
use crate::wordlist::Wordlist;
use std::sync::Arc;
use vstd::prelude::*;

verus! {

/// The state of one enumeration.
#[derive(Debug)]
pub struct Scanner {
    /// The pages to look for.
    pub wordlist: Wordlist,
    /// Results with one of these status codes are not stored.
    pub status_code_ignore_list: Vec<u16>,
    /// The results stored so far: page and status code.
    pub found: Found,
    /// The base URL of the site.
    pub site: Arc<String>,
    /// The file extensions tried on each page, each with its leading dot.
    pub extension_list: Wordlist,
}

/// The store after `outcome` was offered to it under the ignore list
/// `ignore`: unchanged where the list holds the outcome's status code, and
/// with the status code stored for the page otherwise, in place of what was
/// stored for that page before.
pub open spec fn accept(found: Map<Seq<char>, u16>, ignore: Seq<u16>, outcome: Entry) -> Map<
    Seq<char>,
    u16,
> {
    if ignore.contains(outcome.1) {
        found
    } else {
        found.insert(outcome.0, outcome.1)
    }
}

/// The store after each of `outcomes` was offered to it in turn.
pub open spec fn accept_all(found: Map<Seq<char>, u16>, ignore: Seq<u16>, outcomes: Seq<Entry>) -> Map<
    Seq<char>,
    u16,
>
    decreases outcomes.len(),
{
    if outcomes.len() == 0 {
        found
    } else {
        accept(accept_all(found, ignore, outcomes.drop_last()), ignore, outcomes.last())
    }
}

/// No page of the store has a status code of the list.
pub open spec fn free_of(found: Map<Seq<char>, u16>, ignore: Seq<u16>) -> bool {
    forall|page: Seq<char>| found.dom().contains(page) ==> !ignore.contains(#[trigger] found[page])
}

/// A store without ignored status codes has none after any sequence of
/// outcomes was offered to it under the same ignore list: the empty store to
/// begin with.
pub proof fn lemma_accepted_never_ignored(
    found: Map<Seq<char>, u16>,
    ignore: Seq<u16>,
    outcomes: Seq<Entry>,
)
    requires
        free_of(found, ignore),
    ensures
        free_of(accept_all(found, ignore, outcomes), ignore),
        free_of(Map::<Seq<char>, u16>::empty(), ignore),
    decreases outcomes.len(),
{
    if outcomes.len() > 0 {
        lemma_accepted_never_ignored(found, ignore, outcomes.drop_last());
    }
}

/// Under an ignore list that holds Not Found, the outcome of a probe that was
/// not answered leaves the store as it is.
pub proof fn lemma_failure_is_dropped(found: Map<Seq<char>, u16>, ignore: Seq<u16>)
    requires
        ignore.contains(DEFAULT_IGNORED),
    ensures
        accept(found, ignore, ("failed"@, DEFAULT_IGNORED)) == found,
{
}

impl Default for Scanner {
    /// The empty scanner.
    fn default() -> (r: Self)
        ensures
            r.is_empty(),
    {
        Scanner::new()
    }
}

impl Scanner {
    /// Nothing to look for, nothing ignored, nothing found, no site.
    pub open spec fn is_empty(&self) -> bool {
        &&& self.wordlist@.len() == 0
        &&& self.status_code_ignore_list@.len() == 0
        &&& self.found@ == Map::<Seq<char>, u16>::empty()
        &&& (*self.site)@.len() == 0
        &&& self.extension_list@.len() == 0
    }

    /// Makes an empty scanner.
    pub fn new() -> (r: Self)
        ensures
            r.is_empty(),
    {
        Scanner {
            wordlist: Wordlist::new(),
            status_code_ignore_list: Vec::new(),
            found: Found::new(),
            site: Arc::new(String::new()),
            extension_list: Wordlist::new(),
        }
    }

    /// Appends the lines of a word list to the pages to look for, and returns
    /// a copy of the scanner as it then is.
    pub fn build_wordlist_from_lines(&mut self, lines: &Vec<String>) -> (r: Self)
        ensures
            final(self).wordlist@ == old(self).wordlist@ + views(lines@),
            final(self).status_code_ignore_list == old(self).status_code_ignore_list,
            final(self).found == old(self).found,
            final(self).site == old(self).site,
            final(self).extension_list == old(self).extension_list,
            r.wordlist@ == final(self).wordlist@,
            r.status_code_ignore_list@ == final(self).status_code_ignore_list@,
            r.found@ == final(self).found@,
            (*r.site)@ == (*final(self).site)@,
            r.extension_list@ == final(self).extension_list@,
    {
        let wordlist = self.wordlist.extend_from_lines(lines);
        Scanner {
            wordlist,
            status_code_ignore_list: self.status_code_ignore_list.clone(),
            found: self.found.clone(),
            site: Arc::new((*self.site).clone()),
            extension_list: self.extension_list.clone(),
        }
    }

    /// Adds each of `to_use` to the ignore list, in turn, unless the list
    /// already holds it.
    pub fn add_to_ignore_list(&mut self, to_use: &[u16])
        ensures
            final(self).status_code_ignore_list@ == with_codes(
                old(self).status_code_ignore_list@,
                to_use@,
            ),
            final(self).wordlist == old(self).wordlist,
            final(self).found == old(self).found,
            final(self).site == old(self).site,
            final(self).extension_list == old(self).extension_list,
    {
        let mut i: usize = 0;
        while i < to_use.len()
            invariant
                i <= to_use@.len(),
                self.status_code_ignore_list@ == with_codes(
                    old(self).status_code_ignore_list@,
                    to_use@.take(i as int),
                ),
                self.wordlist == old(self).wordlist,
                self.found == old(self).found,
                self.site == old(self).site,
                self.extension_list == old(self).extension_list,
            decreases to_use@.len() - i,
        {
            proof {
                assert(to_use@.take(i + 1).drop_last() == to_use@.take(i as int));
            }
            add_code(&mut self.status_code_ignore_list, to_use[i]);
            i += 1;
        }
        assert(to_use@.take(i as int) == to_use@);
    }

    /// Makes sure that Not Found is ignored.
    pub fn use_default_ignore_list(&mut self)
        ensures
            final(self).status_code_ignore_list@ == with_code(
                old(self).status_code_ignore_list@,
                DEFAULT_IGNORED,
            ),
            final(self).wordlist == old(self).wordlist,
            final(self).found == old(self).found,
            final(self).site == old(self).site,
            final(self).extension_list == old(self).extension_list,
    {
        add_code(&mut self.status_code_ignore_list, DEFAULT_IGNORED);
    }

    /// Whether results with the status code `found_status` are left out.
    pub fn should_ignore(&self, found_status: &u16) -> (b: bool)
        ensures
            b == self.status_code_ignore_list@.contains(*found_status),
    {
        holds_code(&self.status_code_ignore_list, *found_status)
    }

    /// Stores an outcome, page and status code, unless its status code is
    /// ignored. A page that is already stored gets the new status code.
    pub fn add_to_found(&mut self, outcome: (String, u16))
        ensures
            final(self).found@ == accept(
                old(self).found@,
                old(self).status_code_ignore_list@,
                (outcome.0@, outcome.1),
            ),
            final(self).wordlist == old(self).wordlist,
            final(self).status_code_ignore_list == old(self).status_code_ignore_list,
            final(self).site == old(self).site,
            final(self).extension_list == old(self).extension_list,
    {
        let (page, http_status) = outcome;
        if !self.should_ignore(&http_status) {
            self.found.insert(page, http_status);
        }
    }

    /// Stores the outcomes of a finished scan, one after another, in the
    /// order given.
    pub fn add_all_to_found(&mut self, outcomes: Vec<(String, u16)>)
        ensures
            final(self).found@ == accept_all(
                old(self).found@,
                old(self).status_code_ignore_list@,
                entry_views(outcomes@),
            ),
            final(self).wordlist == old(self).wordlist,
            final(self).status_code_ignore_list == old(self).status_code_ignore_list,
            final(self).site == old(self).site,
            final(self).extension_list == old(self).extension_list,
    {
        let ghost all = entry_views(outcomes@);
        let mut i: usize = 0;
        while i < outcomes.len()
            invariant
                i <= outcomes@.len(),
                all == entry_views(outcomes@),
                self.found@ == accept_all(
                    old(self).found@,
                    old(self).status_code_ignore_list@,
                    all.take(i as int),
                ),
                self.wordlist == old(self).wordlist,
                self.status_code_ignore_list == old(self).status_code_ignore_list,
                self.site == old(self).site,
                self.extension_list == old(self).extension_list,
            decreases outcomes@.len() - i,
        {
            proof {
                assert(all.take(i + 1).drop_last() == all.take(i as int));
                assert(all.take(i + 1).last() == all[i as int]);
            }
            let page = outcomes[i].0.clone();
            self.add_to_found((page, outcomes[i].1));
            i += 1;
        }
        assert(all.take(i as int) == all);
    }

    /// The stored results in report order: ascending by status code, and in
    /// dictionary order of the pages where the status codes are equal. Each
    /// stored result occurs once, and where the store holds no ignored status
    /// code, neither does the report.
    pub fn sorted_results(&self) -> (r: Vec<(String, u16)>)
        ensures
            report_ordered(entry_views(r@)),
            same_entries(self.found.ordered(), entry_views(r@)),
            r@.len() == self.found@.dom().len(),
            forall|i: int|
                0 <= i < r@.len() ==> self.found@.contains_pair((#[trigger] r@[i]).0@, r@[i].1),
            free_of(self.found@, self.status_code_ignore_list@) ==> forall|i: int|
                0 <= i < r@.len() ==> !self.status_code_ignore_list@.contains((#[trigger] r@[i]).1),
    {
        self.found.sorted_by_status()
    }
}

} // verus!
