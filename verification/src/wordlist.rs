//! The list of words to look for: the pages of a scan, or the file extensions
//! to try on each of them.

use crate::text::{lemma_views_push, views};
use vstd::prelude::*;

verus! {

/// An ordered list of words. Nothing is trimmed and nothing is taken out: a
/// word may be empty and may occur more than once.
#[derive(Debug)]
pub struct Wordlist(pub Vec<String>);

impl View for Wordlist {
    type V = Seq<Seq<char>>;

    /// The words, in order.
    open spec fn view(&self) -> Seq<Seq<char>> {
        views(self.0@)
    }
}

impl Clone for Wordlist {
    /// A list with the same words.
    fn clone(&self) -> (r: Self)
        ensures
            r@ == self@,
    {
        let words = self.0.clone();
        assert(views(words@) =~= views(self.0@));
        Wordlist(words)
    }
}

impl Default for Wordlist {
    /// The empty list.
    fn default() -> (r: Self)
        ensures
            r@ == Seq::<Seq<char>>::empty(),
    {
        Wordlist::new()
    }
}

impl Wordlist {
    /// Makes an empty list.
    pub fn new() -> (r: Self)
        ensures
            r@ == Seq::<Seq<char>>::empty(),
    {
        let r = Wordlist(Vec::new());
        assert(r@ =~= Seq::<Seq<char>>::empty());
        r
    }

    /// Appends each of `lines` as it stands, blank lines and repeated lines
    /// too, and returns a copy of the list as it then is.
    pub fn extend_from_lines(&mut self, lines: &Vec<String>) -> (r: Self)
        ensures
            final(self)@ == old(self)@ + views(lines@),
            r@ == final(self)@,
    {
        let mut i: usize = 0;
        while i < lines.len()
            invariant
                i <= lines@.len(),
                self@ =~= old(self)@ + views(lines@).take(i as int),
            decreases lines@.len() - i,
        {
            let line = lines[i].clone();
            proof {
                lemma_views_push(self.0@, line);
                assert(views(lines@).take(i + 1) =~= views(lines@).take(i as int).push(line@));
            }
            self.0.push(line);
            i += 1;
        }
        assert(views(lines@).take(i as int) == views(lines@));
        self.clone()
    }

    /// The number of words.
    pub fn len(&self) -> (n: usize)
        ensures
            n == self@.len(),
    {
        self.0.len()
    }

    /// Whether the list has no word.
    pub fn is_empty(&self) -> (b: bool)
        ensures
            b == (self@.len() == 0),
    {
        self.0.len() == 0
    }
}

} // verus!
