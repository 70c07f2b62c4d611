//! An index of the words of a text.
//!
//! The words are the runs of letters between blanks: a run that holds
//! anything but letters, before the punctuation at its end, is no word.

use crate::text::{slice_views, str_eq};
use crate::unicode::{
    char_is_alphabetic, char_is_capital, char_is_punctuation, char_is_whitespace, is_alphabetic,
    is_capital, is_punctuation, is_whitespace,
};
use vstd::prelude::*;
use vstd::std_specs::iter::IteratorSpec;
use vstd::string::*;

verus! {

/// The pieces of `s` between blanks: the longest runs of characters that are
/// no white space, in order. Reading from the left, white space adds nothing,
/// a character behind another character extends the last piece, and a
/// character at the start or behind white space begins a new piece.
pub open spec fn tokens(s: Seq<char>) -> Seq<Seq<char>>
    decreases s.len(),
{
    if s.len() == 0 {
        Seq::<Seq<char>>::empty()
    } else {
        let before = tokens(s.drop_last());
        if is_whitespace(s.last()) {
            before
        } else if s.len() >= 2 && !is_whitespace(s[s.len() - 2]) {
            before.drop_last().push(before.last().push(s.last()))
        } else {
            before.push(seq![s.last()])
        }
    }
}

/// A piece without the ASCII punctuation at its end.
pub open spec fn trimmed(piece: Seq<char>) -> Seq<char>
    decreases piece.len(),
{
    if piece.len() > 0 && is_punctuation(piece.last()) {
        trimmed(piece.drop_last())
    } else {
        piece
    }
}

/// A word is one letter or more and nothing else.
pub open spec fn is_word(w: Seq<char>) -> bool {
    w.len() > 0 && forall|i: int| 0 <= i < w.len() ==> is_alphabetic(#[trigger] w[i])
}

/// The words among the pieces: each piece without the punctuation at its
/// end, where that is a word.
pub open spec fn kept_words(pieces: Seq<Seq<char>>) -> Seq<Seq<char>>
    decreases pieces.len(),
{
    if pieces.len() == 0 {
        Seq::<Seq<char>>::empty()
    } else {
        let rest = kept_words(pieces.drop_last());
        let w = trimmed(pieces.last());
        if is_word(w) {
            rest.push(w)
        } else {
            rest
        }
    }
}

/// The words of a text, in order.
pub open spec fn words_of(text: Seq<char>) -> Seq<Seq<char>> {
    kept_words(tokens(text))
}

/// How often `keyword` occurs among `words`.
pub open spec fn occurrences(words: Seq<Seq<char>>, keyword: Seq<char>) -> nat
    decreases words.len(),
{
    if words.len() == 0 {
        0
    } else {
        occurrences(words.drop_last(), keyword) + if words.last() == keyword {
            1nat
        } else {
            0nat
        }
    }
}

/// Whether a word begins with an ASCII capital letter.
pub open spec fn is_capitalized(w: Seq<char>) -> bool {
    w.len() > 0 && is_capital(w[0])
}

/// Those of `words` that begin with an ASCII capital letter, in order.
pub open spec fn capitalized(words: Seq<Seq<char>>) -> Seq<Seq<char>>
    decreases words.len(),
{
    if words.len() == 0 {
        Seq::<Seq<char>>::empty()
    } else {
        let rest = capitalized(words.drop_last());
        if is_capitalized(words.last()) {
            rest.push(words.last())
        } else {
            rest
        }
    }
}

/// A run of characters that are no white space, between white space or the
/// ends of the text, is the next piece of the text.
pub proof fn lemma_tokens_run(s: Seq<char>, start: int, end: int)
    requires
        0 <= start < end <= s.len(),
        start == 0 || is_whitespace(s[start - 1]),
        forall|k: int| start <= k < end ==> !is_whitespace(#[trigger] s[k]),
    ensures
        tokens(s.take(end)) == tokens(s.take(start)).push(s.subrange(start, end)),
    decreases end - start,
{
    let upto = s.take(end);
    assert(upto.drop_last() =~= s.take(end - 1));
    assert(upto.last() == s[end - 1]);
    if end == start + 1 {
        assert(s.subrange(start, end) =~= seq![s[start]]);
        if start > 0 {
            assert(upto[upto.len() - 2] == s[start - 1]);
        }
    } else {
        lemma_tokens_run(s, start, end - 1);
        assert(upto[upto.len() - 2] == s[end - 2]);
        let before = tokens(s.take(end - 1));
        assert(before.last() == s.subrange(start, end - 1));
        assert(before.drop_last() =~= tokens(s.take(start)));
        assert(s.subrange(start, end - 1).push(s[end - 1]) =~= s.subrange(start, end));
    }
}

/// A run of the punctuation at the end of a piece comes off by trimming.
pub proof fn lemma_trimmed_run(piece: Seq<char>, stop: int)
    requires
        0 <= stop <= piece.len(),
        forall|k: int| stop <= k < piece.len() ==> is_punctuation(#[trigger] piece[k]),
        stop > 0 ==> !is_punctuation(piece[stop - 1]),
    ensures
        trimmed(piece) == piece.take(stop),
    decreases piece.len() - stop,
{
    if stop == piece.len() {
        assert(piece.take(stop) =~= piece);
    } else {
        let shorter = piece.drop_last();
        assert(is_punctuation(piece[piece.len() - 1]));
        lemma_trimmed_run(shorter, stop);
        assert(shorter.take(stop) =~= piece.take(stop));
    }
}

/// The words of a text, each a slice of the text that it was taken from.
#[derive(Debug, Clone)]
pub struct KWIndex<'a> {
    index: Vec<&'a str>,
}

impl<'a> View for KWIndex<'a> {
    type V = Seq<Seq<char>>;

    /// The indexed words, in order.
    closed spec fn view(&self) -> Seq<Seq<char>> {
        slice_views(self.index@)
    }
}

impl<'a> Default for KWIndex<'a> {
    /// The index without words.
    fn default() -> (r: Self)
        ensures
            r@ == Seq::<Seq<char>>::empty(),
    {
        KWIndex::new()
    }
}

impl<'a> KWIndex<'a> {
    /// Makes an index without words.
    pub fn new() -> (r: Self)
        ensures
            r@ == Seq::<Seq<char>>::empty(),
    {
        let r = KWIndex { index: Vec::new() };
        assert(r@ =~= Seq::<Seq<char>>::empty());
        r
    }

    /// Adds the words of `target` to the index, behind the words that it
    /// holds, and returns the index.
    pub fn extend_from_text(self, target: &'a str) -> (r: Self)
        ensures
            r@ == self@ + words_of(target@),
    {
        let mut me = self;
        let chars = collect_chars(target);
        let n = chars.len();
        let ghost text = target@;
        let mut i: usize = 0;
        proof {
            assert(text.take(0) =~= Seq::<char>::empty());
            assert(me@ =~= self@ + words_of(text.take(0)));
        }
        while i < n
            invariant
                n == text.len(),
                chars@ == text,
                text == target@,
                i <= n,
                i == 0 || i == n || is_whitespace(text[i - 1]) || is_whitespace(text[i as int]),
                me@ == self@ + words_of(text.take(i as int)),
            decreases n - i,
        {
            if char_is_whitespace(chars[i]) {
                proof {
                    assert(text.take(i + 1).drop_last() =~= text.take(i as int));
                }
                i += 1;
            } else {
                let start = i;
                let mut end = i + 1;
                while end < n && !char_is_whitespace(chars[end])
                    invariant
                        start < end <= n,
                        n == text.len(),
                        chars@ == text,
                        forall|k: int| start <= k < end ==> !is_whitespace(#[trigger] text[k]),
                    decreases n - end,
                {
                    end += 1;
                }
                let ghost piece = text.subrange(start as int, end as int);
                let mut stop = end;
                while stop > start && char_is_punctuation(chars[stop - 1])
                    invariant
                        start <= stop <= end <= n,
                        n == text.len(),
                        chars@ == text,
                        forall|k: int| stop <= k < end ==> is_punctuation(#[trigger] text[k]),
                    decreases stop,
                {
                    stop -= 1;
                }
                let ghost word = text.subrange(start as int, stop as int);
                let mut letters = stop > start;
                let mut k = start;
                while letters && k < stop
                    invariant
                        start <= k <= stop <= n,
                        n == text.len(),
                        chars@ == text,
                        letters ==> stop > start,
                        letters ==> forall|j: int| start <= j < k ==> is_alphabetic(#[trigger] text[j]),
                        !letters ==> stop == start || exists|j: int|
                            start <= j < stop && !is_alphabetic(#[trigger] text[j]),
                    decreases stop - k + if letters { 1int } else { 0int },
                {
                    if !char_is_alphabetic(chars[k]) {
                        letters = false;
                    } else {
                        k += 1;
                    }
                }
                proof {
                    lemma_tokens_run(text, start as int, end as int);
                    assert forall|j: int| (stop - start) <= j < piece.len() implies is_punctuation(
                        #[trigger] piece[j],
                    ) by {
                        assert(piece[j] == text[start + j]);
                    }
                    if stop > start {
                        assert(piece[stop - start - 1] == text[stop - 1]);
                    }
                    lemma_trimmed_run(piece, stop - start);
                    assert(piece.take(stop - start) =~= word);
                    assert(tokens(text.take(end as int)).drop_last() =~= tokens(
                        text.take(start as int),
                    ));
                    if letters {
                        assert forall|j: int| 0 <= j < word.len() implies is_alphabetic(
                            #[trigger] word[j],
                        ) by {
                            assert(word[j] == text[start + j]);
                        }
                        assert(is_word(word));
                    } else {
                        if stop > start {
                            let j = choose|j: int|
                                start <= j < stop && !is_alphabetic(#[trigger] text[j]);
                            assert(word[j - start] == text[j]);
                        }
                        assert(!is_word(word));
                    }
                }
                if letters {
                    let found = target.substring_char(start, stop);
                    let ghost held = me.index@;
                    me.index.push(found);
                    proof {
                        assert(slice_views(me.index@) =~= slice_views(held).push(word));
                        assert(me@ =~= self@ + words_of(text.take(end as int)));
                    }
                }
                i = end;
            }
        }
        proof {
            assert(text.take(n as int) == text);
        }
        me
    }

    /// Counts how often `keyword` occurs among the indexed words.
    pub fn count_matches(&self, keyword: &str) -> (count: usize)
        ensures
            count == occurrences(self@, keyword@),
    {
        let mut count: usize = 0;
        let mut i: usize = 0;
        while i < self.index.len()
            invariant
                i <= self.index@.len(),
                count <= i,
                count == occurrences(self@.take(i as int), keyword@),
            decreases self.index@.len() - i,
        {
            proof {
                assert(self@.take(i + 1).drop_last() =~= self@.take(i as int));
                assert(self@.take(i + 1).last() == self.index@[i as int]@);
            }
            if str_eq(keyword, self.index[i]) {
                count += 1;
            }
            i += 1;
        }
        proof {
            assert(self@.take(i as int) == self@);
        }
        count
    }

    /// The `n`-th of the indexed words that begin with an ASCII capital
    /// letter, counting from 0, if there are that many.
    pub fn nth_uppercase(&self, n: usize) -> (r: Option<&str>)
        ensures
            match r {
                Some(word) => n < capitalized(self@).len() && word@ == capitalized(self@)[n as int],
                None => n >= capitalized(self@).len(),
            },
    {
        let mut uppercase_words: Vec<&str> = Vec::new();
        let mut i: usize = 0;
        proof {
            assert(self@.take(0) =~= Seq::<Seq<char>>::empty());
            assert(slice_views(uppercase_words@) =~= capitalized(self@.take(0)));
        }
        while i < self.index.len()
            invariant
                i <= self.index@.len(),
                slice_views(uppercase_words@) == capitalized(self@.take(i as int)),
            decreases self.index@.len() - i,
        {
            let word = self.index[i];
            proof {
                assert(self@.take(i + 1).drop_last() =~= self@.take(i as int));
                assert(self@.take(i + 1).last() == word@);
            }
            let mut letters = word.chars();
            match letters.next() {
                Some(letter) => {
                    if char_is_capital(letter) {
                        let ghost held = uppercase_words@;
                        uppercase_words.push(word);
                        proof {
                            assert(slice_views(uppercase_words@) =~= slice_views(held).push(word@));
                        }
                    }
                },
                None => {},
            }
            i += 1;
        }
        proof {
            assert(self@.take(i as int) == self@);
        }
        if n < uppercase_words.len() {
            proof {
                assert(slice_views(uppercase_words@)[n as int] == uppercase_words@[n as int]@);
            }
            Some(uppercase_words[n])
        } else {
            None
        }
    }

    /// The number of indexed words.
    pub fn len(&self) -> (n: usize)
        ensures
            n == self@.len(),
    {
        self.index.len()
    }

    /// Whether the index has no word.
    pub fn is_empty(&self) -> (b: bool)
        ensures
            b == (self@.len() == 0),
    {
        self.index.len() == 0
    }

    /// The indexed words, in order.
    pub fn words(&self) -> (r: &Vec<&'a str>)
        ensures
            slice_views(r@) == self@,
    {
        &self.index
    }
}

/// The characters of a text, in order.
fn collect_chars(s: &str) -> (v: Vec<char>)
    ensures
        v@ == s@,
{
    let mut v: Vec<char> = Vec::new();
    let chars = s.chars();
    for c in it: chars
        invariant
            it.seq() == s@,
            v@ == s@.take(it.index()),
    {
        v.push(c);
    }
    v
}

} // verus!
