//! File extensions: how a list of them is read, and how the pages to look for
//! grow by them.

use crate::scanner::Scanner;
use crate::text::{lemma_views_push, split, split_on, starts_with, views};
use vstd::arithmetic::div_mod::lemma_fundamental_div_mod_converse;
use vstd::prelude::*;
use vstd::string::*;

verus! {

/// An extension with its leading dot: as given where it begins with one, with
/// a dot put in front otherwise. The empty extension becomes the bare dot.
pub open spec fn with_dot(ext: Seq<char>) -> Seq<char> {
    if ext.len() > 0 && ext[0] == '.' {
        ext
    } else {
        seq!['.'] + ext
    }
}

/// Each of the extensions with its leading dot, in order.
pub open spec fn dotted(tokens: Seq<Seq<char>>) -> Seq<Seq<char>> {
    Seq::new(tokens.len(), |i: int| with_dot(tokens[i]))
}

/// Every word followed by every extension: the variants of the first word in
/// the order of the extensions, then those of the second word, and so on.
pub open spec fn variants(words: Seq<Seq<char>>, exts: Seq<Seq<char>>) -> Seq<Seq<char>> {
    Seq::new(
        words.len() * exts.len(),
        |k: int| words[k / (exts.len() as int)] + exts[k % (exts.len() as int)],
    )
}

/// The variant of word `i` with extension `j` stands at place
/// `i * exts.len() + j`.
pub proof fn lemma_variant_at(words: Seq<Seq<char>>, exts: Seq<Seq<char>>, i: int, j: int)
    requires
        0 <= i < words.len(),
        0 <= j < exts.len(),
    ensures
        0 <= i * exts.len() + j < variants(words, exts).len(),
        variants(words, exts)[i * exts.len() + j] == words[i] + exts[j],
{
    let m = exts.len() as int;
    let n = words.len() as int;
    assert(0 <= i * m + j < n * m) by (nonlinear_arith)
        requires
            0 <= i < n,
            0 <= j < m,
    ;
    lemma_fundamental_div_mod_converse(i * m + j, m, i, j);
}

/// The words together with their variants are as many as the words times one
/// more than the extensions.
pub proof fn lemma_expanded_len(words: Seq<Seq<char>>, exts: Seq<Seq<char>>)
    ensures
        (words + variants(words, exts)).len() == words.len() * (1 + exts.len()),
{
    let m = exts.len() as int;
    let n = words.len() as int;
    assert(n + n * m == n * (1 + m)) by (nonlinear_arith);
}

/// The extension `token` with its leading dot.
fn dot_extension(token: &String) -> (r: String)
    ensures
        r@ == with_dot(token@),
{
    proof {
        reveal_strlit(".");
    }
    if starts_with(token.as_str(), ".") {
        assert("."@ == token@.subrange(0, 1));
        assert(token@.subrange(0, 1)[0] == token@[0]);
        token.clone()
    } else {
        assert(!(token@.len() > 0 && token@[0] == '.')) by {
            if token@.len() > 0 && token@[0] == '.' {
                assert("."@ =~= token@.subrange(0, 1));
            }
        }
        let mut r = ".".to_owned();
        r.append(token.as_str());
        assert(r@ =~= seq!['.'] + token@);
        r
    }
}

impl Scanner {
    /// Reads `extension_args` as a list of file extensions separated by
    /// commas, adds each with its leading dot to the extensions, and then adds
    /// to the pages every page with every extension: the extensions added by
    /// earlier calls too, and of the pages those that were there when the call
    /// began. The pages that were there stay, in place.
    pub fn add_extensions_to_wordlist(&mut self, extension_args: &str)
        ensures
            final(self).extension_list@ == old(self).extension_list@ + dotted(
                split(extension_args@, ','),
            ),
            final(self).wordlist@ == old(self).wordlist@ + variants(
                old(self).wordlist@,
                final(self).extension_list@,
            ),
            final(self).wordlist@.len() == old(self).wordlist@.len() * (1
                + final(self).extension_list@.len()),
            final(self).status_code_ignore_list == old(self).status_code_ignore_list,
            final(self).found == old(self).found,
            final(self).site == old(self).site,
    {
        let tokens = split_on(extension_args, ',');
        let ghost given = dotted(split(extension_args@, ','));
        let mut t: usize = 0;
        while t < tokens.len()
            invariant
                t <= tokens@.len(),
                views(tokens@) == split(extension_args@, ','),
                given == dotted(split(extension_args@, ',')),
                self.extension_list@ =~= old(self).extension_list@ + given.take(t as int),
                self.wordlist == old(self).wordlist,
                self.status_code_ignore_list == old(self).status_code_ignore_list,
                self.found == old(self).found,
                self.site == old(self).site,
            decreases tokens@.len() - t,
        {
            let ext = dot_extension(&tokens[t]);
            proof {
                lemma_views_push(self.extension_list.0@, ext);
                assert(views(tokens@)[t as int] == tokens@[t as int]@);
                assert(given.take(t + 1) =~= given.take(t as int).push(ext@));
            }
            self.extension_list.0.push(ext);
            t += 1;
        }
        proof {
            assert(given.take(t as int) == given);
        }
        let n = self.wordlist.0.len();
        let m = self.extension_list.0.len();
        let ghost words = self.wordlist@;
        let ghost exts = self.extension_list@;
        let ghost all = variants(words, exts);
        let mut index: usize = 0;
        proof {
            assert(index * m == 0) by (nonlinear_arith)
                requires
                    index == 0,
            ;
            assert(self.wordlist@ =~= words + all.take(0));
        }
        while index < n
            invariant
                index <= n,
                n == words.len(),
                m == exts.len(),
                words == old(self).wordlist@,
                exts == self.extension_list@,
                all == variants(words, exts),
                0 <= index * m <= all.len(),
                self.wordlist@ =~= words + all.take(index * m),
                self.wordlist.0@.len() == n + index * m,
                self.status_code_ignore_list == old(self).status_code_ignore_list,
                self.found == old(self).found,
                self.site == old(self).site,
            decreases n - index,
        {
            let mut j: usize = 0;
            while j < m
                invariant
                    j <= m,
                    index < n,
                    n == words.len(),
                    m == exts.len(),
                    words == old(self).wordlist@,
                    exts == self.extension_list@,
                    all == variants(words, exts),
                    0 <= index * m + j <= all.len(),
                    self.wordlist@ =~= words + all.take(index * m + j),
                    self.wordlist.0@.len() == n + index * m + j,
                    self.status_code_ignore_list == old(self).status_code_ignore_list,
                    self.found == old(self).found,
                    self.site == old(self).site,
                decreases m - j,
            {
                proof {
                    lemma_variant_at(words, exts, index as int, j as int);
                    assert(self.wordlist@[index as int] == words[index as int]);
                    assert(self.wordlist@[index as int] == self.wordlist.0@[index as int]@);
                    assert(exts[j as int] == self.extension_list.0@[j as int]@);
                }
                let mut word = self.wordlist.0[index].clone();
                word.append(self.extension_list.0[j].as_str());
                proof {
                    lemma_views_push(self.wordlist.0@, word);
                    assert(all.take(index * m + j + 1) =~= all.take(index * m + j).push(word@));
                }
                self.wordlist.0.push(word);
                j += 1;
            }
            proof {
                assert((index + 1) * m == index * m + m) by (nonlinear_arith);
            }
            index += 1;
        }
        proof {
            assert(all.len() == n * m);
            assert(all.take(index * m) == all);
            lemma_expanded_len(words, exts);
        }
    }
}

} // verus!
