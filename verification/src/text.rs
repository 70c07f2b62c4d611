//! String primitives shared by the rest of the crate.
//!
//! Everything here is stated over the `Seq<char>` view of a string and walks
//! the strings with their `chars()` iterators, so no function allocates more
//! than its result.

use vstd::prelude::*;
use vstd::std_specs::iter::IteratorSpec;
use vstd::string::*;

verus! {

/// The views of a list of owned strings, in order.
pub open spec fn views(v: Seq<String>) -> Seq<Seq<char>> {
    Seq::new(v.len(), |i: int| v[i]@)
}

/// The views of a list of borrowed strings, in order.
pub open spec fn slice_views(v: Seq<&str>) -> Seq<Seq<char>> {
    Seq::new(v.len(), |i: int| v[i]@)
}

/// The views of a list with one more string at its end.
pub proof fn lemma_views_push(v: Seq<String>, s: String)
    ensures
        views(v.push(s)) == views(v).push(s@),
{
    assert(views(v.push(s)) =~= views(v).push(s@));
}

/// How two strings stand to each other in dictionary order.
#[derive(Clone, Copy, Debug, PartialEq, Eq, Structural)]
pub enum Rank {
    Before,
    Same,
    After,
}

/// `a` comes strictly before `b` in dictionary order: at the first position
/// where they differ `a` has the smaller character, or `a` is a proper prefix
/// of `b`. Characters are ordered by code point.
pub open spec fn comes_before(a: Seq<char>, b: Seq<char>) -> bool {
    exists|k: int| #[trigger] differ_at(a, b, k) && (k == a.len() || a[k] < b[k])
}

/// `k` is the first position at which `a` stops agreeing with `b`, `b` having a
/// character there.
pub open spec fn differ_at(a: Seq<char>, b: Seq<char>, k: int) -> bool {
    &&& 0 <= k <= a.len()
    &&& k < b.len()
    &&& a.take(k) == b.take(k)
    &&& k < a.len() ==> a[k] != b[k]
}

/// No string comes before itself.
pub proof fn lemma_comes_before_irreflexive(a: Seq<char>)
    ensures
        !comes_before(a, a),
{
}

/// Dictionary order is transitive.
pub proof fn lemma_comes_before_transitive(a: Seq<char>, b: Seq<char>, c: Seq<char>)
    requires
        comes_before(a, b),
        comes_before(b, c),
    ensures
        comes_before(a, c),
{
    let j = choose|k: int| #[trigger] differ_at(a, b, k) && (k == a.len() || a[k] < b[k]);
    let k = choose|k: int| #[trigger] differ_at(b, c, k) && (k == b.len() || b[k] < c[k]);
    let m = if j <= k { j } else { k };
    assert(a.take(m) == c.take(m)) by {
        assert(a.take(m) == a.take(j).take(m));
        assert(b.take(m) == b.take(j).take(m));
        assert(b.take(m) == b.take(k).take(m));
        assert(c.take(m) == c.take(k).take(m));
    }
    if m < a.len() {
        if j < k {
            assert(b.take(k)[j] == c.take(k)[j]);
        } else if k < j {
            assert(a.take(j)[k] == b.take(j)[k]);
        }
    }
    assert(differ_at(a, c, m));
}

/// No two strings come before each other.
pub proof fn lemma_comes_before_asymmetric(a: Seq<char>, b: Seq<char>)
    requires
        comes_before(a, b),
    ensures
        !comes_before(b, a),
        a != b,
{
    if comes_before(b, a) {
        lemma_comes_before_transitive(a, b, a);
        lemma_comes_before_irreflexive(a);
    }
}

/// Of two different strings one comes before the other.
pub proof fn lemma_comes_before_total(a: Seq<char>, b: Seq<char>)
    requires
        a != b,
    ensures
        comes_before(a, b) || comes_before(b, a),
{
    assert(a.take(0) =~= b.take(0));
    lemma_first_difference(a, b, 0);
}

/// Two different strings that agree on their first `i` characters disagree
/// further on, and there one of them comes first.
proof fn lemma_first_difference(a: Seq<char>, b: Seq<char>, i: int)
    requires
        a != b,
        0 <= i <= a.len(),
        i <= b.len(),
        a.take(i) == b.take(i),
    ensures
        comes_before(a, b) || comes_before(b, a),
    decreases a.len() - i,
{
    if i == a.len() {
        assert(a.take(i) == a);
        if i == b.len() {
            assert(b.take(i) == b);
        } else {
            assert(differ_at(a, b, i));
        }
    } else if i == b.len() {
        assert(b.take(i) == b);
        assert(differ_at(b, a, i));
    } else if a[i] != b[i] {
        assert(differ_at(a, b, i));
        assert(differ_at(b, a, i));
    } else {
        assert(a.take(i + 1) =~= a.take(i).push(a[i]));
        assert(b.take(i + 1) =~= b.take(i).push(b[i]));
        lemma_first_difference(a, b, i + 1);
    }
}

/// Whether two strings hold the same characters.
pub fn str_eq(a: &str, b: &str) -> (r: bool)
    ensures
        r == (a@ == b@),
{
    match compare(a, b) {
        Rank::Same => true,
        Rank::Before => {
            proof {
                lemma_comes_before_asymmetric(a@, b@);
            }
            false
        },
        Rank::After => {
            proof {
                lemma_comes_before_asymmetric(b@, a@);
            }
            false
        },
    }
}

/// Compares two strings in dictionary order, character by character.
pub fn compare(a: &str, b: &str) -> (r: Rank)
    ensures
        r == Rank::Before <==> comes_before(a@, b@),
        r == Rank::Same <==> a@ == b@,
        r == Rank::After <==> comes_before(b@, a@),
{
    let mut ia = a.chars();
    let mut ib = b.chars();
    let ghost mut i: int = 0;
    loop
        invariant
            0 <= i <= a@.len(),
            i <= b@.len(),
            ia.remaining() == a@.skip(i),
            ib.remaining() == b@.skip(i),
            a@.take(i) == b@.take(i),
        decreases a@.len() - i,
    {
        let ca = ia.next();
        let cb = ib.next();
        match (ca, cb) {
            (None, None) => {
                proof {
                    assert(a@.take(i) == a@);
                    assert(b@.take(i) == b@);
                    lemma_comes_before_irreflexive(a@);
                }
                return Rank::Same;
            },
            (None, Some(_)) => {
                proof {
                    assert(differ_at(a@, b@, i));
                    lemma_comes_before_asymmetric(a@, b@);
                }
                return Rank::Before;
            },
            (Some(_), None) => {
                proof {
                    assert(differ_at(b@, a@, i));
                    lemma_comes_before_asymmetric(b@, a@);
                }
                return Rank::After;
            },
            (Some(x), Some(y)) => {
                if x < y {
                    proof {
                        assert(differ_at(a@, b@, i));
                        lemma_comes_before_asymmetric(a@, b@);
                    }
                    return Rank::Before;
                }
                if y < x {
                    proof {
                        assert(differ_at(b@, a@, i));
                        lemma_comes_before_asymmetric(b@, a@);
                    }
                    return Rank::After;
                }
                proof {
                    assert(a@.take(i + 1) == a@.take(i).push(a@[i]));
                    assert(b@.take(i + 1) == b@.take(i).push(b@[i]));
                    assert(a@.skip(i).drop_first() == a@.skip(i + 1));
                    assert(b@.skip(i).drop_first() == b@.skip(i + 1));
                    i = i + 1;
                }
            },
        }
    }
}

/// Whether `s` begins with the characters of `prefix`.
pub fn starts_with(s: &str, prefix: &str) -> (r: bool)
    ensures
        r == prefix@.is_prefix_of(s@),
{
    let mut is = s.chars();
    let mut ip = prefix.chars();
    let ghost mut i: int = 0;
    loop
        invariant
            0 <= i <= prefix@.len(),
            i <= s@.len(),
            is.remaining() == s@.skip(i),
            ip.remaining() == prefix@.skip(i),
            prefix@.take(i) == s@.take(i),
        decreases prefix@.len() - i,
    {
        let cp = ip.next();
        match cp {
            None => {
                proof {
                    assert(prefix@.take(i) == prefix@);
                    assert(prefix@ == s@.subrange(0, prefix@.len() as int));
                }
                return true;
            },
            Some(y) => {
                let cs = is.next();
                match cs {
                    None => {
                        return false;
                    },
                    Some(x) => {
                        if x != y {
                            proof {
                                if prefix@.is_prefix_of(s@) {
                                    assert(s@.subrange(0, prefix@.len() as int)[i] == s@[i]);
                                }
                            }
                            return false;
                        }
                        proof {
                            assert(s@.take(i + 1) == s@.take(i).push(s@[i]));
                            assert(prefix@.take(i + 1) == prefix@.take(i).push(prefix@[i]));
                            assert(s@.skip(i).drop_first() == s@.skip(i + 1));
                            assert(prefix@.skip(i).drop_first() == prefix@.skip(i + 1));
                            i = i + 1;
                        }
                    },
                }
            },
        }
    }
}

/// The pieces of `s` between occurrences of `sep`. Reading from the left, a
/// separator closes the current piece and opens an empty one, and any other
/// character extends the current piece; so there is always one piece more than
/// there are separators, and the empty string has the one empty piece.
pub open spec fn split(s: Seq<char>, sep: char) -> Seq<Seq<char>>
    decreases s.len(),
{
    if s.len() == 0 {
        seq![Seq::<char>::empty()]
    } else {
        let before = split(s.drop_last(), sep);
        if s.last() == sep {
            before.push(Seq::<char>::empty())
        } else {
            before.drop_last().push(before.last().push(s.last()))
        }
    }
}

/// A split always has at least one piece.
pub proof fn lemma_split_nonempty(s: Seq<char>, sep: char)
    ensures
        split(s, sep).len() >= 1,
    decreases s.len(),
{
    if s.len() > 0 {
        lemma_split_nonempty(s.drop_last(), sep);
    }
}

/// Splits `s` at every occurrence of `sep` and returns the pieces as owned
/// strings, empty pieces included.
pub fn split_on(s: &str, sep: char) -> (r: Vec<String>)
    ensures
        views(r@) == split(s@, sep),
{
    let n = s.unicode_len();
    let mut out: Vec<String> = Vec::new();
    let mut start: usize = 0;
    let mut idx: usize = 0;
    let chars = s.chars();
    proof {
        assert(s@.take(0) =~= Seq::<char>::empty());
        assert(views(out@).push(s@.subrange(0, 0)) =~= split(s@.take(0), sep));
    }
    for c in it: chars
        invariant
            it.seq() == s@,
            n == s@.len(),
            idx == it.index(),
            start <= idx <= n,
            views(out@).push(s@.subrange(start as int, idx as int)) == split(
                s@.take(idx as int),
                sep,
            ),
    {
        proof {
            assert(s@.take(idx + 1).drop_last() == s@.take(idx as int));
            assert(s@.take(idx + 1).last() == c);
        }
        if c == sep {
            let piece = s.substring_char(start, idx).to_owned();
            let ghost before = out@;
            out.push(piece);
            proof {
                assert(views(out@) =~= views(before).push(piece@));
                assert(s@.subrange(idx + 1, idx + 1) =~= Seq::<char>::empty());
            }
            start = idx + 1;
        } else {
            proof {
                assert(s@.subrange(start as int, idx + 1) =~= s@.subrange(
                    start as int,
                    idx as int,
                ).push(c));
                let prev = views(out@).push(s@.subrange(start as int, idx as int));
                assert(prev.drop_last() =~= views(out@));
            }
        }
        idx += 1;
    }
    let piece = s.substring_char(start, n).to_owned();
    let ghost before = out@;
    out.push(piece);
    proof {
        assert(views(out@) =~= views(before).push(piece@));
        assert(s@.take(n as int) == s@);
    }
    out
}

/// Whether `c` is one of the ten decimal digits.
pub open spec fn is_digit(c: char) -> bool {
    '0' <= c <= '9'
}

/// The value of a decimal digit.
pub open spec fn digit_value(c: char) -> nat {
    (c as int - '0' as int) as nat
}

/// The character that writes the digit `d`.
pub open spec fn digit_char(d: nat) -> char {
    ('0' as int + d as int) as char
}

/// The number that a run of decimal digits writes, most significant first.
pub open spec fn number_value(s: Seq<char>) -> nat
    decreases s.len(),
{
    if s.len() == 0 {
        0
    } else {
        number_value(s.drop_last()) * 10 + digit_value(s.last())
    }
}

/// Whether `s` is a run of decimal digits, possibly empty.
pub open spec fn all_digits(s: Seq<char>) -> bool {
    forall|i: int| 0 <= i < s.len() ==> is_digit(#[trigger] s[i])
}

/// The digits of an unsigned number: the text without its leading `+`, if it
/// has one.
pub open spec fn unsigned_digits(s: Seq<char>) -> Seq<char> {
    if s.len() > 0 && s[0] == '+' {
        s.drop_first()
    } else {
        s
    }
}

/// What `s` reads as when taken for an unsigned decimal number no greater than
/// `max`: an optional `+`, then at least one digit and nothing else. Leading
/// zeros are allowed; signs other than one `+`, blanks, and values above `max`
/// are not.
pub open spec fn parse_unsigned(s: Seq<char>, max: nat) -> Option<nat> {
    let d = unsigned_digits(s);
    if d.len() > 0 && all_digits(d) && number_value(d) <= max {
        Some(number_value(d))
    } else {
        None
    }
}

/// A run of digits writes a number at least as large as each of its prefixes.
pub proof fn lemma_number_value_prefix(s: Seq<char>, j: int)
    requires
        0 <= j <= s.len(),
    ensures
        number_value(s.take(j)) <= number_value(s),
    decreases s.len(),
{
    if j == s.len() {
        assert(s.take(j) == s);
    } else {
        lemma_number_value_prefix(s.drop_last(), j);
        assert(s.drop_last().take(j) == s.take(j));
    }
}

/// The decimal notation of `n`, without sign or leading zeros.
pub open spec fn decimal(n: nat) -> Seq<char>
    decreases n,
{
    if n < 10 {
        seq![digit_char(n)]
    } else {
        decimal(n / 10).push(digit_char(n % 10))
    }
}

/// Reading back the decimal notation of a number gives the number.
pub proof fn lemma_decimal_round_trip(n: nat)
    ensures
        decimal(n).len() > 0,
        all_digits(decimal(n)),
        number_value(decimal(n)) == n,
    decreases n,
{
    if n < 10 {
        assert(decimal(n).drop_last() =~= Seq::<char>::empty());
        assert(number_value(decimal(n).drop_last()) == 0);
    } else {
        lemma_decimal_round_trip(n / 10);
        assert(decimal(n).drop_last() =~= decimal(n / 10));
    }
}

/// Reads `s` as an unsigned decimal number no greater than `max`.
pub fn read_unsigned(s: &str, max: u64) -> (r: Option<u64>)
    ensures
        r matches Some(v) ==> parse_unsigned(s@, max as nat) == Some(v as nat),
        r is None ==> parse_unsigned(s@, max as nat) is None,
{
    let mut it = s.chars();
    let ghost body = unsigned_digits(s@);
    let ghost mut i: int = 0;
    let mut acc: u64 = 0;
    let mut seen: bool = false;
    match it.next() {
        None => {
            return None;
        },
        Some(c) => {
            if c != '+' {
                if !(c >= '0' && c <= '9') {
                    return None;
                }
                let d: u64 = (c as u32 - '0' as u32) as u64;
                proof {
                    assert(body.take(1).drop_last() =~= Seq::<char>::empty());
                    assert(number_value(body.take(1).drop_last()) == 0);
                    assert(number_value(body.take(1)) == d);
                    lemma_number_value_prefix(body, 1);
                }
                if d > max {
                    return None;
                }
                acc = d;
                seen = true;
                proof {
                    i = 1;
                }
            } else {
                proof {
                    assert(body.take(0) =~= Seq::<char>::empty());
                    assert(body.skip(0) =~= body);
                }
            }
        },
    }
    loop
        invariant
            body == unsigned_digits(s@),
            0 <= i <= body.len(),
            it.remaining() == body.skip(i),
            all_digits(body.take(i)),
            acc == number_value(body.take(i)),
            acc <= max,
            seen == (i > 0),
        decreases body.len() - i,
    {
        match it.next() {
            None => {
                proof {
                    assert(body.take(i) == body);
                }
                if seen {
                    return Some(acc);
                }
                return None;
            },
            Some(c) => {
                if !(c >= '0' && c <= '9') {
                    return None;
                }
                let d: u64 = (c as u32 - '0' as u32) as u64;
                proof {
                    assert(body.take(i + 1).drop_last() == body.take(i));
                    assert(body.take(i + 1).last() == c);
                    assert(number_value(body.take(i + 1)) == acc * 10 + d);
                    lemma_number_value_prefix(body, i + 1);
                    assert(body.skip(i).drop_first() == body.skip(i + 1));
                }
                if d > max || acc > (max - d) / 10 {
                    return None;
                }
                acc = acc * 10 + d;
                seen = true;
                proof {
                    assert forall|k: int| 0 <= k < i + 1 implies is_digit(
                        #[trigger] body.take(i + 1)[k],
                    ) by {
                        if k < i {
                            assert(body.take(i)[k] == body[k]);
                        }
                    }
                    i = i + 1;
                }
            },
        }
    }
}

/// The string of one decimal digit.
fn digit_text(d: u64) -> (r: &'static str)
    requires
        d < 10,
    ensures
        r@ == seq![digit_char(d as nat)],
{
    proof {
        reveal_strlit("0");
        reveal_strlit("1");
        reveal_strlit("2");
        reveal_strlit("3");
        reveal_strlit("4");
        reveal_strlit("5");
        reveal_strlit("6");
        reveal_strlit("7");
        reveal_strlit("8");
        reveal_strlit("9");
    }
    let r = if d == 0 {
        "0"
    } else if d == 1 {
        "1"
    } else if d == 2 {
        "2"
    } else if d == 3 {
        "3"
    } else if d == 4 {
        "4"
    } else if d == 5 {
        "5"
    } else if d == 6 {
        "6"
    } else if d == 7 {
        "7"
    } else if d == 8 {
        "8"
    } else {
        "9"
    };
    assert(r@ =~= seq![digit_char(d as nat)]);
    r
}

/// Writes `n` in decimal notation.
pub fn write_decimal(n: u64) -> (r: String)
    ensures
        r@ == decimal(n as nat),
    decreases n,
{
    if n < 10 {
        digit_text(n).to_owned()
    } else {
        let mut r = write_decimal(n / 10);
        r.append(digit_text(n % 10));
        r
    }
}

} // verus!
