//! The list of status codes that keep a result out of the report.
//!
//! The list is kept in the order in which the codes were first added, and a
//! code that it already holds is not added again.

use vstd::prelude::*;

verus! {

/// The status code that is ignored unless the caller takes it out: Not Found.
pub const DEFAULT_IGNORED: u16 = 404;

/// The list after `code` was added: unchanged where it already holds the
/// code, with the code at its end otherwise.
pub open spec fn with_code(list: Seq<u16>, code: u16) -> Seq<u16> {
    if list.contains(code) {
        list
    } else {
        list.push(code)
    }
}

/// The list after each of `codes` was added in turn.
pub open spec fn with_codes(list: Seq<u16>, codes: Seq<u16>) -> Seq<u16>
    decreases codes.len(),
{
    if codes.len() == 0 {
        list
    } else {
        with_code(with_codes(list, codes.drop_last()), codes.last())
    }
}

/// Adding a code keeps what the list held, in place, holds the code
/// afterwards, and adds nothing else; and a list without repetitions stays
/// without.
pub proof fn lemma_with_code(list: Seq<u16>, code: u16)
    ensures
        list.is_prefix_of(with_code(list, code)),
        with_code(list, code).contains(code),
        forall|c: u16| with_code(list, code).contains(c) <==> (list.contains(c) || c == code),
        list.no_duplicates() ==> with_code(list, code).no_duplicates(),
{
    let after = with_code(list, code);
    if !list.contains(code) {
        assert(after[list.len() as int] == code);
        assert(list =~= after.subrange(0, list.len() as int));
        assert forall|c: u16| after.contains(c) <==> (list.contains(c) || c == code) by {
            if list.contains(c) {
                let i = choose|i: int| 0 <= i < list.len() && list[i] == c;
                assert(after[i] == c);
            }
        }
    } else {
        assert(list =~= after.subrange(0, list.len() as int));
    }
}

/// Adding codes keeps what the list held, in place, and holds afterwards the
/// codes of both and no other; and a list without repetitions stays without.
pub proof fn lemma_with_codes(list: Seq<u16>, codes: Seq<u16>)
    ensures
        list.is_prefix_of(with_codes(list, codes)),
        forall|c: u16| with_codes(list, codes).contains(c) <==> (list.contains(c) || codes.contains(c)),
        list.no_duplicates() ==> with_codes(list, codes).no_duplicates(),
    decreases codes.len(),
{
    if codes.len() > 0 {
        let head = codes.drop_last();
        let mid = with_codes(list, head);
        let after = with_codes(list, codes);
        lemma_with_codes(list, head);
        lemma_with_code(mid, codes.last());
        assert(list =~= after.subrange(0, list.len() as int)) by {
            assert(list =~= mid.subrange(0, list.len() as int));
            assert(mid =~= after.subrange(0, mid.len() as int));
        }
        assert forall|c: u16| after.contains(c) <==> (list.contains(c) || codes.contains(c)) by {
            if codes.contains(c) {
                let i = choose|i: int| 0 <= i < codes.len() && codes[i] == c;
                if i < head.len() {
                    assert(head[i] == c);
                }
            }
            if head.contains(c) {
                let i = choose|i: int| 0 <= i < head.len() && head[i] == c;
                assert(codes[i] == c);
            }
            assert(codes[codes.len() - 1] == codes.last());
        }
    } else {
        assert(list =~= with_codes(list, codes).subrange(0, list.len() as int));
    }
}

/// Adding a code twice is adding it once.
pub proof fn lemma_with_code_idempotent(list: Seq<u16>, code: u16)
    ensures
        with_code(with_code(list, code), code) == with_code(list, code),
{
    lemma_with_code(list, code);
}

/// Seeding an empty list with the default once or twice leaves the one code.
pub proof fn lemma_default_seed_once(list: Seq<u16>)
    requires
        list.len() == 0,
    ensures
        with_code(list, DEFAULT_IGNORED) == seq![DEFAULT_IGNORED],
        with_code(with_code(list, DEFAULT_IGNORED), DEFAULT_IGNORED) == seq![DEFAULT_IGNORED],
{
    lemma_with_code_idempotent(list, DEFAULT_IGNORED);
    assert(with_code(list, DEFAULT_IGNORED) =~= seq![DEFAULT_IGNORED]);
}

/// Whether `list` holds `code`.
pub fn holds_code(list: &Vec<u16>, code: u16) -> (b: bool)
    ensures
        b == list@.contains(code),
{
    let mut i: usize = 0;
    while i < list.len()
        invariant
            i <= list@.len(),
            forall|j: int| 0 <= j < i ==> list@[j] != code,
        decreases list@.len() - i,
    {
        if list[i] == code {
            return true;
        }
        i += 1;
    }
    false
}

/// Adds `code` to `list` unless the list holds it.
pub fn add_code(list: &mut Vec<u16>, code: u16)
    ensures
        final(list)@ == with_code(old(list)@, code),
{
    if !holds_code(list, code) {
        list.push(code);
    }
}

} // verus!
