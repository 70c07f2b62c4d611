//! The store of scan results: pages mapped to the status code they answered
//! with, kept in dictionary order of the page and presented in order of the
//! status code.

use crate::text::{
    comes_before, compare, lemma_comes_before_asymmetric, lemma_comes_before_total,
    lemma_comes_before_transitive, Rank,
};
use vstd::prelude::*;

verus! {

/// One stored result as the contracts see it: the page and its status code.
pub type Entry = (Seq<char>, u16);

/// The entries of a list of results, in order.
pub open spec fn entry_views(v: Seq<(String, u16)>) -> Seq<Entry> {
    Seq::new(v.len(), |i: int| (v[i].0@, v[i].1))
}

/// The pages of `s` are in strictly ascending dictionary order, so no page
/// occurs twice.
pub open spec fn key_ordered(s: Seq<Entry>) -> bool {
    forall|i: int, j: int| 0 <= i < j < s.len() ==> comes_before(#[trigger] s[i].0, #[trigger] s[j].0)
}

/// `a` is reported before `b`: it has the smaller status code, or the same
/// status code and the earlier page.
pub open spec fn reported_before(a: Entry, b: Entry) -> bool {
    a.1 < b.1 || (a.1 == b.1 && comes_before(a.0, b.0))
}

/// The entries of `s` are in report order: ascending by status code, and in
/// dictionary order of the page where the status codes are equal.
pub open spec fn report_ordered(s: Seq<Entry>) -> bool {
    forall|i: int, j: int| 0 <= i < j < s.len() ==> reported_before(#[trigger] s[i], #[trigger] s[j])
}

/// The mapping that a list of entries stands for; of two entries with one page
/// the later one counts.
pub open spec fn as_map(s: Seq<Entry>) -> Map<Seq<char>, u16>
    decreases s.len(),
{
    if s.len() == 0 {
        Map::empty()
    } else {
        as_map(s.drop_last()).insert(s.last().0, s.last().1)
    }
}

/// The pages of the mapping are those of the list.
pub proof fn lemma_as_map_dom(s: Seq<Entry>)
    ensures
        as_map(s).dom().finite(),
        forall|k: Seq<char>|
            as_map(s).dom().contains(k) <==> exists|i: int| 0 <= i < s.len() && (#[trigger] s[i]).0 == k,
    decreases s.len(),
{
    if s.len() > 0 {
        let t = s.drop_last();
        lemma_as_map_dom(t);
        assert forall|k: Seq<char>|
            as_map(s).dom().contains(k) <==> exists|i: int| 0 <= i < s.len() && (#[trigger] s[i]).0 == k by {
            if as_map(s).dom().contains(k) {
                if k == s.last().0 {
                    assert(s[s.len() - 1].0 == k);
                } else {
                    let i = choose|i: int| 0 <= i < t.len() && (#[trigger] t[i]).0 == k;
                    assert(s[i].0 == k);
                }
            }
            if exists|i: int| 0 <= i < s.len() && (#[trigger] s[i]).0 == k {
                let i = choose|i: int| 0 <= i < s.len() && (#[trigger] s[i]).0 == k;
                if i < t.len() {
                    assert(t[i].0 == k);
                }
            }
        }
    }
}

/// Where no page occurs twice, the mapping holds each entry of the list, and
/// as many pages as the list has entries.
pub proof fn lemma_as_map_entries(s: Seq<Entry>)
    requires
        key_ordered(s),
    ensures
        as_map(s).dom().finite(),
        as_map(s).dom().len() == s.len(),
        forall|i: int| 0 <= i < s.len() ==> as_map(s).contains_pair((#[trigger] s[i]).0, s[i].1),
    decreases s.len(),
{
    lemma_as_map_dom(s);
    if s.len() > 0 {
        let t = s.drop_last();
        assert(key_ordered(t)) by {
            assert forall|i: int, j: int| 0 <= i < j < t.len() implies comes_before(
                #[trigger] t[i].0,
                #[trigger] t[j].0,
            ) by {
                assert(comes_before(s[i].0, s[j].0));
            }
        }
        lemma_as_map_entries(t);
        lemma_as_map_dom(t);
        assert(!as_map(t).dom().contains(s.last().0)) by {
            if as_map(t).dom().contains(s.last().0) {
                let i = choose|i: int| 0 <= i < t.len() && (#[trigger] t[i]).0 == s.last().0;
                assert(comes_before(s[i].0, s[s.len() - 1].0));
                lemma_comes_before_asymmetric(s[i].0, s.last().0);
            }
        }
        assert forall|i: int| 0 <= i < s.len() implies as_map(s).contains_pair(
            (#[trigger] s[i]).0,
            s[i].1,
        ) by {
            if i < t.len() {
                assert(as_map(t).contains_pair(t[i].0, t[i].1));
                assert(comes_before(s[i].0, s[s.len() - 1].0));
                lemma_comes_before_asymmetric(s[i].0, s.last().0);
            }
        }
    }
}

/// The results found so far. Each page is stored once, with the status code
/// that was stored for it last.
#[derive(Debug)]
pub struct Found {
    entries: Vec<(String, u16)>,
}

impl View for Found {
    type V = Map<Seq<char>, u16>;

    /// The mapping from page to status code.
    closed spec fn view(&self) -> Map<Seq<char>, u16> {
        as_map(entry_views(self.entries@))
    }
}

impl Clone for Found {
    /// A store with the same results.
    fn clone(&self) -> (r: Self)
        ensures
            r@ == self@,
            r.ordered() == self.ordered(),
    {
        let entries = self.entries();
        Found { entries }
    }
}

impl Default for Found {
    /// The empty store.
    fn default() -> (r: Self)
        ensures
            r@ == Map::<Seq<char>, u16>::empty(),
    {
        Found::new()
    }
}

impl Found {
    #[verifier::type_invariant]
    spec fn well_formed(&self) -> bool {
        key_ordered(entry_views(self.entries@))
    }

    /// The stored entries in dictionary order of their pages.
    pub closed spec fn ordered(&self) -> Seq<Entry> {
        entry_views(self.entries@)
    }

    /// The mapping is the one that the ordered entries stand for.
    pub proof fn lemma_view_is_map_of_ordered(&self)
        ensures
            self@ == as_map(self.ordered()),
    {
    }

    /// An empty store.
    pub fn new() -> (r: Found)
        ensures
            r@ == Map::<Seq<char>, u16>::empty(),
            r.ordered() == Seq::<Entry>::empty(),
    {
        let r = Found { entries: Vec::new() };
        assert(entry_views(r.entries@) =~= Seq::<Entry>::empty());
        r
    }

    /// The number of stored pages.
    pub fn len(&self) -> (n: usize)
        ensures
            n == self.ordered().len(),
            n == self@.dom().len(),
            key_ordered(self.ordered()),
    {
        proof {
            use_type_invariant(self);
            lemma_as_map_entries(entry_views(self.entries@));
        }
        self.entries.len()
    }

    /// The place of `page` among the stored pages: the number of stored pages
    /// that come before it.
    fn position(&self, page: &str) -> (p: usize)
        ensures
            p <= self.entries@.len(),
            forall|j: int| 0 <= j < p ==> comes_before(#[trigger] self.entries@[j].0@, page@),
            forall|j: int|
                p <= j < self.entries@.len() ==> !comes_before(#[trigger] self.entries@[j].0@, page@),
    {
        proof {
            use_type_invariant(self);
        }
        let ghost keys = entry_views(self.entries@);
        let mut lo: usize = 0;
        let mut hi: usize = self.entries.len();
        while lo < hi
            invariant
                keys == entry_views(self.entries@),
                key_ordered(keys),
                lo <= hi <= self.entries@.len(),
                forall|j: int| 0 <= j < lo ==> comes_before(#[trigger] self.entries@[j].0@, page@),
                forall|j: int|
                    hi <= j < self.entries@.len() ==> !comes_before(
                        #[trigger] self.entries@[j].0@,
                        page@,
                    ),
            decreases hi - lo,
        {
            let mid = lo + (hi - lo) / 2;
            let rank = compare(self.entries[mid].0.as_str(), page);
            if rank == Rank::Before {
                proof {
                    assert forall|j: int| 0 <= j < mid + 1 implies comes_before(
                        #[trigger] self.entries@[j].0@,
                        page@,
                    ) by {
                        if j < mid {
                            assert(comes_before(keys[j].0, keys[mid as int].0));
                            lemma_comes_before_transitive(keys[j].0, keys[mid as int].0, page@);
                        }
                    }
                }
                lo = mid + 1;
            } else {
                proof {
                    assert forall|j: int| mid <= j < self.entries@.len() implies !comes_before(
                        #[trigger] self.entries@[j].0@,
                        page@,
                    ) by {
                        if j > mid && comes_before(keys[j].0, page@) {
                            assert(comes_before(keys[mid as int].0, keys[j].0));
                            lemma_comes_before_transitive(keys[mid as int].0, keys[j].0, page@);
                        }
                    }
                }
                hi = mid;
            }
        }
        lo
    }

    /// The status code stored for `page`, if one is.
    pub fn get(&self, page: &str) -> (r: Option<u16>)
        ensures
            r matches Some(status) ==> self@.contains_pair(page@, status),
            r is None ==> !self@.dom().contains(page@),
    {
        proof {
            use_type_invariant(self);
            lemma_as_map_entries(entry_views(self.entries@));
            lemma_as_map_dom(entry_views(self.entries@));
        }
        let ghost keys = entry_views(self.entries@);
        let p = self.position(page);
        if p < self.entries.len() && compare(self.entries[p].0.as_str(), page) == Rank::Same {
            proof {
                assert(keys[p as int].0 == page@);
            }
            Some(self.entries[p].1)
        } else {
            proof {
                if self@.dom().contains(page@) {
                    let i = choose|i: int| 0 <= i < keys.len() && (#[trigger] keys[i]).0 == page@;
                    assert(self.entries@[i].0@ == page@);
                    if i < p {
                        lemma_comes_before_asymmetric(keys[i].0, page@);
                    } else if i > p {
                        assert(comes_before(keys[p as int].0, keys[i].0));
                        assert(!comes_before(self.entries@[p as int].0@, page@));
                    }
                }
            }
            None
        }
    }

    /// Stores `status` for `page`, in place of what was stored for it before.
    pub fn insert(&mut self, page: String, status: u16)
        ensures
            final(self)@ == old(self)@.insert(page@, status),
    {
        proof {
            use_type_invariant(&*self);
        }
        let ghost before = entry_views(self.entries@);
        let p = self.position(page.as_str());
        let replace = p < self.entries.len() && compare(self.entries[p].0.as_str(), page.as_str())
            == Rank::Same;
        let ghost key = page@;
        let mut entries: Vec<(String, u16)> = Vec::new();
        std::mem::swap(&mut self.entries, &mut entries);
        if replace {
            entries.set(p, (page, status));
        } else {
            entries.insert(p, (page, status));
        }
        proof {
            let after = entry_views(entries@);
            assert(replace ==> after =~= before.update(p as int, (key, status)));
            assert(!replace ==> after =~= before.insert(p as int, (key, status)));
            assert(placed(before, after, p as int, key, status, replace));
            assert forall|i: int, j: int| 0 <= i < j < after.len() implies comes_before(
                #[trigger] after[i].0,
                #[trigger] after[j].0,
            ) by {
                lemma_insert_keeps_order(before, after, p as int, key, status, replace, i, j);
            }
            lemma_insert_is_map_insert(before, after, p as int, key, status, replace);
        }
        std::mem::swap(&mut self.entries, &mut entries);
    }

    /// The stored results in dictionary order of their pages.
    pub fn entries(&self) -> (r: Vec<(String, u16)>)
        ensures
            entry_views(r@) == self.ordered(),
            key_ordered(self.ordered()),
            self@ == as_map(self.ordered()),
    {
        proof {
            use_type_invariant(self);
        }
        let mut out: Vec<(String, u16)> = Vec::new();
        let mut i: usize = 0;
        while i < self.entries.len()
            invariant
                i <= self.entries@.len(),
                out@.len() == i,
                entry_views(out@) =~= entry_views(self.entries@).take(i as int),
            decreases self.entries@.len() - i,
        {
            let page = self.entries[i].0.clone();
            let ghost held = out@;
            out.push((page, self.entries[i].1));
            proof {
                lemma_entry_views_push(held, out@[i as int]);
            }
            i += 1;
        }
        proof {
            assert(entry_views(self.entries@).take(i as int) == entry_views(self.entries@));
        }
        out
    }

    /// The stored results in report order: ascending by status code, and where
    /// two status codes are equal, in dictionary order of the pages. The result
    /// holds each stored entry once and nothing else.
    pub fn sorted_by_status(&self) -> (r: Vec<(String, u16)>)
        ensures
            report_ordered(entry_views(r@)),
            same_entries(self.ordered(), entry_views(r@)),
            r@.len() == self@.dom().len(),
            forall|i: int| 0 <= i < r@.len() ==> self@.contains_pair((#[trigger] r@[i]).0@, r@[i].1),
    {
        proof {
            use_type_invariant(self);
            lemma_as_map_entries(entry_views(self.entries@));
        }
        let ghost src = entry_views(self.entries@);
        let mut out: Vec<(String, u16)> = Vec::new();
        let mut i: usize = 0;
        proof {
            assert(src.take(0) =~= Seq::<Entry>::empty());
            assert(entry_views(out@) =~= Seq::<Entry>::empty());
        }
        while i < self.entries.len()
            invariant
                src == entry_views(self.entries@),
                key_ordered(src),
                i <= self.entries@.len(),
                report_ordered(entry_views(out@)),
                same_entries(src.take(i as int), entry_views(out@)),
            decreases self.entries@.len() - i,
        {
            let status = self.entries[i].1;
            let mut p: usize = out.len();
            while p > 0 && out[p - 1].1 > status
                invariant
                    p <= out@.len(),
                    forall|j: int| p <= j < out@.len() ==> (#[trigger] out@[j]).1 > status,
                decreases p,
            {
                p -= 1;
            }
            let page = self.entries[i].0.clone();
            let ghost held = out@;
            out.insert(p, (page, status));
            proof {
                lemma_entry_views_insert(held, p as int, out@[p as int]);
                assert(out@[p as int] == (page, status));
                assert(src[i as int] == (page@, status));
                assert forall|j: int| p <= j < held.len() implies (#[trigger] entry_views(
                    held,
                )[j]).1 > status by {
                    assert(held[j].1 > status);
                }
                if p > 0 {
                    assert(entry_views(held)[p - 1].1 == held[p - 1].1);
                }
                lemma_report_insert(src, i as int, entry_views(held), p as int);
            }
            i += 1;
        }
        proof {
            assert(src.take(i as int) == src);
            let res = entry_views(out@);
            assert forall|j: int| 0 <= j < out@.len() implies self@.contains_pair(
                (#[trigger] out@[j]).0@,
                out@[j].1,
            ) by {
                assert(src.contains(res[j]));
                let k = choose|k: int| 0 <= k < src.len() && src[k] == res[j];
                assert(as_map(src).contains_pair(src[k].0, src[k].1));
            }
        }
        out
    }
}

/// Two lists hold the same entries: they are equally long and each entry of
/// one occurs in the other. Of lists in which no entry occurs twice, as those
/// in key order and those in report order, this says that one is a
/// rearrangement of the other.
pub open spec fn same_entries(a: Seq<Entry>, b: Seq<Entry>) -> bool {
    &&& a.len() == b.len()
    &&& forall|i: int| 0 <= i < a.len() ==> b.contains(#[trigger] a[i])
    &&& forall|j: int| 0 <= j < b.len() ==> a.contains(#[trigger] b[j])
}

/// Of two entries neither is reported before the other, and none before
/// itself.
pub proof fn lemma_reported_before_asymmetric(a: Entry, b: Entry)
    requires
        reported_before(a, b),
    ensures
        !reported_before(b, a),
        a != b,
{
    if a.1 == b.1 {
        lemma_comes_before_asymmetric(a.0, b.0);
    }
}

/// There is one way to put entries in report order: two lists in report
/// order that hold the same entries are the same list.
pub proof fn lemma_report_order_unique(a: Seq<Entry>, b: Seq<Entry>)
    requires
        report_ordered(a),
        report_ordered(b),
        same_entries(a, b),
    ensures
        a == b,
{
    assert forall|k: int| 0 <= k < a.len() implies a[k] == b[k] by {
        lemma_same_place(a, b, k);
    }
    assert(a =~= b);
}

/// Two lists in report order that hold the same entries agree at place `k`.
proof fn lemma_same_place(a: Seq<Entry>, b: Seq<Entry>, k: int)
    requires
        report_ordered(a),
        report_ordered(b),
        same_entries(a, b),
        0 <= k < a.len(),
    ensures
        a[k] == b[k],
    decreases k,
{
    assert forall|m: int| 0 <= m < k implies a[m] == b[m] by {
        lemma_same_place(a, b, m);
    }
    assert(b.contains(a[k]));
    let j = choose|j: int| 0 <= j < b.len() && b[j] == a[k];
    assert(a.contains(b[k]));
    let i = choose|i: int| 0 <= i < a.len() && a[i] == b[k];
    if j < k {
        assert(a[j] == b[j]);
        assert(reported_before(a[j], a[k]));
        lemma_reported_before_asymmetric(a[j], a[k]);
    } else if i < k {
        assert(a[i] == b[i]);
        assert(reported_before(b[i], b[k]));
        lemma_reported_before_asymmetric(b[i], b[k]);
    } else if j > k {
        assert(reported_before(b[k], b[j]));
        lemma_reported_before_asymmetric(b[k], b[j]);
        if i > k {
            assert(reported_before(a[k], a[i]));
        }
    }
}

/// The entries of a list with one more result at its end.
proof fn lemma_entry_views_push(v: Seq<(String, u16)>, e: (String, u16))
    ensures
        entry_views(v.push(e)) == entry_views(v).push((e.0@, e.1)),
{
    assert(entry_views(v.push(e)) =~= entry_views(v).push((e.0@, e.1)));
}

/// The entries of a list with one more result at place `p`.
proof fn lemma_entry_views_insert(v: Seq<(String, u16)>, p: int, e: (String, u16))
    requires
        0 <= p <= v.len(),
    ensures
        entry_views(v.insert(p, e)) == entry_views(v).insert(p, (e.0@, e.1)),
{
    assert(entry_views(v.insert(p, e)) =~= entry_views(v).insert(p, (e.0@, e.1)));
}

/// One step of sorting into report order: the next entry in key order goes
/// behind the entries that are held with a status code no greater than its own.
proof fn lemma_report_insert(src: Seq<Entry>, i: int, held: Seq<Entry>, p: int)
    requires
        key_ordered(src),
        0 <= i < src.len(),
        report_ordered(held),
        same_entries(src.take(i), held),
        0 <= p <= held.len(),
        forall|j: int| p <= j < held.len() ==> (#[trigger] held[j]).1 > src[i].1,
        p > 0 ==> held[p - 1].1 <= src[i].1,
    ensures
        report_ordered(held.insert(p, src[i])),
        same_entries(src.take(i + 1), held.insert(p, src[i])),
{
    let e = src[i];
    let now = held.insert(p, e);
    let part = src.take(i);
    let next = src.take(i + 1);
    assert forall|a: int, b: int| 0 <= a < b < now.len() implies reported_before(
        #[trigger] now[a],
        #[trigger] now[b],
    ) by {
        if b == p {
            assert(now[a] == held[a]);
            assert(part.contains(held[a]));
            let k = choose|k: int| 0 <= k < part.len() && part[k] == held[a];
            assert(comes_before(src[k].0, src[i].0));
            if a < p - 1 {
                assert(reported_before(held[a], held[p - 1]));
            }
        } else if a == p {
            assert(now[b] == held[b - 1]);
            assert(held[b - 1].1 > e.1);
        } else {
            let a0 = if a < p { a } else { a - 1 };
            let b0 = if b < p { b } else { b - 1 };
            assert(now[a] == held[a0]);
            assert(now[b] == held[b0]);
            assert(reported_before(held[a0], held[b0]));
        }
    }
    assert forall|k: int| 0 <= k < next.len() implies now.contains(#[trigger] next[k]) by {
        if k == i {
            assert(now[p] == next[k]);
        } else {
            assert(part[k] == next[k]);
            assert(held.contains(part[k]));
            let j0 = choose|j: int| 0 <= j < held.len() && held[j] == part[k];
            let j = if j0 < p { j0 } else { j0 + 1 };
            assert(now[j] == next[k]);
        }
    }
    assert forall|j: int| 0 <= j < now.len() implies next.contains(#[trigger] now[j]) by {
        if j == p {
            assert(next[i] == now[j]);
        } else {
            let j0 = if j < p { j } else { j - 1 };
            assert(now[j] == held[j0]);
            assert(part.contains(held[j0]));
            let k = choose|k: int| 0 <= k < part.len() && part[k] == held[j0];
            assert(next[k] == now[j]);
        }
    }
}

/// What `insert` knows of the place `p` that it found for `key` among the
/// ordered entries `before`, and of the entries `after` that it left.
spec fn placed(
    before: Seq<Entry>,
    after: Seq<Entry>,
    p: int,
    key: Seq<char>,
    status: u16,
    replace: bool,
) -> bool {
    &&& key_ordered(before)
    &&& 0 <= p <= before.len()
    &&& forall|k: int| 0 <= k < p ==> comes_before(#[trigger] before[k].0, key)
    &&& forall|k: int| p <= k < before.len() ==> !comes_before(#[trigger] before[k].0, key)
    &&& replace <==> (p < before.len() && before[p].0 == key)
    &&& replace ==> after == before.update(p, (key, status))
    &&& !replace ==> after == before.insert(p, (key, status))
}

/// An entry that is not replaced has a page that no stored entry has, and the
/// entries from its place on come after it.
proof fn lemma_placed_between(
    before: Seq<Entry>,
    after: Seq<Entry>,
    p: int,
    key: Seq<char>,
    status: u16,
    k: int,
)
    requires
        placed(before, after, p, key, status, false),
        0 <= k < before.len(),
    ensures
        before[k].0 != key,
        k >= p ==> comes_before(key, before[k].0),
{
    if k < p {
        lemma_comes_before_asymmetric(before[k].0, key);
    } else {
        assert(!comes_before(before[p].0, key));
        lemma_comes_before_total(before[p].0, key);
        if k > p {
            assert(comes_before(before[p].0, before[k].0));
            lemma_comes_before_transitive(key, before[p].0, before[k].0);
            lemma_comes_before_asymmetric(key, before[k].0);
        }
    }
}

/// Putting an entry at its place among ordered entries, or in place of the
/// entry with its page, leaves the entries ordered.
proof fn lemma_insert_keeps_order(
    before: Seq<Entry>,
    after: Seq<Entry>,
    p: int,
    key: Seq<char>,
    status: u16,
    replace: bool,
    i: int,
    j: int,
)
    requires
        placed(before, after, p, key, status, replace),
        0 <= i < j < after.len(),
    ensures
        comes_before(after[i].0, after[j].0),
{
    if replace {
        assert(comes_before(before[i].0, before[j].0));
    } else {
        if j == p {
        } else if i == p {
            lemma_placed_between(before, after, p, key, status, j - 1);
        } else {
            let i0 = if i < p { i } else { i - 1 };
            let j0 = if j < p { j } else { j - 1 };
            assert(comes_before(before[i0].0, before[j0].0));
        }
    }
}

/// Putting an entry at its place among ordered entries, or in place of the
/// entry with its page, is an insertion into the mapping.
proof fn lemma_insert_is_map_insert(
    before: Seq<Entry>,
    after: Seq<Entry>,
    p: int,
    key: Seq<char>,
    status: u16,
    replace: bool,
)
    requires
        placed(before, after, p, key, status, replace),
        key_ordered(after),
    ensures
        as_map(after) == as_map(before).insert(key, status),
{
    lemma_as_map_entries(before);
    lemma_as_map_entries(after);
    lemma_as_map_dom(before);
    lemma_as_map_dom(after);
    let want = as_map(before).insert(key, status);
    assert forall|k: Seq<char>| as_map(after).dom().contains(k) <==> want.dom().contains(k) by {
        if as_map(after).dom().contains(k) {
            let i = choose|i: int| 0 <= i < after.len() && (#[trigger] after[i]).0 == k;
            if i != p {
                let i0 = if replace || i < p { i } else { i - 1 };
                assert(before[i0].0 == k);
            }
        }
        if want.dom().contains(k) {
            if k == key {
                assert(after[p].0 == k);
            } else {
                let i = choose|i: int| 0 <= i < before.len() && (#[trigger] before[i]).0 == k;
                let i1 = if replace || i < p { i } else { i + 1 };
                assert(after[i1].0 == k);
            }
        }
    }
    assert forall|k: Seq<char>| as_map(after).dom().contains(k) implies as_map(after)[k] == want[k] by {
        let i = choose|i: int| 0 <= i < after.len() && (#[trigger] after[i]).0 == k;
        assert(as_map(after).contains_pair(after[i].0, after[i].1));
        if i != p {
            let i0 = if replace || i < p { i } else { i - 1 };
            assert(as_map(before).contains_pair(before[i0].0, before[i0].1));
            assert(before[i0] == after[i]);
            if replace {
                if i < p {
                    assert(comes_before(before[i].0, before[p].0));
                    lemma_comes_before_asymmetric(before[i].0, before[p].0);
                } else {
                    assert(comes_before(before[p].0, before[i].0));
                    lemma_comes_before_asymmetric(before[p].0, before[i].0);
                }
            } else {
                lemma_placed_between(before, after, p, key, status, i0);
            }
        }
    }
    assert(as_map(after) =~= want);
}

} // verus!
