//! The order of entries in a listing: `.` first, `..` second, then by the name
//! with everything but letters and digits dropped, lowercased, with ties broken
//! by the whole name lowercased.

use vstd::prelude::*;
use crate::entry::EntryStat;
use crate::text::{alphanumeric, lowercase};

verus! {

broadcast use vstd::seq_lib::group_to_multiset_ensures;

/// Where a name stands before all others: 0 for `.`, 1 for `..`, 2 for the rest.
pub open spec fn name_rank(name: Seq<char>) -> int {
    if name == seq!['.'] {
        0
    } else if name == seq!['.', '.'] {
        1
    } else {
        2
    }
}

/// The letters and digits of a name, in order.
pub open spec fn alnum_only(s: Seq<char>) -> Seq<char>
    decreases s.len(),
{
    if s.len() == 0 {
        s
    } else if alphanumeric(s.last()) {
        alnum_only(s.drop_last()).push(s.last())
    } else {
        alnum_only(s.drop_last())
    }
}

/// The primary sort key of a name: its letters and digits, lowercased.
pub open spec fn name_key(name: Seq<char>) -> Seq<char> {
    lowercase(alnum_only(name))
}

/// Lexicographic order of texts by code point, as `str`'s ordering gives it.
pub open spec fn text_lt(a: Seq<char>, b: Seq<char>) -> bool
    decreases a.len(),
{
    if a.len() == 0 {
        b.len() > 0
    } else if b.len() == 0 {
        false
    } else if a[0] != b[0] {
        a[0] < b[0]
    } else {
        text_lt(a.drop_first(), b.drop_first())
    }
}

/// The sort key of a name: its rank, its primary key and its lowercased form.
pub open spec fn sort_key(name: Seq<char>) -> (int, Seq<char>, Seq<char>) {
    (name_rank(name), name_key(name), lowercase(name))
}

/// Whether key `a` sorts strictly before key `b`.
pub open spec fn key_lt(a: (int, Seq<char>, Seq<char>), b: (int, Seq<char>, Seq<char>)) -> bool {
    a.0 < b.0 || (a.0 == b.0 && (text_lt(a.1, b.1) || (a.1 == b.1 && text_lt(a.2, b.2))))
}

/// Whether the name `a` sorts strictly before the name `b`.
pub open spec fn name_lt(a: Seq<char>, b: Seq<char>) -> bool {
    key_lt(sort_key(a), sort_key(b))
}

/// Whether the entries stand in listing order.
pub open spec fn in_listing_order(v: Seq<EntryStat>) -> bool {
    forall|i: int, j: int| 0 <= i < j < v.len() ==> !name_lt(v[j].name@, v[i].name@)
}

proof fn lemma_text_lt_irreflexive(a: Seq<char>)
    ensures
        !text_lt(a, a),
    decreases a.len(),
{
    if a.len() > 0 {
        lemma_text_lt_irreflexive(a.drop_first());
    }
}

proof fn lemma_text_lt_transitive(a: Seq<char>, b: Seq<char>, c: Seq<char>)
    requires
        text_lt(a, b),
        text_lt(b, c),
    ensures
        text_lt(a, c),
    decreases a.len(),
{
    if a.len() > 0 && b.len() > 0 && c.len() > 0 && a[0] == b[0] && b[0] == c[0] {
        lemma_text_lt_transitive(a.drop_first(), b.drop_first(), c.drop_first());
    }
}

proof fn lemma_text_lt_total(a: Seq<char>, b: Seq<char>)
    requires
        a != b,
    ensures
        text_lt(a, b) || text_lt(b, a),
    decreases a.len(),
{
    if a.len() > 0 && b.len() > 0 {
        if a[0] == b[0] {
            if a.drop_first() == b.drop_first() {
                assert(a =~= seq![a[0]] + a.drop_first());
                assert(b =~= seq![b[0]] + b.drop_first());
            }
            lemma_text_lt_total(a.drop_first(), b.drop_first());
        }
    } else if a.len() == 0 && b.len() == 0 {
        assert(a =~= b);
    }
}

proof fn lemma_key_le_transitive(
    a: (int, Seq<char>, Seq<char>),
    b: (int, Seq<char>, Seq<char>),
    c: (int, Seq<char>, Seq<char>),
)
    requires
        !key_lt(b, a),
        !key_lt(c, b),
    ensures
        !key_lt(c, a),
{
    if key_lt(c, a) {
        if a.1 != b.1 {
            lemma_text_lt_total(a.1, b.1);
        }
        if a.2 != b.2 {
            lemma_text_lt_total(a.2, b.2);
        }
        if text_lt(c.1, a.1) && text_lt(a.1, b.1) {
            lemma_text_lt_transitive(c.1, a.1, b.1);
        }
        if text_lt(c.2, a.2) && text_lt(a.2, b.2) {
            lemma_text_lt_transitive(c.2, a.2, b.2);
        }
        if c.1 == a.1 && a.1 == b.1 && text_lt(c.2, a.2) && a.2 == b.2 {
        }
    }
}

/// The sort key of a name, computed.
pub struct SortKey {
    pub rank: u8,
    pub key: Vec<char>,
    pub tie: Vec<char>,
}

impl SortKey {
    pub open spec fn view(&self) -> (int, Seq<char>, Seq<char>) {
        (self.rank as int, self.key@, self.tie@)
    }
}

fn is_text(cs: &Vec<char>, lit: &str) -> (r: bool)
    ensures
        r == (cs@ == lit@),
{
    let l = crate::text::chars_of(lit);
    if cs.len() != l.len() {
        return false;
    }
    let mut i: usize = 0;
    while i < cs.len()
        invariant
            i <= cs.len() == l.len(),
            l@ == lit@,
            cs@.subrange(0, i as int) == l@.subrange(0, i as int),
        decreases cs.len() - i,
    {
        if cs[i] != l[i] {
            return false;
        }
        i = i + 1;
        assert(cs@.subrange(0, i as int) =~= l@.subrange(0, i as int));
    }
    assert(cs@ =~= cs@.subrange(0, cs.len() as int));
    assert(l@ =~= l@.subrange(0, l.len() as int));
    true
}

/// The sort key of a name.
pub fn sort_key_of(name: &String) -> (r: SortKey)
    ensures
        r@ == sort_key(name@),
{
    let cs = crate::text::chars_of(name.as_str());
    proof {
        reveal_strlit(".");
        reveal_strlit("..");
        assert("."@ =~= seq!['.']);
        assert(".."@ =~= seq!['.', '.']);
    }
    let rank: u8 = if is_text(&cs, ".") {
        proof {
            reveal_strlit(".");
        }
        0
    } else if is_text(&cs, "..") {
        proof {
            reveal_strlit(".");
            reveal_strlit("..");
        }
        1
    } else {
        proof {
            reveal_strlit(".");
            reveal_strlit("..");
        }
        2
    };
    let mut kept = String::new();
    let mut i: usize = 0;
    while i < cs.len()
        invariant
            i <= cs.len(),
            cs@ == name@,
            kept@ == alnum_only(cs@.subrange(0, i as int)),
        decreases cs.len() - i,
    {
        assert(cs@.subrange(0, i + 1).drop_last() =~= cs@.subrange(0, i as int));
        if crate::text::is_alphanumeric_char(cs[i]) {
            crate::text::push_char(&mut kept, cs[i]);
        }
        i = i + 1;
    }
    assert(cs@.subrange(0, cs.len() as int) =~= cs@);
    let key_text = crate::text::to_lowercase(kept.as_str());
    let tie_text = crate::text::to_lowercase(name.as_str());
    SortKey {
        rank,
        key: crate::text::chars_of(key_text.as_str()),
        tie: crate::text::chars_of(tie_text.as_str()),
    }
}

fn text_less(a: &Vec<char>, b: &Vec<char>) -> (r: bool)
    ensures
        r == text_lt(a@, b@),
{
    let mut k: usize = 0;
    assert(a@.skip(0) =~= a@);
    assert(b@.skip(0) =~= b@);
    while k < a.len() && k < b.len() && a[k] == b[k]
        invariant
            k <= a.len(),
            k <= b.len(),
            text_lt(a@, b@) == text_lt(a@.skip(k as int), b@.skip(k as int)),
        decreases a.len() - k,
    {
        assert(a@.skip(k as int).drop_first() =~= a@.skip(k + 1));
        assert(b@.skip(k as int).drop_first() =~= b@.skip(k + 1));
        k = k + 1;
    }
    if k == a.len() {
        k < b.len()
    } else if k == b.len() {
        false
    } else {
        a[k] < b[k]
    }
}

/// Whether key `a` sorts strictly before key `b`.
pub fn key_less(a: &SortKey, b: &SortKey) -> (r: bool)
    ensures
        r == key_lt(a@, b@),
{
    if a.rank != b.rank {
        return a.rank < b.rank;
    }
    if text_less(&a.key, &b.key) {
        return true;
    }
    if text_less(&b.key, &a.key) {
        return false;
    }
    proof {
        if a.key@ != b.key@ {
            lemma_text_lt_total(a.key@, b.key@);
        }
    }
    text_less(&a.tie, &b.tie)
}

proof fn lemma_key_lt_asymmetric(a: (int, Seq<char>, Seq<char>), b: (int, Seq<char>, Seq<char>))
    requires
        key_lt(a, b),
    ensures
        !key_lt(b, a),
{
    lemma_text_lt_irreflexive(a.1);
    lemma_text_lt_irreflexive(a.2);
    if text_lt(a.1, b.1) && text_lt(b.1, a.1) {
        lemma_text_lt_transitive(a.1, b.1, a.1);
    }
    if text_lt(a.2, b.2) && text_lt(b.2, a.2) {
        lemma_text_lt_transitive(a.2, b.2, a.2);
    }
}

proof fn lemma_insert_in_order(s0: Seq<EntryStat>, p: int, x: EntryStat)
    requires
        in_listing_order(s0),
        0 <= p <= s0.len(),
        forall|q: int| 0 <= q < p ==> name_lt(#[trigger] s0[q].name@, x.name@),
        forall|q: int| p <= q < s0.len() ==> !name_lt(#[trigger] s0[q].name@, x.name@),
    ensures
        in_listing_order(s0.insert(p, x)),
{
    let s = s0.insert(p, x);
    s0.insert_ensures(p, x);
    assert forall|i: int, j: int| 0 <= i < j < s.len() implies !name_lt(s[j].name@, s[i].name@) by {
        if j < p {
            assert(s[i] == s0[i] && s[j] == s0[j]);
        } else if i < p && j == p {
            lemma_key_lt_asymmetric(sort_key(s0[i].name@), sort_key(x.name@));
        } else if i < p && j > p {
            assert(s[j] == s0[j - 1]);
            assert(!name_lt(s0[j - 1].name@, s0[i].name@));
        } else if i == p {
            assert(s[j] == s0[j - 1]);
        } else {
            assert(s[i] == s0[i - 1]);
            assert(s[j] == s0[j - 1]);
            assert(!name_lt(s0[j - 1].name@, s0[i - 1].name@));
        }
    }
}

/// Where `x` goes among the entries `t` when the search starts at `k`: before
/// the first entry from `k` on that does not sort strictly before it.
pub open spec fn insert_pos(t: Seq<EntryStat>, x: Seq<char>, k: int) -> int
    decreases t.len() - k,
{
    if k >= t.len() {
        k
    } else if !name_lt(t[k].name@, x) {
        k
    } else {
        insert_pos(t, x, k + 1)
    }
}

/// The entries in listing order: each entry, from the last to the first, is
/// inserted before the first entry that does not sort strictly before it, so
/// that entries with equal keys keep their order.
pub open spec fn listing_order(s: Seq<EntryStat>) -> Seq<EntryStat>
    decreases s.len(),
{
    if s.len() == 0 {
        s
    } else {
        let t = listing_order(s.drop_first());
        t.insert(insert_pos(t, s[0].name@, 0), s[0])
    }
}

proof fn lemma_insert_pos(t: Seq<EntryStat>, x: Seq<char>, k: int)
    requires
        0 <= k <= t.len(),
    ensures
        k <= insert_pos(t, x, k) <= t.len(),
        forall|q: int| k <= q < insert_pos(t, x, k) ==> name_lt(#[trigger] t[q].name@, x),
        insert_pos(t, x, k) < t.len() ==> !name_lt(t[insert_pos(t, x, k)].name@, x),
    decreases t.len() - k,
{
    if k < t.len() && name_lt(t[k].name@, x) {
        lemma_insert_pos(t, x, k + 1);
    }
}

/// Listing order is a total preorder on names: `listing_order` rearranges the
/// entries without losing or adding any, and leaves no entry after one whose
/// name sorts strictly after its own.
pub proof fn lemma_listing_order(s: Seq<EntryStat>)
    ensures
        listing_order(s).to_multiset() == s.to_multiset(),
        in_listing_order(listing_order(s)),
    decreases s.len(),
{
    broadcast use vstd::multiset::group_multiset_axioms;

    if s.len() > 0 {
        let t = listing_order(s.drop_first());
        let x = s[0];
        lemma_listing_order(s.drop_first());
        lemma_insert_pos(t, x.name@, 0);
        let p = insert_pos(t, x.name@, 0);
        assert forall|q: int| p <= q < t.len() implies !name_lt(#[trigger] t[q].name@, x.name@) by {
            if q > p {
                assert(!name_lt(t[q].name@, t[p].name@));
                lemma_key_le_transitive(sort_key(x.name@), sort_key(t[p].name@), sort_key(t[q].name@));
            }
        }
        lemma_insert_in_order(t, p, x);
        assert(s =~= seq![x] + s.drop_first());
        vstd::seq_lib::lemma_multiset_commutative(seq![x], s.drop_first());
        assert(seq![x].to_multiset() =~= vstd::multiset::Multiset::empty().insert(x)) by {
            assert(seq![x] =~= Seq::<EntryStat>::empty().push(x));
        }
    }
}

/// Inserts `x`, whose sort key is `kx`, into the entries, before the first one
/// that does not sort strictly before it, keeping the keys beside them.
fn insert_in_order(
    sorted: &mut Vec<EntryStat>,
    keys: &mut Vec<SortKey>,
    x: EntryStat,
    kx: SortKey,
)
    requires
        kx@ == sort_key(x.name@),
        old(keys).len() == old(sorted).len(),
        forall|k: int|
            0 <= k < old(keys).len() ==> old(keys)[k]@ == sort_key(#[trigger] old(sorted)[k].name@),
    ensures
        final(sorted)@ == old(sorted)@.insert(insert_pos(old(sorted)@, x.name@, 0), x),
        final(keys).len() == final(sorted).len(),
        forall|k: int|
            0 <= k < final(keys).len() ==> final(keys)[k]@ == sort_key(
                #[trigger] final(sorted)[k].name@,
            ),
{
    let ghost s0 = sorted@;
    let ghost k0 = keys@;
    let mut p: usize = 0;
    while p < sorted.len() && key_less(&keys[p], &kx)
        invariant
            sorted@ == s0,
            keys@ == k0,
            kx@ == sort_key(x.name@),
            p <= sorted.len(),
            keys.len() == sorted.len(),
            forall|k: int| 0 <= k < keys.len() ==> keys[k]@ == sort_key(#[trigger] sorted[k].name@),
            insert_pos(s0, x.name@, 0) == insert_pos(s0, x.name@, p as int),
        decreases sorted.len() - p,
    {
        assert(keys[p as int]@ == sort_key(sorted[p as int].name@));
        assert(name_lt(s0[p as int].name@, x.name@));
        p = p + 1;
    }
    sorted.insert(p, x);
    keys.insert(p, kx);
    proof {
        s0.insert_ensures(p as int, x);
        k0.insert_ensures(p as int, kx);
        assert forall|k: int| 0 <= k < keys.len() implies keys[k]@ == sort_key(
            #[trigger] sorted[k].name@,
        ) by {
            if k < p {
                assert(sorted[k] == s0[k]);
                assert(keys[k] == k0[k]);
            } else if k > p {
                assert(sorted[k] == s0[k - 1]);
                assert(keys[k] == k0[k - 1]);
            }
        }
    }
}

/// Puts the entries in listing order.
pub fn sort_entries(entries: Vec<EntryStat>) -> (r: Vec<EntryStat>)
    ensures
        r@ == listing_order(entries@),
        r@.to_multiset() == entries@.to_multiset(),
        in_listing_order(r@),
{
    let n = entries.len();
    let ghost all = entries@;
    let mut rest = entries;
    let mut sorted: Vec<EntryStat> = Vec::new();
    let mut keys: Vec<SortKey> = Vec::new();
    assert(all.subrange(n as int, n as int) =~= Seq::<EntryStat>::empty());
    while rest.len() > 0
        invariant
            n == all.len(),
            rest.len() <= n,
            rest@ == all.subrange(0, rest.len() as int),
            sorted@ == listing_order(all.subrange(rest.len() as int, n as int)),
            keys.len() == sorted.len(),
            forall|k: int| 0 <= k < keys.len() ==> keys[k]@ == sort_key(#[trigger] sorted[k].name@),
        decreases rest.len(),
    {
        let ghost m = rest.len() - 1;
        let x = rest.pop().unwrap();
        assert(rest@ =~= all.subrange(0, m));
        assert(all.subrange(m, n as int).drop_first() =~= all.subrange(m + 1, n as int));
        let kx = sort_key_of(&x.name);
        insert_in_order(&mut sorted, &mut keys, x, kx);
    }
    assert(all.subrange(0, n as int) =~= all);
    proof {
        lemma_listing_order(all);
    }
    sorted
}

} // verus!
