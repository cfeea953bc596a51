//! The ordered-merge engine underneath every state log: association
//! sequences strictly sorted by key, lookup, sorted insertion and update,
//! and the two-pointer merge of two sorted sequences that combines the
//! records of keys present on both sides.
//!
//! Strict sorting makes the representation canonical: two well-formed logs
//! with the same per-key contents are equal, which is what makes merged logs
//! deterministic.

use vstd::prelude::*;

use crate::primitives::Address;
use crate::MergeError;

verus! {

/// A key of a state log: totally ordered, with executable comparisons that
/// agree with the specification-level order.
pub trait LogKey: Sized + Copy {
    /// The strict total order the log is sorted by.
    spec fn key_lt(self, other: Self) -> bool;

    /// `key_lt` is transitive and trichotomous.
    proof fn lemma_key_order(a: Self, b: Self, c: Self)
        ensures
            a.key_lt(b) && b.key_lt(c) ==> a.key_lt(c),
            (!a.key_lt(b) && !b.key_lt(a)) <==> a == b,
    ;

    fn lt_key(&self, other: &Self) -> (r: bool)
        ensures
            r == self.key_lt(*other),
    ;

    fn eq_key(&self, other: &Self) -> (r: bool)
        ensures
            r == (*self == *other),
    ;
}

/// A per-key record that knows how to combine with a later record for the
/// same key, failing on a causality violation.
pub trait Mergeable: Sized + Copy {
    /// The combination table; `None` is a causality violation.
    spec fn spec_combine(self, rhs: Self) -> Option<Self>;

    fn combine(self, rhs: Self) -> (r: Result<Self, MergeError>)
        ensures
            (match r {
                Ok(m) => self.spec_combine(rhs) == Some(m),
                Err(e) => self.spec_combine(rhs) is None && e == MergeError::CausalityViolation,
            }),
    ;
}

impl LogKey for Address {
    open spec fn key_lt(self, other: Self) -> bool {
        crate::primitives::addr_lt(self, other)
    }

    proof fn lemma_key_order(a: Self, b: Self, c: Self) {
    }

    fn lt_key(&self, other: &Self) -> (r: bool) {
        self.lt_addr(other)
    }

    fn eq_key(&self, other: &Self) -> (r: bool) {
        *self == *other
    }
}

impl LogKey for u64 {
    open spec fn key_lt(self, other: Self) -> bool {
        self < other
    }

    proof fn lemma_key_order(a: Self, b: Self, c: Self) {
    }

    fn lt_key(&self, other: &Self) -> (r: bool) {
        *self < *other
    }

    fn eq_key(&self, other: &Self) -> (r: bool) {
        *self == *other
    }
}

/// Strict sortedness by key: the canonical-form invariant of every log.
pub open spec fn entries_sorted<K: LogKey, A>(s: Seq<(K, A)>) -> bool {
    forall|i: int, j: int| #![trigger s[i], s[j]]
        0 <= i < j < s.len() ==> s[i].0.key_lt(s[j].0)
}

/// The record held for key `k`, if any (first match).
pub open spec fn seq_get<K: LogKey, A>(s: Seq<(K, A)>, k: K) -> Option<A>
    decreases s.len(),
{
    if s.len() == 0 {
        None
    } else if s[0].0 == k {
        Some(s[0].1)
    } else {
        seq_get(s.skip(1), k)
    }
}

/// Pointwise combination of the records two logs hold for one key. The
/// outer `None` is a causality violation; the inner `Option` is absence.
pub open spec fn combine_opt<A: Mergeable>(l: Option<A>, r: Option<A>) -> Option<Option<A>> {
    match (l, r) {
        (None, None) => Some(None),
        (Some(a), None) => Some(Some(a)),
        (None, Some(b)) => Some(Some(b)),
        (Some(a), Some(b)) => match a.spec_combine(b) {
            Some(m) => Some(Some(m)),
            None => None,
        },
    }
}

/// The ordered merge of two sorted association sequences: a linear pass that
/// emits the smaller key, or combines the two records when the keys match.
pub open spec fn seq_merge<K: LogKey, A: Mergeable>(
    l: Seq<(K, A)>,
    r: Seq<(K, A)>,
) -> Option<Seq<(K, A)>>
    decreases l.len() + r.len(),
{
    if l.len() == 0 {
        Some(r)
    } else if r.len() == 0 {
        Some(l)
    } else if l[0].0.key_lt(r[0].0) {
        match seq_merge(l.skip(1), r) {
            Some(rest) => Some(seq![l[0]] + rest),
            None => None,
        }
    } else if r[0].0.key_lt(l[0].0) {
        match seq_merge(l, r.skip(1)) {
            Some(rest) => Some(seq![r[0]] + rest),
            None => None,
        }
    } else {
        match l[0].1.spec_combine(r[0].1) {
            Some(m) => match seq_merge(l.skip(1), r.skip(1)) {
                Some(rest) => Some(seq![(l[0].0, m)] + rest),
                None => None,
            },
            None => None,
        }
    }
}

/// Consequences of `LogKey::lemma_key_order`: asymmetry, irreflexivity, and
/// totality.
pub proof fn lemma_key_facts<K: LogKey>(a: K, b: K)
    ensures
        !(a.key_lt(b) && b.key_lt(a)),
        !a.key_lt(a),
        a.key_lt(b) || b.key_lt(a) || a == b,
        a.key_lt(b) ==> a != b,
{
    K::lemma_key_order(a, a, a);
    K::lemma_key_order(b, b, b);
    K::lemma_key_order(a, b, a);
    K::lemma_key_order(a, b, b);
}

pub proof fn lemma_sorted_tail<K: LogKey, A>(s: Seq<(K, A)>)
    requires
        entries_sorted(s),
        s.len() > 0,
    ensures
        entries_sorted(s.skip(1)),
{
    assert forall|i: int, j: int| 0 <= i < j < s.skip(1).len() implies (#[trigger] s.skip(
        1,
    )[i]).0.key_lt((#[trigger] s.skip(1)[j]).0) by {
        assert(s.skip(1)[i] == s[i + 1]);
        assert(s.skip(1)[j] == s[j + 1]);
    }
}

/// A record is held for `k` exactly when some entry carries `k`; in a sorted
/// sequence that entry's record is the one returned.
pub proof fn lemma_get_index<K: LogKey, A>(s: Seq<(K, A)>, k: K)
    ensures
        (seq_get(s, k) is Some) <==> (exists|i: int| 0 <= i < s.len() && (#[trigger] s[i]).0
            == k),
    decreases s.len(),
{
    if s.len() == 0 {
    } else if s[0].0 == k {
        assert((s[0]).0 == k);
    } else {
        lemma_get_index(s.skip(1), k);
        if seq_get(s, k) is Some {
            let i = choose|i: int| 0 <= i < s.skip(1).len() && (#[trigger] s.skip(1)[i]).0 == k;
            assert(s[i + 1] == s.skip(1)[i]);
            assert((s[i + 1]).0 == k);
        }
        if exists|i: int| 0 <= i < s.len() && (#[trigger] s[i]).0 == k {
            let i = choose|i: int| 0 <= i < s.len() && (#[trigger] s[i]).0 == k;
            assert(i != 0);
            assert(s.skip(1)[i - 1] == s[i]);
            assert((s.skip(1)[i - 1]).0 == k);
        }
    }
}

pub proof fn lemma_get_at_index<K: LogKey, A>(s: Seq<(K, A)>, i: int)
    requires
        entries_sorted(s),
        0 <= i < s.len(),
    ensures
        seq_get(s, s[i].0) == Some(s[i].1),
    decreases s.len(),
{
    if i == 0 {
    } else {
        assert(s[0].0.key_lt(s[i].0));
        lemma_key_facts(s[0].0, s[i].0);
        lemma_sorted_tail(s);
        assert(s.skip(1)[i - 1] == s[i]);
        lemma_get_at_index(s.skip(1), i - 1);
    }
}

/// In a sorted sequence the head key does not occur again in the tail.
pub proof fn lemma_no_dup_head<K: LogKey, A>(s: Seq<(K, A)>)
    requires
        entries_sorted(s),
        s.len() > 0,
    ensures
        seq_get(s.skip(1), s[0].0) is None,
{
    lemma_get_index(s.skip(1), s[0].0);
    if seq_get(s.skip(1), s[0].0) is Some {
        let i = choose|i: int|
            0 <= i < s.skip(1).len() && (#[trigger] s.skip(1)[i]).0 == s[0].0;
        assert(s.skip(1)[i] == s[i + 1]);
        assert(s[0].0.key_lt(s[i + 1].0));
        lemma_key_facts(s[0].0, s[i + 1].0);
    }
}

/// Any key held in a sorted sequence is not below the head key.
pub proof fn lemma_get_above_head<K: LogKey, A>(s: Seq<(K, A)>, k: K)
    requires
        entries_sorted(s),
        s.len() > 0,
        seq_get(s, k) is Some,
    ensures
        !k.key_lt(s[0].0),
        k == s[0].0 || s[0].0.key_lt(k),
{
    lemma_get_index(s, k);
    let i = choose|i: int| 0 <= i < s.len() && (#[trigger] s[i]).0 == k;
    if i == 0 {
        lemma_key_facts(k, s[0].0);
    } else {
        assert(s[0].0.key_lt(s[i].0));
        lemma_key_facts(s[0].0, k);
    }
}

/// Locate `k` in a sorted association vector: either the index holding it,
/// or the position where it would be inserted.
#[verifier::loop_isolation(false)]
pub fn find_pos<K: LogKey, A>(entries: &Vec<(K, A)>, k: &K) -> (r: (usize, bool))
    requires
        entries_sorted(entries@),
    ensures
        r.0 <= entries@.len(),
        r.1 ==> r.0 < entries@.len() && entries@[r.0 as int].0 == *k,
        !r.1 ==> (forall|j: int| 0 <= j < r.0 ==> (#[trigger] entries@[j]).0.key_lt(*k)) && (
        forall|j: int| r.0 <= j < entries@.len() ==> k.key_lt((#[trigger] entries@[j]).0)),
{
    let mut i: usize = 0;
    while i < entries.len() && entries[i].0.lt_key(k)
        invariant
            i <= entries@.len(),
            forall|j: int| 0 <= j < i ==> (#[trigger] entries@[j]).0.key_lt(*k),
        decreases entries@.len() - i,
    {
        i = i + 1;
    }
    if i < entries.len() && entries[i].0.eq_key(k) {
        (i, true)
    } else {
        proof {
            if i < entries@.len() {
                lemma_key_facts(entries@[i as int].0, *k);
            }
            assert forall|j: int| i <= j < entries@.len() implies k.key_lt(
                (#[trigger] entries@[j]).0,
            ) by {
                if j > i {
                    assert(entries@[i as int].0.key_lt(entries@[j].0));
                    K::lemma_key_order(*k, entries@[i as int].0, entries@[j].0);
                }
            }
        }
        (i, false)
    }
}


proof fn lemma_chain_lt<K: LogKey, A>(s: Seq<(K, A)>, i: int, j: int)
    requires
        forall|p: int| 0 <= p < s.len() - 1 ==> (#[trigger] s[p]).0.key_lt(s[p + 1].0),
        0 <= i < j < s.len(),
    ensures
        s[i].0.key_lt(s[j].0),
    decreases j - i,
{
    if j == i + 1 {
    } else {
        lemma_chain_lt(s, i, j - 1);
        assert(s[j - 1].0.key_lt(s[j].0));
        K::lemma_key_order(s[i].0, s[j - 1].0, s[j].0);
    }
}

/// Sortedness follows from each adjacent pair being ordered.
pub proof fn lemma_adjacent_sorted<K: LogKey, A>(s: Seq<(K, A)>)
    requires
        forall|p: int| 0 <= p < s.len() - 1 ==> (#[trigger] s[p]).0.key_lt(s[p + 1].0),
    ensures
        entries_sorted(s),
{
    assert forall|i: int, j: int| 0 <= i < j < s.len() implies (#[trigger] s[i]).0.key_lt(
        (#[trigger] s[j]).0,
    ) by {
        lemma_chain_lt(s, i, j);
    }
}

/// Whether an association vector is strictly sorted by key.
#[verifier::loop_isolation(false)]
pub fn check_sorted<K: LogKey, A>(v: &Vec<(K, A)>) -> (r: bool)
    ensures
        r == entries_sorted(v@),
{
    if v.len() == 0 {
        return true;
    }
    let mut i: usize = 0;
    while i < v.len() - 1
        invariant
            i < v@.len(),
            forall|p: int| 0 <= p < i ==> (#[trigger] v@[p]).0.key_lt(v@[p + 1].0),
        decreases v@.len() - i,
    {
        if !v[i].0.lt_key(&v[i + 1].0) {
            proof {
                assert(!entries_sorted(v@)) by {
                    if entries_sorted(v@) {
                        assert(v@[i as int].0.key_lt(v@[i as int + 1].0));
                    }
                }
            }
            return false;
        }
        i = i + 1;
    }
    proof {
        lemma_adjacent_sorted(v@);
    }
    true
}

/// Inserting a fresh key at its sorted position preserves sortedness and
/// changes only that key's record.
pub proof fn lemma_insert_sorted<K: LogKey, A>(s: Seq<(K, A)>, i: int, k: K, a: A)
    requires
        entries_sorted(s),
        0 <= i <= s.len(),
        forall|j: int| 0 <= j < i ==> (#[trigger] s[j]).0.key_lt(k),
        forall|j: int| i <= j < s.len() ==> k.key_lt((#[trigger] s[j]).0),
    ensures
        entries_sorted(s.insert(i, (k, a))),
        seq_get(s.insert(i, (k, a)), k) == Some(a),
        forall|k2: K| k2 != k ==> seq_get(s.insert(i, (k, a)), k2) == seq_get(s, k2),
{
    let t = s.insert(i, (k, a));
    assert forall|p: int, q: int| 0 <= p < q < t.len() implies (#[trigger] t[p]).0.key_lt(
        (#[trigger] t[q]).0,
    ) by {
        if p < i && q < i {
            assert(t[p] == s[p] && t[q] == s[q]);
        } else if p < i && q == i {
            assert(t[p] == s[p]);
        } else if p < i && q > i {
            assert(t[p] == s[p] && t[q] == s[q - 1]);
            if i <= q - 1 {
                K::lemma_key_order(s[p].0, k, s[q - 1].0);
            }
        } else if p == i {
            assert(t[q] == s[q - 1]);
        } else {
            assert(t[p] == s[p - 1] && t[q] == s[q - 1]);
        }
    }
    assert(t[i] == (k, a));
    lemma_get_at_index(t, i);
    assert forall|k2: K| k2 != k implies seq_get(t, k2) == seq_get(s, k2) by {
        lemma_get_index(t, k2);
        lemma_get_index(s, k2);
        if seq_get(s, k2) is Some {
            let j = choose|j: int| 0 <= j < s.len() && (#[trigger] s[j]).0 == k2;
            let j2: int = if j < i {
                j
            } else {
                j + 1
            };
            assert(t[j2] == s[j]);
            lemma_get_at_index(s, j);
            lemma_get_at_index(t, j2);
        } else {
            if seq_get(t, k2) is Some {
                let j = choose|j: int| 0 <= j < t.len() && (#[trigger] t[j]).0 == k2;
                assert(j != i);
                let j2: int = if j < i {
                    j
                } else {
                    j - 1
                };
                assert(s[j2] == t[j]);
            }
        }
    }
}

/// Replacing the record at one position keeps the keys, hence sortedness,
/// and changes only that key's record.
pub proof fn lemma_update_sorted<K: LogKey, A>(s: Seq<(K, A)>, i: int, a: A)
    requires
        entries_sorted(s),
        0 <= i < s.len(),
    ensures
        entries_sorted(s.update(i, (s[i].0, a))),
        seq_get(s.update(i, (s[i].0, a)), s[i].0) == Some(a),
        forall|k2: K| k2 != s[i].0 ==> seq_get(s.update(i, (s[i].0, a)), k2) == seq_get(s, k2),
{
    let k = s[i].0;
    let t = s.update(i, (k, a));
    assert forall|p: int, q: int| 0 <= p < q < t.len() implies (#[trigger] t[p]).0.key_lt(
        (#[trigger] t[q]).0,
    ) by {
        assert(t[p].0 == s[p].0);
        assert(t[q].0 == s[q].0);
    }
    lemma_get_at_index(t, i);
    assert forall|k2: K| k2 != k implies seq_get(t, k2) == seq_get(s, k2) by {
        lemma_get_index(t, k2);
        lemma_get_index(s, k2);
        if seq_get(s, k2) is Some {
            let j = choose|j: int| 0 <= j < s.len() && (#[trigger] s[j]).0 == k2;
            assert(j != i);
            assert(t[j] == s[j]);
            lemma_get_at_index(s, j);
            lemma_get_at_index(t, j);
        } else {
            if seq_get(t, k2) is Some {
                let j = choose|j: int| 0 <= j < t.len() && (#[trigger] t[j]).0 == k2;
                assert(j != i);
                assert(s[j] == t[j]);
            }
        }
    }
}

/// Canonicity: a strictly sorted sequence is determined by its contents.
pub proof fn lemma_sorted_canonical<K: LogKey, A>(s1: Seq<(K, A)>, s2: Seq<(K, A)>)
    requires
        entries_sorted(s1),
        entries_sorted(s2),
        forall|k: K| #[trigger] seq_get(s1, k) == seq_get(s2, k),
    ensures
        s1 == s2,
    decreases s1.len(),
{
    if s1.len() == 0 {
        if s2.len() > 0 {
            lemma_get_at_index(s2, 0);
            assert(seq_get(s1, s2[0].0) == seq_get(s2, s2[0].0));
        }
        assert(s1 =~= s2);
    } else if s2.len() == 0 {
        lemma_get_at_index(s1, 0);
        assert(seq_get(s1, s1[0].0) == seq_get(s2, s1[0].0));
    } else {
        lemma_get_at_index(s1, 0);
        lemma_get_at_index(s2, 0);
        assert(seq_get(s2, s1[0].0) is Some);
        assert(seq_get(s1, s2[0].0) is Some);
        lemma_get_above_head(s2, s1[0].0);
        lemma_get_above_head(s1, s2[0].0);
        lemma_key_facts(s1[0].0, s2[0].0);
        assert(s1[0].0 == s2[0].0);
        assert(s1[0] == s2[0]);
        lemma_sorted_tail(s1);
        lemma_sorted_tail(s2);
        assert forall|k: K| #[trigger] seq_get(s1.skip(1), k) == seq_get(s2.skip(1), k) by {
            if k == s1[0].0 {
                lemma_no_dup_head(s1);
                lemma_no_dup_head(s2);
            } else {
                assert(seq_get(s1, k) == seq_get(s1.skip(1), k));
                assert(seq_get(s2, k) == seq_get(s2.skip(1), k));
            }
        }
        lemma_sorted_canonical(s1.skip(1), s2.skip(1));
        assert(s1.len() == s2.len());
        assert forall|i: int| 0 <= i < s1.len() implies s1[i] == s2[i] by {
            if i > 0 {
                assert(s1.skip(1)[i - 1] == s1[i]);
                assert(s2.skip(1)[i - 1] == s2[i]);
            }
        }
        assert(s1 =~= s2);
    }
}

/// The merge of two sorted logs is sorted, and holds for each key exactly
/// the combination of the records the two sides hold; it fails exactly when
/// some key's records cannot be combined.
pub proof fn lemma_seq_merge_props<K: LogKey, A: Mergeable>(l: Seq<(K, A)>, r: Seq<(K, A)>)
    requires
        entries_sorted(l),
        entries_sorted(r),
    ensures
        (match seq_merge(l, r) {
            Some(m) => entries_sorted(m) && (forall|k: K|
                #[trigger] combine_opt(seq_get(l, k), seq_get(r, k)) is Some) && (forall|k: K|
                seq_get(m, k) == combine_opt(
                    #[trigger] seq_get(l, k),
                    seq_get(r, k),
                )->Some_0),
            None => exists|k: K| #[trigger] combine_opt(seq_get(l, k), seq_get(r, k)) is None,
        }),
    decreases l.len() + r.len(),
{
    if l.len() == 0 {
        assert forall|k: K| #[trigger] combine_opt(seq_get(l, k), seq_get(r, k)) is Some
            && seq_get(r, k) == combine_opt(seq_get(l, k), seq_get(r, k))->Some_0 by {
            assert(seq_get(l, k) is None);
        }
    } else if r.len() == 0 {
        assert forall|k: K| #[trigger] combine_opt(seq_get(l, k), seq_get(r, k)) is Some
            && seq_get(l, k) == combine_opt(seq_get(l, k), seq_get(r, k))->Some_0 by {
            assert(seq_get(r, k) is None);
        }
    } else if l[0].0.key_lt(r[0].0) {
        lemma_sorted_tail(l);
        lemma_seq_merge_props(l.skip(1), r);
        match seq_merge(l.skip(1), r) {
            Some(rest) => {
                let m = seq![l[0]] + rest;
                assert(m[0] == l[0]);
                assert(m.skip(1) =~= rest);
                // No record for the head key on the right-hand side.
                lemma_get_index(r, l[0].0);
                if seq_get(r, l[0].0) is Some {
                    let j = choose|j: int| 0 <= j < r.len() && (#[trigger] r[j]).0 == l[0].0;
                    if j > 0 {
                        assert(r[0].0.key_lt(r[j].0));
                        K::lemma_key_order(l[0].0, r[0].0, r[j].0);
                    }
                    lemma_key_facts(l[0].0, r[0].0);
                    lemma_key_facts(l[0].0, l[0].0);
                    assert(false);
                }
                assert forall|k: K| #[trigger] combine_opt(seq_get(l, k), seq_get(r, k)) is Some
                    && seq_get(m, k) == combine_opt(seq_get(l, k), seq_get(r, k))->Some_0 by {
                    if k == l[0].0 {
                        assert(seq_get(l, k) == Some(l[0].1));
                        assert(seq_get(r, k) is None);
                        assert(seq_get(m, k) == Some(l[0].1));
                    } else {
                        assert(seq_get(l, k) == seq_get(l.skip(1), k));
                        assert(seq_get(m, k) == seq_get(m.skip(1), k));
                    }
                }
                // Every key held in the remainder lies above the head key.
                assert forall|q: int| 0 < q < m.len() implies l[0].0.key_lt(
                    (#[trigger] m[q]).0,
                ) by {
                    let kq = rest[q - 1].0;
                    lemma_get_at_index(rest, q - 1);
                    assert(combine_opt(seq_get(l.skip(1), kq), seq_get(r, kq))->Some_0
                        == Some(rest[q - 1].1));
                    if seq_get(l.skip(1), kq) is Some {
                        lemma_get_index(l.skip(1), kq);
                        let j = choose|j: int|
                            0 <= j < l.skip(1).len() && (#[trigger] l.skip(1)[j]).0 == kq;
                        assert(l.skip(1)[j] == l[j + 1]);
                        assert(l[0].0.key_lt(l[j + 1].0));
                    } else {
                        assert(seq_get(r, kq) is Some);
                        lemma_get_above_head(r, kq);
                        if r[0].0.key_lt(kq) {
                            K::lemma_key_order(l[0].0, r[0].0, kq);
                        }
                    }
                }
                assert forall|p: int, q: int| 0 <= p < q < m.len() implies (
                #[trigger] m[p]).0.key_lt((#[trigger] m[q]).0) by {
                    if p > 0 {
                        assert(m[p] == rest[p - 1]);
                        assert(m[q] == rest[q - 1]);
                    }
                }
            },
            None => {
                let k0 = choose|k: K|
                    #[trigger] combine_opt(seq_get(l.skip(1), k), seq_get(r, k)) is None;
                lemma_no_dup_head(l);
                assert(k0 != l[0].0);
                assert(seq_get(l, k0) == seq_get(l.skip(1), k0));
                assert(combine_opt(seq_get(l, k0), seq_get(r, k0)) is None);
            },
        }
    } else if r[0].0.key_lt(l[0].0) {
        lemma_sorted_tail(r);
        lemma_seq_merge_props(l, r.skip(1));
        match seq_merge(l, r.skip(1)) {
            Some(rest) => {
                let m = seq![r[0]] + rest;
                assert(m[0] == r[0]);
                assert(m.skip(1) =~= rest);
                lemma_get_index(l, r[0].0);
                if seq_get(l, r[0].0) is Some {
                    let j = choose|j: int| 0 <= j < l.len() && (#[trigger] l[j]).0 == r[0].0;
                    if j > 0 {
                        assert(l[0].0.key_lt(l[j].0));
                        K::lemma_key_order(r[0].0, l[0].0, l[j].0);
                    }
                    lemma_key_facts(r[0].0, l[0].0);
                    lemma_key_facts(r[0].0, r[0].0);
                    assert(false);
                }
                assert forall|k: K| #[trigger] combine_opt(seq_get(l, k), seq_get(r, k)) is Some
                    && seq_get(m, k) == combine_opt(seq_get(l, k), seq_get(r, k))->Some_0 by {
                    if k == r[0].0 {
                        assert(seq_get(r, k) == Some(r[0].1));
                        assert(seq_get(l, k) is None);
                        assert(seq_get(m, k) == Some(r[0].1));
                    } else {
                        assert(seq_get(r, k) == seq_get(r.skip(1), k));
                        assert(seq_get(m, k) == seq_get(m.skip(1), k));
                    }
                }
                assert forall|q: int| 0 < q < m.len() implies r[0].0.key_lt(
                    (#[trigger] m[q]).0,
                ) by {
                    let kq = rest[q - 1].0;
                    lemma_get_at_index(rest, q - 1);
                    assert(combine_opt(seq_get(l, kq), seq_get(r.skip(1), kq))->Some_0
                        == Some(rest[q - 1].1));
                    if seq_get(r.skip(1), kq) is Some {
                        lemma_get_index(r.skip(1), kq);
                        let j = choose|j: int|
                            0 <= j < r.skip(1).len() && (#[trigger] r.skip(1)[j]).0 == kq;
                        assert(r.skip(1)[j] == r[j + 1]);
                        assert(r[0].0.key_lt(r[j + 1].0));
                    } else {
                        assert(seq_get(l, kq) is Some);
                        lemma_get_above_head(l, kq);
                        if l[0].0.key_lt(kq) {
                            K::lemma_key_order(r[0].0, l[0].0, kq);
                        }
                    }
                }
                assert forall|p: int, q: int| 0 <= p < q < m.len() implies (
                #[trigger] m[p]).0.key_lt((#[trigger] m[q]).0) by {
                    if p > 0 {
                        assert(m[p] == rest[p - 1]);
                        assert(m[q] == rest[q - 1]);
                    }
                }
            },
            None => {
                let k0 = choose|k: K|
                    #[trigger] combine_opt(seq_get(l, k), seq_get(r.skip(1), k)) is None;
                lemma_no_dup_head(r);
                assert(k0 != r[0].0);
                assert(seq_get(r, k0) == seq_get(r.skip(1), k0));
                assert(combine_opt(seq_get(l, k0), seq_get(r, k0)) is None);
            },
        }
    } else {
        lemma_key_facts(l[0].0, r[0].0);
        assert(l[0].0 == r[0].0);
        match l[0].1.spec_combine(r[0].1) {
            Some(mv) => {
                lemma_sorted_tail(l);
                lemma_sorted_tail(r);
                lemma_seq_merge_props(l.skip(1), r.skip(1));
                match seq_merge(l.skip(1), r.skip(1)) {
                    Some(rest) => {
                        let m = seq![(l[0].0, mv)] + rest;
                        assert(m[0] == (l[0].0, mv));
                        assert(m.skip(1) =~= rest);
                        assert forall|k: K| #[trigger] combine_opt(
                            seq_get(l, k),
                            seq_get(r, k),
                        ) is Some && seq_get(m, k) == combine_opt(
                            seq_get(l, k),
                            seq_get(r, k),
                        )->Some_0 by {
                            if k == l[0].0 {
                                assert(seq_get(l, k) == Some(l[0].1));
                                assert(seq_get(r, k) == Some(r[0].1));
                                assert(seq_get(m, k) == Some(mv));
                            } else {
                                assert(seq_get(l, k) == seq_get(l.skip(1), k));
                                assert(seq_get(r, k) == seq_get(r.skip(1), k));
                                assert(seq_get(m, k) == seq_get(m.skip(1), k));
                            }
                        }
                        assert forall|q: int| 0 < q < m.len() implies l[0].0.key_lt(
                            (#[trigger] m[q]).0,
                        ) by {
                            let kq = rest[q - 1].0;
                            lemma_get_at_index(rest, q - 1);
                            assert(combine_opt(
                                seq_get(l.skip(1), kq),
                                seq_get(r.skip(1), kq),
                            )->Some_0 == Some(rest[q - 1].1));
                            if seq_get(l.skip(1), kq) is Some {
                                lemma_get_index(l.skip(1), kq);
                                let j = choose|j: int|
                                    0 <= j < l.skip(1).len() && (#[trigger] l.skip(1)[j]).0
                                        == kq;
                                assert(l.skip(1)[j] == l[j + 1]);
                                assert(l[0].0.key_lt(l[j + 1].0));
                            } else {
                                assert(seq_get(r.skip(1), kq) is Some);
                                lemma_get_index(r.skip(1), kq);
                                let j = choose|j: int|
                                    0 <= j < r.skip(1).len() && (#[trigger] r.skip(1)[j]).0
                                        == kq;
                                assert(r.skip(1)[j] == r[j + 1]);
                                assert(r[0].0.key_lt(r[j + 1].0));
                            }
                        }
                        assert forall|p: int, q: int| 0 <= p < q < m.len() implies (
                        #[trigger] m[p]).0.key_lt((#[trigger] m[q]).0) by {
                            if p > 0 {
                                assert(m[p] == rest[p - 1]);
                                assert(m[q] == rest[q - 1]);
                            }
                        }
                    },
                    None => {
                        let k0 = choose|k: K|
                            #[trigger] combine_opt(
                                seq_get(l.skip(1), k),
                                seq_get(r.skip(1), k),
                            ) is None;
                        lemma_no_dup_head(l);
                        lemma_no_dup_head(r);
                        assert(k0 != l[0].0);
                        assert(seq_get(l, k0) == seq_get(l.skip(1), k0));
                        assert(seq_get(r, k0) == seq_get(r.skip(1), k0));
                        assert(combine_opt(seq_get(l, k0), seq_get(r, k0)) is None);
                    },
                }
            },
            None => {
                assert(seq_get(l, l[0].0) == Some(l[0].1));
                assert(seq_get(r, l[0].0) == Some(r[0].1));
                assert(combine_opt(seq_get(l, l[0].0), seq_get(r, l[0].0)) is None);
            },
        }
    }
}

/// `l` and `r` partition `v`: every entry of `v` goes to exactly one side,
/// keeping its order.
pub open spec fn is_interleaving<K, A>(l: Seq<(K, A)>, r: Seq<(K, A)>, v: Seq<(K, A)>) -> bool
    decreases v.len(),
{
    if v.len() == 0 {
        l.len() == 0 && r.len() == 0
    } else {
        ||| (l.len() > 0 && l[0] == v[0] && is_interleaving(l.skip(1), r, v.skip(1)))
        ||| (r.len() > 0 && r[0] == v[0] && is_interleaving(l, r.skip(1), v.skip(1)))
    }
}

proof fn lemma_interleaving_head<K, A>(l: Seq<(K, A)>, r: Seq<(K, A)>, v: Seq<(K, A)>)
    requires
        is_interleaving(l, r, v),
    ensures
        l.len() > 0 ==> exists|j: int| 0 <= j < v.len() && (#[trigger] v[j]) == l[0],
        r.len() > 0 ==> exists|j: int| 0 <= j < v.len() && (#[trigger] v[j]) == r[0],
    decreases v.len(),
{
    if v.len() == 0 {
    } else if l.len() > 0 && l[0] == v[0] && is_interleaving(l.skip(1), r, v.skip(1)) {
        lemma_interleaving_head(l.skip(1), r, v.skip(1));
        assert(v[0] == l[0]);
        if r.len() > 0 {
            let j = choose|j: int| 0 <= j < v.skip(1).len() && (#[trigger] v.skip(1)[j]) == r[0];
            assert(v[j + 1] == v.skip(1)[j]);
        }
    } else {
        lemma_interleaving_head(l, r.skip(1), v.skip(1));
        assert(v[0] == r[0]);
        if l.len() > 0 {
            let j = choose|j: int| 0 <= j < v.skip(1).len() && (#[trigger] v.skip(1)[j]) == l[0];
            assert(v[j + 1] == v.skip(1)[j]);
        }
    }
}

/// Splitting a sorted log into two pieces, each keeping its order, and
/// merging them back yields the original log.
pub proof fn lemma_merge_partition<K: LogKey, A: Mergeable>(
    l: Seq<(K, A)>,
    r: Seq<(K, A)>,
    v: Seq<(K, A)>,
)
    requires
        entries_sorted(v),
        is_interleaving(l, r, v),
    ensures
        seq_merge(l, r) == Some(v),
    decreases v.len(),
{
    if v.len() == 0 {
        assert(l.len() == 0 && r.len() == 0);
        assert(seq_merge(l, r) == Some(r));
        assert(r =~= v);
    } else if l.len() > 0 && l[0] == v[0] && is_interleaving(l.skip(1), r, v.skip(1)) {
        lemma_sorted_tail(v);
        lemma_merge_partition(l.skip(1), r, v.skip(1));
        if r.len() == 0 {
            if l.skip(1).len() == 0 {
                assert(r =~= v.skip(1));
                assert(l.skip(1) =~= v.skip(1));
            }
            assert(l.skip(1) == v.skip(1));
            assert forall|x: int| 0 <= x < l.len() implies l[x] == v[x] by {
                if x > 0 {
                    assert(l.skip(1)[x - 1] == l[x]);
                    assert(v.skip(1)[x - 1] == v[x]);
                }
            }
            assert(l =~= v);
        } else {
            lemma_interleaving_head(l.skip(1), r, v.skip(1));
            let j = choose|j: int| 0 <= j < v.skip(1).len() && (#[trigger] v.skip(1)[j]) == r[0];
            assert(v[j + 1] == v.skip(1)[j]);
            assert(v[0].0.key_lt(v[j + 1].0));
            assert(l[0].0.key_lt(r[0].0));
            assert(seq_merge(l, r) == Some(seq![l[0]] + v.skip(1)));
            assert(seq![l[0]] + v.skip(1) =~= v);
        }
    } else {
        assert(r.len() > 0 && r[0] == v[0] && is_interleaving(l, r.skip(1), v.skip(1)));
        lemma_sorted_tail(v);
        lemma_merge_partition(l, r.skip(1), v.skip(1));
        if l.len() == 0 {
            if r.skip(1).len() == 0 {
                assert(r.skip(1) =~= v.skip(1));
            }
            assert(r.skip(1) == v.skip(1));
            assert forall|x: int| 0 <= x < r.len() implies r[x] == v[x] by {
                if x > 0 {
                    assert(r.skip(1)[x - 1] == r[x]);
                    assert(v.skip(1)[x - 1] == v[x]);
                }
            }
            assert(r =~= v);
        } else {
            lemma_interleaving_head(l, r.skip(1), v.skip(1));
            let j = choose|j: int| 0 <= j < v.skip(1).len() && (#[trigger] v.skip(1)[j]) == l[0];
            assert(v[j + 1] == v.skip(1)[j]);
            assert(v[0].0.key_lt(v[j + 1].0));
            assert(r[0].0.key_lt(l[0].0));
            lemma_key_facts(l[0].0, r[0].0);
            assert(!l[0].0.key_lt(r[0].0));
            assert(seq_merge(l, r) == Some(seq![r[0]] + v.skip(1)));
            assert(seq![r[0]] + v.skip(1) =~= v);
        }
    }
}

/// Concatenation of an emitted prefix with the merge of what remains.
pub open spec fn opt_concat<K, A>(p: Seq<(K, A)>, o: Option<Seq<(K, A)>>) -> Option<
    Seq<(K, A)>,
> {
    match o {
        Some(s) => Some(p + s),
        None => None,
    }
}

/// Two-pointer merge of two sorted logs: a linear pass emitting the smaller
/// key, combining records when the keys match.
#[verifier::loop_isolation(false)]
#[verifier::rlimit(60)]
pub fn merge_entries<K: LogKey, A: Mergeable>(lhs: Vec<(K, A)>, rhs: Vec<(K, A)>) -> (res:
    Result<Vec<(K, A)>, MergeError>)
    requires
        entries_sorted(lhs@),
        entries_sorted(rhs@),
    ensures
        (match res {
            Ok(m) => seq_merge(lhs@, rhs@) == Some(m@),
            Err(e) => seq_merge(lhs@, rhs@) is None && e == MergeError::CausalityViolation,
        }),
{
    let mut out: Vec<(K, A)> = Vec::new();
    let mut i: usize = 0;
    let mut j: usize = 0;
    proof {
        assert(lhs@.skip(0) =~= lhs@);
        assert(rhs@.skip(0) =~= rhs@);
        assert(out@ + seq_merge(lhs@, rhs@)->Some_0 =~= seq_merge(lhs@, rhs@)->Some_0);
    }
    while i < lhs.len() && j < rhs.len()
        invariant
            i <= lhs@.len(),
            j <= rhs@.len(),
            seq_merge(lhs@, rhs@) == opt_concat(
                out@,
                seq_merge(lhs@.skip(i as int), rhs@.skip(j as int)),
            ),
        decreases lhs@.len() - i + rhs@.len() - j,
    {
        let ghost lt = lhs@.skip(i as int);
        let ghost rt = rhs@.skip(j as int);
        assert(lt[0] == lhs@[i as int]);
        assert(rt[0] == rhs@[j as int]);
        assert(lt.skip(1) =~= lhs@.skip(i as int + 1));
        assert(rt.skip(1) =~= rhs@.skip(j as int + 1));
        let le = lhs[i];
        let re = rhs[j];
        if le.0.lt_key(&re.0) {
            out.push(le);
            i = i + 1;
            proof {
                let rest = seq_merge(lhs@.skip(i as int), rhs@.skip(j as int));
                if rest is Some {
                    assert(out@ + rest->Some_0 =~= out@.drop_last() + (seq![lt[0]]
                        + rest->Some_0));
                }
            }
        } else if re.0.lt_key(&le.0) {
            out.push(re);
            j = j + 1;
            proof {
                let rest = seq_merge(lhs@.skip(i as int), rhs@.skip(j as int));
                if rest is Some {
                    assert(out@ + rest->Some_0 =~= out@.drop_last() + (seq![rt[0]]
                        + rest->Some_0));
                }
            }
        } else {
            proof {
                lemma_key_facts(le.0, re.0);
            }
            match le.1.combine(re.1) {
                Ok(m) => {
                    out.push((le.0, m));
                    i = i + 1;
                    j = j + 1;
                    proof {
                        let rest = seq_merge(lhs@.skip(i as int), rhs@.skip(j as int));
                        if rest is Some {
                            assert(out@ + rest->Some_0 =~= out@.drop_last() + (seq![(lt[0].0, m)]
                                + rest->Some_0));
                        }
                    }
                },
                Err(e) => {
                    return Err(e);
                },
            }
        }
    }
    while i < lhs.len()
        invariant
            i <= lhs@.len(),
            i < lhs@.len() ==> j == rhs@.len(),
            seq_merge(lhs@, rhs@) == opt_concat(
                out@,
                seq_merge(lhs@.skip(i as int), rhs@.skip(j as int)),
            ),
        decreases lhs@.len() - i,
    {
        let ghost lt = lhs@.skip(i as int);
        assert(lt[0] == lhs@[i as int]);
        assert(lt.skip(1) =~= lhs@.skip(i as int + 1));
        assert(rhs@.skip(j as int) =~= Seq::<(K, A)>::empty());
        let le = lhs[i];
        out.push(le);
        i = i + 1;
        proof {
            assert(seq_merge(lhs@.skip(i as int), rhs@.skip(j as int)) == Some(
                lhs@.skip(i as int),
            ));
            assert(out@ + lhs@.skip(i as int) =~= out@.drop_last() + lt);
        }
    }
    while j < rhs.len()
        invariant
            i == lhs@.len(),
            j <= rhs@.len(),
            seq_merge(lhs@, rhs@) == opt_concat(
                out@,
                seq_merge(lhs@.skip(i as int), rhs@.skip(j as int)),
            ),
        decreases rhs@.len() - j,
    {
        let ghost rt = rhs@.skip(j as int);
        assert(rt[0] == rhs@[j as int]);
        assert(rt.skip(1) =~= rhs@.skip(j as int + 1));
        assert(lhs@.skip(i as int) =~= Seq::<(K, A)>::empty());
        let re = rhs[j];
        out.push(re);
        j = j + 1;
        proof {
            assert(seq_merge(lhs@.skip(i as int), rhs@.skip(j as int)) == Some(
                rhs@.skip(j as int),
            ));
            assert(out@ + rhs@.skip(j as int) =~= out@.drop_last() + rt);
        }
    }
    proof {
        assert(lhs@.skip(i as int) =~= Seq::<(K, A)>::empty());
        assert(rhs@.skip(j as int) =~= Seq::<(K, A)>::empty());
        assert(seq_merge(lhs@.skip(i as int), rhs@.skip(j as int)) == Some(
            rhs@.skip(j as int),
        ));
        assert(out@ + rhs@.skip(j as int) =~= out@);
    }
    Ok(out)
}

} // verus!
