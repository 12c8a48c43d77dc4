//! Canonical metadata mappings: entry sequences sorted by key, each key at
//! most once, built by order-insensitive insertion with later insertions
//! overriding earlier ones.

use vstd::prelude::*;

use crate::model::{entries_sorted, view_meta_entries, view_meta_value};
use crate::strutil::{lemma_lex_transitive, lemma_lex_trichotomy, lex_lt, lex_lt_exec};
use crate::types::{Meta, MetaValue};
use crate::value::{view_pairs, view_value, WireValue};

verus! {

/// Whether some entry of `s` has key `k`.
pub open spec fn has_key<V>(s: Seq<(Seq<char>, V)>, k: Seq<char>) -> bool {
    exists|i: int| 0 <= i < s.len() && s[i].0 == k
}

/// The mapping an entry sequence denotes; a later entry overrides an
/// earlier one with the same key.
pub open spec fn to_map<V>(s: Seq<(Seq<char>, V)>) -> Map<Seq<char>, V>
    decreases s.len(),
{
    if s.len() == 0 {
        Map::empty()
    } else {
        to_map(s.drop_last()).insert(s.last().0, s.last().1)
    }
}

/// Insertion into a sorted entry sequence: keeps the keys strictly sorted
/// and replaces the value when the key is already present.
pub open spec fn insert_entry<V>(s: Seq<(Seq<char>, V)>, k: Seq<char>, v: V) -> Seq<
    (Seq<char>, V),
>
    decreases s.len(),
{
    if s.len() == 0 {
        seq![(k, v)]
    } else if lex_lt(k, s[0].0) {
        seq![(k, v)] + s
    } else if k == s[0].0 {
        seq![(k, v)] + s.drop_first()
    } else {
        seq![s[0]] + insert_entry(s.drop_first(), k, v)
    }
}

/// The canonical form of an entry sequence: entries inserted in order into
/// an initially empty sorted sequence.
pub open spec fn canon_entries<V>(s: Seq<(Seq<char>, V)>) -> Seq<(Seq<char>, V)>
    decreases s.len(),
{
    if s.len() == 0 {
        Seq::empty()
    } else {
        insert_entry(canon_entries(s.drop_last()), s.last().0, s.last().1)
    }
}

proof fn lemma_has_key_tail<V>(s: Seq<(Seq<char>, V)>, k: Seq<char>)
    requires
        s.len() > 0,
    ensures
        has_key(s, k) <==> (s[0].0 == k || has_key(s.drop_first(), k)),
{
    let t = s.drop_first();
    assert(forall|i: int| 0 <= i < t.len() ==> #[trigger] t[i] == s[i + 1]);
    if has_key(s, k) {
        let i = choose|i: int| 0 <= i < s.len() && s[i].0 == k;
        if i > 0 {
            assert(t[i - 1].0 == k);
        }
    }
    if has_key(t, k) {
        let i = choose|i: int| 0 <= i < t.len() && t[i].0 == k;
        assert(s[i + 1].0 == k);
    }
}

proof fn lemma_has_key_head<V>(s: Seq<(Seq<char>, V)>, k: Seq<char>)
    requires
        s.len() > 0,
    ensures
        has_key(s, k) <==> (s.last().0 == k || has_key(s.drop_last(), k)),
{
    let t = s.drop_last();
    assert(forall|i: int| 0 <= i < t.len() ==> #[trigger] t[i] == s[i]);
    if has_key(s, k) {
        let i = choose|i: int| 0 <= i < s.len() && s[i].0 == k;
        if i < s.len() - 1 {
            assert(t[i].0 == k);
        }
    }
    if has_key(t, k) {
        let i = choose|i: int| 0 <= i < t.len() && t[i].0 == k;
        assert(s[i].0 == k);
    }
}

/// In a sorted sequence the head key is absent from the tail.
proof fn lemma_sorted_head_not_in_tail<V>(s: Seq<(Seq<char>, V)>)
    requires
        entries_sorted(s),
        s.len() > 0,
    ensures
        !has_key(s.drop_first(), s[0].0),
        entries_sorted(s.drop_first()),
{
    let t = s.drop_first();
    assert(forall|i: int| 0 <= i < t.len() ==> #[trigger] t[i] == s[i + 1]);
    if has_key(t, s[0].0) {
        let i = choose|i: int| 0 <= i < t.len() && t[i].0 == s[0].0;
        assert(lex_lt(s[0].0, s[i + 1].0));
        lemma_lex_trichotomy(s[0].0, s[i + 1].0);
    }
}

proof fn lemma_to_map_cons<V>(p: (Seq<char>, V), t: Seq<(Seq<char>, V)>)
    ensures
        to_map(seq![p] + t) =~= if has_key(t, p.0) {
            to_map(t)
        } else {
            to_map(t).insert(p.0, p.1)
        },
    decreases t.len(),
{
    let s = seq![p] + t;
    assert(to_map(s) == to_map(s.drop_last()).insert(s.last().0, s.last().1));
    if t.len() == 0 {
        assert(s.drop_last() =~= Seq::<(Seq<char>, V)>::empty());
        assert(to_map(Seq::<(Seq<char>, V)>::empty()) =~= Map::<Seq<char>, V>::empty());
        assert(s.last() == p);
        assert(!has_key(t, p.0));
    } else {
        let u = t.drop_last();
        assert(to_map(t) == to_map(u).insert(t.last().0, t.last().1));
        assert(s.drop_last() =~= seq![p] + u);
        assert(s.last() == t.last());
        lemma_to_map_cons(p, u);
        lemma_has_key_head(t, p.0);
        if has_key(u, p.0) {
            assert(to_map(seq![p] + u) =~= to_map(u));
            assert(to_map(s) =~= to_map(t));
            assert(has_key(t, p.0));
        } else if t.last().0 == p.0 {
            assert(to_map(seq![p] + u) =~= to_map(u).insert(p.0, p.1));
            assert(to_map(s) =~= to_map(u).insert(p.0, p.1).insert(t.last().0, t.last().1));
            assert(to_map(s) =~= to_map(u).insert(t.last().0, t.last().1));
            assert(to_map(s) =~= to_map(t));
            assert(has_key(t, p.0));
        } else {
            assert(to_map(seq![p] + u) =~= to_map(u).insert(p.0, p.1));
            assert(to_map(s) =~= to_map(u).insert(p.0, p.1).insert(t.last().0, t.last().1));
            assert(to_map(s) =~= to_map(u).insert(t.last().0, t.last().1).insert(p.0, p.1));
            assert(to_map(s) =~= to_map(t).insert(p.0, p.1));
            assert(!has_key(t, p.0));
        }
    }
}

proof fn lemma_to_map_dom<V>(s: Seq<(Seq<char>, V)>, k: Seq<char>)
    ensures
        to_map(s).contains_key(k) <==> has_key(s, k),
    decreases s.len(),
{
    if s.len() == 0 {
        assert(!to_map(s).contains_key(k));
    } else {
        let t = s.drop_last();
        lemma_to_map_dom(t, k);
        lemma_has_key_head(s, k);
        assert(to_map(s) == to_map(t).insert(s.last().0, s.last().1));
    }
}

proof fn lemma_insert_keys<V>(s: Seq<(Seq<char>, V)>, k: Seq<char>, v: V, x: Seq<char>)
    ensures
        has_key(insert_entry(s, k, v), x) <==> (has_key(s, x) || x == k),
    decreases s.len(),
{
    let r = insert_entry(s, k, v);
    if s.len() == 0 {
        lemma_has_key_tail(r, x);
        assert(r.drop_first() =~= Seq::<(Seq<char>, V)>::empty());
    } else if lex_lt(k, s[0].0) {
        assert(r == seq![(k, v)] + s);
        lemma_has_key_tail(r, x);
        assert(r.drop_first() =~= s);
    } else if k == s[0].0 {
        assert(r == seq![(k, v)] + s.drop_first());
        lemma_has_key_tail(r, x);
        assert(r.drop_first() =~= s.drop_first());
        lemma_has_key_tail(s, x);
    } else {
        let inner = insert_entry(s.drop_first(), k, v);
        assert(r == seq![s[0]] + inner);
        lemma_has_key_tail(r, x);
        assert(r.drop_first() =~= inner);
        lemma_insert_keys(s.drop_first(), k, v, x);
        lemma_has_key_tail(s, x);
    }
}

/// Inserting into a sorted entry sequence keeps it sorted.
pub proof fn lemma_insert_sorted<V>(s: Seq<(Seq<char>, V)>, k: Seq<char>, v: V)
    requires
        entries_sorted(s),
    ensures
        entries_sorted(insert_entry(s, k, v)),
    decreases s.len(),
{
    let r = insert_entry(s, k, v);
    if s.len() == 0 {
    } else if lex_lt(k, s[0].0) {
        assert forall|i: int, j: int| 0 <= i < j < r.len() implies lex_lt(r[i].0, r[j].0) by {
            if i == 0 {
                assert(r[j] == s[j - 1]);
                if j > 1 {
                    lemma_lex_transitive(k, s[0].0, s[j - 1].0);
                }
            } else {
                assert(r[i] == s[i - 1] && r[j] == s[j - 1]);
            }
        }
    } else if k == s[0].0 {
        assert forall|i: int, j: int| 0 <= i < j < r.len() implies lex_lt(r[i].0, r[j].0) by {
            if i == 0 {
                assert(r[j] == s.drop_first()[j - 1]);
                assert(r[j] == s[j]);
            } else {
                assert(r[i] == s.drop_first()[i - 1] && r[i] == s[i]);
                assert(r[j] == s.drop_first()[j - 1] && r[j] == s[j]);
            }
        }
    } else {
        lemma_lex_trichotomy(k, s[0].0);
        assert(lex_lt(s[0].0, k));
        lemma_sorted_head_not_in_tail(s);
        lemma_insert_sorted(s.drop_first(), k, v);
        let inner = insert_entry(s.drop_first(), k, v);
        assert(forall|i: int|
            0 <= i < s.len() - 1 ==> #[trigger] s.drop_first()[i] == s[i + 1]);
        assert forall|i: int, j: int| 0 <= i < j < r.len() implies lex_lt(r[i].0, r[j].0) by {
            if i == 0 {
                assert(r[j] == inner[j - 1]);
                lemma_insert_keys(s.drop_first(), k, v, inner[j - 1].0);
                assert(inner[j - 1].0 == inner[j - 1].0 && 0 <= j - 1 < inner.len());
                assert(has_key(inner, inner[j - 1].0));
                if has_key(s.drop_first(), inner[j - 1].0) {
                    let m = choose|m: int|
                        0 <= m < s.drop_first().len() && s.drop_first()[m].0 == inner[j - 1].0;
                    assert(lex_lt(s[0].0, s[m + 1].0));
                } else {
                    assert(inner[j - 1].0 == k);
                }
            } else {
                assert(r[i] == inner[i - 1] && r[j] == inner[j - 1]);
            }
        }
    }
}

/// Inserting an entry updates the denoted mapping at exactly that key.
pub proof fn lemma_insert_to_map<V>(s: Seq<(Seq<char>, V)>, k: Seq<char>, v: V)
    requires
        entries_sorted(s),
    ensures
        to_map(insert_entry(s, k, v)) =~= to_map(s).insert(k, v),
    decreases s.len(),
{
    if s.len() == 0 {
        let r = insert_entry(s, k, v);
        assert(r.drop_last() =~= Seq::<(Seq<char>, V)>::empty());
        assert(to_map(r) == to_map(r.drop_last()).insert(r.last().0, r.last().1));
        assert(to_map(Seq::<(Seq<char>, V)>::empty()) =~= Map::<Seq<char>, V>::empty());
        assert(r.last() == (k, v));
        assert(to_map(s) =~= Map::<Seq<char>, V>::empty());
    } else {
        lemma_sorted_head_not_in_tail(s);
        let t = s.drop_first();
        assert(seq![s[0]] + t =~= s);
        lemma_to_map_cons(s[0], t);
        assert(to_map(s) =~= to_map(t).insert(s[0].0, s[0].1));
        if lex_lt(k, s[0].0) {
            lemma_to_map_cons((k, v), s);
            assert(!has_key(s, k)) by {
                if has_key(s, k) {
                    let i = choose|i: int| 0 <= i < s.len() && s[i].0 == k;
                    if i > 0 {
                        lemma_lex_transitive(k, s[0].0, s[i].0);
                    }
                    lemma_lex_trichotomy(k, s[i].0);
                }
            }
            assert(to_map(insert_entry(s, k, v)) =~= to_map(s).insert(k, v));
        } else if k == s[0].0 {
            lemma_to_map_cons((k, v), t);
            assert(to_map(insert_entry(s, k, v)) =~= to_map(t).insert(k, v));
            assert(to_map(s).insert(k, v) =~= to_map(t).insert(s[0].0, s[0].1).insert(k, v));
            assert(to_map(s).insert(k, v) =~= to_map(t).insert(k, v));
        } else {
            lemma_lex_trichotomy(k, s[0].0);
            assert(lex_lt(s[0].0, k));
            lemma_insert_sorted(t, k, v);
            lemma_insert_to_map(t, k, v);
            let inner = insert_entry(t, k, v);
            lemma_to_map_cons(s[0], inner);
            lemma_insert_keys(t, k, v, s[0].0);
            assert(!has_key(inner, s[0].0));
            assert(to_map(insert_entry(s, k, v)) =~= to_map(inner).insert(s[0].0, s[0].1));
            assert(to_map(inner) =~= to_map(t).insert(k, v));
            assert(to_map(insert_entry(s, k, v)) =~= to_map(t).insert(k, v).insert(
                s[0].0,
                s[0].1,
            ));
            assert(to_map(insert_entry(s, k, v)) =~= to_map(t).insert(s[0].0, s[0].1).insert(
                k,
                v,
            ));
        }
    }
}

/// The canonical form is sorted.
pub proof fn lemma_canon_sorted<V>(s: Seq<(Seq<char>, V)>)
    ensures
        entries_sorted(canon_entries(s)),
    decreases s.len(),
{
    if s.len() > 0 {
        lemma_canon_sorted(s.drop_last());
        lemma_insert_sorted(canon_entries(s.drop_last()), s.last().0, s.last().1);
    }
}

/// The canonical form denotes the same mapping as the original sequence.
pub proof fn lemma_canon_to_map<V>(s: Seq<(Seq<char>, V)>)
    ensures
        to_map(canon_entries(s)) =~= to_map(s),
    decreases s.len(),
{
    if s.len() > 0 {
        lemma_canon_to_map(s.drop_last());
        lemma_canon_sorted(s.drop_last());
        lemma_insert_to_map(canon_entries(s.drop_last()), s.last().0, s.last().1);
    }
}

pub proof fn lemma_insert_after_all<V>(s: Seq<(Seq<char>, V)>, k: Seq<char>, v: V)
    requires
        forall|i: int| 0 <= i < s.len() ==> lex_lt((#[trigger] s[i]).0, k),
    ensures
        insert_entry(s, k, v) == s.push((k, v)),
    decreases s.len(),
{
    if s.len() == 0 {
        assert(insert_entry(s, k, v) =~= s.push((k, v)));
    } else {
        lemma_lex_trichotomy(k, s[0].0);
        assert(forall|i: int|
            0 <= i < s.len() - 1 ==> #[trigger] s.drop_first()[i] == s[i + 1]);
        lemma_insert_after_all(s.drop_first(), k, v);
        assert(seq![s[0]] + s.drop_first().push((k, v)) =~= s.push((k, v)));
    }
}

/// Canonicalization leaves a sorted sequence unchanged.
pub proof fn lemma_canon_sorted_id<V>(s: Seq<(Seq<char>, V)>)
    requires
        entries_sorted(s),
    ensures
        canon_entries(s) == s,
    decreases s.len(),
{
    if s.len() == 0 {
        assert(canon_entries(s) =~= s);
    } else {
        let t = s.drop_last();
        assert(forall|i: int| 0 <= i < t.len() ==> #[trigger] t[i] == s[i]);
        assert(entries_sorted(t));
        lemma_canon_sorted_id(t);
        assert(forall|i: int| 0 <= i < t.len() ==> lex_lt((#[trigger] t[i]).0, s.last().0));
        lemma_insert_after_all(t, s.last().0, s.last().1);
        assert(t.push(s.last()) =~= s);
    }
}

proof fn lemma_sorted_lookup<V>(s: Seq<(Seq<char>, V)>, i: int)
    requires
        entries_sorted(s),
        0 <= i < s.len(),
    ensures
        to_map(s).contains_key(s[i].0),
        to_map(s)[s[i].0] == s[i].1,
    decreases s.len(),
{
    let t = s.drop_last();
    assert(forall|j: int| 0 <= j < t.len() ==> #[trigger] t[j] == s[j]);
    assert(entries_sorted(t));
    if i == s.len() - 1 {
        assert(to_map(s) == to_map(t).insert(s.last().0, s.last().1));
    } else {
        lemma_sorted_lookup(t, i);
        assert(lex_lt(s[i].0, s.last().0));
        lemma_lex_trichotomy(s[i].0, s.last().0);
        assert(to_map(s) == to_map(t).insert(s.last().0, s.last().1));
    }
}

proof fn lemma_tail_map<V>(s: Seq<(Seq<char>, V)>)
    requires
        entries_sorted(s),
        s.len() > 0,
    ensures
        to_map(s.drop_first()) =~= to_map(s).remove(s[0].0),
{
    let t = s.drop_first();
    lemma_sorted_head_not_in_tail(s);
    lemma_to_map_dom(t, s[0].0);
    assert(seq![s[0]] + t =~= s);
    lemma_to_map_cons(s[0], t);
    assert(to_map(s) =~= to_map(t).insert(s[0].0, s[0].1));
}

/// Two sorted entry sequences that denote the same mapping are equal: the
/// canonical form of a mapping is unique.
pub proof fn lemma_sorted_unique<V>(s1: Seq<(Seq<char>, V)>, s2: Seq<(Seq<char>, V)>)
    requires
        entries_sorted(s1),
        entries_sorted(s2),
        to_map(s1) == to_map(s2),
    ensures
        s1 == s2,
    decreases s1.len(),
{
    if s1.len() == 0 {
        if s2.len() > 0 {
            assert(s2[0].0 == s2[0].0 && 0 <= 0 < s2.len());
            assert(has_key(s2, s2[0].0));
            lemma_to_map_dom(s2, s2[0].0);
            lemma_to_map_dom(s1, s2[0].0);
            let i = choose|i: int| 0 <= i < s1.len() && s1[i].0 == s2[0].0;
            assert(false);
        }
        assert(s1 =~= s2);
    } else if s2.len() == 0 {
        assert(s1[0].0 == s1[0].0 && 0 <= 0 < s1.len());
        assert(has_key(s1, s1[0].0));
        lemma_to_map_dom(s1, s1[0].0);
        lemma_to_map_dom(s2, s1[0].0);
        let i = choose|i: int| 0 <= i < s2.len() && s2[i].0 == s1[0].0;
        assert(false);
    } else {
        let k1 = s1[0].0;
        let k2 = s2[0].0;
        assert(k1 == k2) by {
            assert(0 <= 0 < s1.len() && s1[0].0 == k1);
            assert(has_key(s1, k1));
            lemma_to_map_dom(s1, k1);
            lemma_to_map_dom(s2, k1);
            let j = choose|j: int| 0 <= j < s2.len() && s2[j].0 == k1;
            assert(0 <= 0 < s2.len() && s2[0].0 == k2);
            assert(has_key(s2, k2));
            lemma_to_map_dom(s2, k2);
            lemma_to_map_dom(s1, k2);
            let i = choose|i: int| 0 <= i < s1.len() && s1[i].0 == k2;
            if j > 0 {
                assert(lex_lt(k2, s2[j].0));
            }
            if i > 0 {
                assert(lex_lt(k1, s1[i].0));
            }
            lemma_lex_trichotomy(k1, k2);
        }
        lemma_sorted_lookup(s1, 0);
        lemma_sorted_lookup(s2, 0);
        assert(s1[0].1 == to_map(s1)[k1]);
        assert(s2[0].1 == to_map(s2)[k1]);
        let t1 = s1.drop_first();
        let t2 = s2.drop_first();
        lemma_sorted_head_not_in_tail(s1);
        lemma_sorted_head_not_in_tail(s2);
        lemma_tail_map(s1);
        lemma_tail_map(s2);
        assert(to_map(t1) =~= to_map(t2));
        lemma_sorted_unique(t1, t2);
        assert forall|i: int| 0 <= i < s1.len() implies s1[i] == s2[i] by {
            if i > 0 {
                assert(s1[i] == t1[i - 1]);
                assert(s2[i] == t2[i - 1]);
            }
        }
        assert(s1 =~= s2);
    }
}

/// Canonicalization depends only on the denoted mapping: any two entry
/// sequences that denote the same mapping canonicalize identically.
pub proof fn lemma_canon_of_map<V>(s1: Seq<(Seq<char>, V)>, s2: Seq<(Seq<char>, V)>)
    requires
        to_map(s1) == to_map(s2),
    ensures
        canon_entries(s1) == canon_entries(s2),
{
    lemma_canon_sorted(s1);
    lemma_canon_sorted(s2);
    lemma_canon_to_map(s1);
    lemma_canon_to_map(s2);
    lemma_sorted_unique(canon_entries(s1), canon_entries(s2));
}

/// Where insertion lands: before the first entry whose key is not below
/// `k`, replacing it when the keys are equal.
proof fn lemma_insert_at<V>(s: Seq<(Seq<char>, V)>, k: Seq<char>, v: V, j: int)
    requires
        entries_sorted(s),
        0 <= j <= s.len(),
        forall|i: int| 0 <= i < j ==> lex_lt((#[trigger] s[i]).0, k),
        j < s.len() ==> !lex_lt(s[j].0, k),
    ensures
        (j < s.len() && s[j].0 == k) ==> insert_entry(s, k, v) == s.update(j, (k, v)),
        !(j < s.len() && s[j].0 == k) ==> insert_entry(s, k, v) == s.subrange(0, j) + seq![(k, v)]
            + s.subrange(j, s.len() as int),
    decreases s.len(),
{
    if j == 0 {
        if s.len() == 0 {
            assert(insert_entry(s, k, v) =~= s.subrange(0, 0) + seq![(k, v)] + s.subrange(
                0,
                0,
            ));
        } else if s[0].0 == k {
            lemma_lex_trichotomy(k, s[0].0);
            assert(insert_entry(s, k, v) == seq![(k, v)] + s.drop_first());
            assert(seq![(k, v)] + s.drop_first() =~= s.update(0, (k, v)));
        } else {
            lemma_lex_trichotomy(k, s[0].0);
            assert(lex_lt(k, s[0].0));
            assert(seq![(k, v)] + s =~= s.subrange(0, 0) + seq![(k, v)] + s.subrange(
                0,
                s.len() as int,
            ));
        }
    } else {
        assert(lex_lt(s[0].0, k));
        lemma_lex_trichotomy(k, s[0].0);
        let t = s.drop_first();
        lemma_sorted_head_not_in_tail(s);
        assert(forall|i: int| 0 <= i < t.len() ==> #[trigger] t[i] == s[i + 1]);
        lemma_insert_at(t, k, v, j - 1);
        assert(insert_entry(s, k, v) == seq![s[0]] + insert_entry(t, k, v));
        if j < s.len() && s[j].0 == k {
            assert(t[j - 1].0 == k);
            assert(insert_entry(t, k, v) == t.update(j - 1, (k, v)));
            assert(seq![s[0]] + t.update(j - 1, (k, v)) =~= s.update(j, (k, v)));
        } else {
            assert(!(j - 1 < t.len() && t[j - 1].0 == k));
            assert(insert_entry(t, k, v) == t.subrange(0, j - 1) + seq![(k, v)] + t.subrange(
                j - 1,
                t.len() as int,
            ));
            assert(seq![s[0]] + (t.subrange(0, j - 1) + seq![(k, v)] + t.subrange(
                j - 1,
                t.len() as int,
            )) =~= s.subrange(0, j) + seq![(k, v)] + s.subrange(j, s.len() as int));
        }
    }
}

/// Inserts `(k, v)` into a metadata entry vector whose keys are strictly
/// sorted, keeping them sorted; an entry with the same key is replaced.
pub fn meta_entries_insert(entries: &mut Vec<(String, MetaValue)>, k: String, v: MetaValue)
    requires
        entries_sorted(view_meta_entries(old(entries)@)),
    ensures
        view_meta_entries(final(entries)@) == insert_entry(
            view_meta_entries(old(entries)@),
            k@,
            view_meta_value(v),
        ),
        entries_sorted(view_meta_entries(final(entries)@)),
{
    let ghost s = view_meta_entries(old(entries)@);
    proof {
        lemma_insert_sorted(s, k@, view_meta_value(v));
    }
    let mut j: usize = 0;
    let mut stop = false;
    while !stop && j < entries.len()
        invariant
            0 <= j <= entries.len(),
            entries@ == old(entries)@,
            s == view_meta_entries(entries@),
            forall|i: int| 0 <= i < j ==> lex_lt((#[trigger] s[i]).0, k@),
            stop ==> j < entries.len() && !lex_lt(s[j as int].0, k@),
        decreases entries.len() - j + (if stop {
            0int
        } else {
            1int
        }),
    {
        if lex_lt_exec(&entries[j].0, &k) {
            assert(s[j as int].0 == entries@[j as int].0@);
            j = j + 1;
        } else {
            stop = true;
        }
    }
    if j < entries.len() {
        let same = entries[j].0.eq(&k);
        if same {
            proof {
                lemma_insert_at(s, k@, view_meta_value(v), j as int);
            }
            entries.remove(j);
            entries.insert(j, (k, v));
            proof {
                let ns = view_meta_entries(entries@);
                let target = s.update(j as int, (k@, view_meta_value(v)));
                assert(entries@ =~= old(entries)@.remove(j as int).insert(j as int, (k, v)));
                assert forall|i: int| 0 <= i < ns.len() implies ns[i] == target[i] by {
                    if i != j {
                        assert(entries@[i] == old(entries)@[i]);
                    }
                }
                assert(ns =~= target);
            }
            return ;
        }
    }
    proof {
        lemma_insert_at(s, k@, view_meta_value(v), j as int);
    }
    entries.insert(j, (k, v));
    proof {
        let ns = view_meta_entries(entries@);
        let target = s.subrange(0, j as int) + seq![(k@, view_meta_value(v))] + s.subrange(
            j as int,
            s.len() as int,
        );
        assert forall|i: int| 0 <= i < ns.len() implies ns[i] == target[i] by {
            if i < j {
                assert(entries@[i] == old(entries)@[i]);
            } else if i > j {
                assert(entries@[i] == old(entries)@[i - 1]);
            }
        }
        assert(ns =~= target);
    }
}

/// Inserts `(k, v)` into a wire object entry vector whose keys are
/// strictly sorted, keeping them sorted; an entry with the same key is
/// replaced.
pub fn pair_entries_insert(entries: &mut Vec<(String, WireValue)>, k: String, v: WireValue)
    requires
        entries_sorted(view_pairs(old(entries)@)),
    ensures
        view_pairs(final(entries)@) == insert_entry(view_pairs(old(entries)@), k@, view_value(v)),
        entries_sorted(view_pairs(final(entries)@)),
{
    let ghost s = view_pairs(old(entries)@);
    proof {
        lemma_insert_sorted(s, k@, view_value(v));
    }
    let mut j: usize = 0;
    let mut stop = false;
    while !stop && j < entries.len()
        invariant
            0 <= j <= entries.len(),
            entries@ == old(entries)@,
            s == view_pairs(entries@),
            forall|i: int| 0 <= i < j ==> lex_lt((#[trigger] s[i]).0, k@),
            stop ==> j < entries.len() && !lex_lt(s[j as int].0, k@),
        decreases entries.len() - j + (if stop {
            0int
        } else {
            1int
        }),
    {
        if lex_lt_exec(&entries[j].0, &k) {
            assert(s[j as int].0 == entries@[j as int].0@);
            j = j + 1;
        } else {
            stop = true;
        }
    }
    if j < entries.len() {
        let same = entries[j].0.eq(&k);
        if same {
            proof {
                lemma_insert_at(s, k@, view_value(v), j as int);
            }
            entries.remove(j);
            entries.insert(j, (k, v));
            proof {
                let ns = view_pairs(entries@);
                let target = s.update(j as int, (k@, view_value(v)));
                assert(entries@ =~= old(entries)@.remove(j as int).insert(j as int, (k, v)));
                assert forall|i: int| 0 <= i < ns.len() implies ns[i] == target[i] by {
                    if i != j {
                        assert(entries@[i] == old(entries)@[i]);
                    }
                }
                assert(ns =~= target);
            }
            return ;
        }
    }
    proof {
        lemma_insert_at(s, k@, view_value(v), j as int);
    }
    entries.insert(j, (k, v));
    proof {
        let ns = view_pairs(entries@);
        let target = s.subrange(0, j as int) + seq![(k@, view_value(v))] + s.subrange(
            j as int,
            s.len() as int,
        );
        assert forall|i: int| 0 <= i < ns.len() implies ns[i] == target[i] by {
            if i < j {
                assert(entries@[i] == old(entries)@[i]);
            } else if i > j {
                assert(entries@[i] == old(entries)@[i - 1]);
            }
        }
        assert(ns =~= target);
    }
}

impl Meta {
    /// An empty metadata mapping.
    pub fn new() -> (m: Meta)
        ensures
            view_meta_entries(m.un_meta@) == Seq::<(Seq<char>, crate::model::SpecMetaValue)>::empty(),
            entries_sorted(view_meta_entries(m.un_meta@)),
    {
        let m = Meta { un_meta: Vec::new() };
        proof {
            assert(view_meta_entries(m.un_meta@) =~= Seq::<
                (Seq<char>, crate::model::SpecMetaValue),
            >::empty());
        }
        m
    }

    /// Inserts `v` under key `k`; an entry with the same key is replaced,
    /// and the entries stay sorted by key.
    pub fn insert(&mut self, k: String, v: MetaValue)
        requires
            entries_sorted(view_meta_entries(old(self).un_meta@)),
        ensures
            view_meta_entries(final(self).un_meta@) == insert_entry(
                view_meta_entries(old(self).un_meta@),
                k@,
                view_meta_value(v),
            ),
            entries_sorted(view_meta_entries(final(self).un_meta@)),
    {
        meta_entries_insert(&mut self.un_meta, k, v);
    }
}

} // verus!
