use vstd::prelude::*;
use crate::order::{key_lt, lemma_key_lt_irreflexive, lemma_key_lt_transitive, lemma_key_lt_total, lemma_key_lt_asymmetric};

verus! {

/// A key text paired with the JSON text of its value.
pub type Pair = (Seq<char>, Seq<char>);

/// The mapping that a sequence of pairs denotes, a later pair replacing an
/// earlier one with the same key.
pub open spec fn last_wins(ps: Seq<Pair>) -> Map<Seq<char>, Seq<char>>
    decreases ps.len(),
{
    if ps.len() == 0 {
        Map::empty()
    } else {
        last_wins(ps.drop_last()).insert(ps.last().0, ps.last().1)
    }
}

/// Keys strictly ascending in `key_lt` order.
pub open spec fn ascending(ps: Seq<Pair>) -> bool {
    forall|i: int, j: int| 0 <= i < j < ps.len() ==> key_lt(#[trigger] ps[i].0, #[trigger] ps[j].0)
}

/// `s` lists the mapping `m` in ascending key order.
pub open spec fn lists_in_order(s: Seq<Pair>, m: Map<Seq<char>, Seq<char>>) -> bool {
    ascending(s) && last_wins(s) == m
}

/// The entries of `m` in ascending key order.
pub open spec fn sorted_form(m: Map<Seq<char>, Seq<char>>) -> Seq<Pair> {
    choose|s: Seq<Pair>| lists_in_order(s, m)
}

/// Every key of the pairs is in the mapping, and nothing else is.
pub proof fn lemma_last_wins_domain(ps: Seq<Pair>)
    ensures
        forall|i: int| 0 <= i < ps.len() ==> last_wins(ps).contains_key(#[trigger] ps[i].0),
        forall|k: Seq<char>| #[trigger] last_wins(ps).contains_key(k) ==> exists|i: int|
            0 <= i < ps.len() && ps[i].0 == k,
    decreases ps.len(),
{
    if ps.len() > 0 {
        let q = ps.drop_last();
        lemma_last_wins_domain(q);
        assert forall|i: int| 0 <= i < ps.len() implies last_wins(ps).contains_key(
            #[trigger] ps[i].0,
        ) by {
            if i < ps.len() - 1 {
                assert(q[i] == ps[i]);
            }
        }
        assert forall|k: Seq<char>| #[trigger] last_wins(ps).contains_key(k) implies exists|i: int|
            0 <= i < ps.len() && ps[i].0 == k by {
            if k != ps.last().0 {
                assert(last_wins(q).contains_key(k));
                let i = choose|i: int| 0 <= i < q.len() && q[i].0 == k;
                assert(ps[i] == q[i]);
                assert(0 <= i < ps.len() && ps[i].0 == k);
            } else {
                assert(ps[ps.len() - 1].0 == k);
            }
        }
    }
}

/// In ascending pairs each key maps to the value beside it.
pub proof fn lemma_last_wins_ascending(ps: Seq<Pair>)
    requires
        ascending(ps),
    ensures
        forall|i: int| 0 <= i < ps.len() ==> #[trigger] last_wins(ps)[ps[i].0] == ps[i].1,
    decreases ps.len(),
{
    lemma_last_wins_domain(ps);
    if ps.len() > 0 {
        let q = ps.drop_last();
        assert(ascending(q)) by {
            assert forall|i: int, j: int| 0 <= i < j < q.len() implies key_lt(
                #[trigger] q[i].0,
                #[trigger] q[j].0,
            ) by {
                assert(q[i] == ps[i] && q[j] == ps[j]);
            }
        }
        lemma_last_wins_ascending(q);
        assert forall|i: int| 0 <= i < ps.len() implies #[trigger] last_wins(ps)[ps[i].0]
            == ps[i].1 by {
            if i < ps.len() - 1 {
                assert(key_lt(ps[i].0, ps[ps.len() - 1].0));
                lemma_key_lt_irreflexive(ps[i].0);
                assert(q[i] == ps[i]);
                assert(last_wins(q)[q[i].0] == q[i].1);
            }
        }
    }
}

/// Two ascending sequences of pairs that denote the same mapping are equal.
#[verifier::rlimit(40)]
pub proof fn lemma_ascending_unique(s1: Seq<Pair>, s2: Seq<Pair>)
    requires
        ascending(s1),
        ascending(s2),
        last_wins(s1) == last_wins(s2),
    ensures
        s1 == s2,
    decreases s1.len(),
{
    lemma_last_wins_domain(s1);
    lemma_last_wins_domain(s2);
    lemma_last_wins_ascending(s1);
    lemma_last_wins_ascending(s2);
    if s1.len() == 0 {
        if s2.len() > 0 {
            assert(last_wins(s2).contains_key(s2[0].0));
        }
        assert(s1 =~= s2);
    } else if s2.len() == 0 {
        assert(last_wins(s1).contains_key(s1[0].0));
    } else {
        let n1 = s1.len() - 1;
        let n2 = s2.len() - 1;
        let k1 = s1[n1].0;
        let k2 = s2[n2].0;
        assert(last_wins(s2).contains_key(k1));
        let j = choose|j: int| 0 <= j < s2.len() && s2[j].0 == k1;
        assert(last_wins(s1).contains_key(k2));
        let i = choose|i: int| 0 <= i < s1.len() && s1[i].0 == k2;
        if k1 != k2 {
            if j < n2 {
                assert(key_lt(k1, k2));
                if i < n1 {
                    assert(key_lt(k2, k1));
                    lemma_key_lt_asymmetric(k1, k2);
                }
            } else {
                assert(j == n2);
            }
        }
        assert(k1 == k2);
        assert(s1[n1].1 == last_wins(s1)[k1]);
        assert(s2[n2].1 == last_wins(s2)[k2]);
        let q1 = s1.drop_last();
        let q2 = s2.drop_last();
        assert(ascending(q1)) by {
            assert forall|a: int, b: int| 0 <= a < b < q1.len() implies key_lt(
                #[trigger] q1[a].0,
                #[trigger] q1[b].0,
            ) by {
                assert(q1[a] == s1[a] && q1[b] == s1[b]);
            }
        }
        assert(ascending(q2)) by {
            assert forall|a: int, b: int| 0 <= a < b < q2.len() implies key_lt(
                #[trigger] q2[a].0,
                #[trigger] q2[b].0,
            ) by {
                assert(q2[a] == s2[a] && q2[b] == s2[b]);
            }
        }
        lemma_last_wins_domain(q1);
        lemma_last_wins_domain(q2);
        lemma_last_wins_ascending(q1);
        lemma_last_wins_ascending(q2);
        assert(last_wins(q1) =~= last_wins(q2)) by {
            assert forall|k: Seq<char>| #[trigger] last_wins(q1).contains_key(k) implies last_wins(
                q2,
            ).contains_key(k) && last_wins(q1)[k] == last_wins(q2)[k] by {
                let a = choose|a: int| 0 <= a < q1.len() && q1[a].0 == k;
                assert(q1[a] == s1[a]);
                assert(key_lt(k, k1));
                lemma_key_lt_irreflexive(k);
                assert(last_wins(s1)[k] == s1[a].1);
                assert(last_wins(s2).contains_key(k));
                let b = choose|b: int| 0 <= b < s2.len() && s2[b].0 == k;
                assert(b != n2);
                assert(q2[b] == s2[b]);
                assert(last_wins(s2)[k] == s2[b].1);
            }
            assert forall|k: Seq<char>| #[trigger] last_wins(q2).contains_key(k) implies last_wins(
                q1,
            ).contains_key(k) by {
                let b = choose|b: int| 0 <= b < q2.len() && q2[b].0 == k;
                assert(q2[b] == s2[b]);
                assert(key_lt(k, k2));
                lemma_key_lt_irreflexive(k);
                assert(last_wins(s1).contains_key(k));
                let a = choose|a: int| 0 <= a < s1.len() && s1[a].0 == k;
                assert(a != n1);
                assert(q1[a] == s1[a]);
            }
        }
        lemma_ascending_unique(q1, q2);
        assert(s1 =~= q1.push(s1[n1]));
        assert(s2 =~= q2.push(s2[n2]));
    }
}

/// An ascending sequence lists its own mapping, and is what `sorted_form`
/// gives for it.
pub proof fn lemma_sorted_form_of(s: Seq<Pair>)
    requires
        ascending(s),
    ensures
        sorted_form(last_wins(s)) == s,
{
    assert(lists_in_order(s, last_wins(s)));
    let t = sorted_form(last_wins(s));
    lemma_ascending_unique(t, s);
}

/// Putting a pair into its place in an ascending sequence, where `pos` is the
/// first place whose key is not below the new key: the key is replaced when it
/// is there, inserted otherwise.
pub proof fn lemma_place_pair(s: Seq<Pair>, pos: int, p: Pair)
    requires
        ascending(s),
        0 <= pos <= s.len(),
        forall|j: int| 0 <= j < pos ==> key_lt(#[trigger] s[j].0, p.0),
        pos < s.len() ==> !key_lt(s[pos].0, p.0),
    ensures
        pos < s.len() && s[pos].0 == p.0 ==> ascending(s.update(pos, p)) && last_wins(
            s.update(pos, p),
        ) == last_wins(s).insert(p.0, p.1),
        !(pos < s.len() && s[pos].0 == p.0) ==> ascending(s.insert(pos, p)) && last_wins(
            s.insert(pos, p),
        ) == last_wins(s).insert(p.0, p.1),
{
    lemma_last_wins_domain(s);
    lemma_last_wins_ascending(s);
    if pos < s.len() && s[pos].0 == p.0 {
        let t = s.update(pos, p);
        assert(ascending(t)) by {
            assert forall|i: int, j: int| 0 <= i < j < t.len() implies key_lt(
                #[trigger] t[i].0,
                #[trigger] t[j].0,
            ) by {
                assert(s[i].0 == t[i].0 && s[j].0 == t[j].0);
            }
        }
        lemma_last_wins_domain(t);
        lemma_last_wins_ascending(t);
        assert(last_wins(t) =~= last_wins(s).insert(p.0, p.1)) by {
            assert forall|k: Seq<char>| #[trigger] last_wins(t).contains_key(k) implies last_wins(
                s,
            ).insert(p.0, p.1).contains_key(k) && last_wins(t)[k] == last_wins(s).insert(
                p.0,
                p.1,
            )[k] by {
                let i = choose|i: int| 0 <= i < t.len() && t[i].0 == k;
                assert(last_wins(t)[t[i].0] == t[i].1);
                if i != pos {
                    assert(t[i] == s[i]);
                    assert(last_wins(s)[s[i].0] == s[i].1);
                }
            }
            assert forall|k: Seq<char>| #[trigger] last_wins(s).insert(p.0, p.1).contains_key(
                k,
            ) implies last_wins(t).contains_key(k) by {
                if k != p.0 {
                    let i = choose|i: int| 0 <= i < s.len() && s[i].0 == k;
                    assert(t[i].0 == s[i].0);
                } else {
                    assert(t[pos].0 == k);
                }
            }
        }
    } else {
        let t = s.insert(pos, p);
        if pos < s.len() {
            assert(s[pos].0 != p.0);
            lemma_key_lt_total(s[pos].0, p.0);
        }
        assert(ascending(t)) by {
            assert forall|i: int, j: int| 0 <= i < j < t.len() implies key_lt(
                #[trigger] t[i].0,
                #[trigger] t[j].0,
            ) by {
                if j < pos {
                    assert(t[i] == s[i] && t[j] == s[j]);
                } else if j == pos {
                    assert(t[i] == s[i]);
                } else if i < pos {
                    assert(t[i] == s[i] && t[j] == s[j - 1]);
                    assert(key_lt(s[i].0, p.0));
                    if j - 1 > pos {
                        assert(key_lt(s[pos].0, s[j - 1].0));
                        lemma_key_lt_transitive(p.0, s[pos].0, s[j - 1].0);
                    }
                    lemma_key_lt_transitive(s[i].0, p.0, s[j - 1].0);
                } else if i == pos {
                    assert(t[j] == s[j - 1]);
                    if j - 1 > pos {
                        assert(key_lt(s[pos].0, s[j - 1].0));
                        lemma_key_lt_transitive(p.0, s[pos].0, s[j - 1].0);
                    }
                } else {
                    assert(t[i] == s[i - 1] && t[j] == s[j - 1]);
                }
            }
        }
        lemma_last_wins_domain(t);
        lemma_last_wins_ascending(t);
        assert(last_wins(t) =~= last_wins(s).insert(p.0, p.1)) by {
            assert forall|k: Seq<char>| #[trigger] last_wins(t).contains_key(k) implies last_wins(
                s,
            ).insert(p.0, p.1).contains_key(k) && last_wins(t)[k] == last_wins(s).insert(
                p.0,
                p.1,
            )[k] by {
                let i = choose|i: int| 0 <= i < t.len() && t[i].0 == k;
                assert(last_wins(t)[t[i].0] == t[i].1);
                if i < pos {
                    assert(t[i] == s[i]);
                    assert(last_wins(s)[s[i].0] == s[i].1);
                    lemma_key_lt_irreflexive(p.0);
                } else if i > pos {
                    assert(t[i] == s[i - 1]);
                    assert(last_wins(s)[s[i - 1].0] == s[i - 1].1);
                    assert(key_lt(t[pos].0, t[i].0));
                    lemma_key_lt_irreflexive(p.0);
                }
            }
            assert forall|k: Seq<char>| #[trigger] last_wins(s).insert(p.0, p.1).contains_key(
                k,
            ) implies last_wins(t).contains_key(k) by {
                if k != p.0 {
                    let i = choose|i: int| 0 <= i < s.len() && s[i].0 == k;
                    if i < pos {
                        assert(t[i] == s[i]);
                    } else {
                        assert(t[i + 1] == s[i]);
                    }
                } else {
                    assert(t[pos].0 == k);
                }
            }
        }
    }
}

} // verus!
