use vstd::prelude::*;
use crate::value::{Key, Value, key_text};
use crate::json::{encode, encode_items, encode_entries, written_pairs, pair_texts};
use crate::text::join_items;
use crate::sorted::{Pair, last_wins, ascending, lists_in_order, sorted_form, lemma_last_wins_domain, lemma_place_pair};
use crate::order::key_lt;

verus! {

broadcast use vstd::std_specs::vec::group_vec_axioms;

/// `x` is one of the elements of `s`.
#[verifier::opaque]
pub open spec fn occurs_in<A>(s: Seq<A>, x: A) -> bool {
    exists|j: int| 0 <= j < s.len() && s[j] == x
}

/// The keys of the entries name distinct texts.
pub open spec fn distinct_keys(es: Seq<(Key, Value)>) -> bool {
    forall|i: int, j: int|
        0 <= i < j < es.len() && key_text(es[i].0) is Ok && key_text(es[j].0) is Ok ==> (
        #[trigger] key_text(es[i].0))->Ok_0 != (#[trigger] key_text(es[j].0))->Ok_0
}

/// The entries encode one by one exactly when the whole list encodes, and the
/// pairs are then the entries' own texts.
pub proof fn lemma_entries_ok(es: Seq<(Key, Value)>, sort_keys: bool)
    ensures
        (encode_entries(es, sort_keys) is Ok) <==> (forall|i: int|
            0 <= i < es.len() ==> key_text(#[trigger] es[i].0) is Ok && encode(es[i].1, sort_keys) is Ok),
        encode_entries(es, sort_keys) is Ok ==> {
            let ps = encode_entries(es, sort_keys)->Ok_0;
            &&& ps.len() == es.len()
            &&& forall|i: int|
                0 <= i < es.len() ==> #[trigger] ps[i] == (
                    key_text(es[i].0)->Ok_0,
                    encode(es[i].1, sort_keys)->Ok_0,
                )
        },
    decreases es.len(),
{
    if es.len() > 0 {
        let q = es.drop_last();
        lemma_entries_ok(q, sort_keys);
        if encode_entries(es, sort_keys) is Ok {
            assert forall|i: int| 0 <= i < es.len() implies key_text(#[trigger] es[i].0) is Ok
                && encode(es[i].1, sort_keys) is Ok by {
                if i < es.len() - 1 {
                    assert(q[i] == es[i]);
                }
            }
            let ps = encode_entries(es, sort_keys)->Ok_0;
            let pq = encode_entries(q, sort_keys)->Ok_0;
            assert forall|i: int| 0 <= i < es.len() implies #[trigger] ps[i] == (
                key_text(es[i].0)->Ok_0,
                encode(es[i].1, sort_keys)->Ok_0,
            ) by {
                if i < es.len() - 1 {
                    assert(q[i] == es[i]);
                    assert(ps[i] == pq[i]);
                }
            }
        } else {
            if forall|i: int|
                0 <= i < es.len() ==> key_text(#[trigger] es[i].0) is Ok && encode(es[i].1, sort_keys) is Ok {
                assert forall|i: int| 0 <= i < q.len() implies key_text(#[trigger] q[i].0) is Ok
                    && encode(q[i].1, sort_keys) is Ok by {
                    assert(q[i] == es[i]);
                }
                assert(key_text(es[es.len() - 1].0) is Ok);
            }
        }
    }
}

/// With distinct keys, each key maps to the value beside it.
pub proof fn lemma_last_wins_distinct(ps: Seq<Pair>)
    requires
        forall|i: int, j: int| 0 <= i < j < ps.len() ==> #[trigger] ps[i].0 != #[trigger] ps[j].0,
    ensures
        forall|i: int| 0 <= i < ps.len() ==> #[trigger] last_wins(ps)[ps[i].0] == ps[i].1,
    decreases ps.len(),
{
    lemma_last_wins_domain(ps);
    if ps.len() > 0 {
        let q = ps.drop_last();
        assert forall|i: int, j: int| 0 <= i < j < q.len() implies #[trigger] q[i].0
            != #[trigger] q[j].0 by {
            assert(q[i] == ps[i] && q[j] == ps[j]);
        }
        lemma_last_wins_distinct(q);
        assert forall|i: int| 0 <= i < ps.len() implies #[trigger] last_wins(ps)[ps[i].0]
            == ps[i].1 by {
            if i < ps.len() - 1 {
                assert(ps[i].0 != ps[ps.len() - 1].0);
                assert(q[i] == ps[i]);
                assert(last_wins(q)[q[i].0] == q[i].1);
            }
        }
    }
}

/// Two sequences of pairs with distinct keys that hold the same pairs denote
/// the same mapping.
pub proof fn lemma_same_pairs_same_map(pa: Seq<Pair>, pb: Seq<Pair>)
    requires
        forall|i: int, j: int| 0 <= i < j < pa.len() ==> #[trigger] pa[i].0 != #[trigger] pa[j].0,
        forall|i: int, j: int| 0 <= i < j < pb.len() ==> #[trigger] pb[i].0 != #[trigger] pb[j].0,
        forall|i: int| 0 <= i < pa.len() ==> occurs_in(pb, #[trigger] pa[i]),
        forall|j: int| 0 <= j < pb.len() ==> occurs_in(pa, #[trigger] pb[j]),
    ensures
        last_wins(pa) == last_wins(pb),
{
    lemma_last_wins_distinct(pa);
    lemma_last_wins_distinct(pb);
    lemma_last_wins_domain(pa);
    lemma_last_wins_domain(pb);
    assert forall|k: Seq<char>| #[trigger] last_wins(pa).contains_key(k) implies last_wins(
        pb,
    ).contains_key(k) && last_wins(pa)[k] == last_wins(pb)[k] by {
        let i = choose|i: int| 0 <= i < pa.len() && pa[i].0 == k;
        assert(occurs_in(pb, pa[i]));
        reveal(occurs_in);
        let j = choose|j: int| 0 <= j < pb.len() && pb[j] == pa[i];
        assert(last_wins(pa)[pa[i].0] == pa[i].1);
        assert(last_wins(pb)[pb[j].0] == pb[j].1);
    }
    assert forall|k: Seq<char>| #[trigger] last_wins(pb).contains_key(k) implies last_wins(
        pa,
    ).contains_key(k) by {
        let j = choose|j: int| 0 <= j < pb.len() && pb[j].0 == k;
        assert(occurs_in(pa, pb[j]));
        reveal(occurs_in);
        let i = choose|i: int| 0 <= i < pa.len() && pa[i] == pb[j];
        assert(pa[i].0 == k);
    }
    assert(last_wins(pa) =~= last_wins(pb));
}

/// With keys written in sorted order, the text of a mapping does not depend on
/// the order in which its entries were inserted: two mappings holding the same
/// entries, each key once, either both fail or encode to the same text.
pub proof fn lemma_sorted_encoding_ignores_order(a: Vec<(Key, Value)>, b: Vec<(Key, Value)>)
    requires
        forall|i: int| 0 <= i < a@.len() ==> occurs_in(b@, #[trigger] a@[i]),
        forall|j: int| 0 <= j < b@.len() ==> occurs_in(a@, #[trigger] b@[j]),
        distinct_keys(a@),
        distinct_keys(b@),
    ensures
        (encode(Value::Mapping(a), true) is Ok) == (encode(Value::Mapping(b), true) is Ok),
        encode(Value::Mapping(a), true) is Ok ==> encode(Value::Mapping(a), true) == encode(
            Value::Mapping(b),
            true,
        ),
{
    let ea = a@;
    let eb = b@;
    lemma_entries_ok(ea, true);
    lemma_entries_ok(eb, true);
    if encode_entries(ea, true) is Ok {
        assert forall|j: int| 0 <= j < eb.len() implies key_text(#[trigger] eb[j].0) is Ok
            && encode(eb[j].1, true) is Ok by {
            assert(occurs_in(ea, eb[j]));
            reveal(occurs_in);
            let i = choose|i: int| 0 <= i < ea.len() && ea[i] == eb[j];
            assert(key_text(ea[i].0) is Ok);
        }
    }
    if encode_entries(eb, true) is Ok {
        assert forall|i: int| 0 <= i < ea.len() implies key_text(#[trigger] ea[i].0) is Ok
            && encode(ea[i].1, true) is Ok by {
            assert(occurs_in(eb, ea[i]));
            reveal(occurs_in);
            let j = choose|j: int| 0 <= j < eb.len() && eb[j] == ea[i];
            assert(key_text(eb[j].0) is Ok);
        }
    }
    if encode_entries(ea, true) is Ok {
        let pa = encode_entries(ea, true)->Ok_0;
        let pb = encode_entries(eb, true)->Ok_0;
        assert forall|i: int, j: int| 0 <= i < j < pa.len() implies #[trigger] pa[i].0
            != #[trigger] pa[j].0 by {
            assert(pa[i] == (key_text(ea[i].0)->Ok_0, encode(ea[i].1, true)->Ok_0));
            assert(pa[j] == (key_text(ea[j].0)->Ok_0, encode(ea[j].1, true)->Ok_0));
        }
        assert forall|i: int, j: int| 0 <= i < j < pb.len() implies #[trigger] pb[i].0
            != #[trigger] pb[j].0 by {
            assert(pb[i] == (key_text(eb[i].0)->Ok_0, encode(eb[i].1, true)->Ok_0));
            assert(pb[j] == (key_text(eb[j].0)->Ok_0, encode(eb[j].1, true)->Ok_0));
        }
        assert forall|i: int| 0 <= i < pa.len() implies occurs_in(pb, #[trigger] pa[i]) by {
            assert(occurs_in(eb, ea[i]));
            reveal(occurs_in);
            let j = choose|j: int| 0 <= j < eb.len() && eb[j] == ea[i];
            assert(pa[i] == pb[j]);
        }
        assert forall|j: int| 0 <= j < pb.len() implies occurs_in(pa, #[trigger] pb[j]) by {
            assert(occurs_in(ea, eb[j]));
            reveal(occurs_in);
            let i = choose|i: int| 0 <= i < ea.len() && ea[i] == eb[j];
            assert(pa[i] == pb[j]);
        }
        lemma_same_pairs_same_map(pa, pb);
        assert(written_pairs(pa, true) == written_pairs(pb, true));
    }
}

/// A value has a JSON shape: no foreign value and no key other than text,
/// boolean or null occurs in it, at any depth.
pub open spec fn json_shaped(v: Value) -> bool
    decreases v,
{
    match v {
        Value::Sequence(items) => items_shaped(items@),
        Value::Mapping(entries) => entries_shaped(entries@),
        Value::Foreign(_) => false,
        _ => true,
    }
}

/// Every element has a JSON shape.
pub open spec fn items_shaped(items: Seq<Value>) -> bool
    decreases items,
{
    if items.len() == 0 {
        true
    } else {
        items_shaped(items.drop_last()) && json_shaped(items.last())
    }
}

/// Every key is text, a boolean or null, and every value has a JSON shape.
pub open spec fn entries_shaped(entries: Seq<(Key, Value)>) -> bool
    decreases entries,
{
    if entries.len() == 0 {
        true
    } else {
        entries_shaped(entries.drop_last()) && key_text(entries.last().0) is Ok && json_shaped(
            entries.last().1,
        )
    }
}

/// Classification is total and strict: a value encodes, with keys sorted or
/// not, exactly when it has a JSON shape; a foreign value or an unsupported
/// key anywhere in it makes the encoding fail.
pub proof fn lemma_encode_fails_iff_not_shaped(v: Value, sort_keys: bool)
    ensures
        (encode(v, sort_keys) is Err) <==> !json_shaped(v),
    decreases v,
{
    match v {
        Value::Sequence(items) => lemma_items_fail_iff_not_shaped(items@, sort_keys),
        Value::Mapping(entries) => lemma_entries_fail_iff_not_shaped(entries@, sort_keys),
        _ => {},
    }
}

/// A list of elements fails to encode exactly when one of them has no JSON shape.
pub proof fn lemma_items_fail_iff_not_shaped(items: Seq<Value>, sort_keys: bool)
    ensures
        (encode_items(items, sort_keys) is Err) <==> !items_shaped(items),
    decreases items,
{
    if items.len() > 0 {
        lemma_items_fail_iff_not_shaped(items.drop_last(), sort_keys);
        lemma_encode_fails_iff_not_shaped(items.last(), sort_keys);
    }
}

/// A list of entries fails to encode exactly when one of its keys or values
/// has no JSON shape.
pub proof fn lemma_entries_fail_iff_not_shaped(entries: Seq<(Key, Value)>, sort_keys: bool)
    ensures
        (encode_entries(entries, sort_keys) is Err) <==> !entries_shaped(entries),
    decreases entries,
{
    if entries.len() > 0 {
        lemma_entries_fail_iff_not_shaped(entries.drop_last(), sort_keys);
        lemma_encode_fails_iff_not_shaped(entries.last().1, sort_keys);
    }
}

/// The first place in an ascending sequence, from `j` on, whose key is not
/// below `k`.
proof fn lemma_find_place(s: Seq<Pair>, k: Seq<char>, j: int) -> (pos: int)
    requires
        0 <= j <= s.len(),
        forall|i: int| 0 <= i < j ==> key_lt(#[trigger] s[i].0, k),
    ensures
        j <= pos <= s.len(),
        forall|i: int| 0 <= i < pos ==> key_lt(#[trigger] s[i].0, k),
        pos < s.len() ==> !key_lt(s[pos].0, k),
    decreases s.len() - j,
{
    if j == s.len() || !key_lt(s[j].0, k) {
        j
    } else {
        lemma_find_place(s, k, j + 1)
    }
}

/// Every sequence of pairs has an ascending sequence that denotes the same
/// mapping.
pub proof fn lemma_sorted_form_exists(ps: Seq<Pair>)
    ensures
        lists_in_order(sorted_form(last_wins(ps)), last_wins(ps)),
    decreases ps.len(),
{
    let w = sorted_witness(ps);
    assert(lists_in_order(w, last_wins(ps)));
}

/// An ascending sequence denoting the same mapping as `ps`, built by placing
/// the pairs one after another.
proof fn sorted_witness(ps: Seq<Pair>) -> (w: Seq<Pair>)
    ensures
        ascending(w),
        last_wins(w) == last_wins(ps),
    decreases ps.len(),
{
    if ps.len() == 0 {
        Seq::empty()
    } else {
        let s = sorted_witness(ps.drop_last());
        let p = ps.last();
        let pos = lemma_find_place(s, p.0, 0);
        lemma_place_pair(s, pos, p);
        if pos < s.len() && s[pos].0 == p.0 {
            s.update(pos, p)
        } else {
            s.insert(pos, p)
        }
    }
}

/// With sorted keys a mapping is written as its pairs in strictly ascending key
/// order: one pair for each distinct key, holding the value of the last entry
/// with that key.
pub proof fn lemma_sorted_mapping_text(entries: Vec<(Key, Value)>)
    requires
        encode(Value::Mapping(entries), true) is Ok,
    ensures
        exists|s: Seq<Pair>|
            ascending(s) && last_wins(s) == last_wins(encode_entries(entries@, true)->Ok_0)
                && encode(Value::Mapping(entries), true)->Ok_0 == seq!['{'] + join_items(
                pair_texts(s),
            ) + seq!['}'],
{
    let ps = encode_entries(entries@, true)->Ok_0;
    lemma_sorted_form_exists(ps);
    let s = written_pairs(ps, true);
    assert(ascending(s) && last_wins(s) == last_wins(ps));
}

} // verus!
