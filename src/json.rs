use vstd::prelude::*;
use vstd::string::*;
use crate::value::{Key, Value, Foreign, FailureKind, ClassificationError, Failure, foreign_failure, key_text};
use crate::text::{int_text, json_quoted, join_items, lemma_join_items_push, decimal_text, quoted};
use crate::sorted::{Pair, last_wins, ascending, sorted_form, lemma_sorted_form_of, lemma_place_pair};
use crate::order::{key_less};

verus! {

broadcast use vstd::std_specs::vec::group_vec_axioms;

/// The JSON text of a key and its value: `"key":value`.
pub open spec fn pair_text(p: Pair) -> Seq<char> {
    json_quoted(p.0) + seq![':'] + p.1
}

/// The JSON texts of a sequence of pairs.
pub open spec fn pair_texts(ps: Seq<Pair>) -> Seq<Seq<char>> {
    ps.map_values(|p: Pair| pair_text(p))
}

/// The pairs of a mapping in the order they are written: as stored, or in
/// ascending key order with a later entry replacing an earlier one with the
/// same key.
pub open spec fn written_pairs(ps: Seq<Pair>, sort_keys: bool) -> Seq<Pair> {
    if sort_keys {
        sorted_form(last_wins(ps))
    } else {
        ps
    }
}

/// The JSON text of a value, or the first classification failure met in a
/// depth-first walk. With `sort_keys` every mapping, at every depth, is written
/// in ascending key order.
pub open spec fn encode(v: Value, sort_keys: bool) -> Result<Seq<char>, Failure>
    decreases v,
{
    match v {
        Value::Null => Ok("null"@),
        Value::Bool(b) => Ok(
            if b {
                "true"@
            } else {
                "false"@
            },
        ),
        Value::Int(i) => Ok(int_text(i as int)),
        Value::UInt(u) => Ok(int_text(u as int)),
        Value::Float(t) => Ok(t@),
        Value::Text(s) => Ok(json_quoted(s@)),
        Value::Sequence(items) => match encode_items(items@, sort_keys) {
            Ok(parts) => Ok(seq!['['] + join_items(parts) + seq![']']),
            Err(f) => Err(f),
        },
        Value::Mapping(entries) => match encode_entries(entries@, sort_keys) {
            Ok(ps) => Ok(
                seq!['{'] + join_items(pair_texts(written_pairs(ps, sort_keys))) + seq!['}'],
            ),
            Err(f) => Err(f),
        },
        Value::Foreign(f) => Err(foreign_failure(f)),
    }
}

/// The JSON texts of the elements, or the first failure among them.
pub open spec fn encode_items(items: Seq<Value>, sort_keys: bool) -> Result<Seq<Seq<char>>, Failure>
    decreases items,
{
    if items.len() == 0 {
        Ok(Seq::empty())
    } else {
        match encode_items(items.drop_last(), sort_keys) {
            Ok(parts) => match encode(items.last(), sort_keys) {
                Ok(t) => Ok(parts.push(t)),
                Err(f) => Err(f),
            },
            Err(f) => Err(f),
        }
    }
}

/// The key texts and value texts of the entries, in stored order, or the first
/// failure among them, a key before its value.
pub open spec fn encode_entries(entries: Seq<(Key, Value)>, sort_keys: bool) -> Result<
    Seq<Pair>,
    Failure,
>
    decreases entries,
{
    if entries.len() == 0 {
        Ok(Seq::empty())
    } else {
        match encode_entries(entries.drop_last(), sort_keys) {
            Ok(ps) => match key_text(entries.last().0) {
                Ok(k) => match encode(entries.last().1, sort_keys) {
                    Ok(t) => Ok(ps.push((k, t))),
                    Err(f) => Err(f),
                },
                Err(f) => Err(f),
            },
            Err(f) => Err(f),
        }
    }
}

/// The key's text, or the failure it gives.
fn key_string(k: &Key) -> (r: Result<String, ClassificationError>)
    ensures
        match r {
            Ok(s) => key_text(*k) == Ok::<Seq<char>, Failure>(s@),
            Err(e) => key_text(*k) == Err::<Seq<char>, Failure>(e@),
        },
{
    match k {
        Key::Text(s) => Ok(s.clone()),
        Key::Bool(b) => {
            if *b {
                Ok(String::from_str("true"))
            } else {
                Ok(String::from_str("false"))
            }
        },
        Key::Null => Ok(String::from_str("null")),
        Key::Unsupported(s) => Err(ClassificationError { kind: FailureKind::KeyNotText, detail: s.clone() }),
    }
}

/// The failure that a foreign value gives.
fn foreign_error(f: &Foreign) -> (e: ClassificationError)
    ensures
        e@ == foreign_failure(*f),
{
    match &f.repr {
        Some(r) => ClassificationError { kind: FailureKind::ValueNotSerializable, detail: r.clone() },
        None => ClassificationError { kind: FailureKind::TypeNotSerializable, detail: f.class_name.clone() },
    }
}

/// The views of a vector of text pairs.
pub open spec fn text_pairs(v: Seq<(String, String)>) -> Seq<Pair> {
    v.map_values(|p: (String, String)| (p.0@, p.1@))
}

/// Writes pairs as `"k":v` separated by commas after `out`.
fn write_pairs(pairs: &Vec<(String, String)>, out: &mut String)
    ensures
        final(out)@ == old(out)@ + join_items(pair_texts(text_pairs(pairs@))),
{
    let ghost start = old(out)@;
    let mut i: usize = 0;
    while i < pairs.len()
        invariant
            i <= pairs.len(),
            out@ == start + join_items(pair_texts(text_pairs(pairs@.take(i as int)))),
        decreases pairs.len() - i,
    {
        let ghost before = pair_texts(text_pairs(pairs@.take(i as int)));
        if i > 0 {
            out.append(",");
        }
        let q = quoted(pairs[i].0.as_str());
        out.append(q.as_str());
        out.append(":");
        out.append(pairs[i].1.as_str());
        proof {
            reveal_strlit(",");
            reveal_strlit(":");
            let p = (pairs@[i as int].0@, pairs@[i as int].1@);
            assert(pair_texts(text_pairs(pairs@.take(i + 1))) =~= before.push(pair_text(p)));
            lemma_join_items_push(before, pair_text(p));
            assert(out@ =~= start + join_items(pair_texts(text_pairs(pairs@.take(i + 1)))));
        }
        i = i + 1;
    }
    assert(pairs@.take(pairs.len() as int) =~= pairs@);
}

/// Encodes a value as canonical JSON text. With `sort_keys` every mapping is
/// written in ascending key order, a later entry replacing an earlier one with
/// the same key; without it entries are written as stored. A value with no JSON
/// shape fails the whole encoding with the first such value met.
pub fn serialize(v: &Value, sort_keys: bool) -> (r: Result<String, ClassificationError>)
    ensures
        match r {
            Ok(s) => encode(*v, sort_keys) == Ok::<Seq<char>, Failure>(s@),
            Err(e) => encode(*v, sort_keys) == Err::<Seq<char>, Failure>(e@),
        },
    decreases v,
{
    match v {
        Value::Null => Ok(String::from_str("null")),
        Value::Bool(b) => {
            if *b {
                Ok(String::from_str("true"))
            } else {
                Ok(String::from_str("false"))
            }
        },
        Value::Int(i) => Ok(decimal_text(*i as i128)),
        Value::UInt(u) => Ok(decimal_text(*u as i128)),
        Value::Float(t) => Ok(t.clone()),
        Value::Text(s) => Ok(quoted(s.as_str())),
        Value::Sequence(items) => serialize_sequence(v, items, sort_keys),
        Value::Mapping(entries) => serialize_mapping(v, entries, sort_keys),
        Value::Foreign(f) => Err(foreign_error(f)),
    }
}

/// Encodes the sequence `v`, whose elements are `items`.
fn serialize_sequence(v: &Value, items: &Vec<Value>, sort_keys: bool) -> (r: Result<
    String,
    ClassificationError,
>)
    requires
        *v == Value::Sequence(*items),
    ensures
        match r {
            Ok(s) => encode(*v, sort_keys) == Ok::<Seq<char>, Failure>(s@),
            Err(e) => encode(*v, sort_keys) == Err::<Seq<char>, Failure>(e@),
        },
    decreases v, 0nat,
{
    let mut out = String::from_str("[");
    let ghost mut parts: Seq<Seq<char>> = Seq::empty();
    let mut i: usize = 0;
    proof {
        reveal_strlit("[");
        assert(items@.take(0) =~= Seq::<Value>::empty());
    }
    while i < items.len()
        invariant
            *v == Value::Sequence(*items),
            i <= items.len(),
            encode_items(items@.take(i as int), sort_keys) == Ok::<Seq<Seq<char>>, Failure>(parts),
            out@ == seq!['['] + join_items(parts),
            parts.len() == i,
        decreases items.len() - i,
    {
        proof {
            assert(items@.take(i + 1).drop_last() =~= items@.take(i as int));
        }
        let t = serialize(&items[i], sort_keys);
        match t {
            Err(e) => {
                proof {
                    lemma_items_fail(items@, i as int, sort_keys);
                }
                return Err(e);
            },
            Ok(t) => {
                if i > 0 {
                    out.append(",");
                }
                out.append(t.as_str());
                proof {
                    reveal_strlit(",");
                    lemma_join_items_push(parts, t@);
                    parts = parts.push(t@);
                    assert(out@ =~= seq!['['] + join_items(parts));
                }
            },
        }
        i = i + 1;
    }
    out.append("]");
    proof {
        reveal_strlit("]");
        assert(items@.take(items.len() as int) =~= items@);
        assert(out@ =~= seq!['['] + join_items(parts) + seq![']']);
    }
    Ok(out)
}

/// A failure at element `i`, after the elements before it were encoded, is
/// the failure of the whole sequence.
proof fn lemma_items_fail(items: Seq<Value>, i: int, sort_keys: bool)
    requires
        0 <= i < items.len(),
        encode_items(items.take(i), sort_keys) is Ok,
        encode(items[i], sort_keys) is Err,
    ensures
        encode_items(items, sort_keys) == Err::<Seq<Seq<char>>, Failure>(
            encode(items[i], sort_keys)->Err_0,
        ),
    decreases items.len(),
{
    if i == items.len() - 1 {
        assert(items.drop_last() =~= items.take(i));
    } else {
        assert(items.drop_last().take(i) =~= items.take(i));
        lemma_items_fail(items.drop_last(), i, sort_keys);
    }
}

/// A failure at entry `i`, after the entries before it were encoded, is the
/// failure of the whole mapping.
proof fn lemma_entries_fail(entries: Seq<(Key, Value)>, i: int, sort_keys: bool, f: Failure)
    requires
        0 <= i < entries.len(),
        encode_entries(entries.take(i), sort_keys) is Ok,
        key_text(entries[i].0) == Err::<Seq<char>, Failure>(f) || (key_text(entries[i].0) is Ok
            && encode(entries[i].1, sort_keys) == Err::<Seq<char>, Failure>(f)),
    ensures
        encode_entries(entries, sort_keys) == Err::<Seq<Pair>, Failure>(f),
    decreases entries.len(),
{
    if i == entries.len() - 1 {
        assert(entries.drop_last() =~= entries.take(i));
    } else {
        assert(entries.drop_last().take(i) =~= entries.take(i));
        lemma_entries_fail(entries.drop_last(), i, sort_keys, f);
    }
}

/// Encodes the mapping `v`, whose entries are `entries`. With `sort_keys` the
/// entries are gathered in ascending key order first, a later one replacing an
/// earlier one with the same key.
fn serialize_mapping(v: &Value, entries: &Vec<(Key, Value)>, sort_keys: bool) -> (r: Result<
    String,
    ClassificationError,
>)
    requires
        *v == Value::Mapping(*entries),
    ensures
        match r {
            Ok(s) => encode(*v, sort_keys) == Ok::<Seq<char>, Failure>(s@),
            Err(e) => encode(*v, sort_keys) == Err::<Seq<char>, Failure>(e@),
        },
    decreases v, 0nat,
{
    let mut acc: Vec<(String, String)> = Vec::new();
    let ghost mut ps: Seq<Pair> = Seq::empty();
    let mut i: usize = 0;
    proof {
        assert(entries@.take(0) =~= Seq::<(Key, Value)>::empty());
        assert(text_pairs(acc@) =~= Seq::<Pair>::empty());
    }
    while i < entries.len()
        invariant
            *v == Value::Mapping(*entries),
            i <= entries.len(),
            encode_entries(entries@.take(i as int), sort_keys) == Ok::<Seq<Pair>, Failure>(ps),
            sort_keys ==> ascending(text_pairs(acc@)) && last_wins(text_pairs(acc@)) == last_wins(ps),
            !sort_keys ==> text_pairs(acc@) == ps,
        decreases entries.len() - i,
    {
        proof {
            assert(entries@.take(i + 1).drop_last() =~= entries@.take(i as int));
            assert(decreases_to!(*entries => entries@[i as int]));
        }
        let k = match key_string(&entries[i].0) {
            Ok(k) => k,
            Err(e) => {
                proof {
                    lemma_entries_fail(entries@, i as int, sort_keys, e@);
                }
                return Err(e);
            },
        };
        let t = match serialize(&entries[i].1, sort_keys) {
            Ok(t) => t,
            Err(e) => {
                proof {
                    lemma_entries_fail(entries@, i as int, sort_keys, e@);
                }
                return Err(e);
            },
        };
        let ghost p: Pair = (k@, t@);
        if sort_keys {
            let ghost s = text_pairs(acc@);
            let mut pos: usize = 0;
            let mut below = pos < acc.len() && key_less(acc[pos].0.as_str(), k.as_str());
            while below
                invariant
                    pos <= acc.len(),
                    s == text_pairs(acc@),
                    p.0 == k@,
                    below == (pos < acc.len() && crate::order::key_lt(s[pos as int].0, p.0)),
                    forall|j: int| 0 <= j < pos ==> crate::order::key_lt(#[trigger] s[j].0, p.0),
                decreases acc.len() - pos,
            {
                pos = pos + 1;
                below = pos < acc.len() && key_less(acc[pos].0.as_str(), k.as_str());
            }
            proof {
                lemma_place_pair(s, pos as int, p);
            }
            if pos < acc.len() && acc[pos].0 == k {
                acc.set(pos, (k, t));
                proof {
                    assert(text_pairs(acc@) =~= s.update(pos as int, p));
                }
            } else {
                acc.insert(pos, (k, t));
                proof {
                    assert(text_pairs(acc@) =~= s.insert(pos as int, p));
                }
            }
        } else {
            acc.push((k, t));
            proof {
                assert(text_pairs(acc@) =~= ps.push(p));
            }
        }
        proof {
            assert(ps.push(p).drop_last() =~= ps);
            ps = ps.push(p);
        }
        i = i + 1;
    }
    proof {
        assert(entries@.take(entries.len() as int) =~= entries@);
        if sort_keys {
            lemma_sorted_form_of(text_pairs(acc@));
        }
    }
    let mut out = String::from_str("{");
    write_pairs(&acc, &mut out);
    out.append("}");
    proof {
        reveal_strlit("{");
        reveal_strlit("}");
        assert(out@ =~= seq!['{'] + join_items(pair_texts(written_pairs(ps, sort_keys))) + seq!['}']);
    }
    Ok(out)
}

/// A payload together with the key order it is to be written in.
#[derive(Debug)]
pub struct SerializePyObject {
    pub obj: Value,
    pub sort_keys: bool,
}

impl SerializePyObject {
    /// Encodes the payload as canonical JSON text, as `serialize` does.
    pub fn serialize(&self) -> (r: Result<String, ClassificationError>)
        ensures
            match r {
                Ok(s) => encode(self.obj, self.sort_keys) == Ok::<Seq<char>, Failure>(s@),
                Err(e) => encode(self.obj, self.sort_keys) == Err::<Seq<char>, Failure>(e@),
            },
    {
        serialize(&self.obj, self.sort_keys)
    }
}

} // verus!
