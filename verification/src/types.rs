use vstd::prelude::*;
use std::collections::VecDeque;
use crate::errors::{ValueError, incompatible, parse_int_error, from_utf8_error};
use crate::numbers::{spec_parse_i64, spec_i64_le_bytes, spec_i64_text, spec_nat_text};

verus! {

/// The tagged value held by an entry: exactly one of the six supported shapes.
/// Set elements and mapping keys are kept free of duplicates (`value_wf`).
pub enum ValueType {
    Integer64(i64),
    Bytes(Vec<u8>),
    Text(String),
    Deque(VecDeque<String>),
    Hset(Vec<String>),
    Hmap(Vec<(String, String)>),
}

/// The mathematical shape of a stored value. Collections of strings appear as
/// sequences of character sequences, in storage order; `Hset` carries no
/// duplicates and `Hmap` no repeated keys when well-formed.
pub enum ValueModel {
    Integer(i64),
    Bytes(Seq<u8>),
    Text(Seq<char>),
    Deque(Seq<Seq<char>>),
    Hset(Seq<Seq<char>>),
    Hmap(Seq<(Seq<char>, Seq<char>)>),
}

impl View for ValueType {
    type V = ValueModel;

    open spec fn view(&self) -> ValueModel {
        match self {
            ValueType::Integer64(i) => ValueModel::Integer(*i),
            ValueType::Bytes(b) => ValueModel::Bytes(b@),
            ValueType::Text(s) => ValueModel::Text(s@),
            ValueType::Deque(d) => ValueModel::Deque(d.deep_view()),
            ValueType::Hset(v) => ValueModel::Hset(v.deep_view()),
            ValueType::Hmap(m) => ValueModel::Hmap(m.deep_view()),
        }
    }
}

/// Distinct set elements, and distinct mapping keys.
pub open spec fn value_model_wf(v: ValueModel) -> bool {
    match v {
        ValueModel::Hset(items) => items.no_duplicates(),
        ValueModel::Hmap(pairs) => pairs_keys_distinct(pairs),
        _ => true,
    }
}

pub open spec fn pairs_keys_distinct(pairs: Seq<(Seq<char>, Seq<char>)>) -> bool {
    crate::assoc::assoc_keys_distinct(pairs)
}

/// The mapping that a listing of pairs builds up: pairs are inserted from the
/// front, a repeated key keeps its first position and takes the latest value.
pub open spec fn spec_pairs_from_list(pairs: Seq<(Seq<char>, Seq<char>)>) -> Seq<
    (Seq<char>, Seq<char>),
>
    decreases pairs.len(),
{
    if pairs.len() == 0 {
        Seq::empty()
    } else {
        crate::assoc::assoc_insert(
            spec_pairs_from_list(pairs.drop_last()),
            pairs.last().0,
            pairs.last().1,
        )
    }
}

pub proof fn lemma_pairs_from_list_distinct(pairs: Seq<(Seq<char>, Seq<char>)>)
    ensures
        pairs_keys_distinct(spec_pairs_from_list(pairs)),
    decreases pairs.len(),
{
    if pairs.len() > 0 {
        lemma_pairs_from_list_distinct(pairs.drop_last());
        crate::assoc::lemma_assoc_insert_distinct(
            spec_pairs_from_list(pairs.drop_last()),
            pairs.last().0,
            pairs.last().1,
        );
    }
}

// ---------------------------------------------------------------------------
// Derived sequences
// ---------------------------------------------------------------------------
/// One single-character token per character, in order.
pub open spec fn spec_char_tokens(s: Seq<char>) -> Seq<Seq<char>> {
    Seq::new(s.len(), |i: int| seq![s[i]])
}

/// One decimal token per byte, in order.
pub open spec fn spec_byte_tokens(b: Seq<u8>) -> Seq<Seq<char>> {
    Seq::new(b.len(), |i: int| spec_nat_text(b[i] as int))
}

/// The distinct elements of `s`, each at its first occurrence, in order.
pub open spec fn spec_dedup_first(s: Seq<Seq<char>>) -> Seq<Seq<char>>
    decreases s.len(),
{
    if s.len() == 0 {
        Seq::empty()
    } else if s.drop_last().contains(s.last()) {
        spec_dedup_first(s.drop_last())
    } else {
        spec_dedup_first(s.drop_last()).push(s.last())
    }
}

/// How many times `x` occurs in `s`.
pub open spec fn spec_count(s: Seq<Seq<char>>, x: Seq<char>) -> int
    decreases s.len(),
{
    if s.len() == 0 {
        0
    } else {
        spec_count(s.drop_last(), x) + if s.last() == x {
            1int
        } else {
            0int
        }
    }
}

/// Each distinct element of `s` paired with its occurrence count, rendered in
/// decimal, in order of first occurrence.
pub open spec fn spec_occurrence_pairs(s: Seq<Seq<char>>) -> Seq<(Seq<char>, Seq<char>)> {
    spec_dedup_first(s).map_values(|e: Seq<char>| (e, spec_nat_text(spec_count(s, e))))
}

pub proof fn lemma_dedup_first_contains(s: Seq<Seq<char>>)
    ensures
        forall|x: Seq<char>| spec_dedup_first(s).contains(x) <==> s.contains(x),
    decreases s.len(),
{
    if s.len() > 0 {
        lemma_dedup_first_contains(s.drop_last());
        assert forall|x: Seq<char>| s.contains(x) implies spec_dedup_first(s).contains(x) by {
            if s.drop_last().contains(x) {
                if !s.drop_last().contains(s.last()) {
                    let i = choose|i: int|
                        0 <= i < spec_dedup_first(s.drop_last()).len() && spec_dedup_first(
                            s.drop_last(),
                        )[i] == x;
                    assert(spec_dedup_first(s)[i] == x);
                }
            } else {
                let i = choose|i: int| 0 <= i < s.len() && s[i] == x;
                if i < s.len() - 1 {
                    assert(s.drop_last()[i] == s[i]);
                    assert(s.drop_last().contains(x));
                }
                assert(s.last() == x);
                if s.drop_last().contains(s.last()) {
                } else {
                    assert(spec_dedup_first(s).last() == x);
                }
            }
        }
        assert forall|x: Seq<char>| spec_dedup_first(s).contains(x) implies s.contains(x) by {
            if s.drop_last().contains(s.last()) {
                assert(s.drop_last().contains(x));
                let i = choose|i: int| 0 <= i < s.drop_last().len() && s.drop_last()[i] == x;
                assert(s.drop_last()[i] == s[i]);
                assert(s[i] == x);
            } else {
                let d = spec_dedup_first(s.drop_last());
                let i = choose|i: int|
                    0 <= i < spec_dedup_first(s).len() && spec_dedup_first(s)[i] == x;
                if i < d.len() {
                    assert(d[i] == spec_dedup_first(s)[i]);
                    assert(d.contains(x));
                    assert(s.drop_last().contains(x));
                    let j = choose|j: int| 0 <= j < s.drop_last().len() && s.drop_last()[j] == x;
                    assert(s.drop_last()[j] == s[j]);
                    assert(s[j] == x);
                } else {
                    assert(x == s.last());
                    assert(s[s.len() - 1] == x);
                }
            }
        }
    }
}

pub proof fn lemma_dedup_first_no_duplicates(s: Seq<Seq<char>>)
    ensures
        spec_dedup_first(s).no_duplicates(),
    decreases s.len(),
{
    if s.len() > 0 {
        lemma_dedup_first_no_duplicates(s.drop_last());
        if !s.drop_last().contains(s.last()) {
            lemma_dedup_first_contains(s.drop_last());
            let d = spec_dedup_first(s.drop_last());
            assert forall|i: int, j: int|
                0 <= i < j < d.push(s.last()).len() implies d.push(s.last())[i] != d.push(
                s.last(),
            )[j] by {
                if j < d.len() {
                } else {
                    assert(d.push(s.last())[j] == s.last());
                    assert(d[i] == d.push(s.last())[i]);
                    if d.push(s.last())[i] == s.last() {
                        assert(d.contains(s.last()));
                    }
                }
            }
        }
    }
}

// ---------------------------------------------------------------------------
// The coercion matrix: what a by-value read of each requested shape returns
// for each stored shape.
// ---------------------------------------------------------------------------
pub open spec fn as_integer(v: ValueModel) -> Result<i64, ValueError> {
    match v {
        ValueModel::Integer(i) => Ok(i),
        ValueModel::Text(s) => match spec_parse_i64(s) {
            Some(i) => Ok(i),
            None => Err(parse_int_error()),
        },
        _ => Err(incompatible()),
    }
}

pub open spec fn as_bytes(v: ValueModel) -> Result<Seq<u8>, ValueError> {
    match v {
        ValueModel::Integer(i) => Ok(spec_i64_le_bytes(i)),
        ValueModel::Bytes(b) => Ok(b),
        ValueModel::Text(s) => Ok(vstd::utf8::encode_utf8(s)),
        _ => Err(incompatible()),
    }
}

pub open spec fn as_text(v: ValueModel) -> Result<Seq<char>, ValueError> {
    match v {
        ValueModel::Integer(i) => Ok(spec_i64_text(i)),
        ValueModel::Bytes(b) => if vstd::utf8::valid_utf8(b) {
            Ok(vstd::utf8::decode_utf8(b))
        } else {
            Err(from_utf8_error())
        },
        ValueModel::Text(s) => Ok(s),
        _ => Err(incompatible()),
    }
}

pub open spec fn as_list(v: ValueModel) -> Result<Seq<Seq<char>>, ValueError> {
    match v {
        ValueModel::Bytes(b) => Ok(spec_byte_tokens(b)),
        ValueModel::Text(s) => Ok(spec_char_tokens(s)),
        ValueModel::Deque(items) => Ok(items),
        ValueModel::Hset(items) => Ok(items),
        _ => Err(incompatible()),
    }
}

pub open spec fn as_hset(v: ValueModel) -> Result<Seq<Seq<char>>, ValueError> {
    match v {
        ValueModel::Text(s) => Ok(spec_dedup_first(spec_char_tokens(s))),
        ValueModel::Deque(items) => Ok(spec_dedup_first(items)),
        ValueModel::Hset(items) => Ok(items),
        _ => Err(incompatible()),
    }
}

pub open spec fn as_hmap(v: ValueModel) -> Result<Seq<(Seq<char>, Seq<char>)>, ValueError> {
    match v {
        ValueModel::Deque(items) => Ok(spec_occurrence_pairs(items)),
        ValueModel::Hset(items) => Ok(spec_occurrence_pairs(items)),
        ValueModel::Hmap(pairs) => Ok(pairs),
        _ => Err(incompatible()),
    }
}

} // verus!
