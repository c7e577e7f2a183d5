use vstd::prelude::*;
use std::collections::VecDeque;
use crate::errors::{
    ValueError, TypeConversionError, TypeConversionImpossible, as_mutable_error,
    as_reference_error,
};
use crate::types::{
    ValueType, ValueModel, value_model_wf, as_integer, as_bytes, as_text, as_list, as_hset,
    as_hmap, spec_dedup_first, lemma_dedup_first_no_duplicates,
};
use crate::numbers::{parse_i64_chars, i64_to_string, i64_to_le_bytes};
use crate::convert::{
    clone_string_vec, clone_pairs_vec, dedup_strings, char_tokens, byte_tokens, occurrence_pairs,
    deque_from_vec, vec_from_deque,
};
use crate::text::{chars_of, string_from_utf8, string_to_bytes};

verus! {

/// One stored row: a tagged value and an optional absolute deadline, in
/// milliseconds. A row without a deadline never expires.
pub struct ValueEntry {
    pub value: ValueType,
    pub expiration: Option<u64>,
}

/// The mathematical shape of a stored row.
pub struct EntryModel {
    pub value: ValueModel,
    pub expiration: Option<u64>,
}

impl View for ValueEntry {
    type V = EntryModel;

    open spec fn view(&self) -> EntryModel {
        EntryModel { value: self.value@, expiration: self.expiration }
    }
}

impl DeepView for ValueEntry {
    type V = EntryModel;

    open spec fn deep_view(&self) -> EntryModel {
        self.view()
    }
}

pub open spec fn entry_wf(e: EntryModel) -> bool {
    value_model_wf(e.value)
}

/// Whether a row with this deadline is expired at instant `now`: never without
/// a deadline, and exactly from the deadline on otherwise.
pub open spec fn spec_entry_expired(e: EntryModel, now: u64) -> bool {
    match e.expiration {
        None => false,
        Some(deadline) => now >= deadline,
    }
}

// ---------------------------------------------------------------------------
// Bridges from executable result types to their mathematical views.
// ---------------------------------------------------------------------------
pub open spec fn res_bytes_view(r: Result<Vec<u8>, ValueError>) -> Result<Seq<u8>, ValueError> {
    match r {
        Ok(v) => Ok(v@),
        Err(e) => Err(e),
    }
}

pub open spec fn res_string_view(r: Result<String, ValueError>) -> Result<Seq<char>, ValueError> {
    match r {
        Ok(s) => Ok(s@),
        Err(e) => Err(e),
    }
}

pub open spec fn res_strings_view(r: Result<Vec<String>, ValueError>) -> Result<
    Seq<Seq<char>>,
    ValueError,
> {
    match r {
        Ok(v) => Ok(v.deep_view()),
        Err(e) => Err(e),
    }
}

pub open spec fn res_pairs_view(r: Result<Vec<(String, String)>, ValueError>) -> Result<
    Seq<(Seq<char>, Seq<char>)>,
    ValueError,
> {
    match r {
        Ok(v) => Ok(v.deep_view()),
        Err(e) => Err(e),
    }
}

impl ValueEntry {
    /// A row holding a 64-bit signed integer.
    pub fn from_i64(value: i64, expiration: Option<u64>) -> (r: Self)
        ensures
            r@ == (EntryModel { value: ValueModel::Integer(value), expiration }),
            entry_wf(r@),
    {
        ValueEntry { value: ValueType::Integer64(value), expiration }
    }

    /// A row holding a byte sequence.
    pub fn from_bytes(value: Vec<u8>, expiration: Option<u64>) -> (r: Self)
        ensures
            r@ == (EntryModel { value: ValueModel::Bytes(value@), expiration }),
            entry_wf(r@),
    {
        ValueEntry { value: ValueType::Bytes(value), expiration }
    }

    /// A row holding a text string.
    pub fn from_string(value: String, expiration: Option<u64>) -> (r: Self)
        ensures
            r@ == (EntryModel { value: ValueModel::Text(value@), expiration }),
            entry_wf(r@),
    {
        ValueEntry { value: ValueType::Text(value), expiration }
    }

    /// A row holding an ordered sequence, built from a vector.
    pub fn from_list(value: Vec<String>, expiration: Option<u64>) -> (r: Self)
        ensures
            r@ == (EntryModel { value: ValueModel::Deque(value.deep_view()), expiration }),
            entry_wf(r@),
    {
        let d = deque_from_vec(&value);
        ValueEntry { value: ValueType::Deque(d), expiration }
    }

    /// A row holding an ordered sequence.
    pub fn from_deque(value: VecDeque<String>, expiration: Option<u64>) -> (r: Self)
        ensures
            r@ == (EntryModel { value: ValueModel::Deque(value.deep_view()), expiration }),
            entry_wf(r@),
    {
        ValueEntry { value: ValueType::Deque(value), expiration }
    }

    /// A row holding a set: the given elements with duplicates dropped, each at
    /// its first occurrence.
    pub fn from_hset(value: Vec<String>, expiration: Option<u64>) -> (r: Self)
        ensures
            r@ == (EntryModel {
                value: ValueModel::Hset(spec_dedup_first(value.deep_view())),
                expiration,
            }),
            entry_wf(r@),
    {
        let items = dedup_strings(&value);
        proof {
            lemma_dedup_first_no_duplicates(value.deep_view());
        }
        ValueEntry { value: ValueType::Hset(items), expiration }
    }

    /// A row holding a string-to-string mapping: pairs are inserted in order,
    /// a repeated key keeps its first position and takes the latest value.
    pub fn from_hashmap(value: Vec<(String, String)>, expiration: Option<u64>) -> (r: Self)
        ensures
            r@ == (EntryModel {
                value: ValueModel::Hmap(crate::types::spec_pairs_from_list(value.deep_view())),
                expiration,
            }),
            entry_wf(r@),
    {
        let pairs = crate::convert::pairs_from_list(&value);
        proof {
            crate::types::lemma_pairs_from_list_distinct(value.deep_view());
        }
        ValueEntry { value: ValueType::Hmap(pairs), expiration }
    }

    /// The row's value read as an integer, per the coercion matrix.
    pub fn get_value_as_i64(&self) -> (r: Result<i64, ValueError>)
        ensures
            r == as_integer(self@.value),
    {
        match &self.value {
            ValueType::Integer64(i) => Ok(*i),
            ValueType::Text(s) => {
                let cs = chars_of(s.as_str());
                match parse_i64_chars(&cs) {
                    Some(i) => Ok(i),
                    None => Err(
                        ValueError::TypeConversionError(TypeConversionError::ParseIntError),
                    ),
                }
            },
            _ => Err(
                ValueError::TypeConversionImpossible(TypeConversionImpossible::IncompatibleTypes),
            ),
        }
    }

    /// The row's value read as bytes, per the coercion matrix.
    pub fn get_value_as_bytes(&self) -> (r: Result<Vec<u8>, ValueError>)
        ensures
            res_bytes_view(r) == as_bytes(self@.value),
    {
        match &self.value {
            ValueType::Bytes(b) => Ok(crate::convert::clone_bytes_vec(b)),
            ValueType::Text(s) => Ok(string_to_bytes(s.as_str())),
            ValueType::Integer64(i) => Ok(i64_to_le_bytes(*i)),
            _ => Err(
                ValueError::TypeConversionImpossible(TypeConversionImpossible::IncompatibleTypes),
            ),
        }
    }

    /// The row's value read as text, per the coercion matrix.
    pub fn get_value_as_string(&self) -> (r: Result<String, ValueError>)
        ensures
            res_string_view(r) == as_text(self@.value),
    {
        match &self.value {
            ValueType::Text(s) => Ok(s.clone()),
            ValueType::Bytes(b) => {
                let copy = crate::convert::clone_bytes_vec(b);
                match string_from_utf8(copy) {
                    Ok(s) => Ok(s),
                    Err(_) => Err(
                        ValueError::TypeConversionError(TypeConversionError::FromUtf8Error),
                    ),
                }
            },
            ValueType::Integer64(i) => Ok(i64_to_string(*i)),
            _ => Err(
                ValueError::TypeConversionImpossible(TypeConversionImpossible::IncompatibleTypes),
            ),
        }
    }

    /// The row's value read as an ordered listing, per the coercion matrix.
    pub fn get_value_as_list(&self) -> (r: Result<Vec<String>, ValueError>)
        ensures
            res_strings_view(r) == as_list(self@.value),
    {
        match &self.value {
            ValueType::Deque(d) => Ok(vec_from_deque(d)),
            ValueType::Text(s) => {
                let cs = chars_of(s.as_str());
                Ok(char_tokens(&cs))
            },
            ValueType::Bytes(b) => Ok(byte_tokens(b)),
            ValueType::Hset(items) => Ok(clone_string_vec(items)),
            _ => Err(
                ValueError::TypeConversionImpossible(TypeConversionImpossible::IncompatibleTypes),
            ),
        }
    }

    /// The row's value read as a set listing, per the coercion matrix.
    pub fn get_value_as_hset(&self) -> (r: Result<Vec<String>, ValueError>)
        ensures
            res_strings_view(r) == as_hset(self@.value),
    {
        match &self.value {
            ValueType::Hset(items) => Ok(clone_string_vec(items)),
            ValueType::Text(s) => {
                let cs = chars_of(s.as_str());
                let tokens = char_tokens(&cs);
                Ok(dedup_strings(&tokens))
            },
            ValueType::Deque(d) => {
                let items = vec_from_deque(d);
                Ok(dedup_strings(&items))
            },
            _ => Err(
                ValueError::TypeConversionImpossible(TypeConversionImpossible::IncompatibleTypes),
            ),
        }
    }

    /// The row's value read as a mapping listing, per the coercion matrix.
    pub fn get_value_as_hmap(&self) -> (r: Result<Vec<(String, String)>, ValueError>)
        ensures
            res_pairs_view(r) == as_hmap(self@.value),
    {
        match &self.value {
            ValueType::Hmap(pairs) => Ok(clone_pairs_vec(pairs)),
            ValueType::Deque(d) => {
                let items = vec_from_deque(d);
                Ok(occurrence_pairs(&items))
            },
            ValueType::Hset(items) => Ok(occurrence_pairs(items)),
            _ => Err(
                ValueError::TypeConversionImpossible(TypeConversionImpossible::IncompatibleTypes),
            ),
        }
    }

    /// A shared reference to the backing sequence; fails on any other variant.
    pub fn get_value_as_deque(&self) -> (r: Result<&VecDeque<String>, ValueError>)
        ensures
            match r {
                Ok(d) => self@.value is Deque && d.deep_view() == self@.value->Deque_0,
                Err(e) => !(self@.value is Deque) && e == as_reference_error(),
            },
    {
        match &self.value {
            ValueType::Deque(d) => Ok(d),
            _ => Err(ValueError::TypeConversionImpossible(TypeConversionImpossible::AsReference)),
        }
    }

    /// A mutable reference to the backing sequence; fails on any other variant.
    pub fn get_value_as_mut_deque(&mut self) -> (r: Result<&mut VecDeque<String>, ValueError>)
        ensures
            match r {
                Ok(d) => {
                    &&& (*old(self)).value is Deque
                    &&& d.deep_view() == (*old(self))@.value->Deque_0
                    &&& *final(self) == (ValueEntry {
                        value: ValueType::Deque(*final(d)),
                        expiration: (*old(self)).expiration,
                    })
                },
                Err(e) => {
                    &&& !((*old(self)).value is Deque)
                    &&& *final(self) == *old(self)
                    &&& e == as_mutable_error()
                },
            },
    {
        match &mut self.value {
            ValueType::Deque(d) => Ok(d),
            _ => Err(ValueError::TypeConversionImpossible(TypeConversionImpossible::AsMutable)),
        }
    }

    /// A mutable reference to the backing set; fails on any other variant.
    pub fn get_value_as_mut_hset(&mut self) -> (r: Result<&mut Vec<String>, ValueError>)
        ensures
            match r {
                Ok(items) => {
                    &&& (*old(self)).value is Hset
                    &&& items.deep_view() == (*old(self))@.value->Hset_0
                    &&& *final(self) == (ValueEntry {
                        value: ValueType::Hset(*final(items)),
                        expiration: (*old(self)).expiration,
                    })
                },
                Err(e) => {
                    &&& !((*old(self)).value is Hset)
                    &&& *final(self) == *old(self)
                    &&& e == as_mutable_error()
                },
            },
    {
        match &mut self.value {
            ValueType::Hset(items) => Ok(items),
            _ => Err(ValueError::TypeConversionImpossible(TypeConversionImpossible::AsMutable)),
        }
    }

    /// A mutable reference to the backing mapping; fails on any other variant.
    pub fn get_value_as_mut_hmap(&mut self) -> (r: Result<
        &mut Vec<(String, String)>,
        ValueError,
    >)
        ensures
            match r {
                Ok(pairs) => {
                    &&& (*old(self)).value is Hmap
                    &&& pairs.deep_view() == (*old(self))@.value->Hmap_0
                    &&& *final(self) == (ValueEntry {
                        value: ValueType::Hmap(*final(pairs)),
                        expiration: (*old(self)).expiration,
                    })
                },
                Err(e) => {
                    &&& !((*old(self)).value is Hmap)
                    &&& *final(self) == *old(self)
                    &&& e == as_mutable_error()
                },
            },
    {
        match &mut self.value {
            ValueType::Hmap(pairs) => Ok(pairs),
            _ => Err(ValueError::TypeConversionImpossible(TypeConversionImpossible::AsMutable)),
        }
    }

    /// Whether this row is expired at instant `now`.
    pub fn is_expired_entry(&self, now: u64) -> (r: bool)
        ensures
            r == spec_entry_expired(self@, now),
    {
        match &self.expiration {
            None => false,
            Some(deadline) => now >= *deadline,
        }
    }
}

} // verus!
