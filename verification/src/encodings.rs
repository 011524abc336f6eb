//! Physical encodings and the values they materialize.
//!
//! A page's bytes are turned into typed arrays by one of three decoder
//! families: plain fixed-width values, variable-width binary runs, and
//! dictionary-indexed values. Gather and re-basing of indices are delegated
//! to the columnar compute kernels of the `arrow2` crate.

pub mod plain;

use vstd::prelude::*;

verus! {

use crate::Error;

/// Physical representation strategy for a field's values.
#[derive(Debug, Clone, Copy, PartialEq, Eq, Structural)]
pub enum Encoding {
    /// Fixed-width values, byte for byte little-endian.
    Plain,
    /// Runs of bytes delimited by an offsets sub-array.
    VarBinary,
    /// Fixed-width indices into a shared dictionary array.
    Dictionary,
}

/// A typed, immutable, materialized sequence of values.
#[derive(Debug, Clone, PartialEq, Eq)]
pub enum ArrayData {
    /// 32-bit signed integers.
    Int32(Vec<i32>),
    /// 64-bit signed integers.
    Int64(Vec<i64>),
}

impl ArrayData {
    /// Number of elements.
    pub open spec fn spec_len(self) -> int {
        match self {
            ArrayData::Int32(v) => v@.len() as int,
            ArrayData::Int64(v) => v@.len() as int,
        }
    }

    /// Number of elements.
    pub fn len(&self) -> (n: usize)
        ensures
            n == self.spec_len(),
    {
        match self {
            ArrayData::Int32(v) => v.len(),
            ArrayData::Int64(v) => v.len(),
        }
    }
}

/// One typed value out of a materialized array.
#[derive(Debug, Clone, Copy, PartialEq, Eq, Structural)]
pub enum ScalarValue {
    /// A 32-bit signed integer.
    Int32(i32),
    /// A 64-bit signed integer.
    Int64(i64),
}

/// The decoder selected for a field, per its encoding and logical type.
#[derive(Debug, Clone, Copy, PartialEq, Eq, Structural)]
pub enum DecoderKind {
    /// Plain decoder over 32-bit signed integers.
    PlainInt32,
    /// Plain decoder over 64-bit signed integers.
    PlainInt64,
    /// Plain decoder over another fixed-width physical type.
    PlainOther,
    /// Variable-width decoder over UTF-8 text.
    VarBinaryUtf8,
    /// Variable-width decoder over raw bytes.
    VarBinaryBytes,
    /// Dictionary decoder over a shared dictionary array.
    Dictionary,
}

/// A lazily populated, at-most-once-initialized dictionary array, kept for
/// the lifetime of an open file.
pub struct DictionaryCache {
    /// The cached values, absent until the first load.
    pub values: Option<ArrayData>,
}

impl DictionaryCache {
    /// An empty cache.
    pub fn new() -> (r: DictionaryCache)
        ensures
            r.values is None,
    {
        DictionaryCache { values: None }
    }

    /// Offers loaded values to the cache. The first caller wins; a later
    /// call leaves the cached values untouched, so every reader observes
    /// the one array loaded first.
    pub fn populate(&mut self, values: ArrayData) -> (loaded: bool)
        ensures
            final(self).values is Some,
            loaded == (old(self).values is None),
            old(self).values is None ==> final(self).values == Some(values),
            old(self).values is Some ==> final(self).values == old(self).values,
    {
        match self.values {
            Option::None => {
                self.values = Option::Some(values);
                true
            },
            Option::Some(_) => false,
        }
    }
}

/// The gather step of dictionary decoding: element `k` of the result is
/// the dictionary entry at index `indices[k]`, for a decoded index page
/// whose entries all lie inside the dictionary.
///
/// Fails exactly when some index lies outside the dictionary; no partial
/// result is returned.
pub fn dictionary_gather(dict: &Vec<i32>, indices: &Vec<i32>) -> (r: Result<Vec<i32>, Error>)
    ensures
        match r {
            Ok(v) => {
                &&& forall|k: int|
                    0 <= k < indices@.len() ==> 0 <= #[trigger] indices@[k] < dict@.len()
                &&& v@.len() == indices@.len()
                &&& forall|k: int|
                    0 <= k < indices@.len() ==> v@[k] == dict@[#[trigger] indices@[k] as int]
            },
            Err(e) => {
                &&& e == Error::OutOfRange
                &&& exists|k: int|
                    0 <= k < indices@.len() && !(0 <= #[trigger] indices@[k] < dict@.len())
            },
        },
{
    let mut k: usize = 0;
    while k < indices.len()
        invariant
            0 <= k <= indices@.len(),
            forall|j: int| 0 <= j < k ==> 0 <= #[trigger] indices@[j] < dict@.len(),
        decreases indices@.len() - k,
    {
        if indices[k] < 0 || (indices[k] as usize) >= dict.len() {
            return Err(Error::OutOfRange);
        }
        k = k + 1;
    }
    Ok(take_i32(dict, indices))
}

/// Relies on the `take` kernel of `arrow2`: the result has one element per
/// index, and its element `k` is `values[indices[k]]`.
#[verifier::external_body]
pub(crate) fn take_i32(values: &Vec<i32>, indices: &Vec<i32>) -> (r: Vec<i32>)
    requires
        forall|k: int| 0 <= k < indices@.len() ==> 0 <= #[trigger] indices@[k] < values@.len(),
    ensures
        r@.len() == indices@.len(),
        forall|k: int| 0 <= k < indices@.len() ==> r@[k] == values@[#[trigger] indices@[k] as int],
{
    let v = arrow2::array::Int32Array::from_vec(values.clone());
    let idx = arrow2::array::Int32Array::from_vec(indices.clone());
    let taken = arrow2::compute::take::take(&v, &idx).unwrap();
    let arr = taken.as_any().downcast_ref::<arrow2::array::Int32Array>().unwrap();
    arr.values().as_slice().to_vec()
}

/// Relies on the scalar subtraction kernel of `arrow2`: element `k` of the
/// result is `values[k] - rhs`.
#[verifier::external_body]
pub(crate) fn sub_scalar_i32(values: &Vec<i32>, rhs: i32) -> (r: Vec<i32>)
    requires
        forall|k: int|
            0 <= k < values@.len() ==> i32::MIN <= #[trigger] values@[k] - rhs <= i32::MAX,
    ensures
        r@.len() == values@.len(),
        forall|k: int| 0 <= k < values@.len() ==> #[trigger] r@[k] as int == values@[k] - rhs,
{
    let arr = arrow2::array::Int32Array::from_vec(values.clone());
    let out = arrow2::compute::arithmetics::basic::sub_scalar(&arr, &rhs);
    out.values().as_slice().to_vec()
}

} // verus!

