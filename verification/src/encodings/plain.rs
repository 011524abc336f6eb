//! Plain encoding: fixed-width values stored byte for byte little-endian.
//!
//! A page holds `page_length` consecutive values. `decode` materializes a
//! contiguous run; `take` gathers arbitrary sorted in-bounds indices with
//! one contiguous read followed by an in-memory gather; `value` fetches a
//! single element.

use vstd::prelude::*;

verus! {

use crate::Error;
use crate::encodings::{sub_scalar_i32, take_i32};
use crate::num::{read_i16_le, read_i32_le, read_i64_le, read_i8, read_u16_le, read_u32_le,
    read_u64_le, read_u8, spec_i16_le, spec_i32_le, spec_i64_le, spec_i8_le};
use vstd::bytes::{spec_u16_from_le_bytes, spec_u32_from_le_bytes, spec_u64_from_le_bytes};

/// A value type that plain encoding stores as a fixed-width little-endian
/// byte run.
pub trait PlainValue: Sized + Copy {
    /// Width of one stored value, in bytes.
    spec fn spec_width() -> nat;

    /// The value stored in the `spec_width()` bytes of `s`.
    spec fn decode_le(s: Seq<u8>) -> Self;

    /// Width of one stored value, in bytes.
    fn width() -> (w: usize)
        ensures
            w == Self::spec_width(),
            1 <= w <= 8,
    ;

    /// Reads the value stored at byte position `pos`.
    fn read_le(buf: &Vec<u8>, pos: usize) -> (r: Self)
        requires
            pos + Self::spec_width() <= buf@.len(),
        ensures
            r == Self::decode_le(buf@.subrange(pos as int, pos + Self::spec_width())),
    ;
}

impl PlainValue for i32 {
    open spec fn spec_width() -> nat {
        4
    }

    open spec fn decode_le(s: Seq<u8>) -> i32 {
        spec_i32_le(s) as i32
    }

    fn width() -> (w: usize) {
        4
    }

    fn read_le(buf: &Vec<u8>, pos: usize) -> (r: i32) {
        read_i32_le(buf, pos)
    }
}

impl PlainValue for i64 {
    open spec fn spec_width() -> nat {
        8
    }

    open spec fn decode_le(s: Seq<u8>) -> i64 {
        spec_i64_le(s) as i64
    }

    fn width() -> (w: usize) {
        8
    }

    fn read_le(buf: &Vec<u8>, pos: usize) -> (r: i64) {
        read_i64_le(buf, pos)
    }
}

impl PlainValue for u8 {
    open spec fn spec_width() -> nat {
        1
    }

    open spec fn decode_le(s: Seq<u8>) -> u8 {
        s[0]
    }

    fn width() -> (w: usize) {
        1
    }

    fn read_le(buf: &Vec<u8>, pos: usize) -> (r: u8) {
        read_u8(buf, pos)
    }
}

impl PlainValue for i8 {
    open spec fn spec_width() -> nat {
        1
    }

    open spec fn decode_le(s: Seq<u8>) -> i8 {
        spec_i8_le(s) as i8
    }

    fn width() -> (w: usize) {
        1
    }

    fn read_le(buf: &Vec<u8>, pos: usize) -> (r: i8) {
        read_i8(buf, pos)
    }
}

impl PlainValue for u16 {
    open spec fn spec_width() -> nat {
        2
    }

    open spec fn decode_le(s: Seq<u8>) -> u16 {
        spec_u16_from_le_bytes(s)
    }

    fn width() -> (w: usize) {
        2
    }

    fn read_le(buf: &Vec<u8>, pos: usize) -> (r: u16) {
        read_u16_le(buf, pos)
    }
}

impl PlainValue for i16 {
    open spec fn spec_width() -> nat {
        2
    }

    open spec fn decode_le(s: Seq<u8>) -> i16 {
        spec_i16_le(s) as i16
    }

    fn width() -> (w: usize) {
        2
    }

    fn read_le(buf: &Vec<u8>, pos: usize) -> (r: i16) {
        read_i16_le(buf, pos)
    }
}

impl PlainValue for u32 {
    open spec fn spec_width() -> nat {
        4
    }

    open spec fn decode_le(s: Seq<u8>) -> u32 {
        spec_u32_from_le_bytes(s)
    }

    fn width() -> (w: usize) {
        4
    }

    fn read_le(buf: &Vec<u8>, pos: usize) -> (r: u32) {
        read_u32_le(buf, pos)
    }
}

impl PlainValue for u64 {
    open spec fn spec_width() -> nat {
        8
    }

    open spec fn decode_le(s: Seq<u8>) -> u64 {
        spec_u64_from_le_bytes(s)
    }

    fn width() -> (w: usize) {
        8
    }

    fn read_le(buf: &Vec<u8>, pos: usize) -> (r: u64) {
        read_u64_le(buf, pos)
    }
}

/// Decoder for one plain-encoded page of an open file.
pub struct PlainDecoder<'a> {
    /// The file's bytes.
    pub file: &'a Vec<u8>,
    /// Byte position where the page starts.
    pub position: usize,
    /// Number of stored elements in the page.
    pub page_length: usize,
}

impl<'a> PlainDecoder<'a> {
    /// A decoder for the page of `page_length` elements at byte
    /// `position`.
    pub fn new(file: &'a Vec<u8>, position: usize, page_length: usize) -> (r: Self)
        ensures
            r.file@ == file@,
            r.position == position,
            r.page_length == page_length,
    {
        PlainDecoder { file, position, page_length }
    }

    /// The `i`-th element of the page, as stored little-endian at byte
    /// `position + i * width`.
    pub open spec fn value_at<T: PlainValue>(self, i: int) -> T {
        T::decode_le(
            self.file@.subrange(
                self.position + i * T::spec_width(),
                self.position + (i + 1) * T::spec_width(),
            ),
        )
    }

    /// How many values a decode of `offset` and `length` materializes.
    pub open spec fn spec_read_len(self, offset: int, length: Option<usize>) -> int {
        match length {
            Some(l) => l as int,
            None => self.page_length - offset,
        }
    }

    /// Materializes `length` values (or, absent a length, all values from
    /// `offset` to the page's end) starting at element `offset`.
    ///
    /// Fails with `OutOfRange` when no length is given and `offset` lies
    /// beyond the page, and with `TruncatedRead` exactly when the file
    /// holds fewer bytes than the requested run needs.
    pub fn decode<T: PlainValue>(&self, offset: usize, length: Option<usize>) -> (r: Result<
        Vec<T>,
        Error,
    >)
        ensures
            match r {
                Ok(v) => {
                    let rl = self.spec_read_len(offset as int, length);
                    &&& (length is None ==> offset <= self.page_length)
                    &&& self.position + (offset + rl) * T::spec_width() <= self.file@.len()
                    &&& v@.len() == rl
                    &&& forall|k: int| 0 <= k < rl ==> v@[k] == self.value_at::<T>(offset + k)
                },
                Err(e) => {
                    ||| {
                        &&& e == Error::OutOfRange
                        &&& length is None
                        &&& offset > self.page_length
                    }
                    ||| {
                        &&& e == Error::TruncatedRead
                        &&& (length is None ==> offset <= self.page_length)
                        &&& self.position + (offset + self.spec_read_len(offset as int, length))
                            * T::spec_width() > self.file@.len()
                    }
                },
            },
    {
        let w = T::width();
        let n = self.file.len();
        let read_len: usize = match length {
            Some(l) => l,
            None => {
                if offset > self.page_length {
                    return Err(Error::OutOfRange);
                }
                self.page_length - offset
            },
        };
        let elems = match offset.checked_add(read_len) {
            Some(t) => t,
            None => {
                proof {
                    assert((offset + read_len) * T::spec_width() >= offset + read_len)
                        by (nonlinear_arith)
                        requires
                            T::spec_width() >= 1,
                            offset >= 0,
                            read_len >= 0,
                    ;
                }
                return Err(Error::TruncatedRead);
            },
        };
        let bytes = match elems.checked_mul(w) {
            Some(t) => t,
            None => {
                return Err(Error::TruncatedRead);
            },
        };
        if bytes > n || self.position > n - bytes {
            proof {
                assert((offset + read_len) * T::spec_width() == elems * w);
            }
            return Err(Error::TruncatedRead);
        }
        let mut v: Vec<T> = Vec::new();
        proof {
            assert(offset * w <= elems * w) by (nonlinear_arith)
                requires
                    0 <= offset <= elems,
                    w >= 1,
            ;
        }
        let mut cur = self.position + offset * w;
        while v.len() < read_len
            invariant
                n == self.file@.len(),
                w == T::spec_width(),
                1 <= w,
                v@.len() <= read_len,
                offset + read_len == elems,
                self.position + elems * w <= n,
                cur == self.position + (offset + v@.len()) * w,
                forall|k: int|
                    0 <= k < v@.len() ==> v@[k] == self.value_at::<T>(offset + k),
            decreases read_len - v@.len(),
        {
            proof {
                assert((offset + v@.len() + 1) * w == (offset + v@.len()) * w + w)
                    by (nonlinear_arith);
                assert((offset + v@.len() + 1) * w <= elems * w) by (nonlinear_arith)
                    requires
                        offset + v@.len() + 1 <= elems,
                        w >= 1,
                ;
            }
            let x = T::read_le(self.file, cur);
            v.push(x);
            cur = cur + w;
        }
        proof {
            assert((offset + read_len) * T::spec_width() == elems * w);
        }
        Ok(v)
    }

    /// With the page's bytes inside the file, decoding to the page's end
    /// equals decoding the remainder with an explicit length: both yield
    /// the `page_length - offset` values stored from element `offset` on.
    pub proof fn lemma_rest_decode_matches_explicit<T: PlainValue>(
        self,
        offset: int,
        rest: Seq<T>,
        explicit: Seq<T>,
    )
        requires
            0 <= offset <= self.page_length,
            rest.len() == self.page_length - offset,
            forall|k: int| 0 <= k < rest.len() ==> rest[k] == self.value_at::<T>(offset + k),
            explicit.len() == self.page_length - offset,
            forall|k: int|
                0 <= k < explicit.len() ==> explicit[k] == self.value_at::<T>(offset + k),
        ensures
            rest =~= explicit,
    {
        assert forall|k: int| 0 <= k < rest.len() implies rest[k] == explicit[k] by {}
    }

    /// Elements are non-decreasing.
    pub open spec fn sorted(s: Seq<i32>) -> bool {
        forall|i: int, j: int| 0 <= i <= j < s.len() ==> s[i] <= s[j]
    }

    /// Gathers the elements at `indices` without decoding the whole page:
    /// one contiguous decode covering the index span, then an in-memory
    /// gather of the re-based indices.
    ///
    /// An empty index sequence yields an empty array with no read at all.
    pub fn take(&self, indices: &Vec<i32>) -> (r: Result<Vec<i32>, Error>)
        requires
            Self::sorted(indices@),
            forall|k: int|
                0 <= k < indices@.len() ==> 0 <= #[trigger] indices@[k] < self.page_length,
        ensures
            match r {
                Ok(v) => {
                    &&& v@.len() == indices@.len()
                    &&& forall|k: int|
                        0 <= k < indices@.len() ==> v@[k] == self.value_at::<i32>(
                            #[trigger] indices@[k] as int,
                        )
                },
                Err(e) => {
                    &&& e == Error::TruncatedRead
                    &&& indices@.len() > 0
                    &&& self.position + (indices@.last() + 1) * 4 > self.file@.len()
                },
            },
    {
        if indices.len() == 0 {
            return Ok(Vec::new());
        }
        let start = indices[0];
        let last = indices[indices.len() - 1];
        proof {
            assert forall|k: int| 0 <= k < indices@.len() implies start <= #[trigger] indices@[k]
                <= last by {
                assert(indices@[0] <= indices@[k]);
                assert(indices@[k] <= indices@[indices@.len() - 1]);
            }
        }
        let span = (last - start) as usize + 1;
        let values = match self.decode::<i32>(start as usize, Some(span)) {
            Ok(v) => v,
            Err(e) => {
                return Err(e);
            },
        };
        let rebased = sub_scalar_i32(indices, start);
        let gathered = take_i32(&values, &rebased);
        proof {
            assert forall|k: int| 0 <= k < indices@.len() implies gathered@[k]
                == self.value_at::<i32>(#[trigger] indices@[k] as int) by {
                assert(rebased@[k] as int == indices@[k] - start);
                assert(gathered@[k] == values@[rebased@[k] as int]);
                assert(values@[indices@[k] - start] == self.value_at::<i32>(
                    start + (indices@[k] - start),
                ));
            }
        }
        Ok(gathered)
    }

    /// A gather after a full decode equals a direct take: for any
    /// in-bounds index sequence, the element a `take` yields for entry `k`
    /// is exactly element `indices[k]` of the page decoded whole.
    pub proof fn lemma_take_matches_full_decode(
        self,
        indices: Seq<i32>,
        full: Seq<i32>,
        taken: Seq<i32>,
    )
        requires
            full.len() == self.page_length,
            forall|j: int| 0 <= j < full.len() ==> full[j] == self.value_at::<i32>(j),
            taken.len() == indices.len(),
            forall|k: int|
                0 <= k < indices.len() ==> taken[k] == self.value_at::<i32>(
                    #[trigger] indices[k] as int,
                ),
            forall|k: int| 0 <= k < indices.len() ==> 0 <= #[trigger] indices[k] < self.page_length,
        ensures
            forall|k: int| 0 <= k < indices.len() ==> taken[k] == full[#[trigger] indices[k] as int],
    {
        assert forall|k: int| 0 <= k < indices.len() implies taken[k] == full[indices[k] as int] by {
            assert(full[indices[k] as int] == self.value_at::<i32>(indices[k] as int));
        }
    }

    /// Fetches the single element at index `i`: `decode` of a run of one,
    /// unwrapped to a scalar.
    pub fn value<T: PlainValue>(&self, i: usize) -> (r: Result<T, Error>)
        ensures
            match r {
                Ok(x) => {
                    &&& self.position + (i + 1) * T::spec_width() <= self.file@.len()
                    &&& x == self.value_at::<T>(i as int)
                },
                Err(e) => {
                    &&& e == Error::TruncatedRead
                    &&& self.position + (i + 1) * T::spec_width() > self.file@.len()
                },
            },
    {
        let v = match self.decode::<T>(i, Some(1)) {
            Ok(v) => v,
            Err(e) => {
                return Err(e);
            },
        };
        Ok(v[0])
    }
}

} // verus!
