//! The two metadata messages stored in a file, and their decoders.
//!
//! Both messages use a tag-value wire layout: each item is a varint key
//! whose upper bits are the field number and whose low three bits are the
//! wire type (0 for a varint scalar, 2 for a length-delimited span).
//!
//! `Metadata` holds the manifest's byte position (field 1, varint) and the
//! batch row offsets (field 2, packed or repeated varints). `Manifest`
//! holds the serialized field descriptors (field 1, one length-delimited
//! submessage per field).

use vstd::prelude::*;

verus! {

use crate::Error;
use crate::num::{signed32, signed64, u32_as_signed, u64_as_signed};
use crate::varint::{decode_varint_at, lemma_parse_varint_bounds, parse_varint};
use vstd::slice::{slice_subrange, slice_to_vec};
use vstd::utf8::{decode_utf8, valid_utf8};

/// Positions of the manifest and the batch row boundaries.
#[derive(Debug, Clone, PartialEq, Eq)]
pub struct Metadata {
    /// Byte position of the manifest message in the file.
    pub manifest_position: i64,
    /// Non-decreasing row offsets; batch `i` covers rows
    /// `[batch_offsets[i], batch_offsets[i + 1])`.
    pub batch_offsets: Vec<i64>,
}

/// Parses packed varint-encoded signed 64-bit values filling `[pos, end)`.
pub open spec fn parse_packed_i64s(s: Seq<u8>, pos: int, end: int, acc: Seq<i64>) -> Option<
    Seq<i64>,
>
    decreases end - pos,
{
    if pos >= end {
        if pos == end {
            Some(acc)
        } else {
            None
        }
    } else {
        match parse_varint(s, pos) {
            None => None,
            Some((v, n)) => {
                if n < 1 || pos + n > end {
                    None
                } else {
                    parse_packed_i64s(s, pos + n, end, acc.push(signed64(v as u64) as i64))
                }
            },
        }
    }
}

/// Parses the remaining metadata items of `s` from `pos` on, with the
/// values decoded so far in `mp` and `offs`.
pub open spec fn parse_metadata_at(s: Seq<u8>, pos: int, mp: i64, offs: Seq<i64>) -> Option<
    (i64, Seq<i64>),
>
    decreases s.len() - pos,
{
    if pos == s.len() {
        Some((mp, offs))
    } else if pos < 0 || pos > s.len() {
        None
    } else {
        match parse_varint(s, pos) {
            None => None,
            Some((key, kn)) => {
                let p = pos + kn;
                if kn < 1 || p > s.len() {
                    None
                } else if key / 8 == 1 && key % 8 == 0 {
                    match parse_varint(s, p) {
                        None => None,
                        Some((v, n)) => {
                            if n < 1 || p + n > s.len() {
                                None
                            } else {
                                parse_metadata_at(s, p + n, signed64(v as u64) as i64, offs)
                            }
                        },
                    }
                } else if key / 8 == 2 && key % 8 == 2 {
                    match parse_varint(s, p) {
                        None => None,
                        Some((l, n)) => {
                            if n < 1 || p + n + l > s.len() {
                                None
                            } else {
                                match parse_packed_i64s(s, p + n, p + n + l, offs) {
                                    None => None,
                                    Some(offs2) => parse_metadata_at(s, p + n + l, mp, offs2),
                                }
                            }
                        },
                    }
                } else if key / 8 == 2 && key % 8 == 0 {
                    match parse_varint(s, p) {
                        None => None,
                        Some((v, n)) => {
                            if n < 1 || p + n > s.len() {
                                None
                            } else {
                                parse_metadata_at(
                                    s,
                                    p + n,
                                    mp,
                                    offs.push(signed64(v as u64) as i64),
                                )
                            }
                        },
                    }
                } else {
                    None
                }
            },
        }
    }
}

/// The metadata message encoded by the whole of `s`.
pub open spec fn parse_metadata(s: Seq<u8>) -> Option<(i64, Seq<i64>)> {
    parse_metadata_at(s, 0, 0, Seq::empty())
}

/// Decodes a metadata message from its exact byte span.
pub fn decode_metadata(buf: &Vec<u8>) -> (r: Result<Metadata, Error>)
    ensures
        match r {
            Ok(m) => parse_metadata(buf@) == Some((m.manifest_position, m.batch_offsets@)),
            Err(e) => e == Error::MetadataDecode && parse_metadata(buf@) is None,
        },
{
    let n = buf.len();
    let mut pos: usize = 0;
    let mut mp: i64 = 0;
    let mut offs: Vec<i64> = Vec::new();
    while pos < n
        invariant
            pos <= n,
            n == buf@.len(),
            parse_metadata(buf@) == parse_metadata_at(buf@, pos as int, mp, offs@),
        decreases n - pos,
    {
        let (key, kn) = match decode_varint_at(buf, pos) {
            Ok(p) => p,
            Err(e) => {
                return Err(e);
            },
        };
        proof {
            lemma_parse_varint_bounds(buf@, pos as int, 0);
        }
        let p = pos + kn;
        if key / 8 == 1 && key % 8 == 0 {
            let (v, vn) = match decode_varint_at(buf, p) {
                Ok(q) => q,
                Err(e) => {
                    return Err(e);
                },
            };
            proof {
                lemma_parse_varint_bounds(buf@, p as int, 0);
            }
            mp = u64_as_signed(v);
            pos = p + vn;
        } else if key / 8 == 2 && key % 8 == 2 {
            let (l, ln) = match decode_varint_at(buf, p) {
                Ok(q) => q,
                Err(e) => {
                    return Err(e);
                },
            };
            proof {
                lemma_parse_varint_bounds(buf@, p as int, 0);
            }
            let start = p + ln;
            if l > (n - start) as u64 {
                return Err(Error::MetadataDecode);
            }
            let end = start + (l as usize);
            let ghost offs_entry = offs@;
            let mut q: usize = start;
            while q < end
                invariant
                    start <= q <= end <= n,
                    n == buf@.len(),
                    parse_metadata(buf@) == (match parse_packed_i64s(
                        buf@,
                        start as int,
                        end as int,
                        offs_entry,
                    ) {
                        None => None,
                        Some(offs2) => parse_metadata_at(buf@, end as int, mp, offs2),
                    }),
                    parse_packed_i64s(buf@, start as int, end as int, offs_entry)
                        == parse_packed_i64s(buf@, q as int, end as int, offs@),
                decreases end - q,
            {
                let (v, vn) = match decode_varint_at(buf, q) {
                    Ok(w) => w,
                    Err(e) => {
                        return Err(e);
                    },
                };
                proof {
                    lemma_parse_varint_bounds(buf@, q as int, 0);
                }
                if vn > end - q {
                    return Err(Error::MetadataDecode);
                }
                offs.push(u64_as_signed(v));
                q = q + vn;
            }
            pos = end;
        } else if key / 8 == 2 && key % 8 == 0 {
            let (v, vn) = match decode_varint_at(buf, p) {
                Ok(q) => q,
                Err(e) => {
                    return Err(e);
                },
            };
            proof {
                lemma_parse_varint_bounds(buf@, p as int, 0);
            }
            offs.push(u64_as_signed(v));
            pos = p + vn;
        } else {
            return Err(Error::MetadataDecode);
        }
    }
    Ok(Metadata { manifest_position: mp, batch_offsets: offs })
}

/// One serialized field descriptor of the manifest.
#[derive(Debug, Clone, PartialEq, Eq)]
pub struct Field {
    /// Unique non-negative id, or -1 when unassigned.
    pub id: i32,
    /// Id of the enclosing field, or a negative sentinel for a root.
    pub parent_id: i32,
    /// Field name.
    pub name: String,
    /// Logical type tag, such as "int32" or "struct".
    pub logical_type: String,
    /// Extension type name; empty when the field carries none.
    pub extension_name: String,
    /// Encoding discriminant: 0 none, 1 plain, 2 variable-width binary,
    /// 3 dictionary.
    pub encoding: i32,
    /// Node discriminant reserved by the format.
    pub node_type: i32,
}

/// Mathematical image of a serialized field descriptor.
pub ghost struct FieldView {
    pub id: int,
    pub parent_id: int,
    pub name: Seq<char>,
    pub logical_type: Seq<char>,
    pub extension_name: Seq<char>,
    pub encoding: int,
    pub node_type: int,
}

impl View for Field {
    type V = FieldView;

    open spec fn view(&self) -> FieldView {
        FieldView {
            id: self.id as int,
            parent_id: self.parent_id as int,
            name: self.name@,
            logical_type: self.logical_type@,
            extension_name: self.extension_name@,
            encoding: self.encoding as int,
            node_type: self.node_type as int,
        }
    }
}

/// The descriptor every item of which is still at its wire default.
pub open spec fn empty_field_view() -> FieldView {
    FieldView {
        id: 0,
        parent_id: 0,
        name: Seq::empty(),
        logical_type: Seq::empty(),
        extension_name: Seq::empty(),
        encoding: 0,
        node_type: 0,
    }
}

/// A 64-bit wire value read back as a signed 32-bit integer: the low 32
/// bits, two's complement.
pub open spec fn int32_of(v: nat) -> int {
    signed32((v % 0x1_0000_0000) as u32)
}

/// Parses the items of one field descriptor filling `[pos, end)` of `s`,
/// with the items decoded so far in `cur`.
pub open spec fn parse_field_at(s: Seq<u8>, pos: int, end: int, cur: FieldView) -> Option<FieldView>
    decreases end - pos,
{
    if pos >= end {
        if pos == end {
            Some(cur)
        } else {
            None
        }
    } else if end > s.len() {
        None
    } else {
        match parse_varint(s, pos) {
            None => None,
            Some((key, kn)) => {
                let p = pos + kn;
                if kn < 1 || p > end {
                    None
                } else if key % 8 == 0 {
                    match parse_varint(s, p) {
                        None => None,
                        Some((v, n)) => {
                            if n < 1 || p + n > end {
                                None
                            } else if key / 8 == 1 {
                                parse_field_at(s, p + n, end, FieldView { id: int32_of(v), ..cur })
                            } else if key / 8 == 2 {
                                parse_field_at(
                                    s,
                                    p + n,
                                    end,
                                    FieldView { parent_id: int32_of(v), ..cur },
                                )
                            } else if key / 8 == 6 {
                                parse_field_at(
                                    s,
                                    p + n,
                                    end,
                                    FieldView { encoding: int32_of(v), ..cur },
                                )
                            } else if key / 8 == 7 {
                                parse_field_at(
                                    s,
                                    p + n,
                                    end,
                                    FieldView { node_type: int32_of(v), ..cur },
                                )
                            } else {
                                None
                            }
                        },
                    }
                } else if key % 8 == 2 {
                    match parse_varint(s, p) {
                        None => None,
                        Some((l, n)) => {
                            if n < 1 || p + n + l > end {
                                None
                            } else {
                                let b = s.subrange(p + n, p + n + l);
                                if !valid_utf8(b) {
                                    None
                                } else if key / 8 == 3 {
                                    parse_field_at(
                                        s,
                                        p + n + l,
                                        end,
                                        FieldView { name: decode_utf8(b), ..cur },
                                    )
                                } else if key / 8 == 4 {
                                    parse_field_at(
                                        s,
                                        p + n + l,
                                        end,
                                        FieldView { logical_type: decode_utf8(b), ..cur },
                                    )
                                } else if key / 8 == 5 {
                                    parse_field_at(
                                        s,
                                        p + n + l,
                                        end,
                                        FieldView { extension_name: decode_utf8(b), ..cur },
                                    )
                                } else {
                                    None
                                }
                            }
                        },
                    }
                } else {
                    None
                }
            },
        }
    }
}

/// Parses the remaining manifest items of `s` from `pos` on: one
/// length-delimited field descriptor each.
pub open spec fn parse_manifest_at(s: Seq<u8>, pos: int, acc: Seq<FieldView>) -> Option<
    Seq<FieldView>,
>
    decreases s.len() - pos,
{
    if pos == s.len() {
        Some(acc)
    } else if pos < 0 || pos > s.len() {
        None
    } else {
        match parse_varint(s, pos) {
            None => None,
            Some((key, kn)) => {
                let p = pos + kn;
                if kn < 1 || p > s.len() {
                    None
                } else if key / 8 == 1 && key % 8 == 2 {
                    match parse_varint(s, p) {
                        None => None,
                        Some((l, n)) => {
                            if n < 1 || p + n + l > s.len() {
                                None
                            } else {
                                match parse_field_at(s, p + n, p + n + l, empty_field_view()) {
                                    None => None,
                                    Some(fv) => parse_manifest_at(s, p + n + l, acc.push(fv)),
                                }
                            }
                        },
                    }
                } else {
                    None
                }
            },
        }
    }
}

/// The manifest message encoded by the whole of `s`.
pub open spec fn parse_manifest(s: Seq<u8>) -> Option<Seq<FieldView>> {
    parse_manifest_at(s, 0, Seq::empty())
}

/// Relies on `String::from_utf8`: it succeeds exactly on valid UTF-8 input
/// and yields the characters that input encodes.
#[verifier::external_body]
fn string_from_bytes(bytes: Vec<u8>) -> (r: Option<String>)
    ensures
        match r {
            Some(s) => valid_utf8(bytes@) && s@ == decode_utf8(bytes@),
            None => !valid_utf8(bytes@),
        },
{
    String::from_utf8(bytes).ok()
}

/// Decodes the bytes `[start, end)` of `buf` as UTF-8 text.
fn utf8_string(buf: &Vec<u8>, start: usize, end: usize) -> (r: Result<String, Error>)
    requires
        start <= end <= buf@.len(),
    ensures
        match r {
            Ok(s) => valid_utf8(buf@.subrange(start as int, end as int)) && s@ == decode_utf8(
                buf@.subrange(start as int, end as int),
            ),
            Err(e) => e == Error::MetadataDecode && !valid_utf8(
                buf@.subrange(start as int, end as int),
            ),
        },
{
    let sl = slice_subrange(buf.as_slice(), start, end);
    let bytes = slice_to_vec(sl);
    match string_from_bytes(bytes) {
        Some(s) => Ok(s),
        None => Err(Error::MetadataDecode),
    }
}

/// Truncates a 64-bit wire value to a signed 32-bit integer.
fn int32_of_exec(v: u64) -> (r: i32)
    ensures
        r as int == int32_of(v as nat),
{
    u32_as_signed((v % 0x1_0000_0000) as u32)
}

/// Decodes one field descriptor from the bytes `[pos, end)` of `buf`.
fn decode_field(buf: &Vec<u8>, pos: usize, end: usize) -> (r: Result<Field, Error>)
    requires
        pos <= end <= buf@.len(),
    ensures
        match r {
            Ok(f) => parse_field_at(buf@, pos as int, end as int, empty_field_view()) == Some(f@),
            Err(e) => e == Error::MetadataDecode && parse_field_at(
                buf@,
                pos as int,
                end as int,
                empty_field_view(),
            ) is None,
        },
{
    let n = buf.len();
    let mut q = pos;
    let mut id: i32 = 0;
    let mut parent_id: i32 = 0;
    let mut name = String::new();
    let mut logical_type = String::new();
    let mut extension_name = String::new();
    let mut encoding: i32 = 0;
    let mut node_type: i32 = 0;
    while q < end
        invariant
            pos <= q <= end <= n,
            n == buf@.len(),
            parse_field_at(buf@, pos as int, end as int, empty_field_view()) == parse_field_at(
                buf@,
                q as int,
                end as int,
                (FieldView {
                    id: id as int,
                    parent_id: parent_id as int,
                    name: name@,
                    logical_type: logical_type@,
                    extension_name: extension_name@,
                    encoding: encoding as int,
                    node_type: node_type as int,
                }),
            ),
        decreases end - q,
    {
        let (key, kn) = match decode_varint_at(buf, q) {
            Ok(p) => p,
            Err(e) => {
                return Err(e);
            },
        };
        proof {
            lemma_parse_varint_bounds(buf@, q as int, 0);
        }
        let p = q + kn;
        if p > end {
            return Err(Error::MetadataDecode);
        }
        if key % 8 == 0 {
            let (v, vn) = match decode_varint_at(buf, p) {
                Ok(w) => w,
                Err(e) => {
                    return Err(e);
                },
            };
            proof {
                lemma_parse_varint_bounds(buf@, p as int, 0);
            }
            if vn > end - p {
                return Err(Error::MetadataDecode);
            }
            let w = int32_of_exec(v);
            if key / 8 == 1 {
                id = w;
            } else if key / 8 == 2 {
                parent_id = w;
            } else if key / 8 == 6 {
                encoding = w;
            } else if key / 8 == 7 {
                node_type = w;
            } else {
                return Err(Error::MetadataDecode);
            }
            q = p + vn;
        } else if key % 8 == 2 {
            let (l, ln) = match decode_varint_at(buf, p) {
                Ok(w) => w,
                Err(e) => {
                    return Err(e);
                },
            };
            proof {
                lemma_parse_varint_bounds(buf@, p as int, 0);
            }
            let start = p + ln;
            if start > end || l > (end - start) as u64 {
                return Err(Error::MetadataDecode);
            }
            let stop = start + (l as usize);
            let text = match utf8_string(buf, start, stop) {
                Ok(s) => s,
                Err(e) => {
                    return Err(e);
                },
            };
            if key / 8 == 3 {
                name = text;
            } else if key / 8 == 4 {
                logical_type = text;
            } else if key / 8 == 5 {
                extension_name = text;
            } else {
                return Err(Error::MetadataDecode);
            }
            q = stop;
        } else {
            return Err(Error::MetadataDecode);
        }
    }
    Ok(
        Field {
            id,
            parent_id,
            name,
            logical_type,
            extension_name,
            encoding,
            node_type,
        },
    )
}

/// The views of a run of decoded field descriptors.
pub open spec fn fields_view(fs: Seq<Field>) -> Seq<FieldView> {
    fs.map_values(|f: Field| f@)
}

/// Decodes a manifest message from its exact byte span.
pub fn decode_manifest(buf: &Vec<u8>) -> (r: Result<Vec<Field>, Error>)
    ensures
        match r {
            Ok(fs) => parse_manifest(buf@) == Some(fields_view(fs@)),
            Err(e) => e == Error::MetadataDecode && parse_manifest(buf@) is None,
        },
{
    let n = buf.len();
    let mut pos: usize = 0;
    let mut fields: Vec<Field> = Vec::new();
    proof {
        assert(fields_view(fields@) =~= Seq::<FieldView>::empty());
    }
    while pos < n
        invariant
            pos <= n,
            n == buf@.len(),
            parse_manifest(buf@) == parse_manifest_at(buf@, pos as int, fields_view(fields@)),
        decreases n - pos,
    {
        let (key, kn) = match decode_varint_at(buf, pos) {
            Ok(p) => p,
            Err(e) => {
                return Err(e);
            },
        };
        proof {
            lemma_parse_varint_bounds(buf@, pos as int, 0);
        }
        let p = pos + kn;
        if key / 8 == 1 && key % 8 == 2 {
            let (l, ln) = match decode_varint_at(buf, p) {
                Ok(w) => w,
                Err(e) => {
                    return Err(e);
                },
            };
            proof {
                lemma_parse_varint_bounds(buf@, p as int, 0);
            }
            let start = p + ln;
            if l > (n - start) as u64 {
                return Err(Error::MetadataDecode);
            }
            let stop = start + (l as usize);
            let f = match decode_field(buf, start, stop) {
                Ok(f) => f,
                Err(e) => {
                    return Err(e);
                },
            };
            let ghost before = fields_view(fields@);
            fields.push(f);
            proof {
                assert(fields_view(fields@) =~= before.push(fields@.last()@));
            }
            pos = stop;
        } else {
            return Err(Error::MetadataDecode);
        }
    }
    Ok(fields)
}

} // verus!
