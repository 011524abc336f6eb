//! The file reader: opening a file and materializing rows.
//!
//! Opening walks the trailer backwards: the 16-byte footer names the
//! metadata message's position; the metadata names the manifest's; the
//! manifest's records build the schema; and the page table sits
//! immediately before the manifest message, its size fixed by the column
//! and batch counts. A read request resolves the batch holding the row,
//! materializes every root field for that batch, and hands back one typed
//! scalar per column.

use vstd::prelude::*;

verus! {

use crate::Error;
use crate::encodings::{ArrayData, DecoderKind, ScalarValue};
use crate::encodings::plain::PlainDecoder;
use crate::format::pb;
use crate::format::pb::FieldView;
use crate::num::{read_i64_le, read_u32_le, spec_i32_le, spec_i64_le};
use crate::page_table::{entry_ok, get_page_info, PageTable};
use crate::schema::{node_matches, root_records, spec_select_decoder, storage_ok, subtree_attached, DataType, Field, Schema};
use vstd::bytes::spec_u32_from_le_bytes;

/// The last four bytes of a recognized file: the ASCII marker "LANC".
pub open spec fn spec_has_magic(file: Seq<u8>) -> bool {
    &&& file.len() >= 16
    &&& file[file.len() - 4] == 76u8
    &&& file[file.len() - 3] == 65u8
    &&& file[file.len() - 2] == 78u8
    &&& file[file.len() - 1] == 67u8
}

/// The metadata position stored in the footer's first eight bytes.
pub open spec fn spec_metadata_pos(file: Seq<u8>) -> int {
    spec_i64_le(file.subrange(file.len() - 16, file.len() - 8))
}

/// Reads the fixed 16-byte trailer: validates the magic marker and
/// returns the metadata message's byte position.
///
/// Fails with a format error exactly when fewer than 16 bytes are
/// available or the marker is wrong; never panics.
pub fn read_footer(file: &Vec<u8>) -> (r: Result<i64, Error>)
    ensures
        match r {
            Ok(p) => spec_has_magic(file@) && p as int == spec_metadata_pos(file@),
            Err(e) => e == Error::Format && !spec_has_magic(file@),
        },
{
    let n = file.len();
    if n < 16 {
        return Err(Error::Format);
    }
    if file[n - 4] != 76 || file[n - 3] != 65 || file[n - 2] != 78 || file[n - 1] != 67 {
        return Err(Error::Format);
    }
    Ok(read_i64_le(file, n - 16))
}

/// The byte span `[start, end)` of the length-prefixed message at `pos`:
/// a 4-byte little-endian length, then that many bytes.
pub open spec fn spec_message_span(file: Seq<u8>, pos: int) -> Option<(int, int)> {
    if pos < 0 || pos + 4 > file.len() {
        None
    } else {
        let l = spec_u32_from_le_bytes(file.subrange(pos, pos + 4));
        if pos + 4 + l > file.len() {
            None
        } else {
            Some((pos + 4, pos + 4 + l))
        }
    }
}

/// Reads the length-prefixed message at `pos`, yielding its body bytes.
///
/// Fails with a truncated-read error exactly when the length prefix or
/// the declared run of bytes lies beyond the file's end.
pub fn message_bytes(file: &Vec<u8>, pos: usize) -> (r: Result<Vec<u8>, Error>)
    ensures
        match r {
            Ok(b) => match spec_message_span(file@, pos as int) {
                Some(span) => b@ == file@.subrange(span.0, span.1),
                None => false,
            },
            Err(e) => e == Error::TruncatedRead && spec_message_span(file@, pos as int) is None,
        },
{
    let n = file.len();
    if pos > n || n - pos < 4 {
        return Err(Error::TruncatedRead);
    }
    let l = read_u32_le(file, pos);
    let start = pos + 4;
    if (l as u64) > ((n - start) as u64) {
        return Err(Error::TruncatedRead);
    }
    let end = start + (l as usize);
    let sl = vstd::slice::slice_subrange(file.as_slice(), start, end);
    Ok(vstd::slice::slice_to_vec(sl))
}

/// The metadata message a file decodes to, if the footer, the length
/// prefix, and the message bytes are all well formed.
pub open spec fn spec_metadata_msg(file: Seq<u8>) -> Option<(i64, Seq<i64>)> {
    if !spec_has_magic(file) {
        None
    } else {
        match spec_message_span(file, spec_metadata_pos(file)) {
            None => None,
            Some(span) => pb::parse_metadata(file.subrange(span.0, span.1)),
        }
    }
}

/// The manifest records stored at `manifest_position`, if well formed.
pub open spec fn spec_manifest_msg(file: Seq<u8>, manifest_position: int) -> Option<Seq<FieldView>> {
    match spec_message_span(file, manifest_position) {
        None => None,
        Some(span) => pb::parse_manifest(file.subrange(span.0, span.1)),
    }
}

/// Batch offsets are usable: at least one entry, starting at row zero,
/// non-decreasing, and few enough batches to count in 32 bits.
pub open spec fn spec_offsets_wf(offs: Seq<i64>) -> bool {
    &&& offs.len() >= 1
    &&& offs.len() - 1 <= i32::MAX
    &&& offs[0] == 0
    &&& forall|i: int| 0 <= i < offs.len() - 1 ==> #[trigger] offs[i] <= offs[i + 1]
}

/// The largest id among the first `n` records, or -1 of none.
pub open spec fn spec_max_id(records: Seq<FieldView>, n: int) -> int
    decreases n,
{
    if n <= 0 {
        -1
    } else {
        let m = spec_max_id(records, n - 1);
        if records[n - 1].id > m {
            records[n - 1].id
        } else {
            m
        }
    }
}

/// The batch holding row `idx`: the first `b` with `idx < offs[b + 1]`.
pub open spec fn spec_batch_of(offs: Seq<i64>, idx: int, b: int) -> int
    decreases offs.len() - b,
{
    if b >= offs.len() - 2 {
        b
    } else if idx < offs[b + 1] {
        b
    } else {
        spec_batch_of(offs, idx, b + 1)
    }
}

/// `a` is the materialized page of `field` for batch `b`: as long as the
/// page table says, every element the little-endian value stored at its
/// place in the page.
pub open spec fn spec_array_ok(
    file: Seq<u8>,
    pt: PageTable,
    field: Field,
    b: int,
    a: ArrayData,
) -> bool {
    let e = pt.spec_entry(field.id as int, b);
    &&& 0 <= field.id < pt.spec_num_columns()
    &&& 0 <= e.0
    &&& 0 <= e.1
    &&& match a {
        ArrayData::Int32(v) => {
            &&& spec_select_decoder(field) matches Ok(DecoderKind::PlainInt32)
            &&& v@.len() == e.1
            &&& forall|k: int|
                0 <= k < v@.len() ==> (#[trigger] v@[k]) as int == spec_i32_le(
                    file.subrange(e.0 + 4 * k, e.0 + 4 * k + 4),
                )
        },
        ArrayData::Int64(v) => {
            &&& spec_select_decoder(field) matches Ok(DecoderKind::PlainInt64)
            &&& v@.len() == e.1
            &&& forall|k: int|
                0 <= k < v@.len() ==> (#[trigger] v@[k]) as int == spec_i64_le(
                    file.subrange(e.0 + 8 * k, e.0 + 8 * k + 8),
                )
        },
    }
}

/// `s` is the value of `field` at row `row` of batch `b`.
pub open spec fn spec_scalar_ok(
    file: Seq<u8>,
    pt: PageTable,
    field: Field,
    b: int,
    row: int,
    s: ScalarValue,
) -> bool {
    let e = pt.spec_entry(field.id as int, b);
    &&& 0 <= field.id < pt.spec_num_columns()
    &&& 0 <= row < e.1
    &&& match spec_select_decoder(field) {
        Ok(DecoderKind::PlainInt32) => s == ScalarValue::Int32(
            spec_i32_le(file.subrange(e.0 + 4 * row, e.0 + 4 * row + 4)) as i32,
        ),
        Ok(DecoderKind::PlainInt64) => s == ScalarValue::Int64(
            spec_i64_le(file.subrange(e.0 + 8 * row, e.0 + 8 * row + 8)) as i64,
        ),
        _ => false,
    }
}

/// The page of `field` for batch `b` is materializable: the field
/// resolves to a fixed-width integer decoder, its page table entry is in
/// range, and the page's bytes lie whole inside the file.
pub open spec fn spec_field_readable(file: Seq<u8>, pt: PageTable, field: Field, b: int) -> bool {
    let e = pt.spec_entry(field.id as int, b);
    &&& 0 <= field.id < pt.spec_num_columns()
    &&& storage_ok(field)
    &&& field.logical_type@ != "list"@
    &&& field.logical_type@ != "list.struct"@
    &&& field.logical_type@ != "struct"@
    &&& (spec_select_decoder(field) matches Ok(DecoderKind::PlainInt32) || spec_select_decoder(
        field,
    ) matches Ok(DecoderKind::PlainInt64))
    &&& 0 <= e.0
    &&& 0 <= e.1
    &&& (spec_select_decoder(field) matches Ok(DecoderKind::PlainInt32) ==> e.0 + 4 * e.1
        <= file.len())
    &&& (spec_select_decoder(field) matches Ok(DecoderKind::PlainInt64) ==> e.0 + 8 * e.1
        <= file.len())
}

/// A file opens without error: the magic marker is in place, both
/// messages parse, the batch offsets are usable, every manifest record is
/// a root with a unique non-negative id, and the page table block fits
/// before the manifest message.
pub open spec fn spec_open_ok(file: Seq<u8>) -> bool {
    &&& spec_has_magic(file)
    &&& spec_metadata_pos(file) >= 0
    &&& match spec_metadata_msg(file) {
        Some(m) => {
            &&& spec_offsets_wf(m.1)
            &&& m.0 >= 0
            &&& match spec_manifest_msg(file, m.0 as int) {
                Some(views) => {
                    &&& crate::schema::ids_unique(views)
                    &&& crate::schema::ids_nonneg(views)
                    &&& forall|j: int|
                        0 <= j < views.len() ==> crate::schema::root_within(
                            views,
                            j,
                            views.len() as nat,
                        )
                    &&& 16 * ((spec_max_id(views, views.len() as int) + 1) * (m.1.len() - 1))
                        <= m.0
                },
                None => false,
            }
        },
        None => false,
    }
}

/// An open file: its bytes, schema, metadata, and page table.
pub struct FileReader {
    /// The file's bytes.
    pub file: Vec<u8>,
    /// The schema built from the file's manifest.
    pub schema: Schema,
    /// The file's metadata message.
    pub metadata: pb::Metadata,
    /// Page positions and lengths for every (column, batch) pair.
    pub page_table: PageTable,
}

impl FileReader {
    /// The reader's structural invariant: usable batch offsets and a page
    /// table sized to them.
    pub open spec fn wf(self) -> bool {
        &&& spec_offsets_wf(self.metadata.batch_offsets@)
        &&& self.page_table.wf()
        &&& self.page_table.spec_num_batches() == self.metadata.batch_offsets@.len() - 1
    }

    /// Rows the file holds: the last batch offset.
    pub open spec fn spec_total_rows(self) -> int {
        self.metadata.batch_offsets@.last() as int
    }

    /// Opens a file: reads the footer, the metadata and manifest
    /// messages, builds the schema forest, and reads the page table that
    /// sits immediately before the manifest message.
    ///
    /// A missing or wrong magic marker is a format error; short reads,
    /// undecodable messages, unusable batch offsets and unbuildable
    /// schemas each surface their own error.
    pub fn new(file: Vec<u8>) -> (r: Result<FileReader, Error>)
        ensures
            !spec_has_magic(file@) ==> (r matches Err(e) && e == Error::Format),
            spec_open_ok(file@) ==> r is Ok,
            match r {
                Ok(fr) => {
                    &&& fr.wf()
                    &&& fr.file@ == file@
                    &&& spec_has_magic(file@)
                    &&& spec_metadata_msg(file@) == Some(
                        (fr.metadata.manifest_position, fr.metadata.batch_offsets@),
                    )
                    &&& match spec_manifest_msg(file@, fr.metadata.manifest_position as int) {
                        Some(views) => {
                            &&& forall|i: int|
                                0 <= i < fr.schema.fields@.len() ==> (
                                #[trigger] fr.schema.fields@[i]).parent_id < 0
                                    && subtree_attached(fr.schema.fields@[i], views)
                            &&& fr.schema.fields@.len() == root_records(views).len()
                            &&& forall|i: int|
                                0 <= i < fr.schema.fields@.len() ==> node_matches(
                                    #[trigger] fr.schema.fields@[i],
                                    root_records(views)[i],
                                )
                            &&& forall|j: int|
                                0 <= j < views.len() && (#[trigger] views[j]).parent_id < 0
                                    ==> exists|i: int|
                                    0 <= i < fr.schema.fields@.len() && node_matches(
                                    #[trigger] fr.schema.fields@[i],
                                    views[j],
                                )
                            &&& fr.page_table.spec_num_columns() == spec_max_id(
                                views,
                                views.len() as int,
                            ) + 1
                        },
                        None => false,
                    }
                    &&& fr.page_table.spec_num_batches() == fr.metadata.batch_offsets@.len() - 1
                    &&& forall|k: int|
                        0 <= k < fr.page_table.spec_num_columns()
                            * fr.page_table.spec_num_batches() ==> entry_ok(
                            file@,
                            fr.metadata.manifest_position - 16 * (fr.page_table.spec_num_columns()
                                * fr.page_table.spec_num_batches()),
                            k,
                            #[trigger] fr.page_table.entries@[k],
                        )
                },
                Err(_) => true,
            },
    {
        let mp_i64 = match read_footer(&file) {
            Ok(p) => p,
            Err(e) => {
                return Err(e);
            },
        };
        if mp_i64 < 0 {
            return Err(Error::Format);
        }
        let n = file.len();
        if (mp_i64 as u64) > (n as u64) {
            return Err(Error::TruncatedRead);
        }
        let mp = mp_i64 as usize;
        let mbytes = match message_bytes(&file, mp) {
            Ok(b) => b,
            Err(e) => {
                return Err(e);
            },
        };
        let metadata = match pb::decode_metadata(&mbytes) {
            Ok(m) => m,
            Err(e) => {
                return Err(e);
            },
        };
        let noffs = metadata.batch_offsets.len();
        if noffs < 1 {
            return Err(Error::Format);
        }
        if noffs - 1 > (i32::MAX as usize) {
            return Err(Error::Format);
        }
        if metadata.batch_offsets[0] != 0 {
            return Err(Error::Format);
        }
        let mut oi: usize = 0;
        while oi < noffs - 1
            invariant
                noffs == metadata.batch_offsets@.len(),
                noffs >= 1,
                0 <= oi <= noffs - 1,
                spec_metadata_msg(file@) == Some(
                    (metadata.manifest_position, metadata.batch_offsets@),
                ),
                forall|i: int|
                    0 <= i < oi ==> #[trigger] metadata.batch_offsets@[i]
                        <= metadata.batch_offsets@[i + 1],
            decreases noffs - 1 - oi,
        {
            if metadata.batch_offsets[oi] > metadata.batch_offsets[oi + 1] {
                return Err(Error::Format);
            }
            oi = oi + 1;
        }
        let mfp_i64 = metadata.manifest_position;
        if mfp_i64 < 0 {
            return Err(Error::Format);
        }
        if (mfp_i64 as u64) > (n as u64) {
            return Err(Error::TruncatedRead);
        }
        let mfp = mfp_i64 as usize;
        let fbytes = match message_bytes(&file, mfp) {
            Ok(b) => b,
            Err(e) => {
                return Err(e);
            },
        };
        let records = match pb::decode_manifest(&fbytes) {
            Ok(fs) => fs,
            Err(e) => {
                return Err(e);
            },
        };
        let schema = match Schema::from_proto(&records) {
            Ok(s) => s,
            Err(e) => {
                return Err(e);
            },
        };
        let mut maxid: i32 = -1;
        let mut t: usize = 0;
        while t < records.len()
            invariant
                0 <= t <= records@.len(),
                maxid as int == spec_max_id(pb::fields_view(records@), t as int),
                maxid >= -1,
            decreases records@.len() - t,
        {
            proof {
                assert(pb::fields_view(records@)[t as int] == records@[t as int]@);
            }
            if records[t].id > maxid {
                maxid = records[t].id;
            }
            t = t + 1;
        }
        let nc: usize = if maxid < 0 {
            0
        } else {
            (maxid as usize) + 1
        };
        let nb = noffs - 1;
        let cells = match nc.checked_mul(nb) {
            Some(c) => c,
            None => {
                return Err(Error::TruncatedRead);
            },
        };
        let table_bytes = match cells.checked_mul(16) {
            Some(c) => c,
            None => {
                return Err(Error::TruncatedRead);
            },
        };
        if table_bytes > mfp {
            return Err(Error::TruncatedRead);
        }
        let pt_pos = mfp - table_bytes;
        let page_table = match PageTable::make(&file, pt_pos, nc, nb) {
            Ok(t) => t,
            Err(e) => {
                return Err(e);
            },
        };
        proof {
            assert(pb::fields_view(records@).len() == records@.len());
        }
        Ok(FileReader { file, schema, metadata, page_table })
    }

    /// The schema of the open file.
    pub fn schema(&self) -> (r: &Schema)
        ensures
            r == &self.schema,
    {
        &self.schema
    }

    /// Number of batches: one fewer than the batch offsets.
    pub fn num_chunks(&self) -> (r: i32)
        requires
            self.wf(),
        ensures
            r == self.metadata.batch_offsets@.len() - 1,
    {
        (self.metadata.batch_offsets.len() - 1) as i32
    }

    /// Materializes row `idx`: resolves its batch, materializes every
    /// root field for that batch, and returns one scalar per column.
    ///
    /// A row index at or past the total row count is out of range.
    pub fn get(&self, idx: u32) -> (r: Result<Vec<ScalarValue>, Error>)
        requires
            self.wf(),
        ensures
            idx as int >= self.spec_total_rows() ==> (r matches Err(e) && e == Error::OutOfRange),
            ({
                let bb = spec_batch_of(self.metadata.batch_offsets@, idx as int, 0);
                &&& (idx as int) < self.spec_total_rows()
                &&& forall|i: int|
                    0 <= i < self.schema.fields@.len() ==> spec_field_readable(
                        self.file@,
                        self.page_table,
                        #[trigger] self.schema.fields@[i],
                        bb,
                    ) && idx - self.metadata.batch_offsets@[bb] < self.page_table.spec_entry(
                        self.schema.fields@[i].id as int,
                        bb,
                    ).1
            }) ==> r is Ok,
            match r {
                Ok(row) => {
                    &&& (idx as int) < self.spec_total_rows()
                    &&& row@.len() == self.schema.fields@.len()
                    &&& ({
                        let b = spec_batch_of(self.metadata.batch_offsets@, idx as int, 0);
                        forall|i: int|
                            0 <= i < row@.len() ==> spec_scalar_ok(
                                self.file@,
                                self.page_table,
                                #[trigger] self.schema.fields@[i],
                                b,
                                idx - self.metadata.batch_offsets@[b],
                                row@[i],
                            )
                    })
                },
                Err(_) => true,
            },
    {
        let noffs = self.metadata.batch_offsets.len();
        let nb = noffs - 1;
        if nb == 0 || (idx as i64) >= self.metadata.batch_offsets[nb] {
            return Err(Error::OutOfRange);
        }
        let mut b: usize = 0;
        while (idx as i64) >= self.metadata.batch_offsets[b + 1]
            invariant
                self.wf(),
                noffs == self.metadata.batch_offsets@.len(),
                nb == noffs - 1,
                nb >= 1,
                0 <= b < nb,
                (idx as int) < self.metadata.batch_offsets@[nb as int],
                0 <= self.metadata.batch_offsets@[b as int] <= idx as int,
                spec_batch_of(self.metadata.batch_offsets@, idx as int, 0) == spec_batch_of(
                    self.metadata.batch_offsets@,
                    idx as int,
                    b as int,
                ),
            decreases nb - b,
        {
            b = b + 1;
        }
        proof {
            assert(0 <= self.metadata.batch_offsets@[b as int] <= idx as int);
        }
        let row_i64 = (idx as i64) - self.metadata.batch_offsets[b];
        let row = row_i64 as usize;
        let nfields = self.schema.fields.len();
        let mut out: Vec<ScalarValue> = Vec::new();
        let mut i: usize = 0;
        while i < nfields
            invariant
                self.wf(),
                nfields == self.schema.fields@.len(),
                (idx as int) < self.spec_total_rows(),
                b as int == spec_batch_of(self.metadata.batch_offsets@, idx as int, 0),
                0 <= i <= nfields,
                out@.len() == i,
                0 <= b < self.page_table.spec_num_batches(),
                row == idx - self.metadata.batch_offsets@[b as int],
                forall|k: int|
                    0 <= k < i ==> spec_scalar_ok(
                        self.file@,
                        self.page_table,
                        #[trigger] self.schema.fields@[k],
                        b as int,
                        row as int,
                        out@[k],
                    ),
            decreases nfields - i,
        {
            let field = &self.schema.fields[i];
            let arr = match self.get_array(field, b) {
                Ok(a) => a,
                Err(e) => {
                    return Err(e);
                },
            };
            let s = match &arr {
                ArrayData::Int32(v) => {
                    if row >= v.len() {
                        return Err(Error::OutOfRange);
                    }
                    ScalarValue::Int32(v[row])
                },
                ArrayData::Int64(v) => {
                    if row >= v.len() {
                        return Err(Error::OutOfRange);
                    }
                    ScalarValue::Int64(v[row])
                },
            };
            out.push(s);
            i = i + 1;
        }
        Ok(out)
    }

    /// Materializes one field for one batch, dispatching on its storage
    /// type; nested types delegate to their own materializers.
    fn get_array(&self, field: &Field, batch: usize) -> (r: Result<ArrayData, Error>)
        requires
            self.wf(),
            batch < self.page_table.spec_num_batches(),
        ensures
            match r {
                Ok(a) => spec_array_ok(self.file@, self.page_table, *field, batch as int, a),
                Err(_) => true,
            },
            spec_field_readable(self.file@, self.page_table, *field, batch as int) ==> r is Ok,
    {
        let storage = match field.storage_type() {
            Ok(t) => t,
            Err(e) => {
                return Err(e);
            },
        };
        match storage {
            DataType::List(_) => get_list_array(field, batch),
            DataType::Struct(_) => get_struct_array(field, batch),
            DataType::Dictionary(_, _) => get_dictionary_array(field, batch),
            _ => self.get_primitive_array(field, batch),
        }
    }

    /// Looks the field's page up and decodes it whole.
    fn get_primitive_array(&self, field: &Field, batch: usize) -> (r: Result<ArrayData, Error>)
        requires
            self.wf(),
            batch < self.page_table.spec_num_batches(),
        ensures
            match r {
                Ok(a) => spec_array_ok(self.file@, self.page_table, *field, batch as int, a),
                Err(_) => true,
            },
            spec_field_readable(self.file@, self.page_table, *field, batch as int) ==> r is Ok,
    {
        let kind = match field.get_decoder() {
            Ok(k) => k,
            Err(e) => {
                return Err(e);
            },
        };
        if field.id < 0 {
            return Err(Error::OutOfRange);
        }
        let col = field.id as usize;
        if col >= self.page_table.num_columns {
            return Err(Error::OutOfRange);
        }
        let page = get_page_info(&self.page_table, col, batch);
        if page.0 < 0 || page.1 < 0 {
            return Err(Error::Format);
        }
        let n = self.file.len();
        if (page.0 as u64) > (n as u64) || (page.1 as u64) > (n as u64) {
            return Err(Error::TruncatedRead);
        }
        let pos = page.0 as usize;
        let plen = page.1 as usize;
        let dec = PlainDecoder::new(&self.file, pos, plen);
        match kind {
            DecoderKind::PlainInt32 => {
                let v = match dec.decode::<i32>(0, None) {
                    Ok(v) => v,
                    Err(e) => {
                        return Err(e);
                    },
                };
                Ok(ArrayData::Int32(v))
            },
            DecoderKind::PlainInt64 => {
                let v = match dec.decode::<i64>(0, None) {
                    Ok(v) => v,
                    Err(e) => {
                        return Err(e);
                    },
                };
                Ok(ArrayData::Int64(v))
            },
            _ => Err(Error::UnsupportedType),
        }
    }
}

/// List materialization is not defined in this format revision: it fails
/// explicitly rather than returning truncated data.
fn get_list_array(_field: &Field, _batch: usize) -> (r: Result<ArrayData, Error>)
    ensures
        r matches Err(e) && e == Error::UnsupportedType,
{
    Err(Error::UnsupportedType)
}

/// Struct materialization is not defined in this format revision: it
/// fails explicitly rather than returning truncated data.
fn get_struct_array(_field: &Field, _batch: usize) -> (r: Result<ArrayData, Error>)
    ensures
        r matches Err(e) && e == Error::UnsupportedType,
{
    Err(Error::UnsupportedType)
}

/// Dictionary materialization is not defined in this format revision: it
/// fails explicitly rather than returning truncated data.
fn get_dictionary_array(_field: &Field, _batch: usize) -> (r: Result<ArrayData, Error>)
    ensures
        r matches Err(e) && e == Error::UnsupportedType,
{
    Err(Error::UnsupportedType)
}

} // verus!
