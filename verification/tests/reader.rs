use lance_reader::encodings::plain::PlainDecoder;
use lance_reader::encodings::{ArrayData, DecoderKind, DictionaryCache, Encoding, ScalarValue};
use lance_reader::format::pb;
use lance_reader::io::FileReader;
use lance_reader::io::{message_bytes, read_footer};
use lance_reader::page_table::{get_page_info, PageInfo, PageTable};
use lance_reader::schema::{DataType, Field, Schema};
use lance_reader::Error;

fn varint(v: u64, out: &mut Vec<u8>) {
    prost::encoding::encode_varint(v, out);
}

fn key(field: u64, wire: u64) -> u64 {
    (field << 3) | wire
}

fn encode_metadata(manifest_position: i64, offsets: &[i64]) -> Vec<u8> {
    let mut b = Vec::new();
    varint(key(1, 0), &mut b);
    varint(manifest_position as u64, &mut b);
    let mut body = Vec::new();
    for o in offsets {
        varint(*o as u64, &mut body);
    }
    varint(key(2, 2), &mut b);
    varint(body.len() as u64, &mut b);
    b.extend_from_slice(&body);
    b
}

#[allow(clippy::too_many_arguments)]
fn encode_field(
    id: i32,
    parent_id: i32,
    name: &str,
    logical_type: &str,
    extension_name: &str,
    encoding: i32,
    node_type: i32,
) -> Vec<u8> {
    let mut b = Vec::new();
    varint(key(1, 0), &mut b);
    varint(id as u64, &mut b);
    varint(key(2, 0), &mut b);
    varint(parent_id as u64, &mut b);
    varint(key(3, 2), &mut b);
    varint(name.len() as u64, &mut b);
    b.extend_from_slice(name.as_bytes());
    varint(key(4, 2), &mut b);
    varint(logical_type.len() as u64, &mut b);
    b.extend_from_slice(logical_type.as_bytes());
    varint(key(5, 2), &mut b);
    varint(extension_name.len() as u64, &mut b);
    b.extend_from_slice(extension_name.as_bytes());
    varint(key(6, 0), &mut b);
    varint(encoding as u64, &mut b);
    varint(key(7, 0), &mut b);
    varint(node_type as u64, &mut b);
    b
}

fn encode_manifest(fields: &[Vec<u8>]) -> Vec<u8> {
    let mut b = Vec::new();
    for f in fields {
        varint(key(1, 2), &mut b);
        varint(f.len() as u64, &mut b);
        b.extend_from_slice(f);
    }
    b
}

fn message(body: &[u8]) -> Vec<u8> {
    let mut m = Vec::new();
    m.extend_from_slice(&(body.len() as u32).to_le_bytes());
    m.extend_from_slice(body);
    m
}

fn footer(metadata_position: i64) -> Vec<u8> {
    let mut f = Vec::new();
    f.extend_from_slice(&metadata_position.to_le_bytes());
    f.extend_from_slice(&[0, 0, 0, 1]);
    f.extend_from_slice(b"LANC");
    f
}

/// Lays a whole file out: data pages, then the page table block, then the
/// manifest and metadata messages, then the footer.
fn build_file(pages: &[u8], table: &[i64], fields: &[Vec<u8>], offsets: &[i64]) -> Vec<u8> {
    let mut file = pages.to_vec();
    for v in table {
        file.extend_from_slice(&v.to_le_bytes());
    }
    let manifest_position = file.len() as i64;
    file.extend_from_slice(&message(&encode_manifest(fields)));
    let metadata_position = file.len() as i64;
    file.extend_from_slice(&message(&encode_metadata(manifest_position, offsets)));
    file.extend_from_slice(&footer(metadata_position));
    file
}

fn int32_pages(values: &[i32]) -> Vec<u8> {
    let mut p = Vec::new();
    for v in values {
        p.extend_from_slice(&v.to_le_bytes());
    }
    p
}

#[test]
fn footer_recovers_position() {
    let mut file = vec![0u8; 10];
    file.extend_from_slice(&footer(7));
    assert_eq!(read_footer(&file), Ok(7));

    let mut neg = vec![0u8; 3];
    neg.extend_from_slice(&footer(-2));
    assert_eq!(read_footer(&neg), Ok(-2));
}

#[test]
fn footer_rejects_bad_magic() {
    let mut file = vec![0u8; 10];
    let mut f = footer(7);
    f[15] = b'X';
    file.extend_from_slice(&f);
    assert_eq!(read_footer(&file), Err(Error::Format));
}

#[test]
fn footer_rejects_short_file() {
    let file = b"LANC".to_vec();
    assert_eq!(read_footer(&file), Err(Error::Format));
}

#[test]
fn message_bytes_reads_exact_span() {
    let mut file = vec![9u8, 9];
    file.extend_from_slice(&message(&[1, 2, 3]));
    assert_eq!(message_bytes(&file, 2), Ok(vec![1, 2, 3]));
    assert_eq!(message_bytes(&file, 3), Err(Error::TruncatedRead));
}

#[test]
fn metadata_roundtrip() {
    let body = encode_metadata(123456, &[0, 300, 70000]);
    let m = pb::decode_metadata(&body).unwrap();
    assert_eq!(m.manifest_position, 123456);
    assert_eq!(m.batch_offsets, vec![0, 300, 70000]);
}

#[test]
fn metadata_rejects_truncated_varint() {
    let mut body = Vec::new();
    varint(key(1, 0), &mut body);
    body.push(0x80);
    assert!(matches!(pb::decode_metadata(&body), Err(Error::MetadataDecode)));
}

#[test]
fn manifest_roundtrip_nonascii_name() {
    let body = encode_manifest(&[encode_field(0, -1, "h\u{f6}he", "int32", "", 1, 0)]);
    let fields = pb::decode_manifest(&body).unwrap();
    assert_eq!(fields.len(), 1);
    assert_eq!(fields[0].id, 0);
    assert_eq!(fields[0].parent_id, -1);
    assert_eq!(fields[0].name, "h\u{f6}he");
    assert_eq!(fields[0].logical_type, "int32");
    assert_eq!(fields[0].encoding, 1);
}

#[test]
fn manifest_rejects_invalid_utf8() {
    let mut field = Vec::new();
    varint(key(3, 2), &mut field);
    varint(2, &mut field);
    field.extend_from_slice(&[0xff, 0xfe]);
    let body = encode_manifest(&[field]);
    assert!(matches!(pb::decode_manifest(&body), Err(Error::MetadataDecode)));
}

#[test]
fn page_table_lookup_exact() {
    // Two columns, three batches, column-major: entry (c, b) holds the
    // pair (100 + 10 c + b, c + b).
    let mut block: Vec<i64> = Vec::new();
    for c in 0..2i64 {
        for b in 0..3i64 {
            block.push(100 + 10 * c + b);
            block.push(c + b);
        }
    }
    let mut file = vec![0u8; 5];
    for v in &block {
        file.extend_from_slice(&v.to_le_bytes());
    }
    let t = PageTable::make(&file, 5, 2, 3).unwrap();
    for c in 0..2usize {
        for b in 0..3usize {
            let info = get_page_info(&t, c, b);
            assert_eq!(info, PageInfo(100 + 10 * c as i64 + b as i64, (c + b) as i64));
        }
    }
}

#[test]
fn page_table_rejects_truncated_block() {
    let file = vec![0u8; 40];
    assert!(matches!(PageTable::make(&file, 0, 2, 2), Err(Error::TruncatedRead)));
    assert!(PageTable::make(&file, 0, 1, 2).is_ok());
}

#[test]
fn set_page_info_overwrites_entry() {
    let file = vec![0u8; 32];
    let mut t = PageTable::make(&file, 0, 1, 2).unwrap();
    t.set_page_info(0, 1, 77, 5);
    assert_eq!(get_page_info(&t, 0, 1), PageInfo(77, 5));
    assert_eq!(get_page_info(&t, 0, 0), PageInfo(0, 0));
}

#[test]
fn plain_decode_range_exact() {
    let file = int32_pages(&[10, 20, 30, 40, 50]);
    let d = PlainDecoder::new(&file, 0, 5);
    let v: Vec<i32> = d.decode(1, Some(2)).unwrap();
    assert_eq!(v, vec![20, 30]);
    let rest: Vec<i32> = d.decode(2, None).unwrap();
    assert_eq!(rest, vec![30, 40, 50]);
    let neg = int32_pages(&[-1, -2]);
    let d2 = PlainDecoder::new(&neg, 0, 2);
    let w: Vec<i32> = d2.decode(0, None).unwrap();
    assert_eq!(w, vec![-1, -2]);
}

#[test]
fn plain_decode_rejects_truncated_page() {
    let file = int32_pages(&[10, 20]);
    let d = PlainDecoder::new(&file, 0, 3);
    let r: Result<Vec<i32>, Error> = d.decode(0, None);
    assert_eq!(r, Err(Error::TruncatedRead));
}

#[test]
fn plain_value_single() {
    let file = int32_pages(&[10, 20, 30]);
    let d = PlainDecoder::new(&file, 0, 3);
    let v: i32 = d.value(2).unwrap();
    assert_eq!(v, 30);
}

#[test]
fn take_matches_decode_then_gather() {
    let file = int32_pages(&[10, 20, 30, 40, 50, 60]);
    let d = PlainDecoder::new(&file, 0, 6);
    let indices = vec![1, 1, 3, 5];
    let taken = d.take(&indices).unwrap();
    let full: Vec<i32> = d.decode(0, Some(6)).unwrap();
    let gathered: Vec<i32> = indices.iter().map(|i| full[*i as usize]).collect();
    assert_eq!(taken, gathered);
    assert_eq!(taken, vec![20, 20, 40, 60]);
}

#[test]
fn take_empty_does_no_io() {
    // The page lies far beyond the file's end: any read would fail, so an
    // empty gather succeeding shows none happens.
    let file = vec![0u8; 2];
    let d = PlainDecoder::new(&file, 1000, 50);
    let empty: Vec<i32> = Vec::new();
    assert_eq!(d.take(&empty), Ok(Vec::new()));
}

fn record(id: i32, parent_id: i32, name: &str, logical_type: &str, encoding: i32) -> pb::Field {
    pb::Field {
        id,
        parent_id,
        name: name.to_string(),
        logical_type: logical_type.to_string(),
        extension_name: String::new(),
        encoding,
        node_type: 0,
    }
}

#[test]
fn schema_attaches_child_listed_before_parent() {
    // The child and grandchild stand before the root they hang under.
    let records = vec![
        record(2, 1, "item", "int32", 1),
        record(1, 0, "inner", "list", 1),
        record(0, -1, "outer", "list", 1),
    ];
    let s = Schema::from_proto(&records).unwrap();
    assert_eq!(s.fields.len(), 1);
    let root = &s.fields[0];
    assert_eq!(root.id, 0);
    assert_eq!(root.children.len(), 1);
    assert_eq!(root.children[0].id, 1);
    assert_eq!(root.children[0].name, "inner");
    assert_eq!(root.children[0].children.len(), 1);
    assert_eq!(root.children[0].children[0].id, 2);
}

#[test]
fn field_lookup_searches_whole_forest() {
    let records = vec![
        record(2, 1, "item", "int32", 1),
        record(1, 0, "inner", "list", 1),
        record(0, -1, "outer", "list", 1),
        record(3, -1, "other", "bool", 1),
    ];
    let s = Schema::from_proto(&records).unwrap();
    assert_eq!(s.field(2).unwrap().name, "item");
    assert_eq!(s.field(3).unwrap().name, "other");
    assert!(s.field(9).is_none());
    assert_eq!(s.fields[0].field(2).unwrap().name, "item");
    assert!(s.fields[0].field(3).is_none());
}

#[test]
fn plain_decode_other_widths() {
    let mut page = Vec::new();
    page.extend_from_slice(&7u16.to_le_bytes());
    page.extend_from_slice(&65535u16.to_le_bytes());
    let d = PlainDecoder::new(&page, 0, 2);
    let v: Vec<u16> = d.decode(0, None).unwrap();
    assert_eq!(v, vec![7, 65535]);
    let bytes = vec![1u8, 255];
    let d2 = PlainDecoder::new(&bytes, 0, 2);
    let u: Vec<u8> = d2.decode(0, None).unwrap();
    assert_eq!(u, vec![1, 255]);
    let s: Vec<i8> = d2.decode(0, None).unwrap();
    assert_eq!(s, vec![1, -1]);
    let p64 = u64::MAX.to_le_bytes().to_vec();
    let d3 = PlainDecoder::new(&p64, 0, 1);
    let w: Vec<u64> = d3.decode(0, None).unwrap();
    assert_eq!(w, vec![u64::MAX]);
    let half = vec![0x00u8, 0x80];
    let m: Vec<i16> = PlainDecoder::new(&half, 0, 1).decode(0, None).unwrap();
    assert_eq!(m, vec![i16::MIN]);
    let one = vec![1u8, 0, 0, 0];
    let q: Vec<u32> = PlainDecoder::new(&one, 0, 1).decode(0, None).unwrap();
    assert_eq!(q, vec![1]);
}

#[test]
fn schema_keeps_root_order() {
    let records = vec![
        record(2, -1, "c", "int32", 1),
        record(0, -1, "a", "int32", 1),
        record(1, -1, "b", "int32", 1),
    ];
    let s = Schema::from_proto(&records).unwrap();
    assert_eq!(s.fields.len(), 3);
    assert_eq!(s.fields[0].name, "c");
    assert_eq!(s.fields[1].name, "a");
    assert_eq!(s.fields[2].name, "b");
}

#[test]
fn schema_rejects_parent_cycle() {
    let records = vec![record(0, 1, "a", "int32", 1), record(1, 0, "b", "int32", 1)];
    assert!(matches!(Schema::from_proto(&records), Err(Error::SchemaConsistency)));
}

#[test]
fn schema_rejects_duplicate_id() {
    let records = vec![record(0, -1, "a", "int32", 1), record(0, -1, "b", "int32", 1)];
    assert!(matches!(Schema::from_proto(&records), Err(Error::SchemaConsistency)));
}

#[test]
fn schema_rejects_missing_parent() {
    let records = vec![record(0, -1, "a", "struct", 0), record(1, 9, "b", "int32", 1)];
    assert!(matches!(Schema::from_proto(&records), Err(Error::SchemaConsistency)));
}

#[test]
fn storage_type_resolves_nested_types() {
    let records = vec![
        record(0, -1, "s", "struct", 0),
        record(1, 0, "xs", "list", 1),
        record(2, 1, "x", "int32", 1),
        record(3, 0, "flag", "bool", 1),
    ];
    let s = Schema::from_proto(&records).unwrap();
    let t = s.fields[0].storage_type().unwrap();
    assert_eq!(
        t,
        DataType::Struct(vec![
            DataType::List(Box::new(DataType::Int32)),
            DataType::Boolean,
        ])
    );
}

#[test]
fn storage_type_rejects_list_arity() {
    let records = vec![
        record(0, -1, "xs", "list", 1),
        record(1, 0, "x", "int32", 1),
        record(2, 0, "y", "int32", 1),
    ];
    let s = Schema::from_proto(&records).unwrap();
    assert_eq!(s.fields[0].storage_type(), Err(Error::SchemaConsistency));
}

#[test]
fn storage_type_rejects_unknown_tag() {
    let records = vec![record(0, -1, "x", "decimal", 1)];
    let s = Schema::from_proto(&records).unwrap();
    assert_eq!(s.fields[0].storage_type(), Err(Error::UnsupportedType));
    assert_eq!(s.fields[0].data_type(), Err(Error::UnsupportedType));
}

#[test]
fn data_type2_wraps_extension() {
    let mut records = vec![record(0, -1, "x", "int32", 1)];
    records[0].extension_name = "vector".to_string();
    let s = Schema::from_proto(&records).unwrap();
    let f = &s.fields[0];
    assert!(f.is_extension_type());
    assert_eq!(
        f.data_type2(),
        Ok(DataType::Extension("vector".to_string(), Box::new(DataType::Int32)))
    );
}

#[test]
fn get_decoder_selects_by_encoding_and_type() {
    let mk = |lt: &str, enc: i32| {
        let f = record(0, -1, "x", lt, enc);
        Field::from_proto(&f)
    };
    assert_eq!(mk("list", 1).get_decoder(), Ok(DecoderKind::PlainInt32));
    assert_eq!(mk("timestamp", 1).get_decoder(), Ok(DecoderKind::PlainInt64));
    assert_eq!(mk("date32", 1).get_decoder(), Ok(DecoderKind::PlainInt32));
    assert_eq!(mk("int64", 1).get_decoder(), Ok(DecoderKind::PlainInt64));
    assert_eq!(mk("uint8", 1).get_decoder(), Ok(DecoderKind::PlainOther));
    assert_eq!(mk("string", 2).get_decoder(), Ok(DecoderKind::VarBinaryUtf8));
    assert_eq!(mk("binary", 2).get_decoder(), Ok(DecoderKind::VarBinaryBytes));
    assert_eq!(mk("string", 3).get_decoder(), Ok(DecoderKind::Dictionary));
    assert_eq!(mk("int32", 0).get_decoder(), Err(Error::UnsupportedEncoding));
    assert_eq!(mk("struct", 2).get_decoder(), Err(Error::UnsupportedEncoding));
}

#[test]
fn field_new_infers_encoding_from_type() {
    let name = "col".to_string();
    let f = Field::new(&name, &DataType::Int32);
    assert_eq!(f.encoding, Some(Encoding::Plain));
    assert_eq!(f.id, -1);
    assert_eq!(f.logical_type, "int32");
    let g = Field::new(&name, &DataType::Utf8);
    assert_eq!(g.encoding, Some(Encoding::VarBinary));
    let h = Field::new(&name, &DataType::Boolean);
    assert_eq!(h.encoding, None);
    let d = Field::new(
        &name,
        &DataType::Dictionary(Box::new(DataType::Int32), Box::new(DataType::Utf8)),
    );
    assert_eq!(d.encoding, Some(Encoding::Dictionary));
}

#[test]
fn schema_new_maps_descriptors() {
    let descriptors = vec![
        ("a".to_string(), DataType::Int32),
        ("b".to_string(), DataType::Utf8),
    ];
    let s = Schema::new(&descriptors);
    assert_eq!(s.fields.len(), 2);
    assert_eq!(s.fields[0].name, "a");
    assert_eq!(s.fields[0].encoding, Some(Encoding::Plain));
    assert_eq!(s.fields[1].name, "b");
    assert_eq!(s.fields[1].encoding, Some(Encoding::VarBinary));
}

#[test]
fn end_to_end_single_int32_column() {
    // One column, one batch, a plain-encoded int32 page holding 10, 20, 30.
    let pages = int32_pages(&[10, 20, 30]);
    let table = vec![0i64, 3];
    let fields = vec![encode_field(0, -1, "x", "int32", "", 1, 0)];
    let file = build_file(&pages, &table, &fields, &[0, 3]);
    let reader = FileReader::new(file).unwrap();
    assert_eq!(reader.num_chunks(), 1);
    assert_eq!(reader.schema().fields.len(), 1);
    assert_eq!(reader.get(1), Ok(vec![ScalarValue::Int32(20)]));
    assert_eq!(reader.get(0), Ok(vec![ScalarValue::Int32(10)]));
    assert_eq!(reader.get(2), Ok(vec![ScalarValue::Int32(30)]));
    assert_eq!(reader.get(3), Err(Error::OutOfRange));
}

#[test]
fn end_to_end_two_batches_int64() {
    let mut pages = Vec::new();
    for v in [5i64, 6, 7, 8] {
        pages.extend_from_slice(&v.to_le_bytes());
    }
    // Column-major page table: batch 0 holds two values at byte 0, batch 1
    // two values at byte 16.
    let table = vec![0i64, 2, 16, 2];
    let fields = vec![encode_field(0, -1, "t", "int64", "", 1, 0)];
    let file = build_file(&pages, &table, &fields, &[0, 2, 4]);
    let reader = FileReader::new(file).unwrap();
    assert_eq!(reader.num_chunks(), 2);
    assert_eq!(reader.get(0), Ok(vec![ScalarValue::Int64(5)]));
    assert_eq!(reader.get(2), Ok(vec![ScalarValue::Int64(7)]));
    assert_eq!(reader.get(3), Ok(vec![ScalarValue::Int64(8)]));
    assert_eq!(reader.get(4), Err(Error::OutOfRange));
}

#[test]
fn end_to_end_unencoded_column_fails_loudly() {
    // The column declares no encoding, so materializing a row has no
    // decoder to use.
    let pages = int32_pages(&[1, 2]);
    let table = vec![0i64, 2];
    let fields = vec![encode_field(0, -1, "x", "int32", "", 0, 0)];
    let file = build_file(&pages, &table, &fields, &[0, 2]);
    let reader = FileReader::new(file).unwrap();
    assert_eq!(reader.get(0), Err(Error::UnsupportedEncoding));
}

#[test]
fn reader_rejects_bad_magic() {
    let pages = int32_pages(&[1]);
    let table = vec![0i64, 1];
    let fields = vec![encode_field(0, -1, "x", "int32", "", 1, 0)];
    let mut file = build_file(&pages, &table, &fields, &[0, 1]);
    let n = file.len();
    file[n - 1] = b'X';
    assert!(matches!(FileReader::new(file), Err(Error::Format)));
}

#[test]
fn reader_rejects_decreasing_offsets() {
    let pages = int32_pages(&[1, 2]);
    let table = vec![0i64, 1, 4, 1];
    let fields = vec![encode_field(0, -1, "x", "int32", "", 1, 0)];
    let file = build_file(&pages, &table, &fields, &[0, 2, 1]);
    assert!(matches!(FileReader::new(file), Err(Error::Format)));
}

#[test]
fn dictionary_gather_maps_indices_to_entries() {
    let dict = vec![100, 200, 300];
    let indices = vec![2, 0, 0, 1];
    assert_eq!(
        lance_reader::encodings::dictionary_gather(&dict, &indices),
        Ok(vec![300, 100, 100, 200])
    );
    let bad = vec![0, 3];
    assert_eq!(
        lance_reader::encodings::dictionary_gather(&dict, &bad),
        Err(Error::OutOfRange)
    );
}

#[test]
fn dictionary_cache_loads_once() {
    // Two callers in turn: the first load wins, the second leaves the
    // cached values untouched and reports that no load happened.
    let mut cache = DictionaryCache::new();
    assert!(cache.values.is_none());
    let first = cache.populate(ArrayData::Int32(vec![7, 8]));
    assert!(first);
    let second = cache.populate(ArrayData::Int32(vec![9]));
    assert!(!second);
    assert_eq!(cache.values, Some(ArrayData::Int32(vec![7, 8])));
}

#[test]
fn field_dictionary_loads_once() {
    let mut f = Field::from_proto(&record(0, -1, "d", "string", 3));
    assert!(f.load_dictionary(ArrayData::Int32(vec![1, 2, 3])));
    assert!(!f.load_dictionary(ArrayData::Int32(vec![4])));
    assert_eq!(f.dictionary.values, Some(ArrayData::Int32(vec![1, 2, 3])));
}
