//! The schema: a forest of typed field descriptors.
//!
//! A `Field` carries a logical type tag, an encoding, and its child fields;
//! a `Schema` owns the root fields. The tree is built either from a flat
//! manifest whose records name their parents by id, in any order, or from a
//! plain type description, inferring each field's encoding from its type.

use vstd::prelude::*;

verus! {

use crate::Error;
use crate::encodings::{DecoderKind, DictionaryCache, Encoding};
use crate::format::pb;
use crate::format::pb::FieldView;

/// The physical storage type a field resolves to.
#[derive(Debug, PartialEq, Eq)]
pub enum DataType {
    /// Booleans.
    Boolean,
    /// 8-bit unsigned integers.
    UInt8,
    /// 8-bit signed integers.
    Int8,
    /// 16-bit unsigned integers.
    UInt16,
    /// 16-bit signed integers.
    Int16,
    /// 32-bit unsigned integers.
    UInt32,
    /// 32-bit signed integers.
    Int32,
    /// 64-bit unsigned integers.
    UInt64,
    /// 64-bit signed integers.
    Int64,
    /// 16-bit floating point numbers.
    Float16,
    /// 32-bit floating point numbers.
    Float32,
    /// 64-bit floating point numbers.
    Float64,
    /// Variable-length byte runs.
    Binary,
    /// Variable-length UTF-8 text.
    Utf8,
    /// A list wrapping one element type.
    List(Box<DataType>),
    /// A struct of member types, in child order.
    Struct(Vec<DataType>),
    /// Dictionary-categorical values: key type and value type.
    Dictionary(Box<DataType>, Box<DataType>),
    /// A storage type tagged with an extension name.
    Extension(String, Box<DataType>),
}

/// The primitive storage type a logical type tag maps to, if any.
pub open spec fn spec_primitive_type(tag: Seq<char>) -> Option<DataType> {
    if tag == "bool"@ {
        Some(DataType::Boolean)
    } else if tag == "uint8"@ {
        Some(DataType::UInt8)
    } else if tag == "int8"@ {
        Some(DataType::Int8)
    } else if tag == "uint16"@ {
        Some(DataType::UInt16)
    } else if tag == "int16"@ {
        Some(DataType::Int16)
    } else if tag == "uint32"@ {
        Some(DataType::UInt32)
    } else if tag == "int32"@ {
        Some(DataType::Int32)
    } else if tag == "uint64"@ {
        Some(DataType::UInt64)
    } else if tag == "int64"@ {
        Some(DataType::Int64)
    } else if tag == "halffloat"@ {
        Some(DataType::Float16)
    } else if tag == "float"@ {
        Some(DataType::Float32)
    } else if tag == "double"@ {
        Some(DataType::Float64)
    } else if tag == "binary"@ {
        Some(DataType::Binary)
    } else if tag == "string"@ {
        Some(DataType::Utf8)
    } else {
        None
    }
}

/// The encoding a field of storage type `t` is written with, if any:
/// numeric types plainly, binary and text as variable-width runs,
/// dictionary-categorical types through a dictionary.
pub open spec fn spec_infer_encoding(t: DataType) -> Option<Encoding> {
    match t {
        DataType::UInt8 => Some(Encoding::Plain),
        DataType::Int8 => Some(Encoding::Plain),
        DataType::UInt16 => Some(Encoding::Plain),
        DataType::Int16 => Some(Encoding::Plain),
        DataType::UInt32 => Some(Encoding::Plain),
        DataType::Int32 => Some(Encoding::Plain),
        DataType::UInt64 => Some(Encoding::Plain),
        DataType::Int64 => Some(Encoding::Plain),
        DataType::Float16 => Some(Encoding::Plain),
        DataType::Float32 => Some(Encoding::Plain),
        DataType::Float64 => Some(Encoding::Plain),
        DataType::Binary => Some(Encoding::VarBinary),
        DataType::Utf8 => Some(Encoding::VarBinary),
        DataType::Dictionary(_, _) => Some(Encoding::Dictionary),
        _ => None,
    }
}

/// The logical type tag a storage type is described by.
pub open spec fn spec_type_tag(t: DataType) -> Seq<char> {
    match t {
        DataType::Boolean => "bool"@,
        DataType::UInt8 => "uint8"@,
        DataType::Int8 => "int8"@,
        DataType::UInt16 => "uint16"@,
        DataType::Int16 => "int16"@,
        DataType::UInt32 => "uint32"@,
        DataType::Int32 => "int32"@,
        DataType::UInt64 => "uint64"@,
        DataType::Int64 => "int64"@,
        DataType::Float16 => "halffloat"@,
        DataType::Float32 => "float"@,
        DataType::Float64 => "double"@,
        DataType::Binary => "binary"@,
        DataType::Utf8 => "string"@,
        DataType::List(_) => "list"@,
        DataType::Struct(_) => "struct"@,
        DataType::Dictionary(_, _) => "dict"@,
        DataType::Extension(_, _) => "extension"@,
    }
}

/// The encoding discriminant of the manifest wire format.
pub open spec fn spec_encoding_of(e: int) -> Option<Encoding> {
    if e == 1 {
        Some(Encoding::Plain)
    } else if e == 2 {
        Some(Encoding::VarBinary)
    } else if e == 3 {
        Some(Encoding::Dictionary)
    } else {
        None
    }
}

/// Metadata of a column: one node of the schema forest.
pub struct Field {
    /// Unique non-negative id, or -1 when unassigned.
    pub id: i32,
    /// Id of the enclosing field, or a negative sentinel for a root.
    pub parent_id: i32,
    /// Field name.
    pub name: String,
    /// Logical type tag, such as "int32", "list" or "struct".
    pub logical_type: String,
    /// Extension type name; empty when the field carries none.
    pub extension_name: String,
    /// Physical encoding of the field's pages, if one is defined.
    pub encoding: Option<Encoding>,
    /// Node discriminant reserved by the format.
    pub node_type: i32,
    /// Child fields, in order.
    pub children: Vec<Field>,
    /// Lazily loaded dictionary values of a dictionary-encoded field.
    pub dictionary: DictionaryCache,
}

/// `t` is the storage type that the subtree under `f` resolves to:
/// lists wrap their single child's storage type, structs collect each
/// child's storage type in order, and any other tag maps to its primitive
/// type.
pub open spec fn is_storage_type(f: Field, t: DataType) -> bool
    decreases f,
{
    if f.logical_type@ == "list"@ || f.logical_type@ == "list.struct"@ {
        &&& f.children@.len() == 1
        &&& match t {
            DataType::List(inner) => is_storage_type(f.children@[0], *inner),
            _ => false,
        }
    } else if f.logical_type@ == "struct"@ {
        match t {
            DataType::Struct(ms) => {
                &&& ms@.len() == f.children@.len()
                &&& forall|i: int|
                    0 <= i < ms@.len() ==> is_storage_type(f.children@[i], #[trigger] ms@[i])
            },
            _ => false,
        }
    } else {
        spec_primitive_type(f.logical_type@) == Some(t)
    }
}

/// The subtree under `f` resolves to some storage type: its lists have
/// exactly one child and every tag below is defined.
pub open spec fn storage_ok(f: Field) -> bool
    decreases f,
{
    if f.logical_type@ == "list"@ || f.logical_type@ == "list.struct"@ {
        &&& f.children@.len() == 1
        &&& storage_ok(f.children@[0])
    } else if f.logical_type@ == "struct"@ {
        forall|i: int| 0 <= i < f.children@.len() ==> storage_ok(#[trigger] f.children@[i])
    } else {
        spec_primitive_type(f.logical_type@) is Some
    }
}

/// The error `storage_type` reports when the subtree fails to resolve: a
/// wrong list arity is a schema corruption, an unknown tag an unsupported
/// type; for nested types the first failing child, in child order,
/// decides.
pub open spec fn spec_storage_err(f: Field) -> Error
    decreases f, f.children@.len() + 1,
{
    if f.logical_type@ == "list"@ || f.logical_type@ == "list.struct"@ {
        if f.children@.len() != 1 {
            Error::SchemaConsistency
        } else {
            spec_storage_err(f.children@[0])
        }
    } else if f.logical_type@ == "struct"@ {
        spec_storage_err_from(f, 0)
    } else {
        Error::UnsupportedType
    }
}

/// The error of the first child at or after `i` whose subtree fails.
pub open spec fn spec_storage_err_from(f: Field, i: int) -> Error
    decreases f, f.children@.len() - i,
{
    if 0 <= i < f.children@.len() {
        if !storage_ok(f.children@[i]) {
            spec_storage_err(f.children@[i])
        } else {
            spec_storage_err_from(f, i + 1)
        }
    } else {
        Error::UnsupportedType
    }
}

/// Walking past children that resolve, the reported error is the first
/// failing child's.
pub proof fn lemma_storage_err_from(f: Field, j: int, i: int)
    requires
        0 <= j <= i < f.children@.len(),
        forall|k: int| j <= k < i ==> storage_ok(#[trigger] f.children@[k]),
        !storage_ok(f.children@[i]),
    ensures
        spec_storage_err_from(f, j) == spec_storage_err(f.children@[i]),
    decreases i - j,
{
    if j < i {
        lemma_storage_err_from(f, j + 1, i);
    }
}

/// True exactly when `s` reads as the tag `t`.
fn tag_is(s: &String, t: &str) -> (r: bool)
    ensures
        r == (s@ == t@),
{
    let o = t.to_owned();
    s.eq(&o)
}

impl Field {
    /// A field for preparing data of type `data_type` for writing: ids are
    /// unassigned and the encoding is inferred from the type.
    pub fn new(name: &String, data_type: &DataType) -> (f: Field)
        ensures
            f.id == -1,
            f.parent_id == -1,
            f.name@ == name@,
            f.logical_type@ == spec_type_tag(*data_type),
            f.extension_name@ == Seq::<char>::empty(),
            f.encoding == spec_infer_encoding(*data_type),
            f.node_type == 0,
            f.children@.len() == 0,
            f.dictionary.values is None,
    {
        let tag: &str = match data_type {
            DataType::Boolean => "bool",
            DataType::UInt8 => "uint8",
            DataType::Int8 => "int8",
            DataType::UInt16 => "uint16",
            DataType::Int16 => "int16",
            DataType::UInt32 => "uint32",
            DataType::Int32 => "int32",
            DataType::UInt64 => "uint64",
            DataType::Int64 => "int64",
            DataType::Float16 => "halffloat",
            DataType::Float32 => "float",
            DataType::Float64 => "double",
            DataType::Binary => "binary",
            DataType::Utf8 => "string",
            DataType::List(_) => "list",
            DataType::Struct(_) => "struct",
            DataType::Dictionary(_, _) => "dict",
            DataType::Extension(_, _) => "extension",
        };
        let encoding = match data_type {
            DataType::UInt8 => Some(Encoding::Plain),
            DataType::Int8 => Some(Encoding::Plain),
            DataType::UInt16 => Some(Encoding::Plain),
            DataType::Int16 => Some(Encoding::Plain),
            DataType::UInt32 => Some(Encoding::Plain),
            DataType::Int32 => Some(Encoding::Plain),
            DataType::UInt64 => Some(Encoding::Plain),
            DataType::Int64 => Some(Encoding::Plain),
            DataType::Float16 => Some(Encoding::Plain),
            DataType::Float32 => Some(Encoding::Plain),
            DataType::Float64 => Some(Encoding::Plain),
            DataType::Binary => Some(Encoding::VarBinary),
            DataType::Utf8 => Some(Encoding::VarBinary),
            DataType::Dictionary(_, _) => Some(Encoding::Dictionary),
            _ => None,
        };
        Field {
            id: -1,
            parent_id: -1,
            name: name.clone(),
            logical_type: tag.to_owned(),
            extension_name: String::new(),
            encoding,
            node_type: 0,
            children: Vec::new(),
            dictionary: DictionaryCache::new(),
        }
    }

    /// Converts one manifest record into a childless field.
    pub fn from_proto(record: &pb::Field) -> (f: Field)
        ensures
            f.id == record.id,
            f.parent_id == record.parent_id,
            f.name@ == record.name@,
            f.logical_type@ == record.logical_type@,
            f.extension_name@ == record.extension_name@,
            f.encoding == spec_encoding_of(record.encoding as int),
            f.node_type == record.node_type,
            f.children@.len() == 0,
            f.dictionary.values is None,
    {
        let encoding = if record.encoding == 1 {
            Some(Encoding::Plain)
        } else if record.encoding == 2 {
            Some(Encoding::VarBinary)
        } else if record.encoding == 3 {
            Some(Encoding::Dictionary)
        } else {
            None
        };
        Field {
            id: record.id,
            parent_id: record.parent_id,
            name: record.name.clone(),
            logical_type: record.logical_type.clone(),
            extension_name: record.extension_name.clone(),
            encoding,
            node_type: record.node_type,
            children: Vec::new(),
            dictionary: DictionaryCache::new(),
        }
    }

    /// Whether the field carries an extension type name.
    pub fn is_extension_type(&self) -> (r: bool)
        ensures
            r == (self.extension_name@.len() != 0),
    {
        let empty = String::new();
        let r = !self.extension_name.eq(&empty);
        proof {
            if self.extension_name@.len() == 0 {
                assert(self.extension_name@ =~= Seq::<char>::empty());
            }
        }
        r
    }

    /// Resolves the primitive physical type of the field's tag alone.
    ///
    /// Succeeds exactly when the tag maps to a primitive type; `"list"`,
    /// `"struct"` and unknown tags are unsupported here.
    pub fn data_type(&self) -> (r: Result<DataType, Error>)
        ensures
            match r {
                Ok(t) => spec_primitive_type(self.logical_type@) == Some(t),
                Err(e) => e == Error::UnsupportedType && spec_primitive_type(self.logical_type@)
                    is None,
            },
    {
        Field::from_logical_type(&self.logical_type)
    }

    /// Maps a primitive logical type tag to its physical type.
    pub fn from_logical_type(logical_type: &String) -> (r: Result<DataType, Error>)
        ensures
            match r {
                Ok(t) => spec_primitive_type(logical_type@) == Some(t),
                Err(e) => e == Error::UnsupportedType && spec_primitive_type(logical_type@)
                    is None,
            },
    {
        if tag_is(logical_type, "bool") {
            Ok(DataType::Boolean)
        } else if tag_is(logical_type, "uint8") {
            Ok(DataType::UInt8)
        } else if tag_is(logical_type, "int8") {
            Ok(DataType::Int8)
        } else if tag_is(logical_type, "uint16") {
            Ok(DataType::UInt16)
        } else if tag_is(logical_type, "int16") {
            Ok(DataType::Int16)
        } else if tag_is(logical_type, "uint32") {
            Ok(DataType::UInt32)
        } else if tag_is(logical_type, "int32") {
            Ok(DataType::Int32)
        } else if tag_is(logical_type, "uint64") {
            Ok(DataType::UInt64)
        } else if tag_is(logical_type, "int64") {
            Ok(DataType::Int64)
        } else if tag_is(logical_type, "halffloat") {
            Ok(DataType::Float16)
        } else if tag_is(logical_type, "float") {
            Ok(DataType::Float32)
        } else if tag_is(logical_type, "double") {
            Ok(DataType::Float64)
        } else if tag_is(logical_type, "binary") {
            Ok(DataType::Binary)
        } else if tag_is(logical_type, "string") {
            Ok(DataType::Utf8)
        } else {
            Err(Error::UnsupportedType)
        }
    }

    /// Resolves the on-disk physical type of the whole subtree.
    ///
    /// Succeeds exactly when every tag below is defined and every list has
    /// exactly one child; a wrong list arity is a schema corruption error,
    /// an unknown tag an unsupported type.
    pub fn storage_type(&self) -> (r: Result<DataType, Error>)
        ensures
            match r {
                Ok(t) => storage_ok(*self) && is_storage_type(*self, t),
                Err(e) => !storage_ok(*self) && e == spec_storage_err(*self),
            },
        decreases *self,
    {
        if tag_is(&self.logical_type, "list") || tag_is(&self.logical_type, "list.struct") {
            if self.children.len() != 1 {
                return Err(Error::SchemaConsistency);
            }
            let inner = match self.children[0].storage_type() {
                Ok(t) => t,
                Err(e) => {
                    return Err(e);
                },
            };
            Ok(DataType::List(Box::new(inner)))
        } else if tag_is(&self.logical_type, "struct") {
            let mut members: Vec<DataType> = Vec::new();
            let mut i: usize = 0;
            while i < self.children.len()
                invariant
                    self.logical_type@ != "list"@,
                    self.logical_type@ != "list.struct"@,
                    self.logical_type@ == "struct"@,
                    0 <= i <= self.children@.len(),
                    members@.len() == i,
                    forall|k: int|
                        0 <= k < i ==> storage_ok(#[trigger] self.children@[k]) && is_storage_type(
                            self.children@[k],
                            members@[k],
                        ),
                decreases self.children@.len() - i,
            {
                let m = match self.children[i].storage_type() {
                    Ok(t) => t,
                    Err(e) => {
                        proof {
                            assert(!storage_ok(self.children@[i as int]));
                            lemma_storage_err_from(*self, 0, i as int);
                        }
                        return Err(e);
                    },
                };
                members.push(m);
                i = i + 1;
            }
            Ok(DataType::Struct(members))
        } else {
            Field::from_logical_type(&self.logical_type)
        }
    }

    /// The logical type view: the storage type, wrapped as an
    /// extension-tagged type when the field carries an extension name.
    pub fn data_type2(&self) -> (r: Result<DataType, Error>)
        ensures
            match r {
                Ok(t) => storage_ok(*self) && (if self.extension_name@.len() != 0 {
                    match t {
                        DataType::Extension(n, inner) => n@ == self.extension_name@
                            && is_storage_type(*self, *inner),
                        _ => false,
                    }
                } else {
                    is_storage_type(*self, t)
                }),
                Err(e) => !storage_ok(*self) && e == spec_storage_err(*self),
            },
    {
        let storage = match self.storage_type() {
            Ok(t) => t,
            Err(e) => {
                return Err(e);
            },
        };
        if self.is_extension_type() {
            Ok(DataType::Extension(self.extension_name.clone(), Box::new(storage)))
        } else {
            Ok(storage)
        }
    }

    /// The decoder for this field, chosen from its encoding and logical
    /// type.
    pub fn get_decoder(&self) -> (r: Result<DecoderKind, Error>)
        ensures
            r == spec_select_decoder(*self),
    {
        match self.encoding {
            Some(Encoding::Plain) => {
                if tag_is(&self.logical_type, "list") || tag_is(&self.logical_type, "list.struct") {
                    Ok(DecoderKind::PlainInt32)
                } else if tag_is(&self.logical_type, "timestamp") || tag_is(
                    &self.logical_type,
                    "time64",
                ) || tag_is(&self.logical_type, "date64") {
                    Ok(DecoderKind::PlainInt64)
                } else if tag_is(&self.logical_type, "time32") || tag_is(
                    &self.logical_type,
                    "date32",
                ) {
                    Ok(DecoderKind::PlainInt32)
                } else if tag_is(&self.logical_type, "int32") {
                    Ok(DecoderKind::PlainInt32)
                } else if tag_is(&self.logical_type, "int64") {
                    Ok(DecoderKind::PlainInt64)
                } else {
                    match Field::from_logical_type(&self.logical_type) {
                        Ok(_) => Ok(DecoderKind::PlainOther),
                        Err(_) => Err(Error::UnsupportedEncoding),
                    }
                }
            },
            Some(Encoding::VarBinary) => {
                if tag_is(&self.logical_type, "string") {
                    Ok(DecoderKind::VarBinaryUtf8)
                } else if tag_is(&self.logical_type, "binary") {
                    Ok(DecoderKind::VarBinaryBytes)
                } else {
                    Err(Error::UnsupportedEncoding)
                }
            },
            Some(Encoding::Dictionary) => Ok(DecoderKind::Dictionary),
            None => Err(Error::UnsupportedEncoding),
        }
    }

    /// Appends a child field.
    pub fn insert(&mut self, child: Field)
        ensures
            final(self).children@ == old(self).children@.push(child),
            final(self).id == old(self).id,
            final(self).parent_id == old(self).parent_id,
            final(self).name == old(self).name,
            final(self).logical_type == old(self).logical_type,
            final(self).extension_name == old(self).extension_name,
            final(self).encoding == old(self).encoding,
            final(self).node_type == old(self).node_type,
            final(self).dictionary == old(self).dictionary,
    {
        self.children.push(child)
    }

    /// Pre-order search of the proper descendants for the field with
    /// `id`: the field itself is never a candidate; children may sit at
    /// any depth, so the search descends before it moves to the next
    /// sibling.
    pub fn field(&self, id: i32) -> (r: Option<&Field>)
        ensures
            match r {
                Some(g) => g.id == id && descendant_has_id(*self, id as int),
                None => !descendant_has_id(*self, id as int),
            },
        decreases *self,
    {
        let mut i: usize = 0;
        while i < self.children.len()
            invariant
                0 <= i <= self.children@.len(),
                forall|k: int| 0 <= k < i ==> !has_field_id(#[trigger] self.children@[k], id as int),
            decreases self.children@.len() - i,
        {
            if self.children[i].id == id {
                return Some(&self.children[i]);
            }
            match self.children[i].field(id) {
                Some(g) => {
                    return Some(g);
                },
                None => {},
            }
            i = i + 1;
        }
        None
    }

    /// Offers loaded dictionary values to the field's cache; the first
    /// load wins and later ones leave the cache untouched.
    pub fn load_dictionary(&mut self, values: crate::encodings::ArrayData) -> (loaded: bool)
        ensures
            final(self).dictionary.values is Some,
            loaded == (old(self).dictionary.values is None),
            old(self).dictionary.values is None ==> final(self).dictionary.values == Some(values),
            old(self).dictionary.values is Some ==> final(self).dictionary.values == old(
                self,
            ).dictionary.values,
    {
        self.dictionary.populate(values)
    }
}

/// The decoder `get_decoder` resolves to, per encoding and logical type:
/// list offsets and 32-bit temporal types decode plainly as 32-bit
/// integers, 64-bit temporal types as 64-bit integers, any other defined
/// tag over its own physical type; variable-width text and bytes each get
/// their decoder; dictionary fields a dictionary decoder. Anything else
/// has no decoder.
pub open spec fn spec_select_decoder(f: Field) -> Result<DecoderKind, Error> {
    match f.encoding {
        Some(Encoding::Plain) => {
            if f.logical_type@ == "list"@ || f.logical_type@ == "list.struct"@ {
                Ok(DecoderKind::PlainInt32)
            } else if f.logical_type@ == "timestamp"@ || f.logical_type@ == "time64"@
                || f.logical_type@ == "date64"@ {
                Ok(DecoderKind::PlainInt64)
            } else if f.logical_type@ == "time32"@ || f.logical_type@ == "date32"@ {
                Ok(DecoderKind::PlainInt32)
            } else if f.logical_type@ == "int32"@ {
                Ok(DecoderKind::PlainInt32)
            } else if f.logical_type@ == "int64"@ {
                Ok(DecoderKind::PlainInt64)
            } else if spec_primitive_type(f.logical_type@) is Some {
                Ok(DecoderKind::PlainOther)
            } else {
                Err(Error::UnsupportedEncoding)
            }
        },
        Some(Encoding::VarBinary) => {
            if f.logical_type@ == "string"@ {
                Ok(DecoderKind::VarBinaryUtf8)
            } else if f.logical_type@ == "binary"@ {
                Ok(DecoderKind::VarBinaryBytes)
            } else {
                Err(Error::UnsupportedEncoding)
            }
        },
        Some(Encoding::Dictionary) => Ok(DecoderKind::Dictionary),
        None => Err(Error::UnsupportedEncoding),
    }
}

/// Some node of the tree under `f` carries id `id`.
pub open spec fn has_field_id(f: Field, id: int) -> bool
    decreases f,
{
    f.id == id || exists|i: int|
        0 <= i < f.children@.len() && has_field_id(#[trigger] f.children@[i], id)
}

/// Some proper descendant of `f` carries id `id`.
pub open spec fn descendant_has_id(f: Field, id: int) -> bool {
    exists|i: int| 0 <= i < f.children@.len() && has_field_id(#[trigger] f.children@[i], id)
}

/// The field node `f` carries exactly the content of manifest record `p`.
pub open spec fn node_matches(f: Field, p: FieldView) -> bool {
    &&& f.id == p.id
    &&& f.parent_id == p.parent_id
    &&& f.name@ == p.name
    &&& f.logical_type@ == p.logical_type
    &&& f.extension_name@ == p.extension_name
    &&& f.encoding == spec_encoding_of(p.encoding)
    &&& f.node_type == p.node_type
}

/// Some node of the tree under `f` matches record `p`.
pub open spec fn in_tree_matching(f: Field, p: FieldView) -> bool
    decreases f,
{
    node_matches(f, p) || exists|i: int|
        0 <= i < f.children@.len() && in_tree_matching(#[trigger] f.children@[i], p)
}

/// Every node of the tree under `f` holds, as children, nodes matching
/// exactly the records that name it: each record whose parent id is the
/// node's id appears among the children, and every child names the node
/// as its parent.
pub open spec fn subtree_attached(f: Field, records: Seq<FieldView>) -> bool
    decreases f,
{
    &&& forall|j: int|
        0 <= j < records.len() && records[j].parent_id == f.id ==> exists|i: int|
            0 <= i < f.children@.len() && node_matches(#[trigger] f.children@[i], records[j])
    &&& forall|i: int|
        0 <= i < f.children@.len() ==> (#[trigger] f.children@[i]).parent_id == f.id
            && subtree_attached(f.children@[i], records)
}

/// Record `j`'s chain of parent ids reaches a root record within `fuel`
/// steps.
pub open spec fn root_within(records: Seq<FieldView>, j: int, fuel: nat) -> bool
    decreases fuel,
{
    &&& 0 <= j < records.len()
    &&& (records[j].parent_id < 0 || (fuel > 0 && exists|k: int|
        0 <= k < records.len() && (#[trigger] records[k]).id == records[j].parent_id && root_within(
            records,
            k,
            (fuel - 1) as nat,
        )))
}

/// The schema of one file: the forest of its root fields.
pub struct Schema {
    /// Root fields, in manifest order.
    pub fields: Vec<Field>,
}

/// No two records carry the same id.
pub open spec fn ids_unique(records: Seq<FieldView>) -> bool {
    forall|a: int, b: int|
        0 <= a < b < records.len() ==> (#[trigger] records[a]).id != (#[trigger] records[b]).id
}

/// Every record carries a non-negative id.
pub open spec fn ids_nonneg(records: Seq<FieldView>) -> bool {
    forall|j: int| 0 <= j < records.len() ==> (#[trigger] records[j]).id >= 0
}

/// Some chain of child records descends more than `fuel` parent-child
/// steps below the field carrying id `pid`.
pub open spec fn overdeep(records: Seq<FieldView>, pid: int, fuel: nat) -> bool
    decreases fuel,
{
    exists|j: int|
        0 <= j < records.len() && (#[trigger] records[j]).parent_id == pid && (fuel == 0
            || overdeep(records, records[j].id, (fuel - 1) as nat))
}

/// The records with a negative parent id, in manifest order.
pub open spec fn root_records(records: Seq<FieldView>) -> Seq<FieldView>
    decreases records.len(),
{
    if records.len() == 0 {
        Seq::empty()
    } else if records.last().parent_id < 0 {
        root_records(records.drop_last()).push(records.last())
    } else {
        root_records(records.drop_last())
    }
}

/// Some tree of the forest `roots` holds a node with id `id`.
pub open spec fn forest_has_field_id(roots: Seq<Field>, id: int) -> bool {
    exists|i: int| 0 <= i < roots.len() && has_field_id(#[trigger] roots[i], id)
}

/// Builds the subtrees of every record naming `parent_id`, scanning the
/// whole record list so that children may stand anywhere relative to
/// their parents. Fails only when a parent chain descends deeper than
/// `fuel` levels.
fn build_children(records: &Vec<pb::Field>, parent_id: i32, fuel: usize) -> (r: Result<
    Vec<Field>,
    Error,
>)
    ensures
        r is Err ==> overdeep(pb::fields_view(records@), parent_id as int, fuel as nat),
        match r {
            Ok(ch) => {
                &&& forall|j: int|
                    0 <= j < records@.len() && (#[trigger] records@[j])@.parent_id == parent_id
                        ==> exists|i: int|
                        0 <= i < ch@.len() && node_matches(#[trigger] ch@[i], records@[j]@)
                &&& forall|i: int|
                    0 <= i < ch@.len() ==> (#[trigger] ch@[i]).parent_id == parent_id
                        && subtree_attached(ch@[i], pb::fields_view(records@))
            },
            Err(e) => e == Error::SchemaConsistency,
        },
    decreases fuel,
{
    let mut out: Vec<Field> = Vec::new();
    let mut j: usize = 0;
    while j < records.len()
        invariant
            0 <= j <= records@.len(),
            forall|k: int|
                0 <= k < j && (#[trigger] records@[k])@.parent_id == parent_id ==> exists|i: int|
                    0 <= i < out@.len() && node_matches(#[trigger] out@[i], records@[k]@),
            forall|i: int|
                0 <= i < out@.len() ==> (#[trigger] out@[i]).parent_id == parent_id
                    && subtree_attached(out@[i], pb::fields_view(records@)),
        decreases records@.len() - j,
    {
        if records[j].parent_id == parent_id {
            if fuel == 0 {
                proof {
                    assert(pb::fields_view(records@)[j as int] == records@[j as int]@);
                    assert(overdeep(pb::fields_view(records@), parent_id as int, fuel as nat));
                }
                return Err(Error::SchemaConsistency);
            }
            let mut f = Field::from_proto(&records[j]);
            let ch = match build_children(records, records[j].id, fuel - 1) {
                Ok(c) => c,
                Err(e) => {
                    proof {
                        assert(pb::fields_view(records@)[j as int] == records@[j as int]@);
                        assert(overdeep(pb::fields_view(records@), parent_id as int, fuel as nat));
                    }
                    return Err(e);
                },
            };
            f.children = ch;
            proof {
                assert(node_matches(f, records@[j as int]@));
                assert(subtree_attached(f, pb::fields_view(records@)));
            }
            let ghost out_before = out@;
            out.push(f);
            proof {
                assert forall|k: int|
                    0 <= k < j + 1 && (#[trigger] records@[k])@.parent_id == parent_id implies exists|
                    i: int,
                |
                    0 <= i < out@.len() && node_matches(#[trigger] out@[i], records@[k]@) by {
                    if k < j {
                        let i = choose|i: int|
                            0 <= i < out_before.len() && node_matches(
                                #[trigger] out_before[i],
                                records@[k]@,
                            );
                        assert(node_matches(out@[i], records@[k]@));
                    } else {
                        assert(node_matches(out@[out@.len() - 1], records@[k]@));
                    }
                }
            }
        }
        j = j + 1;
    }
    Ok(out)
}

/// Checks that every record's parent chain reaches a root: each step's
/// parent id must resolve to some record, and no chain may be longer than
/// the record count.
fn check_chains(records: &Vec<pb::Field>) -> (r: Result<(), Error>)
    requires
        ids_unique(pb::fields_view(records@)),
    ensures
        r is Ok <==> (forall|j: int|
            0 <= j < records@.len() ==> root_within(
                pb::fields_view(records@),
                j,
                records@.len() as nat,
            )),
        r matches Err(e) ==> e == Error::SchemaConsistency,
{
    let n = records.len();
    let mut j3: usize = 0;
    while j3 < n
        invariant
            n == records@.len(),
            ids_unique(pb::fields_view(records@)),
            0 <= j3 <= n,
            forall|j: int|
                0 <= j < j3 ==> root_within(pb::fields_view(records@), j, records@.len() as nat),
        decreases n - j3,
    {
        let mut cur = j3;
        let mut steps: usize = 0;
        while records[cur].parent_id >= 0 && steps < n
            invariant
                n == records@.len(),
                ids_unique(pb::fields_view(records@)),
                0 <= cur < n,
                0 <= steps <= n,
                j3 < n,
                root_within(pb::fields_view(records@), j3 as int, n as nat) <==> root_within(
                    pb::fields_view(records@),
                    cur as int,
                    (n - steps) as nat,
                ),
            decreases n - steps,
        {
            let pid = records[cur].parent_id;
            let mut k: usize = 0;
            let mut found = n;
            while k < n
                invariant
                    n == records@.len(),
                    0 <= k <= n,
                    found == n || (0 <= found < n && records@[found as int]@.id == pid),
                    found == n ==> forall|kk: int|
                        0 <= kk < k ==> (#[trigger] records@[kk])@.id != pid,
                decreases n - k,
            {
                if found == n && records[k].id == pid {
                    found = k;
                }
                k = k + 1;
            }
            proof {
                assert forall|kx: int|
                    0 <= kx < records@.len() implies #[trigger] pb::fields_view(records@)[kx]
                    == records@[kx]@ by {}
            }
            if found == n {
                proof {
                    let views = pb::fields_view(records@);
                    assert(!root_within(views, cur as int, (n - steps) as nat));
                }
                return Err(Error::SchemaConsistency);
            }
            proof {
                let views = pb::fields_view(records@);
                let m = (n - steps) as nat;
                if root_within(views, cur as int, m) {
                    let kx = choose|kx: int|
                        0 <= kx < views.len() && (#[trigger] views[kx]).id == views[cur as int].parent_id
                            && root_within(views, kx, (m - 1) as nat);
                    if kx < found {
                        assert(views[kx].id != views[found as int].id);
                    } else if found < kx {
                        assert(views[found as int].id != views[kx].id);
                    }
                    assert(root_within(views, found as int, (m - 1) as nat));
                }
                if root_within(views, found as int, (m - 1) as nat) {
                    assert(root_within(views, cur as int, m));
                }
            }
            cur = found;
            steps = steps + 1;
        }
        if records[cur].parent_id >= 0 {
            proof {
                let views = pb::fields_view(records@);
                assert(views[cur as int] == records@[cur as int]@);
                assert(!root_within(views, cur as int, (n - steps) as nat));
            }
            return Err(Error::SchemaConsistency);
        }
        proof {
            let views = pb::fields_view(records@);
            assert(views[cur as int] == records@[cur as int]@);
            assert(root_within(views, cur as int, (n - steps) as nat));
        }
        j3 = j3 + 1;
    }
    Ok(())
}

impl Schema {
    /// A schema for preparing data for writing: one root field per
    /// descriptor, its encoding inferred from its type.
    pub fn new(descriptors: &Vec<(String, DataType)>) -> (s: Schema)
        ensures
            s.fields@.len() == descriptors@.len(),
            forall|i: int|
                0 <= i < descriptors@.len() ==> {
                    let f = #[trigger] s.fields@[i];
                    &&& f.id == -1
                    &&& f.parent_id == -1
                    &&& f.name@ == descriptors@[i].0@
                    &&& f.logical_type@ == spec_type_tag(descriptors@[i].1)
                    &&& f.extension_name@ == Seq::<char>::empty()
                    &&& f.encoding == spec_infer_encoding(descriptors@[i].1)
                    &&& f.node_type == 0
                    &&& f.children@.len() == 0
                    &&& f.dictionary.values is None
                },
    {
        let mut fields: Vec<Field> = Vec::new();
        let mut i: usize = 0;
        while i < descriptors.len()
            invariant
                0 <= i <= descriptors@.len(),
                fields@.len() == i,
                forall|k: int|
                    0 <= k < i ==> {
                        let f = #[trigger] fields@[k];
                        &&& f.id == -1
                        &&& f.parent_id == -1
                        &&& f.name@ == descriptors@[k].0@
                        &&& f.logical_type@ == spec_type_tag(descriptors@[k].1)
                        &&& f.extension_name@ == Seq::<char>::empty()
                        &&& f.encoding == spec_infer_encoding(descriptors@[k].1)
                        &&& f.node_type == 0
                        &&& f.children@.len() == 0
                        &&& f.dictionary.values is None
                    },
            decreases descriptors@.len() - i,
        {
            let d = &descriptors[i];
            fields.push(Field::new(&d.0, &d.1));
            i = i + 1;
        }
        Schema { fields }
    }

    /// Pre-order search of the whole forest for the field with `id`.
    pub fn field(&self, id: i32) -> (r: Option<&Field>)
        ensures
            match r {
                Some(g) => g.id == id && forest_has_field_id(self.fields@, id as int),
                None => !forest_has_field_id(self.fields@, id as int),
            },
    {
        let mut i: usize = 0;
        while i < self.fields.len()
            invariant
                0 <= i <= self.fields@.len(),
                forall|k: int| 0 <= k < i ==> !has_field_id(#[trigger] self.fields@[k], id as int),
            decreases self.fields@.len() - i,
        {
            if self.fields[i].id == id {
                return Some(&self.fields[i]);
            }
            match self.fields[i].field(id) {
                Some(g) => {
                    return Some(g);
                },
                None => {},
            }
            i = i + 1;
        }
        None
    }

    /// Builds the schema forest from the manifest's flat record list.
    ///
    /// Each record is attached under the record naming it by parent id,
    /// wherever either stands in the list; a record with a negative
    /// parent id becomes a root, and the roots keep manifest order. Fails
    /// on a duplicate id and whenever some record's parent chain fails to
    /// reach a root — a parent id no record carries, or a cycle; with
    /// unique non-negative ids and every chain reaching a root, the build
    /// is guaranteed to succeed.
    #[verifier::rlimit(60)]
    pub fn from_proto(records: &Vec<pb::Field>) -> (r: Result<Schema, Error>)
        ensures
            match r {
                Ok(s) => {
                    &&& ids_unique(pb::fields_view(records@))
                    &&& forall|i: int|
                        0 <= i < s.fields@.len() ==> (#[trigger] s.fields@[i]).parent_id < 0
                            && subtree_attached(s.fields@[i], pb::fields_view(records@))
                    &&& forall|j: int|
                        0 <= j < records@.len() && (#[trigger] records@[j])@.parent_id < 0
                            ==> exists|i: int|
                            0 <= i < s.fields@.len() && node_matches(
                                #[trigger] s.fields@[i],
                                records@[j]@,
                            )
                    &&& s.fields@.len() == root_records(pb::fields_view(records@)).len()
                    &&& forall|i: int|
                        0 <= i < s.fields@.len() ==> node_matches(
                            #[trigger] s.fields@[i],
                            root_records(pb::fields_view(records@))[i],
                        )
                    &&& forall|j: int|
                        0 <= j < records@.len() && (#[trigger] records@[j])@.parent_id >= 0
                            ==> exists|k: int|
                            0 <= k < records@.len() && (#[trigger] records@[k])@.id
                                == records@[j]@.parent_id
                    &&& forall|j: int|
                        0 <= j < records@.len() ==> root_within(
                            pb::fields_view(records@),
                            j,
                            records@.len() as nat,
                        )
                },
                Err(e) => e == Error::SchemaConsistency,
            },
            (ids_unique(pb::fields_view(records@)) && ids_nonneg(pb::fields_view(records@)) && (
            forall|j: int|
                0 <= j < records@.len() ==> root_within(
                    pb::fields_view(records@),
                    j,
                    records@.len() as nat,
                ))) ==> r is Ok,
    {
        let n = records.len();
        let mut j: usize = 0;
        while j < n
            invariant
                n == records@.len(),
                0 <= j <= n,
                forall|a: int, b: int|
                    0 <= a < j && a < b < n ==> (#[trigger] records@[a])@.id != (
                    #[trigger] records@[b])@.id,
            decreases n - j,
        {
            let mut k = j + 1;
            while k < n
                invariant
                    n == records@.len(),
                    j < k <= n,
                    forall|a: int, b: int|
                        0 <= a < j && a < b < n ==> (#[trigger] records@[a])@.id != (
                        #[trigger] records@[b])@.id,
                    forall|b: int|
                        j < b < k ==> records@[j as int]@.id != (#[trigger] records@[b])@.id,
                decreases n - k,
            {
                if records[j].id == records[k].id {
                    proof {
                        assert(pb::fields_view(records@)[j as int].id == records@[j as int]@.id);
                        assert(pb::fields_view(records@)[k as int].id == records@[k as int]@.id);
                    }
                    return Err(Error::SchemaConsistency);
                }
                k = k + 1;
            }
            j = j + 1;
        }
        proof {
            assert forall|a: int, b: int|
                0 <= a < b < pb::fields_view(records@).len() implies (#[trigger] pb::fields_view(
                records@,
            )[a]).id != (#[trigger] pb::fields_view(records@)[b]).id by {
                assert(records@[a]@.id != records@[b]@.id);
                assert(pb::fields_view(records@)[a] == records@[a]@);
                assert(pb::fields_view(records@)[b] == records@[b]@);
            }
        }
        match check_chains(records) {
            Ok(_) => (),
            Err(e) => {
                return Err(e);
            },
        }
        let mut fields: Vec<Field> = Vec::new();
        let mut j2: usize = 0;
        while j2 < n
            invariant
                n == records@.len(),
                0 <= j2 <= n,
                ids_unique(pb::fields_view(records@)),
                forall|j: int|
                    0 <= j < records@.len() ==> root_within(
                        pb::fields_view(records@),
                        j,
                        records@.len() as nat,
                    ),
                forall|k: int|
                    0 <= k < j2 && (#[trigger] records@[k])@.parent_id < 0 ==> exists|i: int|
                        0 <= i < fields@.len() && node_matches(#[trigger] fields@[i], records@[k]@),
                forall|i: int|
                    0 <= i < fields@.len() ==> (#[trigger] fields@[i]).parent_id < 0
                        && subtree_attached(fields@[i], pb::fields_view(records@)),
                fields@.len() == root_records(pb::fields_view(records@).take(j2 as int)).len(),
                forall|i: int|
                    0 <= i < fields@.len() ==> node_matches(
                        #[trigger] fields@[i],
                        root_records(pb::fields_view(records@).take(j2 as int))[i],
                    ),
            decreases n - j2,
        {
            proof {
                assert forall|k: int| 0 <= k < records@.len() implies #[trigger] pb::fields_view(
                    records@,
                )[k] == records@[k]@ by {}
                assert(pb::fields_view(records@).take(j2 + 1).drop_last() =~= pb::fields_view(
                    records@,
                ).take(j2 as int));
            }
            if records[j2].parent_id < 0 {
                let mut f = Field::from_proto(&records[j2]);
                let ch = match build_children(records, records[j2].id, n) {
                    Ok(c) => c,
                    Err(e) => {
                        proof {
                            let views = pb::fields_view(records@);
                            if ids_nonneg(views) {
                                assert(views[j2 as int].id >= 0);
                                lemma_overdeep_bound(
                                    views,
                                    records@[j2 as int]@.id,
                                    n as nat,
                                    n as nat,
                                );
                            }
                        }
                        return Err(e);
                    },
                };
                f.children = ch;
                proof {
                    assert(node_matches(f, records@[j2 as int]@));
                    assert(subtree_attached(f, pb::fields_view(records@)));
                }
                let ghost fields_before = fields@;
                fields.push(f);
                proof {
                    assert forall|k: int|
                        0 <= k < j2 + 1 && (#[trigger] records@[k])@.parent_id < 0 implies exists|
                        i: int,
                    |
                        0 <= i < fields@.len() && node_matches(
                            #[trigger] fields@[i],
                            records@[k]@,
                        ) by {
                        if k < j2 {
                            let i = choose|i: int|
                                0 <= i < fields_before.len() && node_matches(
                                    #[trigger] fields_before[i],
                                    records@[k]@,
                                );
                            assert(node_matches(fields@[i], records@[k]@));
                        } else {
                            assert(node_matches(fields@[fields@.len() - 1], records@[k]@));
                        }
                    }
                    assert(root_records(pb::fields_view(records@).take(j2 + 1))
                        =~= root_records(pb::fields_view(records@).take(j2 as int)).push(
                        pb::fields_view(records@)[j2 as int],
                    ));
                }
            } else {
                proof {
                    assert(root_records(pb::fields_view(records@).take(j2 + 1)) =~= root_records(
                        pb::fields_view(records@).take(j2 as int),
                    ));
                }
            }
            j2 = j2 + 1;
        }
        proof {
            let views = pb::fields_view(records@);
            assert(views.take(n as int) =~= views);
            assert forall|j: int|
                0 <= j < records@.len() && (#[trigger] records@[j])@.parent_id >= 0 implies exists|
            k: int,
            |
                0 <= k < records@.len() && (#[trigger] records@[k])@.id
                    == records@[j]@.parent_id by {
                assert(views[j] == records@[j]@);
                assert(root_within(views, j, records@.len() as nat));
                let k = choose|k: int|
                    0 <= k < views.len() && (#[trigger] views[k]).id == views[j].parent_id
                        && root_within(views, k, (records@.len() - 1) as nat);
                assert(records@[k]@.id == records@[j]@.parent_id);
            }
        }
        Ok(Schema { fields })
    }
}

/// Wherever a record's parent node stands in a tree whose every node holds
/// the records naming it, the record itself stands attached beneath it.
pub proof fn lemma_attached_child(tree: Field, records: Seq<FieldView>, j: int, p: FieldView)
    requires
        subtree_attached(tree, records),
        in_tree_matching(tree, p),
        0 <= j < records.len(),
        records[j].parent_id == p.id,
    ensures
        in_tree_matching(tree, records[j]),
    decreases tree,
{
    if node_matches(tree, p) {
        assert(records[j].parent_id == tree.id);
        let i = choose|i: int|
            0 <= i < tree.children@.len() && node_matches(#[trigger] tree.children@[i], records[j]);
        assert(in_tree_matching(tree.children@[i], records[j]));
    } else {
        let i = choose|i: int|
            0 <= i < tree.children@.len() && in_tree_matching(#[trigger] tree.children@[i], p);
        lemma_attached_child(tree.children@[i], records, j, p);
    }
}

/// Order independence of the manifest: any record whose parent chain
/// reaches a root stands, with its exact content, in the forest built
/// from the records — wherever in the list it and its ancestors appear.
pub proof fn lemma_manifest_attached(
    roots: Seq<Field>,
    records: Seq<FieldView>,
    j: int,
    fuel: nat,
)
    requires
        forall|i: int|
            0 <= i < roots.len() ==> subtree_attached(#[trigger] roots[i], records),
        forall|k: int|
            0 <= k < records.len() && (#[trigger] records[k]).parent_id < 0 ==> exists|i: int|
                0 <= i < roots.len() && node_matches(#[trigger] roots[i], records[k]),
        root_within(records, j, fuel),
    ensures
        exists|i: int| 0 <= i < roots.len() && in_tree_matching(#[trigger] roots[i], records[j]),
    decreases fuel,
{
    if records[j].parent_id < 0 {
        let i = choose|i: int| 0 <= i < roots.len() && node_matches(#[trigger] roots[i], records[j]);
        assert(in_tree_matching(roots[i], records[j]));
    } else {
        let k = choose|k: int|
            0 <= k < records.len() && (#[trigger] records[k]).id == records[j].parent_id
                && root_within(records, k, (fuel - 1) as nat);
        lemma_manifest_attached(roots, records, k, (fuel - 1) as nat);
        let i = choose|i: int|
            0 <= i < roots.len() && in_tree_matching(#[trigger] roots[i], records[k]);
        lemma_attached_child(roots[i], records, j, records[k]);
    }
}

/// A chain deeper than `fuel` below the field with id `pid` pushes some
/// record's root distance past `b`: the bottom record's walk upward
/// consumes one step per level and still has to clear the chain above
/// `pid`. So when every record's chain reaches a root within `b` steps,
/// no subtree is overdeep with `fuel == b`.
pub proof fn lemma_overdeep_bound(records: Seq<FieldView>, pid: int, fuel: nat, b: nat)
    requires
        ids_unique(records),
        ids_nonneg(records),
        forall|j: int| 0 <= j < records.len() ==> root_within(records, j, b),
        overdeep(records, pid, fuel),
        pid >= 0,
    ensures
        b >= fuel + 1,
        exists|k: int|
            0 <= k < records.len() && (#[trigger] records[k]).id == pid && root_within(
                records,
                k,
                (b - fuel - 1) as nat,
            ),
    decreases fuel,
{
    let j = choose|j: int|
        0 <= j < records.len() && (#[trigger] records[j]).parent_id == pid && (fuel == 0
            || overdeep(records, records[j].id, (fuel - 1) as nat));
    if fuel == 0 {
        assert(root_within(records, j, b));
    } else {
        assert(records[j].id >= 0);
        lemma_overdeep_bound(records, records[j].id, (fuel - 1) as nat, b);
        let k2 = choose|k: int|
            0 <= k < records.len() && (#[trigger] records[k]).id == records[j].id && root_within(
                records,
                k,
                (b - (fuel - 1) - 1) as nat,
            );
        if k2 < j {
            assert(records[k2].id != records[j].id);
        } else if j < k2 {
            assert(records[j].id != records[k2].id);
        }
        assert(root_within(records, j, (b - fuel) as nat));
    }
}

} // verus!