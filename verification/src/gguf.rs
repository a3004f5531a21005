//! Model-file metadata: typed values by key, and readers over them.
use vstd::prelude::*;
use vstd::string::*;

use crate::models::tensor::{Dims, GgmlType};
use crate::pairs::{find_pair, lookup};

verus! {

/// A metadata value. `F` is the number type that weights are computed in; both
/// float widths are held in it.
pub enum MetadataValue<F> {
    U8(u8),
    I8(i8),
    U16(u16),
    I16(i16),
    U32(u32),
    I32(i32),
    F32(F),
    Bool(bool),
    String(String),
    Array(Vec<MetadataValue<F>>),
    U64(u64),
    I64(i64),
    F64(F),
}

/// Shape and type of a tensor in a model file.
#[derive(Clone, Copy, Debug)]
pub struct TensorInfo {
    pub dims: Dims,
    pub ggml_type: GgmlType,
}

/// The metadata and the tensor list of a model file, in file order.
pub struct GgufFile<F> {
    pub metadata: Vec<(String, MetadataValue<F>)>,
    pub tensors: Vec<(String, TensorInfo)>,
}

impl<F> GgufFile<F> {
    /// The value under `key`.
    pub open spec fn at(&self, key: Seq<char>) -> Option<MetadataValue<F>> {
        lookup(self.metadata@, key)
    }

    /// The value under `key`.
    pub fn get(&self, key: &str) -> (r: Option<&MetadataValue<F>>)
        ensures
            match r {
                Some(v) => self.at(key@) == Some(*v),
                None => self.at(key@) is None,
            },
    {
        find_pair(&self.metadata, key)
    }

    /// The tensor of this name.
    pub open spec fn tensor_at(&self, name: Seq<char>) -> Option<TensorInfo> {
        lookup(self.tensors@, name)
    }

    /// The tensor of this name.
    pub fn tensor(&self, name: &str) -> (r: Option<TensorInfo>)
        ensures
            r == self.tensor_at(name@),
    {
        match find_pair(&self.tensors, name) {
            Some(t) => Some(*t),
            None => None,
        }
    }

    /// The architecture that the file names.
    pub fn architecture(&self) -> (r: Option<String>)
        ensures
            match r {
                Some(s) => string_at(self, "general.architecture"@) == Ok::<Seq<char>, FieldError>(
                    s@,
                ),
                None => string_at(self, "general.architecture"@) is Err,
            },
    {
        read_optional_string(self, "general.architecture")
    }
}

/// The bits of a number that a tensor of one element holds.
#[derive(Clone, Copy, PartialEq, Eq, Structural, Debug)]
pub enum ScalarBits {
    Single(u32),
    Half(u16),
}

/// The number that `n` bytes spell, least significant byte first.
pub open spec fn little_endian(bytes: Seq<u8>, n: int) -> int
    decreases n,
{
    if n <= 0 {
        0
    } else {
        bytes[0] + 256 * little_endian(bytes.skip(1), n - 1)
    }
}

/// The bits of the first element of a tensor of single or half floats.
pub open spec fn scalar_bits(ggml_type: GgmlType, bytes: Seq<u8>) -> Option<ScalarBits> {
    match ggml_type {
        GgmlType::F32 => if bytes.len() >= 4 {
            Some(ScalarBits::Single(little_endian(bytes, 4) as u32))
        } else {
            None
        },
        GgmlType::F16 => if bytes.len() >= 2 {
            Some(ScalarBits::Half(little_endian(bytes, 2) as u16))
        } else {
            None
        },
        _ => None,
    }
}

/// The bits of the first element of a tensor of single or half floats.
pub fn read_scalar_bits(ggml_type: GgmlType, bytes: &[u8]) -> (r: Option<ScalarBits>)
    ensures
        r == scalar_bits(ggml_type, bytes@),
{
    proof {
        reveal_with_fuel(little_endian, 5);
    }
    match ggml_type {
        GgmlType::F32 => if bytes.len() >= 4 {
            Some(
                ScalarBits::Single(
                    bytes[0] as u32 + 256 * (bytes[1] as u32 + 256 * (bytes[2] as u32 + 256 * (
                    bytes[3] as u32))),
                ),
            )
        } else {
            None
        },
        GgmlType::F16 => if bytes.len() >= 2 {
            Some(ScalarBits::Half(bytes[0] as u16 + 256 * (bytes[1] as u16)))
        } else {
            None
        },
        _ => None,
    }
}

/// Why a field could not be read.
#[derive(Clone, Copy, PartialEq, Eq, Structural, Debug)]
pub enum FieldError {
    Missing,
    WrongType,
}

/// A value as an unsigned 32-bit number: any unsigned integer cut to 32 bits,
/// or a non-negative signed one cut likewise.
pub open spec fn as_u32<F>(v: MetadataValue<F>) -> Option<u32> {
    match v {
        MetadataValue::U8(n) => Some(n as u32),
        MetadataValue::U16(n) => Some(n as u32),
        MetadataValue::U32(n) => Some(n),
        MetadataValue::U64(n) => Some(n as u32),
        MetadataValue::I8(n) => if n >= 0 {
            Some(n as u32)
        } else {
            None
        },
        MetadataValue::I16(n) => if n >= 0 {
            Some(n as u32)
        } else {
            None
        },
        MetadataValue::I32(n) => if n >= 0 {
            Some(n as u32)
        } else {
            None
        },
        MetadataValue::I64(n) => if n >= 0 {
            Some(n as u32)
        } else {
            None
        },
        _ => None,
    }
}

/// A value as an unsigned 32-bit number.
pub fn coerce_u32<F>(v: &MetadataValue<F>) -> (r: Option<u32>)
    ensures
        r == as_u32(*v),
{
    match v {
        MetadataValue::U8(n) => Some(*n as u32),
        MetadataValue::U16(n) => Some(*n as u32),
        MetadataValue::U32(n) => Some(*n),
        MetadataValue::U64(n) => Some(#[verifier::truncate] (*n as u32)),
        MetadataValue::I8(n) => if *n >= 0 {
            Some(*n as u32)
        } else {
            None
        },
        MetadataValue::I16(n) => if *n >= 0 {
            Some(*n as u32)
        } else {
            None
        },
        MetadataValue::I32(n) => if *n >= 0 {
            Some(*n as u32)
        } else {
            None
        },
        MetadataValue::I64(n) => if *n >= 0 {
            Some(#[verifier::truncate] (*n as u32))
        } else {
            None
        },
        _ => None,
    }
}

/// A value as a float of either width.
pub open spec fn as_float<F>(v: MetadataValue<F>) -> Option<F> {
    match v {
        MetadataValue::F32(x) => Some(x),
        MetadataValue::F64(x) => Some(x),
        _ => None,
    }
}

/// A value as a float of either width.
pub fn coerce_f32<F: Copy>(v: &MetadataValue<F>) -> (r: Option<F>)
    ensures
        r == as_float(*v),
{
    match v {
        MetadataValue::F32(x) => Some(*x),
        MetadataValue::F64(x) => Some(*x),
        _ => None,
    }
}

/// The string under `key`.
pub open spec fn string_at<F>(gguf: &GgufFile<F>, key: Seq<char>) -> Result<
    Seq<char>,
    FieldError,
> {
    match gguf.at(key) {
        Some(MetadataValue::String(s)) => Ok(s@),
        Some(_) => Err(FieldError::WrongType),
        None => Err(FieldError::Missing),
    }
}

/// The string under `key`.
pub fn read_string<F>(gguf: &GgufFile<F>, key: &str) -> (r: Result<String, FieldError>)
    ensures
        match r {
            Ok(s) => string_at(gguf, key@) == Ok::<Seq<char>, FieldError>(s@),
            Err(e) => string_at(gguf, key@) == Err::<Seq<char>, FieldError>(e),
        },
{
    match gguf.get(key) {
        Some(MetadataValue::String(s)) => Ok(s.clone()),
        Some(_) => Err(FieldError::WrongType),
        None => Err(FieldError::Missing),
    }
}

/// The string under `key`, where there is one.
pub fn read_optional_string<F>(gguf: &GgufFile<F>, key: &str) -> (r: Option<String>)
    ensures
        match r {
            Some(s) => string_at(gguf, key@) == Ok::<Seq<char>, FieldError>(s@),
            None => string_at(gguf, key@) is Err,
        },
{
    match read_string(gguf, key) {
        Ok(s) => Some(s),
        Err(_) => None,
    }
}

/// The views of a list of strings.
pub open spec fn texts(v: Seq<String>) -> Seq<Seq<char>> {
    v.map_values(|s: String| s@)
}

/// Every element is a string.
pub open spec fn all_strings<F>(a: Seq<MetadataValue<F>>) -> bool {
    forall|i: int| 0 <= i < a.len() ==> (#[trigger] a[i]) is String
}

/// The texts of an array of strings.
pub open spec fn string_texts<F>(a: Seq<MetadataValue<F>>) -> Seq<Seq<char>> {
    a.map_values(|v: MetadataValue<F>| v->String_0@)
}

/// The string array under `key`.
pub open spec fn strings_at<F>(gguf: &GgufFile<F>, key: Seq<char>) -> Result<
    Seq<Seq<char>>,
    FieldError,
> {
    match gguf.at(key) {
        Some(MetadataValue::Array(a)) => if all_strings(a@) {
            Ok(string_texts(a@))
        } else {
            Err(FieldError::WrongType)
        },
        Some(_) => Err(FieldError::WrongType),
        None => Err(FieldError::Missing),
    }
}

/// The string array under `key`.
pub fn read_string_array<F>(gguf: &GgufFile<F>, key: &str) -> (r: Result<Vec<String>, FieldError>)
    ensures
        match r {
            Ok(v) => strings_at(gguf, key@) == Ok::<Seq<Seq<char>>, FieldError>(texts(v@)),
            Err(e) => strings_at(gguf, key@) == Err::<Seq<Seq<char>>, FieldError>(e),
        },
{
    match gguf.get(key) {
        Some(MetadataValue::Array(a)) => {
            let mut out: Vec<String> = Vec::new();
            let mut i: usize = 0;
            while i < a.len()
                invariant
                    gguf.at(key@) == Some(MetadataValue::Array(*a)),
                    i <= a@.len(),
                    out@.len() == i,
                    forall|k: int|
                        0 <= k < i ==> (#[trigger] a@[k]) is String && out@[k]@ == a@[k]->String_0@,
                decreases a@.len() - i,
            {
                match &a[i] {
                    MetadataValue::String(s) => {
                        out.push(s.clone());
                    },
                    _ => {
                        assert(!(a@[i as int] is String));
                        return Err(FieldError::WrongType);
                    },
                }
                i += 1;
            }
            assert(all_strings(a@));
            assert(texts(out@) =~= string_texts(a@));
            Ok(out)
        },
        Some(_) => Err(FieldError::WrongType),
        None => Err(FieldError::Missing),
    }
}

/// Every element is a float.
pub open spec fn all_floats<F>(a: Seq<MetadataValue<F>>) -> bool {
    forall|i: int| 0 <= i < a.len() ==> as_float(#[trigger] a[i]) is Some
}

/// The float array under `key`.
pub open spec fn floats_at<F>(gguf: &GgufFile<F>, key: Seq<char>) -> Result<Seq<F>, FieldError> {
    match gguf.at(key) {
        Some(MetadataValue::Array(a)) => if all_floats(a@) {
            Ok(a@.map_values(|v: MetadataValue<F>| as_float(v)->0))
        } else {
            Err(FieldError::WrongType)
        },
        Some(_) => Err(FieldError::WrongType),
        None => Err(FieldError::Missing),
    }
}

/// The float array under `key`.
pub fn read_f32_array<F: Copy>(gguf: &GgufFile<F>, key: &str) -> (r: Result<Vec<F>, FieldError>)
    ensures
        match r {
            Ok(v) => floats_at(gguf, key@) == Ok::<Seq<F>, FieldError>(v@),
            Err(e) => floats_at(gguf, key@) == Err::<Seq<F>, FieldError>(e),
        },
{
    match gguf.get(key) {
        Some(MetadataValue::Array(a)) => {
            let mut out: Vec<F> = Vec::new();
            let mut i: usize = 0;
            while i < a.len()
                invariant
                    gguf.at(key@) == Some(MetadataValue::Array(*a)),
                    i <= a@.len(),
                    out@.len() == i,
                    forall|k: int|
                        0 <= k < i ==> as_float(#[trigger] a@[k]) == Some(out@[k]),
                decreases a@.len() - i,
            {
                match coerce_f32(&a[i]) {
                    Some(x) => {
                        out.push(x);
                    },
                    None => {
                        assert(as_float(a@[i as int]) is None);
                        return Err(FieldError::WrongType);
                    },
                }
                i += 1;
            }
            assert(all_floats(a@));
            assert(out@ =~= a@.map_values(|v: MetadataValue<F>| as_float(v)->0));
            Ok(out)
        },
        Some(_) => Err(FieldError::WrongType),
        None => Err(FieldError::Missing),
    }
}

/// A token id under `key`: an unsigned 32-bit number, a non-negative signed one,
/// or a 64-bit one that fits.
pub open spec fn id_at<F>(gguf: &GgufFile<F>, key: Seq<char>) -> Option<u32> {
    match gguf.at(key) {
        Some(MetadataValue::U32(v)) => Some(v),
        Some(MetadataValue::I32(v)) => if v >= 0 {
            Some(v as u32)
        } else {
            None
        },
        Some(MetadataValue::U64(v)) => if v <= u32::MAX {
            Some(v as u32)
        } else {
            None
        },
        _ => None,
    }
}

/// A token id under `key`.
pub fn read_optional_u32<F>(gguf: &GgufFile<F>, key: &str) -> (r: Option<u32>)
    ensures
        r == id_at(gguf, key@),
{
    match gguf.get(key) {
        Some(MetadataValue::U32(v)) => Some(*v),
        Some(MetadataValue::I32(v)) => if *v >= 0 {
            Some(*v as u32)
        } else {
            None
        },
        Some(MetadataValue::U64(v)) => if *v <= u32::MAX as u64 {
            Some(*v as u32)
        } else {
            None
        },
        _ => None,
    }
}

/// The boolean under `key`, where there is one.
pub open spec fn bool_at<F>(gguf: &GgufFile<F>, key: Seq<char>) -> Option<bool> {
    match gguf.at(key) {
        Some(MetadataValue::Bool(b)) => Some(b),
        _ => None,
    }
}

/// The boolean under `key`, where there is one.
pub fn read_optional_bool<F>(gguf: &GgufFile<F>, key: &str) -> (r: Option<bool>)
    ensures
        r == bool_at(gguf, key@),
{
    match gguf.get(key) {
        Some(MetadataValue::Bool(b)) => Some(*b),
        _ => None,
    }
}

/// A 32-bit integer of either sign, by its bits.
pub open spec fn as_i32<F>(v: MetadataValue<F>) -> Option<i32> {
    match v {
        MetadataValue::I32(i) => Some(i),
        MetadataValue::U32(u) => Some(u as i32),
        _ => None,
    }
}

/// Every element is a 32-bit integer.
pub open spec fn all_i32<F>(a: Seq<MetadataValue<F>>) -> bool {
    forall|i: int| 0 <= i < a.len() ==> as_i32(#[trigger] a[i]) is Some
}

/// The 32-bit integer array under `key`, where there is one.
pub open spec fn i32s_at<F>(gguf: &GgufFile<F>, key: Seq<char>) -> Option<Seq<i32>> {
    match gguf.at(key) {
        Some(MetadataValue::Array(a)) => if all_i32(a@) {
            Some(a@.map_values(|v: MetadataValue<F>| as_i32(v)->0))
        } else {
            None
        },
        _ => None,
    }
}

/// The 32-bit integer array under `key`, where there is one.
pub fn read_optional_i32_array<F>(gguf: &GgufFile<F>, key: &str) -> (r: Option<Vec<i32>>)
    ensures
        match r {
            Some(v) => i32s_at(gguf, key@) == Some(v@),
            None => i32s_at(gguf, key@) is None,
        },
{
    match gguf.get(key) {
        Some(MetadataValue::Array(a)) => {
            let mut out: Vec<i32> = Vec::new();
            let mut i: usize = 0;
            while i < a.len()
                invariant
                    gguf.at(key@) == Some(MetadataValue::Array(*a)),
                    i <= a@.len(),
                    out@.len() == i,
                    forall|k: int| 0 <= k < i ==> as_i32(#[trigger] a@[k]) == Some(out@[k]),
                decreases a@.len() - i,
            {
                match &a[i] {
                    MetadataValue::I32(v) => {
                        out.push(*v);
                    },
                    MetadataValue::U32(v) => {
                        out.push(#[verifier::truncate] (*v as i32));
                    },
                    _ => {
                        assert(as_i32(a@[i as int]) is None);
                        return None;
                    },
                }
                i += 1;
            }
            assert(all_i32(a@));
            assert(out@ =~= a@.map_values(|v: MetadataValue<F>| as_i32(v)->0));
            Some(out)
        },
        _ => None,
    }
}

} // verus!
