//! What a model file's metadata says of a parameter.
use vstd::prelude::*;

use crate::gguf::{as_float, as_u32, GgufFile, MetadataValue};
use crate::models::tensor::Dims;
use crate::pairs::{lacks, law_first_pair_is_found, leads};

verus! {

/// The number that a value holds, if it is an integer of zero or more.
pub open spec fn whole<F>(v: MetadataValue<F>) -> Option<int> {
    match v {
        MetadataValue::U8(n) => Some(n as int),
        MetadataValue::U16(n) => Some(n as int),
        MetadataValue::U32(n) => Some(n as int),
        MetadataValue::U64(n) => Some(n as int),
        MetadataValue::I8(n) if n >= 0 => Some(n as int),
        MetadataValue::I16(n) if n >= 0 => Some(n as int),
        MetadataValue::I32(n) if n >= 0 => Some(n as int),
        MetadataValue::I64(n) if n >= 0 => Some(n as int),
        _ => None,
    }
}

/// The number that a value holds is `n`, but for bits past the 32nd.
pub open spec fn counts<F>(v: MetadataValue<F>, n: u32) -> bool {
    whole(v) matches Some(x) && n == x % 0x1_0000_0000
}

/// The value is the float `x`, of either width.
pub open spec fn is_float<F>(v: MetadataValue<F>, x: F) -> bool {
    v == MetadataValue::F32(x) || v == MetadataValue::F64(x)
}

/// The file gives the number `n` under `key`.
#[verifier::opaque]
pub open spec fn gives<F>(gguf: &GgufFile<F>, key: Seq<char>, n: u32) -> bool {
    exists|i: int| #[trigger]
        leads(gguf.metadata@, key, i) && counts(gguf.metadata@[i].1, n)
}

/// The file gives no number under `key`.
#[verifier::opaque]
pub open spec fn gives_none<F>(gguf: &GgufFile<F>, key: Seq<char>) -> bool {
    forall|i: int| #[trigger]
        leads(gguf.metadata@, key, i) ==> whole(gguf.metadata@[i].1) is None
}

/// A parameter read under `key` is `n`: what the file gives there, or `d` where
/// it gives no number.
pub open spec fn reads_as<F>(gguf: &GgufFile<F>, key: Seq<char>, n: u32, d: u32) -> bool {
    gives(gguf, key, n) || gives_none(gguf, key) && n == d
}

/// The file gives the float `x` under `key`.
#[verifier::opaque]
pub open spec fn gives_float<F>(gguf: &GgufFile<F>, key: Seq<char>, x: F) -> bool {
    exists|i: int| #[trigger]
        leads(gguf.metadata@, key, i) && is_float(gguf.metadata@[i].1, x)
}

/// The file gives no float under `key`.
#[verifier::opaque]
pub open spec fn gives_no_float<F>(gguf: &GgufFile<F>, key: Seq<char>) -> bool {
    forall|i: int, x: F|
        #![trigger leads(gguf.metadata@, key, i), is_float(gguf.metadata@[i].1, x)]
        leads(gguf.metadata@, key, i) ==> !is_float(gguf.metadata@[i].1, x)
}

/// A parameter read under `key` is `x`: what the file gives there, or `d` where
/// it gives no float.
pub open spec fn floats_as<F>(gguf: &GgufFile<F>, key: Seq<char>, x: F, d: F) -> bool {
    gives_float(gguf, key, x) || gives_no_float(gguf, key) && x == d
}

/// The file gives a list of numbers under `key`, and these are the numbers.
#[verifier::opaque]
pub open spec fn gives_list<F>(gguf: &GgufFile<F>, key: Seq<char>, list: Seq<u32>) -> bool {
    exists|i: int, a: Vec<MetadataValue<F>>|
        #![trigger leads(gguf.metadata@, key, i), a@]
        {
            &&& leads(gguf.metadata@, key, i)
            &&& gguf.metadata@[i].1 == MetadataValue::Array(a)
            &&& a@.len() == list.len()
            &&& forall|k: int| 0 <= k < list.len() ==> counts(#[trigger] a@[k], list[k])
        }
}

/// The file gives a list of truth values under `key`, and these are the values.
#[verifier::opaque]
pub open spec fn gives_bools<F>(gguf: &GgufFile<F>, key: Seq<char>, list: Seq<bool>) -> bool {
    exists|i: int, a: Vec<MetadataValue<F>>|
        #![trigger leads(gguf.metadata@, key, i), a@]
        {
            &&& leads(gguf.metadata@, key, i)
            &&& gguf.metadata@[i].1 == MetadataValue::Array(a)
            &&& a@.len() == list.len()
            &&& forall|k: int|
                0 <= k < list.len() ==> #[trigger] a@[k] == MetadataValue::<F>::Bool(list[k])
        }
}

/// Entry `k` of a list is the section `d`; past the end it is 0.
pub open spec fn is_section<F>(a: Seq<MetadataValue<F>>, k: int, d: u64) -> bool {
    if k < a.len() {
        whole(a[k]) matches Some(x) && d == x % 0x1_0000_0000
    } else {
        d == 0
    }
}

/// The file gives a list of at most four numbers under `key`, and these are the
/// numbers.
#[verifier::opaque]
pub open spec fn gives_sections<F>(gguf: &GgufFile<F>, key: Seq<char>, d: Dims) -> bool {
    exists|i: int, a: Vec<MetadataValue<F>>|
        #![trigger leads(gguf.metadata@, key, i), a@]
        {
            &&& leads(gguf.metadata@, key, i)
            &&& gguf.metadata@[i].1 == MetadataValue::Array(a)
            &&& a@.len() <= 4
            &&& is_section(a@, 0, d.d0)
            &&& is_section(a@, 1, d.d1)
            &&& is_section(a@, 2, d.d2)
            &&& is_section(a@, 3, d.d3)
        }
}

/// A value taken as an unsigned number of 32 bits is the number it holds, cut to
/// those bits; only integers of zero or more are taken.
pub proof fn law_numbers_are_cut<F>(v: MetadataValue<F>)
    ensures
        as_u32(v) is Some <==> whole(v) is Some,
        as_u32(v) matches Some(n) ==> counts(v, n),
{
    match v {
        MetadataValue::U64(n) => {
            assert(n as u32 == n % 0x1_0000_0000) by (bit_vector);
        },
        MetadataValue::I64(n) => {
            if n >= 0 {
                let u = n as u64;
                assert(n as u32 == u % 0x1_0000_0000) by (bit_vector)
                    requires
                        n >= 0,
                        u == n as u64,
                ;
            }
        },
        _ => {},
    }
}

/// A key is read as a number exactly where the file gives one there.
pub proof fn law_numbers_are_read<F>(gguf: &GgufFile<F>, key: Seq<char>)
    ensures
        match gguf.at(key) {
            Some(v) => match as_u32(v) {
                Some(n) => gives(gguf, key, n),
                None => gives_none(gguf, key),
            },
            None => gives_none(gguf, key),
        },
        forall|n: u32| #[trigger] gives(gguf, key, n) ==> !gives_none(gguf, key),
{
    reveal(gives);
    reveal(gives_none);
    law_first_pair_is_found(gguf.metadata@, key);
    match gguf.at(key) {
        Some(v) => {
            law_numbers_are_cut(v);
            let i = choose|i: int| #[trigger] leads(gguf.metadata@, key, i);
            assert(gguf.metadata@[i].1 == v);
        },
        None => {},
    }
}

/// A key is read as a float exactly where the file gives one there.
pub proof fn law_floats_are_read<F>(gguf: &GgufFile<F>, key: Seq<char>)
    ensures
        match gguf.at(key) {
            Some(v) => match as_float(v) {
                Some(x) => gives_float(gguf, key, x),
                None => gives_no_float(gguf, key),
            },
            None => gives_no_float(gguf, key),
        },
{
    reveal(gives_float);
    reveal(gives_no_float);
    law_first_pair_is_found(gguf.metadata@, key);
    match gguf.at(key) {
        Some(v) => {
            let i = choose|i: int| #[trigger] leads(gguf.metadata@, key, i);
            assert(gguf.metadata@[i].1 == v);
            match as_float(v) {
                Some(x) => {
                    assert(is_float(gguf.metadata@[i].1, x));
                },
                None => {},
            }
        },
        None => {},
    }
}

/// A key that no entry has gives nothing.
pub proof fn law_missing_keys_give_nothing<F>(gguf: &GgufFile<F>, key: Seq<char>)
    requires
        lacks(gguf.metadata@, key),
    ensures
        gives_none(gguf, key),
        gives_no_float(gguf, key),
{
    reveal(gives_none);
    reveal(gives_no_float);
}

} // verus!
