//! Reading a model's parameters and tensors out of a model file.
use vstd::prelude::*;
use vstd::string::*;

use crate::gguf::{as_float, as_u32, coerce_f32, coerce_u32, GgufFile, MetadataValue};
use crate::models::metadata::{
    counts, floats_as, gives, gives_bools, gives_list, gives_none, law_floats_are_read,
    law_numbers_are_cut, law_numbers_are_read, reads_as,
};
use crate::models::tensor::TensorView;
use crate::pairs::{find_pair, lacks, law_first_pair_is_found, leads, lookup};
use crate::text::{decimal, decimal_string, join2, join3};

verus! {

/// What is wrong with a metadata value.
#[derive(Clone, Copy, Debug)]
pub enum Fault {
    NotUnsigned,
    NotArray,
    /// The array's length is not the number of layers.
    Entries { expected: u32, got: usize },
    NotUnsignedEntry,
    NotBoolEntry,
    TooManySections(usize),
    NotUnsignedSection(usize),
    NotPositive,
    /// Query heads cannot be shared out evenly.
    NotADivisor { n_head: u32, got: u32 },
    /// More is rotated than a head holds, or nothing.
    OutsideHead { head_dim: u32, got: u32 },
}

/// Why a model could not be set up from its file.
#[derive(Debug)]
pub enum ModelError {
    Unsupported(String),
    MissingMetadata(&'static str),
    MissingTensor(String),
    BadMetadata { key: &'static str, detail: Fault },
    /// A diffusion model without a canvas.
    EmptyCanvas,
}

/// A fault in words, where `rendered` shows the value that is wrong.
pub open spec fn fault_text(f: Fault, rendered: Seq<char>) -> Seq<char> {
    match f {
        Fault::NotUnsigned => "expected unsigned int, got "@ + rendered,
        Fault::NotArray => "expected array, got "@ + rendered,
        Fault::Entries { expected, got } => "expected "@ + decimal(expected as nat)
            + " entries, got "@ + decimal(got as nat),
        Fault::NotUnsignedEntry => "non-u32 entry "@ + rendered,
        Fault::NotBoolEntry => "non-bool entry "@ + rendered,
        Fault::TooManySections(n) => "too many sections: "@ + decimal(n as nat) + " (max 4)"@,
        Fault::NotUnsignedSection(i) => "section["@ + decimal(i as nat) + "] not a uint: "@
            + rendered,
        Fault::NotPositive => "must be > 0"@,
        Fault::NotADivisor { n_head, got } => "must be > 0 and divide head_count ("@ + decimal(
            n_head as nat,
        ) + "), got "@ + decimal(got as nat),
        Fault::OutsideHead { head_dim, got } => "must be in 1..="@ + decimal(head_dim as nat)
            + " (head_dim), got "@ + decimal(got as nat),
    }
}

impl Fault {
    /// The fault in words, where `rendered` shows the value that is wrong.
    pub fn text(&self, rendered: &str) -> (r: String)
        ensures
            r@ == fault_text(*self, rendered@),
    {
        match self {
            Fault::NotUnsigned => join2("expected unsigned int, got ", rendered),
            Fault::NotArray => join2("expected array, got ", rendered),
            Fault::Entries { expected, got } => {
                let mut s = join3(
                    "expected ",
                    decimal_string(*expected as u64).as_str(),
                    " entries, got ",
                );
                s.append(decimal_string(*got as u64).as_str());
                s
            },
            Fault::NotUnsignedEntry => join2("non-u32 entry ", rendered),
            Fault::NotBoolEntry => join2("non-bool entry ", rendered),
            Fault::TooManySections(n) => join3(
                "too many sections: ",
                decimal_string(*n as u64).as_str(),
                " (max 4)",
            ),
            Fault::NotUnsignedSection(i) => {
                let mut s = join3(
                    "section[",
                    decimal_string(*i as u64).as_str(),
                    "] not a uint: ",
                );
                s.append(rendered);
                s
            },
            Fault::NotPositive => String::from_str("must be > 0"),
            Fault::NotADivisor { n_head, got } => {
                let mut s = join3(
                    "must be > 0 and divide head_count (",
                    decimal_string(*n_head as u64).as_str(),
                    "), got ",
                );
                s.append(decimal_string(*got as u64).as_str());
                s
            },
            Fault::OutsideHead { head_dim, got } => {
                let mut s = join3(
                    "must be in 1..=",
                    decimal_string(*head_dim as u64).as_str(),
                    " (head_dim), got ",
                );
                s.append(decimal_string(*got as u64).as_str());
                s
            },
        }
    }
}

/// The message for a failure, where `rendered` shows the value that is wrong.
pub open spec fn model_message(e: ModelError, rendered: Seq<char>) -> Seq<char> {
    match e {
        ModelError::Unsupported(a) => "unsupported architecture: "@ + a@,
        ModelError::MissingMetadata(k) => "missing required GGUF metadata: "@ + k@,
        ModelError::MissingTensor(n) => "missing required tensor: "@ + n@,
        ModelError::BadMetadata { key, detail } => "invalid metadata value for "@ + key@ + ": "@
            + fault_text(detail, rendered),
        ModelError::EmptyCanvas =>
            "diffusion-gemma requires a positive diffusion.canvas_length"@,
    }
}

impl ModelError {
    /// The message for this failure, where `rendered` shows the value that is
    /// wrong.
    pub fn message(&self, rendered: &str) -> (r: String)
        ensures
            r@ == model_message(*self, rendered@),
    {
        match self {
            ModelError::Unsupported(a) => join2("unsupported architecture: ", a.as_str()),
            ModelError::MissingMetadata(k) => join2("missing required GGUF metadata: ", k),
            ModelError::MissingTensor(n) => join2("missing required tensor: ", n.as_str()),
            ModelError::BadMetadata { key, detail } => {
                let mut s = join3("invalid metadata value for ", key, ": ");
                s.append(detail.text(rendered).as_str());
                s
            },
            ModelError::EmptyCanvas => String::from_str(
                "diffusion-gemma requires a positive diffusion.canvas_length",
            ),
        }
    }
}

/// The unsigned number under `key`.
pub open spec fn u32_at<F>(gguf: &GgufFile<F>, key: &'static str) -> Result<u32, ModelError> {
    match gguf.at(key@) {
        None => Err(ModelError::MissingMetadata(key)),
        Some(v) => match as_u32(v) {
            Some(n) => Ok(n),
            None => Err(ModelError::BadMetadata { key, detail: Fault::NotUnsigned }),
        },
    }
}

/// The unsigned number under `key`.
pub fn u32_key<F>(gguf: &GgufFile<F>, key: &'static str) -> (r: Result<u32, ModelError>)
    ensures
        r == u32_at(gguf, key),
        match r {
            Ok(n) => gives(gguf, key@, n) && !gives_none(gguf, key@),
            Err(ModelError::MissingMetadata(k)) => k == key && gives_none(gguf, key@) && lacks(
                gguf.metadata@,
                key@,
            ),
            Err(ModelError::BadMetadata { key: k, detail: _ }) => k == key && gives_none(
                gguf,
                key@,
            ) && !lacks(gguf.metadata@, key@),
            Err(_) => false,
        },
{
    proof {
        law_numbers_are_read(gguf, key@);
        law_first_pair_is_found(gguf.metadata@, key@);
    }
    match gguf.get(key) {
        None => Err(ModelError::MissingMetadata(key)),
        Some(v) => match coerce_u32(v) {
            Some(n) => Ok(n),
            None => Err(ModelError::BadMetadata { key, detail: Fault::NotUnsigned }),
        },
    }
}

/// The unsigned number under `key`, or `d` where there is none.
pub open spec fn u32_else<F>(gguf: &GgufFile<F>, key: Seq<char>, d: u32) -> u32 {
    match gguf.at(key) {
        Some(v) => match as_u32(v) {
            Some(n) => n,
            None => d,
        },
        None => d,
    }
}

/// The unsigned number under `key`, or `d` where there is none.
pub fn u32_or<F>(gguf: &GgufFile<F>, key: &str, d: u32) -> (r: u32)
    ensures
        r == u32_else(gguf, key@, d),
        reads_as(gguf, key@, r, d),
{
    proof {
        law_numbers_are_read(gguf, key@);
    }
    match gguf.get(key) {
        Some(v) => match coerce_u32(v) {
            Some(n) => n,
            None => d,
        },
        None => d,
    }
}

/// The float under `key`, or `d` where there is none.
pub open spec fn float_else<F>(gguf: &GgufFile<F>, key: Seq<char>, d: F) -> F {
    match gguf.at(key) {
        Some(v) => match as_float(v) {
            Some(x) => x,
            None => d,
        },
        None => d,
    }
}

/// The float under `key`, or `d` where there is none.
pub fn f32_or<F: Copy>(gguf: &GgufFile<F>, key: &str, d: F) -> (r: F)
    ensures
        r == float_else(gguf, key@, d),
        floats_as(gguf, key@, r, d),
{
    proof {
        law_floats_are_read(gguf, key@);
    }
    match gguf.get(key) {
        Some(v) => match coerce_f32(v) {
            Some(x) => x,
            None => d,
        },
        None => d,
    }
}

/// The vocabulary's size: the number under `key`, or the rows of the token
/// embedding.
pub open spec fn vocab_at<F>(gguf: &GgufFile<F>, key: &'static str) -> Result<u32, ModelError> {
    match u32_at(gguf, key) {
        Ok(n) => Ok(n),
        Err(_) => match gguf.tensor_at("token_embd.weight"@) {
            Some(t) => Ok(t.dims.d1 as u32),
            None => Err(ModelError::MissingMetadata(key)),
        },
    }
}

/// The vocabulary's size as the token embedding has it.
fn derive_vocab<F>(gguf: &GgufFile<F>, key: &'static str) -> (r: Result<u32, ModelError>)
    ensures
        r == match gguf.tensor_at("token_embd.weight"@) {
            Some(t) => Ok(t.dims.d1 as u32),
            None => Err(ModelError::MissingMetadata(key)),
        },
{
    match gguf.tensor("token_embd.weight") {
        Some(t) => Ok(#[verifier::truncate] (t.dims.d1 as u32)),
        None => Err(ModelError::MissingMetadata(key)),
    }
}

/// The vocabulary's size.
pub fn vocab_key<F>(gguf: &GgufFile<F>, key: &'static str) -> (r: Result<u32, ModelError>)
    ensures
        r == vocab_at(gguf, key),
        match r {
            Ok(n) => gives(gguf, key@, n) || gives_none(gguf, key@) && exists|i: int| #[trigger]
                leads(gguf.tensors@, "token_embd.weight"@, i) && n
                    == gguf.tensors@[i].1.dims.d1 as u32,
            Err(_) => gives_none(gguf, key@) && lacks(gguf.tensors@, "token_embd.weight"@),
        },
{
    proof {
        law_first_pair_is_found(gguf.tensors@, "token_embd.weight"@);
        law_numbers_are_read(gguf, key@);
    }
    match u32_key(gguf, key) {
        Ok(n) => Ok(n),
        Err(_) => derive_vocab(gguf, key),
    }
}

/// Every element is an unsigned number.
pub open spec fn all_u32<F>(a: Seq<MetadataValue<F>>) -> bool {
    forall|i: int| 0 <= i < a.len() ==> as_u32(#[trigger] a[i]) is Some
}

/// One unsigned number for each layer.
pub open spec fn u32s_at<F>(gguf: &GgufFile<F>, key: &'static str, n_layer: u32) -> Result<
    Seq<u32>,
    ModelError,
> {
    match gguf.at(key@) {
        None => Err(ModelError::MissingMetadata(key)),
        Some(MetadataValue::Array(a)) => if a@.len() != n_layer {
            Err(
                ModelError::BadMetadata {
                    key,
                    detail: Fault::Entries { expected: n_layer, got: a@.len() as usize },
                },
            )
        } else if all_u32(a@) {
            Ok(a@.map_values(|v: MetadataValue<F>| as_u32(v)->0))
        } else {
            Err(ModelError::BadMetadata { key, detail: Fault::NotUnsignedEntry })
        },
        Some(_) => Err(ModelError::BadMetadata { key, detail: Fault::NotArray }),
    }
}

/// One unsigned number for each layer.
pub fn read_u32_array<F>(gguf: &GgufFile<F>, key: &'static str, n_layer: u32) -> (r: Result<
    Vec<u32>,
    ModelError,
>)
    ensures
        match r {
            Ok(v) => u32s_at(gguf, key, n_layer) == Ok::<Seq<u32>, ModelError>(v@),
            Err(e) => u32s_at(gguf, key, n_layer) == Err::<Seq<u32>, ModelError>(e),
        },
        r matches Ok(v) ==> v@.len() == n_layer && gives_list(gguf, key@, v@),
{
    let items = match gguf.get(key) {
        None => {
            return Err(ModelError::MissingMetadata(key));
        },
        Some(MetadataValue::Array(a)) => a,
        Some(_) => {
            return Err(ModelError::BadMetadata { key, detail: Fault::NotArray });
        },
    };
    if items.len() != n_layer as usize {
        return Err(
            ModelError::BadMetadata {
                key,
                detail: Fault::Entries { expected: n_layer, got: items.len() },
            },
        );
    }
    let mut out: Vec<u32> = Vec::new();
    let mut i: usize = 0;
    while i < items.len()
        invariant
            gguf.at(key@) == Some(MetadataValue::Array(*items)),
            items@.len() == n_layer,
            i <= items@.len(),
            out@.len() == i,
            forall|k: int| 0 <= k < i ==> as_u32(#[trigger] items@[k]) == Some(out@[k]),
        decreases items@.len() - i,
    {
        match coerce_u32(&items[i]) {
            Some(n) => {
                out.push(n);
            },
            None => {
                assert(as_u32(items@[i as int]) is None);
                return Err(ModelError::BadMetadata { key, detail: Fault::NotUnsignedEntry });
            },
        }
        i += 1;
    }
    assert(all_u32(items@));
    assert(out@ =~= items@.map_values(|v: MetadataValue<F>| as_u32(v)->0));
    proof {
        assert forall|k: int| 0 <= k < out@.len() implies counts(
            #[trigger] items@[k],
            out@[k],
        ) by {
            law_numbers_are_cut(items@[k]);
        }
        reveal(gives_list);
        law_first_pair_is_found(gguf.metadata@, key@);
        let at = choose|i: int| #[trigger] leads(gguf.metadata@, key@, i);
        assert(gguf.metadata@[at].1 == MetadataValue::Array(*items));
    }
    Ok(out)
}

/// Every element is a boolean.
pub open spec fn all_bools<F>(a: Seq<MetadataValue<F>>) -> bool {
    forall|i: int| 0 <= i < a.len() ==> (#[trigger] a[i]) is Bool
}

/// One boolean for each layer.
pub open spec fn bools_at<F>(gguf: &GgufFile<F>, key: &'static str, n_layer: u32) -> Result<
    Seq<bool>,
    ModelError,
> {
    match gguf.at(key@) {
        None => Err(ModelError::MissingMetadata(key)),
        Some(MetadataValue::Array(a)) => if a@.len() != n_layer {
            Err(
                ModelError::BadMetadata {
                    key,
                    detail: Fault::Entries { expected: n_layer, got: a@.len() as usize },
                },
            )
        } else if all_bools(a@) {
            Ok(a@.map_values(|v: MetadataValue<F>| v->Bool_0))
        } else {
            Err(ModelError::BadMetadata { key, detail: Fault::NotBoolEntry })
        },
        Some(_) => Err(ModelError::BadMetadata { key, detail: Fault::NotArray }),
    }
}

/// One boolean for each layer.
pub fn read_bool_array<F>(gguf: &GgufFile<F>, key: &'static str, n_layer: u32) -> (r: Result<
    Vec<bool>,
    ModelError,
>)
    ensures
        match r {
            Ok(v) => bools_at(gguf, key, n_layer) == Ok::<Seq<bool>, ModelError>(v@),
            Err(e) => bools_at(gguf, key, n_layer) == Err::<Seq<bool>, ModelError>(e),
        },
        r matches Ok(v) ==> v@.len() == n_layer && gives_bools(gguf, key@, v@),
{
    let items = match gguf.get(key) {
        None => {
            return Err(ModelError::MissingMetadata(key));
        },
        Some(MetadataValue::Array(a)) => a,
        Some(_) => {
            return Err(ModelError::BadMetadata { key, detail: Fault::NotArray });
        },
    };
    if items.len() != n_layer as usize {
        return Err(
            ModelError::BadMetadata {
                key,
                detail: Fault::Entries { expected: n_layer, got: items.len() },
            },
        );
    }
    let mut out: Vec<bool> = Vec::new();
    let mut i: usize = 0;
    while i < items.len()
        invariant
            gguf.at(key@) == Some(MetadataValue::Array(*items)),
            items@.len() == n_layer,
            i <= items@.len(),
            out@.len() == i,
            forall|k: int|
                0 <= k < i ==> (#[trigger] items@[k]) is Bool && items@[k]->Bool_0 == out@[k],
        decreases items@.len() - i,
    {
        match &items[i] {
            MetadataValue::Bool(b) => {
                out.push(*b);
            },
            _ => {
                assert(!(items@[i as int] is Bool));
                return Err(ModelError::BadMetadata { key, detail: Fault::NotBoolEntry });
            },
        }
        i += 1;
    }
    assert(all_bools(items@));
    assert(out@ =~= items@.map_values(|v: MetadataValue<F>| v->Bool_0));
    proof {
        reveal(gives_bools);
        law_first_pair_is_found(gguf.metadata@, key@);
        let at = choose|i: int| #[trigger] leads(gguf.metadata@, key@, i);
        assert(gguf.metadata@[at].1 == MetadataValue::Array(*items));
    }
    Ok(out)
}

/// The uploaded tensors of a model, by name.
pub struct WeightsHandle {
    pub tensors: Vec<(String, TensorView)>,
}

impl WeightsHandle {
    /// The tensor of this name.
    pub open spec fn at(&self, name: Seq<char>) -> Option<TensorView> {
        lookup(self.tensors@, name)
    }

    /// Every tensor lies among the weights.
    pub open spec fn apart(&self) -> bool {
        forall|name: Seq<char>| (#[trigger] self.at(name)) matches Some(t) ==> t.buffer is Weights
    }

    /// The tensor of this name.
    pub fn view(&self, name: &str) -> (r: Option<TensorView>)
        ensures
            r == self.at(name@),
    {
        match find_pair(&self.tensors, name) {
            Some(t) => Some(*t),
            None => None,
        }
    }

    /// The first of these names that no tensor has, if there is one.
    pub open spec fn missing(&self, names: Seq<Seq<char>>) -> Option<Seq<char>>
        decreases names.len(),
    {
        if names.len() == 0 {
            None
        } else if self.missing(names.drop_last()) is Some {
            self.missing(names.drop_last())
        } else if self.at(names.last()) is None {
            Some(names.last())
        } else {
            None
        }
    }

    /// The tensors of these names.
    pub open spec fn views(&self, names: Seq<Seq<char>>) -> Seq<TensorView> {
        names.map_values(|n: Seq<char>| self.at(n)->0)
    }
}

/// The failure says that the tensor `name` is missing.
pub open spec fn says_missing(e: ModelError, name: Seq<char>) -> bool {
    e matches ModelError::MissingTensor(n) && n@ == name
}

/// What a load of the tensors `names` gives: all of them, or the first that is
/// missing.
pub open spec fn loads(
    handle: &WeightsHandle,
    names: Seq<Seq<char>>,
    r: Result<Vec<TensorView>, ModelError>,
) -> bool {
    match r {
        Ok(v) => handle.missing(names) is None && v@ == handle.views(names),
        Err(e) => handle.missing(names) matches Some(n) && says_missing(e, n),
    }
}

/// The texts of a list of strings.
pub open spec fn words(v: Seq<&str>) -> Seq<Seq<char>> {
    v.map_values(|s: &str| s@)
}

/// The tensor names of block `i` that end in these suffixes.
pub open spec fn block_names(i: int, suffixes: Seq<Seq<char>>) -> Seq<Seq<char>> {
    suffixes.map_values(|s: Seq<char>| "blk."@ + decimal(i as nat) + "."@ + s)
}

/// The name of block `i`'s tensor with this suffix.
pub fn block_name(i: u32, suffix: &str) -> (r: String)
    ensures
        r@ == "blk."@ + decimal(i as nat) + "."@ + suffix@,
{
    let mut s = join3("blk.", decimal_string(i as u64).as_str(), ".");
    s.append(suffix);
    s
}

/// The names that are missing do not depend on names that come later.
pub proof fn lemma_missing_prefix(handle: &WeightsHandle, a: Seq<Seq<char>>, b: Seq<Seq<char>>)
    ensures
        handle.missing(a) is Some ==> handle.missing(a + b) == handle.missing(a),
        handle.missing(a) is None ==> handle.missing(a + b) == handle.missing(b),
    decreases b.len(),
{
    if b.len() == 0 {
        assert(a + b =~= a);
    } else {
        lemma_missing_prefix(handle, a, b.drop_last());
        assert((a + b).drop_last() =~= a + b.drop_last());
        assert((a + b).last() == b.last());
    }
}

/// Where nothing is missing, every name has a tensor.
pub proof fn lemma_all_there(handle: &WeightsHandle, names: Seq<Seq<char>>, k: int)
    requires
        handle.missing(names) is None,
        0 <= k < names.len(),
    ensures
        handle.at(names[k]) is Some,
    decreases names.len(),
{
    if k < names.len() - 1 {
        lemma_all_there(handle, names.drop_last(), k);
        assert(names.drop_last()[k] == names[k]);
    }
}

/// Load the tensors of these names.
pub fn load(handle: &WeightsHandle, names: &[&str]) -> (r: Result<Vec<TensorView>, ModelError>)
    ensures
        loads(handle, words(names@), r),
{
    let mut out: Vec<TensorView> = Vec::new();
    let ghost all = words(names@);
    let mut k: usize = 0;
    assert(all.take(0) =~= Seq::empty());
    while k < names.len()
        invariant
            k <= names@.len(),
            all == words(names@),
            handle.missing(all.take(k as int)) is None,
            out@ == handle.views(all.take(k as int)),
        decreases names@.len() - k,
    {
        proof {
            assert(all.take(k + 1).drop_last() =~= all.take(k as int));
            assert(all.take(k + 1).last() == names@[k as int]@);
            lemma_missing_prefix(handle, all.take(k + 1), all.skip(k + 1));
            assert(all.take(k + 1) + all.skip(k + 1) =~= all);
        }
        match handle.view(names[k]) {
            Some(t) => {
                out.push(t);
            },
            None => {
                return Err(ModelError::MissingTensor(String::from_str(names[k])));
            },
        }
        assert(out@ =~= handle.views(all.take(k + 1)));
        k += 1;
    }
    assert(all.take(k as int) =~= all);
    Ok(out)
}

/// Load the tensors of block `i` that end in these suffixes.
pub fn load_block(handle: &WeightsHandle, i: u32, suffixes: &[&str]) -> (r: Result<
    Vec<TensorView>,
    ModelError,
>)
    ensures
        loads(handle, block_names(i as int, words(suffixes@)), r),
{
    let mut out: Vec<TensorView> = Vec::new();
    let ghost all = block_names(i as int, words(suffixes@));
    let mut k: usize = 0;
    assert(all.take(0) =~= Seq::empty());
    while k < suffixes.len()
        invariant
            k <= suffixes@.len(),
            all == block_names(i as int, words(suffixes@)),
            handle.missing(all.take(k as int)) is None,
            out@ == handle.views(all.take(k as int)),
        decreases suffixes@.len() - k,
    {
        let name = block_name(i, suffixes[k]);
        proof {
            assert(all.take(k + 1).drop_last() =~= all.take(k as int));
            assert(all.take(k + 1).last() == name@);
            lemma_missing_prefix(handle, all.take(k + 1), all.skip(k + 1));
            assert(all.take(k + 1) + all.skip(k + 1) =~= all);
        }
        match handle.view(name.as_str()) {
            Some(t) => {
                out.push(t);
            },
            None => {
                return Err(ModelError::MissingTensor(name));
            },
        }
        assert(out@ =~= handle.views(all.take(k + 1)));
        k += 1;
    }
    assert(all.take(k as int) =~= all);
    Ok(out)
}

/// The names `head`, and after them those of the first `n` blocks, where block
/// `i` has the suffixes `of(i)`.
pub open spec fn model_names(
    head: Seq<Seq<char>>,
    of: spec_fn(int) -> Seq<Seq<char>>,
    n: int,
) -> Seq<Seq<char>>
    decreases n,
{
    if n <= 0 {
        head
    } else {
        model_names(head, of, n - 1) + block_names(n - 1, of(n - 1))
    }
}

/// A name missing among the first blocks is the one missing in all.
pub proof fn lemma_missing_first(
    handle: &WeightsHandle,
    head: Seq<Seq<char>>,
    of: spec_fn(int) -> Seq<Seq<char>>,
    k: int,
    n: int,
)
    requires
        0 <= k <= n,
        handle.missing(model_names(head, of, k)) is Some,
    ensures
        handle.missing(model_names(head, of, n)) == handle.missing(model_names(head, of, k)),
    decreases n,
{
    if k < n {
        lemma_missing_first(handle, head, of, k, n - 1);
        lemma_missing_prefix(handle, model_names(head, of, n - 1), block_names(n - 1, of(n - 1)));
    }
}

} // verus!
