//! Setting up whichever model a file holds.
use vstd::prelude::*;
use vstd::string::*;

use crate::gguf::{string_at, FieldError, GgufFile};
use crate::models::describe::FloatConstants;
use crate::models::gemma4::Gemma4Model;
use crate::models::gemma4_params;
use crate::models::gemma4_params::{
    gemma4_collected, gemma4_described, gemma4_failure, gemma4_heads_counted, gemma4_names,
};
use crate::models::llama::LlamaModel;
use crate::models::llama_params;
use crate::models::llama_params::{
    llama_collected, llama_failure, llama_heads_counted, llama_names,
};
use crate::models::loading::{says_missing, u32_at, ModelError, WeightsHandle};
use crate::models::masks::MaskValues;
use crate::models::qwen3::Qwen3Model;
use crate::models::qwen35_params;
use crate::models::qwen35_params::{
    qwen35_collected, qwen35_failure, qwen35_heads_counted, qwen35_names, qwen35_vocab,
};
use crate::models::qwen35moe::Qwen35MoeModel;
use crate::models::qwen3_params;
use crate::models::qwen3_params::{qwen3_collected, qwen3_failure, qwen3_names};
use crate::text::str_eq;

verus! {

/// A model of any of the architectures that a file can name.
pub enum AnyModel<F> {
    Gemma4(Gemma4Model<F>),
    Llama(LlamaModel<F>),
    Qwen3(Qwen3Model<F>),
    Qwen35Moe(Qwen35MoeModel<F>),
}

/// The architectures that a file can name.
#[derive(Clone, Copy, PartialEq, Eq, Structural, Debug)]
pub enum Architecture {
    Gemma4,
    Llama,
    Qwen3,
    Qwen35Moe,
}

/// The architecture of this name.
pub open spec fn architecture_named(name: Seq<char>) -> Option<Architecture> {
    if name == "gemma4"@ {
        Some(Architecture::Gemma4)
    } else if name == "llama"@ {
        Some(Architecture::Llama)
    } else if name == "qwen3"@ {
        Some(Architecture::Qwen3)
    } else if name == "qwen35moe"@ {
        Some(Architecture::Qwen35Moe)
    } else {
        None
    }
}

/// The architecture that a file names.
pub fn architecture_of<F>(gguf: &GgufFile<F>) -> (r: Result<Architecture, ModelError>)
    ensures
        match string_at(gguf, "general.architecture"@) {
            Err(_) => r == Err::<Architecture, _>(
                ModelError::MissingMetadata("general.architecture"),
            ),
            Ok(name) => match r {
                Ok(a) => architecture_named(name) == Some(a),
                Err(e) => {
                    &&& architecture_named(name) is None
                    &&& e matches ModelError::Unsupported(n) && n@ == name
                },
            },
        },
{
    match gguf.architecture() {
        None => Err(ModelError::MissingMetadata("general.architecture")),
        Some(name) => {
            if str_eq(name.as_str(), "gemma4") {
                Ok(Architecture::Gemma4)
            } else if str_eq(name.as_str(), "llama") {
                Ok(Architecture::Llama)
            } else if str_eq(name.as_str(), "qwen3") {
                Ok(Architecture::Qwen3)
            } else if str_eq(name.as_str(), "qwen35moe") {
                Ok(Architecture::Qwen35Moe)
            } else {
                Err(ModelError::Unsupported(name))
            }
        },
    }
}

/// The file can be read as a model of the architecture that it names.
pub open spec fn readable<F: Copy>(
    gguf: &GgufFile<F>,
    handle: &WeightsHandle,
    c: &FloatConstants<F>,
    arch: Option<Architecture>,
) -> bool {
    match arch {
        Some(Architecture::Gemma4) => gemma4_heads_counted(gguf),
        Some(Architecture::Llama) => llama_heads_counted(gguf),
        Some(Architecture::Qwen35Moe) => {
            let p = qwen35_params::qwen35_params(gguf, handle, c);
            qwen35_heads_counted(gguf) && (p.n_main > 0 ==> p.full_attn_interval > 0)
        },
        _ => true,
    }
}

/// What opening a file of this architecture gives: the model that its metadata
/// describes, with the uploaded tensors that it calls for, or the first failure.
pub open spec fn opened<F: Copy>(
    gguf: &GgufFile<F>,
    handle: &WeightsHandle,
    spec_enabled: bool,
    c: &FloatConstants<F>,
    mask: MaskValues<F>,
    arch: Architecture,
    r: Result<AnyModel<F>, ModelError>,
) -> bool {
    match arch {
        Architecture::Gemma4 => match r {
            Ok(AnyModel::Gemma4(m)) => {
                &&& gemma4_failure(gguf) is None
                &&& gemma4_described(gguf, c, m.params)
                &&& gemma4_collected(handle, m.params, m.weights)
                &&& m.mask == mask
            },
            Ok(_) => false,
            Err(e) => if gemma4_failure(gguf) is Some {
                gemma4_failure(gguf) == Some(e)
            } else {
                handle.missing(
                    gemma4_names(u32_at(gguf, "gemma4.block_count")->Ok_0 as int),
                ) matches Some(name) && says_missing(e, name)
            },
        },
        Architecture::Llama => match r {
            Ok(AnyModel::Llama(m)) => {
                &&& llama_failure(gguf) is None
                &&& m.params == llama_params::llama_params(gguf, c)
                &&& llama_collected(handle, m.params, m.weights)
                &&& m.mask == mask
            },
            Ok(_) => false,
            Err(e) => if llama_failure(gguf) is Some {
                llama_failure(gguf) == Some(e)
            } else {
                handle.missing(
                    llama_names(llama_params::llama_params(gguf, c).n_layer as int),
                ) matches Some(name) && says_missing(e, name)
            },
        },
        Architecture::Qwen3 => match r {
            Ok(AnyModel::Qwen3(m)) => {
                &&& qwen3_failure(gguf, c) is None
                &&& m.params == qwen3_params::qwen3_params(gguf, c)
                &&& qwen3_collected(handle, m.params, m.weights)
                &&& m.mask == mask
            },
            Ok(_) => false,
            Err(e) => if qwen3_failure(gguf, c) is Some {
                qwen3_failure(gguf, c) == Some(e)
            } else {
                handle.missing(
                    qwen3_names(qwen3_params::qwen3_params(gguf, c).n_layer as int),
                ) matches Some(name) && says_missing(e, name)
            },
        },
        Architecture::Qwen35Moe => {
            let p = qwen35_params::qwen35_params(gguf, handle, c);
            match r {
                Ok(AnyModel::Qwen35Moe(m)) => {
                    &&& qwen35_failure(gguf) is None
                    &&& qwen35_vocab(gguf, handle) is Some
                    &&& m.params == p
                    &&& qwen35_collected(handle, m.params, spec_enabled, m.weights)
                    &&& m.mask == mask
                },
                Ok(_) => false,
                Err(e) => if qwen35_failure(gguf) is Some {
                    qwen35_failure(gguf) == Some(e)
                } else if qwen35_vocab(gguf, handle) is None {
                    says_missing(e, "token_embd.weight"@)
                } else {
                    handle.missing(qwen35_names(p.n_main, p.full_attn_interval)) matches Some(name)
                        && says_missing(e, name)
                },
            }
        },
    }
}

/// Set up the model that a file holds. The draft head is loaded where speculative
/// decoding is asked for and the file has it. Scales that are computed from other
/// parameters are left at one, for each model's `scaled` to fill in.
pub fn open<F: Copy>(
    gguf: &GgufFile<F>,
    handle: &WeightsHandle,
    spec_enabled: bool,
    c: &FloatConstants<F>,
    mask: MaskValues<F>,
) -> (r: Result<AnyModel<F>, ModelError>)
    requires
        string_at(gguf, "general.architecture"@) matches Ok(name) ==> readable(
            gguf,
            handle,
            c,
            architecture_named(name),
        ),
    ensures
        match string_at(gguf, "general.architecture"@) {
            Err(_) => r == Err::<AnyModel<F>, _>(
                ModelError::MissingMetadata("general.architecture"),
            ),
            Ok(name) => match architecture_named(name) {
                Some(arch) => opened(gguf, handle, spec_enabled, c, mask, arch, r),
                None => r matches Err(ModelError::Unsupported(n)) && n@ == name,
            },
        },
        r matches Ok(m) ==> string_at(gguf, "general.architecture"@) == Ok::<Seq<char>, FieldError>(
            match m {
                AnyModel::Gemma4(_) => "gemma4"@,
                AnyModel::Llama(_) => "llama"@,
                AnyModel::Qwen3(_) => "qwen3"@,
                AnyModel::Qwen35Moe(_) => "qwen35moe"@,
            },
        ),
{
    match architecture_of(gguf)? {
        Architecture::Gemma4 => {
            let params = gemma4_params::parse_params(gguf, c)?;
            Ok(AnyModel::Gemma4(Gemma4Model::new(params, handle, mask)?))
        },
        Architecture::Llama => {
            let params = llama_params::parse_params(gguf, c)?;
            Ok(AnyModel::Llama(LlamaModel::new(params, handle, mask)?))
        },
        Architecture::Qwen3 => {
            let params = qwen3_params::parse_params(gguf, c)?;
            Ok(AnyModel::Qwen3(Qwen3Model::new(params, handle, mask)?))
        },
        Architecture::Qwen35Moe => {
            let params = qwen35_params::parse_params(gguf, handle, c)?;
            Ok(AnyModel::Qwen35Moe(Qwen35MoeModel::new(params, handle, spec_enabled, mask)?))
        },
    }
}

} // verus!
