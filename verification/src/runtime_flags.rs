//! Switches. Builds without instrumentation have the diagnostic ones off.
use vstd::prelude::*;
use vstd::string::*;

use crate::models::qwen35_weights::{all_off, QwenSwitches, Shown};
use crate::text::{parse_u32, str_eq, u32_of};

verus! {

/// The number that a variable was set to, if it was set to one.
pub open spec fn number_of(value: Option<&str>) -> Option<u32> {
    match value {
        Some(v) => u32_of(v@),
        None => None,
    }
}

/// The number that a variable was set to, if it was set to one.
pub fn parsed_number(value: Option<&str>) -> (r: Option<u32>)
    ensures
        r == number_of(value),
{
    match value {
        Some(v) => parse_u32(v),
        None => None,
    }
}

/// Layers that a pass is cut off after, from what the variable for it was set to:
/// none in a build without instrumentation.
pub fn qwen_max_layers(instrumented: bool, value: Option<&str>) -> (r: Option<u32>)
    ensures
        !instrumented ==> r is None,
        instrumented ==> r == number_of(value),
{
    if instrumented {
        parsed_number(value)
    } else {
        None
    }
}

/// The intermediate value that is shown in place of the output, from what the
/// variable for it was set to: none in a build without instrumentation.
pub fn qwen_ssm_dump<'a>(instrumented: bool, value: Option<&'a str>) -> (r: Option<&'a str>)
    ensures
        r == if instrumented {
            value
        } else {
            None
        },
{
    if instrumented {
        value
    } else {
        None
    }
}

/// Whether passes are timed: in an instrumented build, where the variable for it is
/// set.
pub fn profile_forward(instrumented: bool, set: bool) -> (r: bool)
    ensures
        r == (instrumented && set),
{
    instrumented && set
}

/// The value that a name stands for.
pub open spec fn shown_named(name: Seq<char>) -> Shown {
    if name == "alpha"@ {
        Shown::Alpha
    } else if name == "beta"@ {
        Shown::Beta
    } else if name == "qkv"@ {
        Shown::Qkv
    } else if name == "conv"@ {
        Shown::Conv
    } else if name == "gdn_attn"@ {
        Shown::Scan
    } else if name == "gated"@ {
        Shown::Gated
    } else if name == "proj"@ {
        Shown::Proj
    } else {
        Shown::Other
    }
}

/// The value that a name stands for.
pub fn shown_of(name: &str) -> (r: Shown)
    ensures
        r == shown_named(name@),
{
    if str_eq(name, "alpha") {
        Shown::Alpha
    } else if str_eq(name, "beta") {
        Shown::Beta
    } else if str_eq(name, "qkv") {
        Shown::Qkv
    } else if str_eq(name, "conv") {
        Shown::Conv
    } else if str_eq(name, "gdn_attn") {
        Shown::Scan
    } else if str_eq(name, "gated") {
        Shown::Gated
    } else if str_eq(name, "proj") {
        Shown::Proj
    } else {
        Shown::Other
    }
}

/// The variables that cut off or skip parts of a Qwen 3.5 pass: whether each is
/// set, or what it is set to.
#[derive(Clone, Copy)]
pub struct QwenVariables<'a> {
    pub max_layers: Option<&'a str>,
    pub diff_dump: bool,
    pub no_attn: bool,
    pub no_ssm: bool,
    pub no_moe: bool,
    pub only_rms: bool,
    pub no_conv: bool,
    pub gdn_scale: Option<&'a str>,
    pub ssm_dump: Option<&'a str>,
    pub no_routed: bool,
    pub no_shared: bool,
}

/// What the variables switch in an instrumented build.
pub open spec fn switched_by<F>(v: QwenVariables, one: F) -> QwenSwitches<F> {
    QwenSwitches {
        max_layers: number_of(v.max_layers),
        keep_scratch: v.diff_dump,
        no_attn: v.no_attn,
        no_ssm: v.no_ssm,
        no_moe: v.no_moe,
        only_rms: v.only_rms,
        no_conv: v.no_conv,
        gdn_scale: if v.gdn_scale matches Some(s) && s@ == "one"@ {
            Some(one)
        } else {
            None
        },
        shown: match v.ssm_dump {
            Some(name) => Some(shown_named(name@)),
            None => None,
        },
        no_routed: v.no_routed,
        no_shared: v.no_shared,
    }
}

/// The switches of a Qwen 3.5 model: all off in a build without instrumentation.
pub fn qwen_switches<F: Copy>(instrumented: bool, v: QwenVariables, one: F) -> (r: QwenSwitches<F>)
    ensures
        r == if instrumented {
            switched_by(v, one)
        } else {
            all_off()
        },
{
    if !instrumented {
        return QwenSwitches::off();
    }
    QwenSwitches {
        max_layers: qwen_max_layers(instrumented, v.max_layers),
        keep_scratch: v.diff_dump,
        no_attn: v.no_attn,
        no_ssm: v.no_ssm,
        no_moe: v.no_moe,
        only_rms: v.only_rms,
        no_conv: v.no_conv,
        gdn_scale: match v.gdn_scale {
            Some(s) => if str_eq(s, "one") {
                Some(one)
            } else {
                None
            },
            None => None,
        },
        shown: match qwen_ssm_dump(instrumented, v.ssm_dump) {
            Some(name) => Some(shown_of(name)),
            None => None,
        },
        no_routed: v.no_routed,
        no_shared: v.no_shared,
    }
}

/// Whether a switch that is on by default was set to `0`.
pub fn switched_off(value: Option<&str>) -> (r: bool)
    ensures
        r == (value matches Some(v) && v@ == "0"@),
{
    match value {
        Some(v) => str_eq(v, "0"),
        None => false,
    }
}

/// Whether a switch that is off by default was set to `1`.
pub fn switched_on(value: Option<&str>) -> (r: bool)
    ensures
        r == (value matches Some(v) && v@ == "1"@),
{
    match value {
        Some(v) => str_eq(v, "1"),
        None => false,
    }
}

} // verus!
