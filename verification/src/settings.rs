//! The tavern settings page: the connection section's state texts and the
//! sampling presets. Sampling values are kept in hundredths (`80` is 0.8).

use vstd::prelude::*;
use crate::text::{chars_of, parse_usize, parse_usize_spec, str_eq};

verus! {

/// The sections of the settings page.
#[derive(Clone, Copy, PartialEq, Eq, Debug, Structural)]
pub enum ActiveSection {
    Connection,
    Sampling,
}

/// The sampling values a preset sets, in hundredths: temperature, top-p,
/// repetition penalty.
#[derive(Clone, Copy, PartialEq, Eq, Debug, Structural)]
pub struct PresetValues {
    pub temperature: u32,
    pub top_p: u32,
    pub rep_penalty: u32,
}

/// The values of a preset: `Creative` 1.1 / 0.98 / 1.15, `Precise` 0.4 / 0.8
/// / 1.05, anything else (the default) 0.8 / 0.95 / 1.1.
pub open spec fn preset_of(name: Seq<char>) -> PresetValues {
    if name == "Creative"@ {
        PresetValues { temperature: 110, top_p: 98, rep_penalty: 115 }
    } else if name == "Precise"@ {
        PresetValues { temperature: 40, top_p: 80, rep_penalty: 105 }
    } else {
        PresetValues { temperature: 80, top_p: 95, rep_penalty: 110 }
    }
}

/// The values a preset choice applies.
pub fn preset_values(name: &str) -> (r: PresetValues)
    ensures
        r == preset_of(name@),
{
    if str_eq(name, "Creative") {
        PresetValues { temperature: 110, top_p: 98, rep_penalty: 115 }
    } else if str_eq(name, "Precise") {
        PresetValues { temperature: 40, top_p: 80, rep_penalty: 105 }
    } else {
        PresetValues { temperature: 80, top_p: 95, rep_penalty: 110 }
    }
}

/// The connection badge.
pub fn connection_label(connected: bool) -> (r: &'static str)
    ensures
        connected ==> r@ == "后端已就绪 (HTTP 200)"@,
        !connected ==> r@ == "未连接或待测试"@,
{
    if connected {
        "后端已就绪 (HTTP 200)"
    } else {
        "未连接或待测试"
    }
}

/// The test button's label.
pub fn test_button_label(testing: bool) -> (r: &'static str)
    ensures
        testing ==> r@ == "检测中…"@,
        !testing ==> r@ == "测试连通"@,
{
    if testing {
        "检测中…"
    } else {
        "测试连通"
    }
}

/// The key input's type and the reveal button's label.
pub fn key_visibility(show_key: bool) -> (r: (&'static str, &'static str))
    ensures
        show_key ==> r.0@ == "text"@ && r.1@ == "隐藏"@,
        !show_key ==> r.0@ == "password"@ && r.1@ == "查看"@,
{
    if show_key {
        ("text", "隐藏")
    } else {
        ("password", "查看")
    }
}

/// The maximum output tokens after typing `text`: its value when it parses
/// as a `u32`, the current value otherwise.
pub fn typed_max_tokens(current: u32, text: &str) -> (r: u32)
    ensures
        match parse_usize_spec(text@) {
            Some(v) => if v <= u32::MAX {
                r == v
            } else {
                r == current
            },
            None => r == current,
        },
{
    let c = chars_of(text);
    match parse_usize(&c) {
        Some(v) => if v <= 4294967295usize {
            v as u32
        } else {
            current
        },
        None => current,
    }
}

/// The streaming switch after the checkbox reports `text`: `true` or
/// `false` as written, on otherwise.
pub fn typed_streaming(text: &str) -> (r: bool)
    ensures
        text@ == "false"@ ==> !r,
        text@ != "false"@ ==> r,
{
    if str_eq(text, "false") {
        false
    } else {
        true
    }
}

} // verus!
