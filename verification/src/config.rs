//! Settings of a run: language, server command and directories.
use vstd::prelude::*;
use crate::text::chars_of;

verus! {

/// Language of the interface strings.
#[derive(Clone, Copy, PartialEq, Eq, Structural, Debug)]
pub enum Lang {
    En,
    Zh,
}

/// The language an environment value such as `LANG=zh_CN.UTF-8` selects:
/// Chinese when it starts with `zh` in any letter case, English otherwise.
pub open spec fn spec_lang_from_env(v: Seq<char>) -> Lang {
    if v.len() >= 2 && (v[0] == 'z' || v[0] == 'Z') && (v[1] == 'h' || v[1] == 'H') {
        Lang::Zh
    } else {
        Lang::En
    }
}

/// The language for the value of `LANG`.
pub fn lang_from_env(v: &str) -> (l: Lang)
    ensures
        l == spec_lang_from_env(v@),
{
    let c = chars_of(v);
    if c.len() >= 2 && (c[0] == 'z' || c[0] == 'Z') && (c[1] == 'h' || c[1] == 'H') {
        Lang::Zh
    } else {
        Lang::En
    }
}

/// The run settings, as `observer.json` holds them.
#[derive(Clone, Debug)]
pub struct Config {
    pub server_dir: Option<String>,
    pub server_cmd: Vec<String>,
    pub lang: Lang,
    pub scenarios_dir: String,
    pub selected_scenarios: Vec<String>,
    pub results_dir: String,
}

pub fn default_scenarios_dir() -> (r: String)
    ensures
        r@ == "./scenarios"@,
{
    "./scenarios".to_owned()
}

pub fn default_results_dir() -> (r: String)
    ensures
        r@ == "./results"@,
{
    "./results".to_owned()
}

impl Config {
    /// The settings before any are chosen, in the given language.
    pub fn default_with_lang(lang: Lang) -> (c: Config)
        ensures
            c.server_dir is None,
            c.server_cmd@.len() == 0,
            c.lang == lang,
            c.scenarios_dir@ == "./scenarios"@,
            c.selected_scenarios@.len() == 0,
            c.results_dir@ == "./results"@,
    {
        Config {
            server_dir: None,
            server_cmd: Vec::new(),
            lang,
            scenarios_dir: default_scenarios_dir(),
            selected_scenarios: Vec::new(),
            results_dir: default_results_dir(),
        }
    }
}

/// What starting the server came to.
#[derive(Clone, Copy, PartialEq, Eq, Structural, Debug)]
pub enum StartOutcome {
    Started,
    AlreadyRunning,
}

} // verus!
