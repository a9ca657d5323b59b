//! The tool's configuration values: the diff renderer choice and the
//! key bindings, with their defaults. Loading them from disk is the
//! shell's business; the library only defines the values.

use vstd::prelude::*;

verus! {

use vstd::string::StringExecFns;

/// The default renderer name.
pub fn default_tool() -> (r: String)
    ensures
        r@ == "raw"@,
{
    String::from_str("raw")
}

/// Renderer configuration.
#[derive(Debug, Clone)]
pub struct DiffConfig {
    pub tool: String,
}

impl Default for DiffConfig {
    fn default() -> (r: DiffConfig)
        ensures
            r.tool@ == "raw"@,
    {
        DiffConfig { tool: default_tool() }
    }
}

/// The default binding for recording the current item.
pub fn key_add() -> (r: String)
    ensures
        r@ == "a"@,
{
    String::from_str("a")
}

/// The default binding for un-recording the current item.
pub fn key_revert() -> (r: String)
    ensures
        r@ == "r"@,
{
    String::from_str("r")
}

/// The default binding for recording everything.
pub fn key_add_all() -> (r: String)
    ensures
        r@ == "A"@,
{
    String::from_str("A")
}

/// The default binding for un-recording everything.
pub fn key_revert_all() -> (r: String)
    ensures
        r@ == "R"@,
{
    String::from_str("R")
}

/// The default binding for entering line selection.
pub fn key_select_mode() -> (r: String)
    ensures
        r@ == "v"@,
{
    String::from_str("v")
}

/// The default binding for toggling a fold.
pub fn key_toggle_fold() -> (r: String)
    ensures
        r@ == " "@,
{
    String::from_str(" ")
}

/// The default binding for jumping to the next hunk.
pub fn key_next_hunk() -> (r: String)
    ensures
        r@ == "n"@,
{
    String::from_str("n")
}

/// The default binding for jumping to the previous hunk.
pub fn key_prev_hunk() -> (r: String)
    ensures
        r@ == "p"@,
{
    String::from_str("p")
}

/// Key-binding configuration.
#[derive(Debug, Clone)]
pub struct KeybindingsConfig {
    pub add: String,
    pub revert: String,
    pub add_all: String,
    pub revert_all: String,
    pub select_mode: String,
    pub toggle_fold: String,
    pub next_hunk: String,
    pub prev_hunk: String,
}

impl Default for KeybindingsConfig {
    fn default() -> (r: KeybindingsConfig)
        ensures
            r.add@ == "a"@,
            r.revert@ == "r"@,
            r.add_all@ == "A"@,
            r.revert_all@ == "R"@,
            r.select_mode@ == "v"@,
            r.toggle_fold@ == " "@,
            r.next_hunk@ == "n"@,
            r.prev_hunk@ == "p"@,
    {
        KeybindingsConfig {
            add: key_add(),
            revert: key_revert(),
            add_all: key_add_all(),
            revert_all: key_revert_all(),
            select_mode: key_select_mode(),
            toggle_fold: key_toggle_fold(),
            next_hunk: key_next_hunk(),
            prev_hunk: key_prev_hunk(),
        }
    }
}

/// The whole configuration.
#[derive(Debug, Clone)]
pub struct Config {
    pub diff: DiffConfig,
    pub keybindings: KeybindingsConfig,
}

impl Default for Config {
    fn default() -> (r: Config)
        ensures
            r.diff.tool@ == "raw"@,
            r.keybindings.add@ == "a"@,
    {
        Config { diff: DiffConfig::default(), keybindings: KeybindingsConfig::default() }
    }
}

} // verus!
