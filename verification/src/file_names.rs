//! The names of the files that hold modules, their configurations and
//! blueprints.

use vstd::prelude::*;
use vstd::string::StringExecFns;
use crate::blueprint::Blueprint;
use crate::hex::hex_of;
use crate::text::{chars_of, ends_with, has_suffix, string_of};

verus! {

/// The end of the name of a file that holds a module.
pub open spec fn wasm_suffix() -> Seq<char> {
    ".wasm"@
}

/// The end of the name of a file that holds the configuration of a module.
pub open spec fn config_suffix() -> Seq<char> {
    "_config.toml"@
}

/// The end of the name of a file that holds a blueprint.
pub open spec fn blueprint_suffix() -> Seq<char> {
    "_blueprint.toml"@
}

/// What stands before the module suffix in `file_name`, where it ends with
/// that suffix.
pub open spec fn module_stem(file_name: Seq<char>) -> Option<Seq<char>> {
    if has_suffix(file_name, wasm_suffix()) {
        Some(file_name.take(file_name.len() - wasm_suffix().len()))
    } else {
        None
    }
}

/// The name of the file that holds the module with the hash `hash`.
pub fn module_file_name(hash: &crate::hash::Hash) -> (r: String)
    ensures
        r@ == hex_of(hash@) + wasm_suffix(),
{
    hash.to_hex().concat(".wasm")
}

/// The name of the file that holds the configuration of the module with the
/// hash `hash`.
pub fn module_config_name(hash: &crate::hash::Hash) -> (r: String)
    ensures
        r@ == hex_of(hash@) + config_suffix(),
{
    hash.to_hex().concat("_config.toml")
}

/// The name of the file that holds `blueprint`.
pub fn blueprint_file_name(blueprint: &Blueprint) -> (r: String)
    ensures
        r@ == blueprint.id@ + blueprint_suffix(),
{
    blueprint.id.clone().concat("_blueprint.toml")
}

/// Whether a file of this name holds a blueprint.
pub fn is_blueprint(file_name: &str) -> (r: bool)
    ensures
        r == has_suffix(file_name@, blueprint_suffix()),
{
    let name = chars_of(file_name);
    let suffix = chars_of("_blueprint.toml");
    ends_with(&name, &suffix)
}

/// What stands before the module suffix in `file_name`.
pub fn extract_module_file_name(file_name: &str) -> (r: Option<String>)
    ensures
        match r {
            Some(stem) => module_stem(file_name@) == Some(stem@),
            None => module_stem(file_name@) is None,
        },
{
    let name = chars_of(file_name);
    let suffix = chars_of(".wasm");
    if ends_with(&name, &suffix) {
        Some(string_of(&name, 0, name.len() - suffix.len()))
    } else {
        None
    }
}

/// Whether a file of this name holds a module: the name is a stem that is
/// not empty, followed by the module suffix.
pub fn is_module_wasm(file_name: &str) -> (r: bool)
    ensures
        r == (module_stem(file_name@) is Some && module_stem(file_name@).unwrap().len() > 0),
{
    let name = chars_of(file_name);
    let suffix = chars_of(".wasm");
    ends_with(&name, &suffix) && name.len() > suffix.len()
}

} // verus!
