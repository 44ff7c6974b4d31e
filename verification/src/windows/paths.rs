//! Where files lie. A path is given by its parts: a base and what lies below it, one part
//! after the other.

use vstd::prelude::*;
use vstd::string::*;

use crate::apo::object::{encode, utf16};
use crate::decimal::{numeral, write_number};
use crate::store::opt_view;
use crate::text::texts;

verus! {

/// The base where the environment names none.
pub open spec fn default_base() -> Seq<char> {
    "C:\\ProgramData"@
}

/// The parts of the directory that the object reads its configuration from.
pub open spec fn config_parts(program_data: Option<Seq<char>>) -> Seq<Seq<char>> {
    seq![
        match program_data {
            Some(base) => base,
            None => default_base(),
        },
        "ADtune"@,
    ]
}

/// The directory that the object reads its configuration from: `ADtune` below
/// `ProgramData`.
pub fn config_dir(program_data: Option<&str>) -> (r: Vec<String>)
    ensures
        texts(r@) == config_parts(opt_view(program_data)),
{
    let mut r: Vec<String> = Vec::new();
    r.push(
        match program_data {
            Some(base) => base.to_owned(),
            None => "C:\\ProgramData".to_owned(),
        },
    );
    r.push("ADtune".to_owned());
    assert(texts(r@) =~= config_parts(opt_view(program_data)));
    r
}

fn config_file(program_data: Option<&str>, name: &str) -> (r: Vec<String>)
    ensures
        texts(r@) == config_parts(opt_view(program_data)).push(name@),
{
    let mut r: Vec<String> = config_dir(program_data);
    let ghost dir = texts(r@);
    r.push(name.to_owned());
    assert(texts(r@) =~= dir.push(name@));
    r
}

/// The file that the object reads its configuration from.
pub fn config_path(program_data: Option<&str>) -> (r: Vec<String>)
    ensures
        texts(r@) == config_parts(opt_view(program_data)).push("config.txt"@),
{
    config_file(program_data, "config.txt")
}

/// The file of what was applied last.
pub fn state_path(program_data: Option<&str>) -> (r: Vec<String>)
    ensures
        texts(r@) == config_parts(opt_view(program_data)).push("state.json"@),
{
    config_file(program_data, "state.json")
}

/// The file in which the elevated helper says what came of its run.
pub fn result_path(program_data: Option<&str>) -> (r: Vec<String>)
    ensures
        texts(r@) == config_parts(opt_view(program_data)).push("last-op.txt"@),
{
    config_file(program_data, "last-op.txt")
}

/// The UTF-16 units of the parts of a path.
pub open spec fn units(parts: Seq<Vec<u16>>) -> Seq<Seq<u16>> {
    Seq::new(parts.len(), |i: int| parts[i]@)
}

/// The base of what belongs to the user.
pub open spec fn user_base(app_data: Option<Vec<u16>>) -> Seq<u16> {
    match app_data {
        Some(base) => base@,
        None => utf16(default_base()),
    }
}

/// The library of saved profiles, which belongs to the user, unlike the directory of the
/// configuration: `ADtune\profiles` below `APPDATA`. What the variable holds need not be
/// well-formed text and is kept unit by unit.
pub fn user_profiles_dir(app_data: Option<Vec<u16>>) -> (r: Vec<Vec<u16>>)
    ensures
        units(r@) == seq![user_base(app_data), utf16("ADtune"@), utf16("profiles"@)],
{
    let ghost base = user_base(app_data);
    let mut r: Vec<Vec<u16>> = Vec::new();
    r.push(
        match app_data {
            Some(base) => base,
            None => encode("C:\\ProgramData"),
        },
    );
    r.push(encode("ADtune"));
    r.push(encode("profiles"));
    assert(units(r@) =~= seq![base, utf16("ADtune"@), utf16("profiles"@)]);
    r
}

/// The path of a tool of the system: it lies in the system directory, whatever the search
/// path holds.
pub fn tool_path(system_root: Option<&str>, tool: &str) -> (r: String)
    ensures
        r@ == match system_root {
            Some(root) => root@,
            None => "C:\\Windows"@,
        } + "\\System32\\"@ + tool@,
{
    let root: String = match system_root {
        Some(root) => root.to_owned(),
        None => "C:\\Windows".to_owned(),
    };
    root.concat("\\System32\\").concat(tool)
}

/// The name of the file that is written before it takes the place of another. It holds the
/// number of the process, so that two processes do not write to the same one.
pub fn temp_name(name: &str, pid: u32) -> (r: String)
    ensures
        r@ == "."@ + name@ + "."@ + numeral(pid as nat) + ".tmp"@,
{
    ".".to_owned().concat(name).concat(".").concat(&write_number(pid as u64)).concat(".tmp")
}

} // verus!
