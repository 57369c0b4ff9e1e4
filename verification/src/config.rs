//! The launcher's configuration file (`tera_config.ini`): what it must hold
//! and the messages given when it does not.
use vstd::prelude::*;
use crate::text::{chars_of, owned, contains_chars, contains_seq};

verus! {

broadcast use vstd::string::group_string_axioms;

/// The `[game]` section of the configuration, as far as the launcher reads
/// it: its `path` and `lang` keys.
pub struct GameSection {
    pub path: Option<String>,
    pub lang: Option<String>,
}

/// The game folder and language from the configuration file, or why they
/// cannot be had: no file, no `[game]` section, or a key missing (`path`
/// is looked at first).
pub fn game_config(file_found: bool, section: Option<GameSection>) -> (r: Result<(String, String), String>)
    ensures
        !file_found ==> (r matches Err(e) && e@ == "Config file not found"@),
        file_found ==> match section {
            None => r matches Err(e) && e@ == "Game section not found in config"@,
            Some(s) => match (s.path, s.lang) {
                (None, _) => r matches Err(e) && e@ == "Game path not found in config"@,
                (Some(_), None) => r matches Err(e) && e@ == "Game language not found in config"@,
                (Some(p), Some(l)) => r == Ok::<(String, String), String>((p, l)),
            },
        },
{
    if !file_found {
        return Err(owned("Config file not found"));
    }
    match section {
        None => Err(owned("Game section not found in config")),
        Some(s) => match (s.path, s.lang) {
            (None, _) => Err(owned("Game path not found in config")),
            (Some(_), None) => Err(owned("Game language not found in config")),
            (Some(p), Some(l)) => Ok((p, l)),
        },
    }
}

/// The message the front end gets for a failed read of the game folder: a
/// missing configuration file is reported as such, other errors as they are.
pub fn game_path_error_message(e: String) -> (m: String)
    ensures
        contains_seq(e@, "Config file not found"@) ==> m@ == "tera_config.ini is missing"@,
        !contains_seq(e@, "Config file not found"@) ==> m == e,
{
    let cs = chars_of(e.as_str());
    let pat = chars_of("Config file not found");
    if contains_chars(cs.as_slice(), pat.as_slice()) {
        owned("tera_config.ini is missing")
    } else {
        e
    }
}

/// The keys written to the `[game]` section when the game folder is chosen:
/// the default language `EUR`, then the folder.
pub fn game_section_entries(path: String) -> (v: Vec<(String, String)>)
    ensures
        v@.len() == 2,
        v@[0].0@ == "lang"@ && v@[0].1@ == "EUR"@,
        v@[1].0@ == "path"@ && v@[1].1 == path,
{
    let mut v: Vec<(String, String)> = Vec::new();
    v.push((owned("lang"), owned("EUR")));
    v.push((owned("path"), path));
    v
}

/// The first of the candidate places (current folder, its parent, the
/// executable's folder) where the configuration file exists.
pub fn first_existing(exists: &Vec<bool>) -> (r: Option<usize>)
    ensures
        match r {
            Some(i) => i < exists@.len() && exists@[i as int]
                && forall|j: int| 0 <= j < i ==> !exists@[j],
            None => forall|j: int| 0 <= j < exists@.len() ==> !exists@[j],
        },
{
    let mut i: usize = 0;
    while i < exists.len()
        invariant
            i <= exists@.len(),
            forall|j: int| 0 <= j < i ==> !exists@[j],
        decreases exists.len() - i,
    {
        if exists[i] {
            return Some(i);
        }
        i = i + 1;
    }
    None
}

} // verus!
