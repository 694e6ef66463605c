//! Which files of a repository are indexed: those with a known language.
use vstd::prelude::*;
use crate::models::{language_of_extension, Language};
use crate::pathname::{path_extension, std_path_extension};

verus! {

/// A file found in a repository, with its language.
#[derive(Debug)]
pub struct ScannedFile {
    pub path: String,
    pub language: Language,
}

/// The language a file is indexed in: that of its extension, when the
/// extension names a known language.
pub open spec fn scanned_language_spec(path: Seq<char>) -> Option<Language> {
    match std_path_extension(path) {
        Some(e) => if language_of_extension(e) != Language::Unknown {
            Some(language_of_extension(e))
        } else {
            None
        },
        None => None,
    }
}

/// The language a file is indexed in, if any.
pub fn scanned_language(path: &str) -> (r: Option<Language>)
    ensures
        r == scanned_language_spec(path@),
{
    match path_extension(path) {
        Some(e) => {
            let lang = Language::from_extension(e.as_str());
            if lang != Language::Unknown {
                Some(lang)
            } else {
                None
            }
        },
        None => None,
    }
}

/// The files among `paths` that are indexed, in order, with their
/// languages.
pub open spec fn scanned_upto(paths: Seq<Seq<char>>, n: int) -> Seq<(Seq<char>, Language)>
    decreases n,
{
    if n <= 0 {
        seq![]
    } else {
        match scanned_language_spec(paths[n - 1]) {
            Some(l) => scanned_upto(paths, n - 1).push((paths[n - 1], l)),
            None => scanned_upto(paths, n - 1),
        }
    }
}

/// Keeps the files of a walk that have a known language.
pub fn scan_files(paths: &Vec<String>) -> (r: Vec<ScannedFile>)
    ensures
        r@.map_values(|f: ScannedFile| (f.path@, f.language)) == scanned_upto(
            crate::graph::strs(paths@),
            paths@.len() as int,
        ),
{
    let ghost ps = crate::graph::strs(paths@);
    let mut out: Vec<ScannedFile> = Vec::new();
    let mut i: usize = 0;
    while i < paths.len()
        invariant
            0 <= i <= paths.len(),
            ps == crate::graph::strs(paths@),
            out@.map_values(|f: ScannedFile| (f.path@, f.language)) == scanned_upto(ps, i as int),
        decreases paths.len() - i,
    {
        assert(ps[i as int] == paths@[i as int]@);
        match scanned_language(paths[i].as_str()) {
            Some(l) => {
                let ghost before = out@.map_values(|f: ScannedFile| (f.path@, f.language));
                out.push(ScannedFile { path: paths[i].clone(), language: l });
                assert(out@.map_values(|f: ScannedFile| (f.path@, f.language)) =~= before.push((ps[i as int], l)));
            },
            None => {},
        }
        i = i + 1;
    }
    out
}

} // verus!
