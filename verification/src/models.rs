//! Core data model: languages, chunks and index metadata.
use vstd::prelude::*;
use crate::text::{all_ascii, ascii_lower_char, str_eq, to_lowercase, std_to_lowercase};

verus! {

/// A source language the indexer knows about.
#[derive(Clone, Copy, Debug, PartialEq, Eq, Structural)]
pub enum Language {
    Python,
    Java,
    TypeScript,
    JavaScript,
    Cpp,
    Go,
    Rust,
    Ruby,
    Php,
    CSharp,
    C,
    Unknown,
}

/// The language of a file extension (without the dot).
pub open spec fn language_of_extension(e: Seq<char>) -> Language {
    if e == "py"@ {
        Language::Python
    } else if e == "java"@ {
        Language::Java
    } else if e == "ts"@ || e == "tsx"@ {
        Language::TypeScript
    } else if e == "js"@ || e == "jsx"@ {
        Language::JavaScript
    } else if e == "cpp"@ || e == "cxx"@ || e == "cc"@ || e == "hpp"@ || e == "hh"@ {
        Language::Cpp
    } else if e == "go"@ {
        Language::Go
    } else if e == "rs"@ {
        Language::Rust
    } else if e == "rb"@ {
        Language::Ruby
    } else if e == "php"@ {
        Language::Php
    } else if e == "cs"@ {
        Language::CSharp
    } else if e == "c"@ || e == "h"@ {
        Language::C
    } else {
        Language::Unknown
    }
}

/// The language of an already lower-cased language name or alias.
pub open spec fn language_of_lower_name(n: Seq<char>) -> Language {
    if n == "python"@ || n == "py"@ {
        Language::Python
    } else if n == "java"@ {
        Language::Java
    } else if n == "typescript"@ || n == "ts"@ || n == "tsx"@ {
        Language::TypeScript
    } else if n == "javascript"@ || n == "js"@ || n == "jsx"@ {
        Language::JavaScript
    } else if n == "cpp"@ || n == "c++"@ || n == "cc"@ || n == "cxx"@ || n == "hpp"@ || n
        == "hh"@ {
        Language::Cpp
    } else if n == "go"@ || n == "golang"@ {
        Language::Go
    } else if n == "rust"@ || n == "rs"@ {
        Language::Rust
    } else if n == "ruby"@ || n == "rb"@ {
        Language::Ruby
    } else if n == "php"@ {
        Language::Php
    } else if n == "csharp"@ || n == "c#"@ || n == "cs"@ {
        Language::CSharp
    } else if n == "c"@ {
        Language::C
    } else {
        Language::Unknown
    }
}

/// The display name of a language.
pub open spec fn language_name(l: Language) -> Seq<char> {
    match l {
        Language::Python => "python"@,
        Language::Java => "java"@,
        Language::TypeScript => "typescript"@,
        Language::JavaScript => "javascript"@,
        Language::Cpp => "cpp"@,
        Language::Go => "go"@,
        Language::Rust => "rust"@,
        Language::Ruby => "ruby"@,
        Language::Php => "php"@,
        Language::CSharp => "csharp"@,
        Language::C => "c"@,
        Language::Unknown => "unknown"@,
    }
}

impl Language {
    /// Maps a file extension to its language; unknown extensions give
    /// `Language::Unknown`. Matching is case-sensitive.
    pub fn from_extension(ext: &str) -> (l: Language)
        ensures
            l == language_of_extension(ext@),
    {
        if str_eq(ext, "py") {
            Language::Python
        } else if str_eq(ext, "java") {
            Language::Java
        } else if str_eq(ext, "ts") || str_eq(ext, "tsx") {
            Language::TypeScript
        } else if str_eq(ext, "js") || str_eq(ext, "jsx") {
            Language::JavaScript
        } else if str_eq(ext, "cpp") || str_eq(ext, "cxx") || str_eq(ext, "cc") || str_eq(
            ext,
            "hpp",
        ) || str_eq(ext, "hh") {
            Language::Cpp
        } else if str_eq(ext, "go") {
            Language::Go
        } else if str_eq(ext, "rs") {
            Language::Rust
        } else if str_eq(ext, "rb") {
            Language::Ruby
        } else if str_eq(ext, "php") {
            Language::Php
        } else if str_eq(ext, "cs") {
            Language::CSharp
        } else if str_eq(ext, "c") || str_eq(ext, "h") {
            Language::C
        } else {
            Language::Unknown
        }
    }

    /// Maps a lower-case language name or alias to its language.
    pub fn from_lower_name(n: &str) -> (l: Language)
        ensures
            l == language_of_lower_name(n@),
    {
        if str_eq(n, "python") || str_eq(n, "py") {
            Language::Python
        } else if str_eq(n, "java") {
            Language::Java
        } else if str_eq(n, "typescript") || str_eq(n, "ts") || str_eq(n, "tsx") {
            Language::TypeScript
        } else if str_eq(n, "javascript") || str_eq(n, "js") || str_eq(n, "jsx") {
            Language::JavaScript
        } else if str_eq(n, "cpp") || str_eq(n, "c++") || str_eq(n, "cc") || str_eq(n, "cxx")
            || str_eq(n, "hpp") || str_eq(n, "hh") {
            Language::Cpp
        } else if str_eq(n, "go") || str_eq(n, "golang") {
            Language::Go
        } else if str_eq(n, "rust") || str_eq(n, "rs") {
            Language::Rust
        } else if str_eq(n, "ruby") || str_eq(n, "rb") {
            Language::Ruby
        } else if str_eq(n, "php") {
            Language::Php
        } else if str_eq(n, "csharp") || str_eq(n, "c#") || str_eq(n, "cs") {
            Language::CSharp
        } else if str_eq(n, "c") {
            Language::C
        } else {
            Language::Unknown
        }
    }

    /// Maps a language name or alias, in any letter case, to its language.
    pub fn from_name(name: &str) -> (l: Language)
        ensures
            l == language_of_lower_name(std_to_lowercase(name@)),
            all_ascii(name@) ==> l == language_of_lower_name(name@.map_values(|c: char| ascii_lower_char(c))),
    {
        let lower = to_lowercase(name);
        Language::from_lower_name(lower.as_str())
    }

    /// The lower-case display name of the language.
    pub fn name(&self) -> (s: &'static str)
        ensures
            s@ == language_name(*self),
    {
        match self {
            Language::Python => "python",
            Language::Java => "java",
            Language::TypeScript => "typescript",
            Language::JavaScript => "javascript",
            Language::Cpp => "cpp",
            Language::Go => "go",
            Language::Rust => "rust",
            Language::Ruby => "ruby",
            Language::Php => "php",
            Language::CSharp => "csharp",
            Language::C => "c",
            Language::Unknown => "unknown",
        }
    }
}

/// A contiguous piece of a source file (lines are 1-indexed).
#[derive(Clone, Debug)]
pub struct Chunk {
    pub id: String,
    pub language: Language,
    pub file_path: String,
    pub start_line: usize,
    pub end_line: usize,
    pub start_byte: Option<usize>,
    pub end_byte: Option<usize>,
    /// e.g. "function_definition"
    pub node_type: String,
    pub content_hash: String,
    pub content: String,
    /// e.g. "class Foo"
    pub parent_scope: Option<String>,
    /// Ancestors, outermost first.
    pub scope_path: Vec<String>,
}

/// What the index remembers about one source file.
#[derive(Clone, Debug)]
pub struct FileMetadata {
    pub path: String,
    pub content_hash: String,
    /// Seconds since the Unix epoch.
    pub last_modified: u64,
    pub chunk_ids: Vec<String>,
}

/// The index's record of all files.
#[derive(Clone, Debug)]
pub struct IndexMetadata {
    pub version: String,
    pub files: Vec<FileMetadata>,
}

impl Default for IndexMetadata {
    fn default() -> (m: Self)
        ensures
            m.version@ == "1"@,
            m.files@.len() == 0,
    {
        IndexMetadata { version: "1".to_owned(), files: Vec::new() }
    }
}

impl std::str::FromStr for Language {
    type Err = ();

    /// Reads a language's name in any case; unknown names give `Unknown`.
    fn from_str(s: &str) -> (r: Result<Language, ()>)
        ensures
            r == Ok::<Language, ()>(language_of_lower_name(std_to_lowercase(s@))),
    {
        Ok(Language::from_name(s))
    }
}

/// ASCII upper-casing of a character.
pub open spec fn ascii_upper_char(c: char) -> char {
    if 'a' <= c && c <= 'z' {
        ((c as u32) - 32) as char
    } else {
        c
    }
}

/// Every language's display name reads back as that language.
pub proof fn law_name_round_trip(l: Language)
    ensures
        language_of_lower_name(language_name(l)) == l,
        language_of_lower_name(language_name(l).map_values(|c: char| ascii_lower_char(c))) == l,
        all_ascii(language_name(l)),
{
    reveal_strlit("python");
    reveal_strlit("py");
    reveal_strlit("java");
    reveal_strlit("typescript");
    reveal_strlit("ts");
    reveal_strlit("tsx");
    reveal_strlit("javascript");
    reveal_strlit("js");
    reveal_strlit("jsx");
    reveal_strlit("cpp");
    reveal_strlit("c++");
    reveal_strlit("cc");
    reveal_strlit("cxx");
    reveal_strlit("hpp");
    reveal_strlit("hh");
    reveal_strlit("go");
    reveal_strlit("golang");
    reveal_strlit("rust");
    reveal_strlit("rs");
    reveal_strlit("ruby");
    reveal_strlit("rb");
    reveal_strlit("php");
    reveal_strlit("csharp");
    reveal_strlit("c#");
    reveal_strlit("cs");
    reveal_strlit("c");
    reveal_strlit("unknown");
    let n = language_name(l);
    assert(n.map_values(|c: char| ascii_lower_char(c)) =~= n);
    assert("javascript"@[0] != "typescript"@[0]);
    assert("cpp"@[0] != "tsx"@[0] && "cpp"@[0] != "jsx"@[0]);
    assert("go"@[0] != "py"@[0] && "go"@[0] != "ts"@[0] && "go"@[0] != "js"@[0] && "go"@[0] != "cc"@[0]
        && "go"@[0] != "hh"@[0]);
    assert("rust"@[0] != "java"@[0]);
    assert("ruby"@[0] != "java"@[0] && "ruby"@[2] != "rust"@[2]);
    assert("php"@[0] != "tsx"@[0] && "php"@[0] != "jsx"@[0] && "php"@[0] != "cpp"@[0] && "php"@[0] != "c++"@[0]
        && "php"@[0] != "cxx"@[0] && "php"@[0] != "hpp"@[0]);
    assert("csharp"@[0] != "python"@[0] && "csharp"@[0] != "golang"@[0]);
}

/// On ASCII names, reading a language does not depend on letter case: the
/// upper-cased name lower-cases to the same text.
pub proof fn law_name_case_insensitive(s: Seq<char>)
    requires
        all_ascii(s),
    ensures
        all_ascii(s.map_values(|c: char| ascii_upper_char(c))),
        s.map_values(|c: char| ascii_upper_char(c)).map_values(|c: char| ascii_lower_char(c)) == s.map_values(
            |c: char| ascii_lower_char(c),
        ),
        language_of_lower_name(
            s.map_values(|c: char| ascii_upper_char(c)).map_values(|c: char| ascii_lower_char(c)),
        ) == language_of_lower_name(s.map_values(|c: char| ascii_lower_char(c))),
{
    let u = s.map_values(|c: char| ascii_upper_char(c));
    assert forall|i: int| 0 <= i < u.len() implies (#[trigger] u[i] as u32) < 128 by {
        assert((s[i] as u32) < 128);
    }
    assert(u.map_values(|c: char| ascii_lower_char(c)) =~= s.map_values(|c: char| ascii_lower_char(c)));
}


/// Whether a text is made of lower-case ASCII letters only.
pub open spec fn lower_letters(s: Seq<char>) -> bool {
    forall|i: int| 0 <= i < s.len() ==> 'a' <= #[trigger] s[i] <= 'z'
}

/// A file extension and a language name agree: every extension the indexer
/// knows, apart from the C header extension `h`, also names its language;
/// and every language alias of at most three lower-case letters is also an
/// extension of that language. So the short names `go`, `rs`, `py`, ... are
/// exactly the extensions, and each language (`language_name` round-trips
/// through the names) keeps its extensions.
pub proof fn law_extension_names(e: Seq<char>)
    ensures
        language_of_extension(e) != Language::Unknown && e != "h"@ ==> language_of_lower_name(e)
            == language_of_extension(e),
        language_of_lower_name(e) != Language::Unknown && e.len() <= 3 && lower_letters(e)
            ==> language_of_extension(e) == language_of_lower_name(e),
{
    reveal_strlit("py");
    reveal_strlit("java");
    reveal_strlit("ts");
    reveal_strlit("tsx");
    reveal_strlit("js");
    reveal_strlit("jsx");
    reveal_strlit("cpp");
    reveal_strlit("cxx");
    reveal_strlit("cc");
    reveal_strlit("hpp");
    reveal_strlit("hh");
    reveal_strlit("go");
    reveal_strlit("rs");
    reveal_strlit("rb");
    reveal_strlit("php");
    reveal_strlit("cs");
    reveal_strlit("c");
    reveal_strlit("h");
    reveal_strlit("python");
    reveal_strlit("typescript");
    reveal_strlit("javascript");
    reveal_strlit("c++");
    reveal_strlit("golang");
    reveal_strlit("rust");
    reveal_strlit("ruby");
    reveal_strlit("csharp");
    reveal_strlit("c#");
    if language_of_lower_name(e) != Language::Unknown && e.len() <= 3 && lower_letters(e) {
        if e == "c++"@ {
            assert(!('a' <= e[1] <= 'z'));
        }
        if e == "c#"@ {
            assert(!('a' <= e[1] <= 'z'));
        }
    }
}

/// Every language the indexer knows has a file extension, and the short
/// name of each of Go, Rust, Ruby, PHP, C# and C is its extension.
pub proof fn law_every_language_has_extension(l: Language)
    requires
        l != Language::Unknown,
    ensures
        exists|e: Seq<char>| language_of_extension(e) == l,
        language_name(l).len() <= 3 ==> language_of_extension(language_name(l)) == l,
{
    reveal_strlit("py");
    reveal_strlit("java");
    reveal_strlit("ts");
    reveal_strlit("tsx");
    reveal_strlit("js");
    reveal_strlit("jsx");
    reveal_strlit("cpp");
    reveal_strlit("cxx");
    reveal_strlit("cc");
    reveal_strlit("hpp");
    reveal_strlit("hh");
    reveal_strlit("go");
    reveal_strlit("rs");
    reveal_strlit("rb");
    reveal_strlit("php");
    reveal_strlit("cs");
    reveal_strlit("c");
    reveal_strlit("h");
    reveal_strlit("python");
    reveal_strlit("typescript");
    reveal_strlit("javascript");
    reveal_strlit("c++");
    reveal_strlit("golang");
    reveal_strlit("rust");
    reveal_strlit("ruby");
    reveal_strlit("csharp");
    reveal_strlit("c#");
    assert("py"@.len() == 2 && "py"@[0] == 'p' && "py"@[1] == 'y');
    assert("java"@.len() == 4 && "java"@[0] == 'j' && "java"@[1] == 'a' && "java"@[2] == 'v' && "java"@[3] == 'a');
    assert("ts"@.len() == 2 && "ts"@[0] == 't' && "ts"@[1] == 's');
    assert("tsx"@.len() == 3 && "tsx"@[0] == 't' && "tsx"@[1] == 's' && "tsx"@[2] == 'x');
    assert("js"@.len() == 2 && "js"@[0] == 'j' && "js"@[1] == 's');
    assert("jsx"@.len() == 3 && "jsx"@[0] == 'j' && "jsx"@[1] == 's' && "jsx"@[2] == 'x');
    assert("cpp"@.len() == 3 && "cpp"@[0] == 'c' && "cpp"@[1] == 'p' && "cpp"@[2] == 'p');
    assert("cxx"@.len() == 3 && "cxx"@[0] == 'c' && "cxx"@[1] == 'x' && "cxx"@[2] == 'x');
    assert("cc"@.len() == 2 && "cc"@[0] == 'c' && "cc"@[1] == 'c');
    assert("hpp"@.len() == 3 && "hpp"@[0] == 'h' && "hpp"@[1] == 'p' && "hpp"@[2] == 'p');
    assert("hh"@.len() == 2 && "hh"@[0] == 'h' && "hh"@[1] == 'h');
    assert("go"@.len() == 2 && "go"@[0] == 'g' && "go"@[1] == 'o');
    assert("rs"@.len() == 2 && "rs"@[0] == 'r' && "rs"@[1] == 's');
    assert("rb"@.len() == 2 && "rb"@[0] == 'r' && "rb"@[1] == 'b');
    assert("php"@.len() == 3 && "php"@[0] == 'p' && "php"@[1] == 'h' && "php"@[2] == 'p');
    assert("cs"@.len() == 2 && "cs"@[0] == 'c' && "cs"@[1] == 's');
    assert("c"@.len() == 1 && "c"@[0] == 'c');
    assert("h"@.len() == 1 && "h"@[0] == 'h');
    match l {
        Language::Python => {
            assert(language_of_extension("py"@) == l);
        },
        Language::Java => {
            assert(language_of_extension("java"@) == l);
        },
        Language::TypeScript => {
            assert(language_of_extension("ts"@) == l);
        },
        Language::JavaScript => {
            assert(language_of_extension("js"@) == l);
        },
        Language::Cpp => {
            assert(language_of_extension("cpp"@) == l);
        },
        Language::Go => {
            assert(language_of_extension("go"@) == l);
        },
        Language::Rust => {
            assert(language_of_extension("rs"@) == l);
        },
        Language::Ruby => {
            assert(language_of_extension("rb"@) == l);
        },
        Language::Php => {
            assert(language_of_extension("php"@) == l);
        },
        Language::CSharp => {
            assert(language_of_extension("cs"@) == l);
        },
        Language::C => {
            assert(language_of_extension("c"@) == l);
        },
        Language::Unknown => {},
    }
}

} // verus!
