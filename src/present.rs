//! Presentation helpers with a rule behind them: the language tag of a
//! file's content block, the unit a byte size is shown in, and the media
//! type an entry is labelled with.
use vstd::prelude::*;
use crate::text::str_eq;

verus! {

/// The language tag for a file with extension `ext`; `text` for any other.
pub open spec fn language_of(ext: Seq<char>) -> Seq<char> {
    if ext == "py"@ {
        "python"@
    } else if ext == "js"@ {
        "javascript"@
    } else if ext == "jsx"@ {
        "jsx"@
    } else if ext == "ts"@ {
        "typescript"@
    } else if ext == "tsx"@ {
        "tsx"@
    } else if ext == "php"@ {
        "php"@
    } else if ext == "java"@ {
        "java"@
    } else if ext == "rb"@ {
        "ruby"@
    } else if ext == "go"@ {
        "go"@
    } else if ext == "rs"@ {
        "rust"@
    } else if ext == "c"@ {
        "c"@
    } else if ext == "cpp"@ {
        "cpp"@
    } else if ext == "hpp"@ {
        "cpp"@
    } else if ext == "cs"@ {
        "csharp"@
    } else if ext == "scala"@ {
        "scala"@
    } else if ext == "kt"@ {
        "kotlin"@
    } else if ext == "swift"@ {
        "swift"@
    } else if ext == "sh"@ {
        "bash"@
    } else if ext == "bash"@ {
        "bash"@
    } else if ext == "zsh"@ {
        "bash"@
    } else if ext == "fish"@ {
        "fish"@
    } else if ext == "pl"@ {
        "perl"@
    } else if ext == "pm"@ {
        "perl"@
    } else if ext == "t"@ {
        "perl"@
    } else if ext == "css"@ {
        "css"@
    } else if ext == "scss"@ {
        "scss"@
    } else if ext == "less"@ {
        "less"@
    } else if ext == "sql"@ {
        "sql"@
    } else if ext == "md"@ {
        "markdown"@
    } else if ext == "json"@ {
        "json"@
    } else if ext == "xml"@ {
        "xml"@
    } else if ext == "yaml"@ {
        "yaml"@
    } else if ext == "yml"@ {
        "yaml"@
    } else if ext == "toml"@ {
        "toml"@
    } else if ext == "ini"@ {
        "ini"@
    } else if ext == "conf"@ {
        "conf"@
    } else if ext == "txt"@ {
        "text"@
    } else if ext == "csv"@ {
        "csv"@
    } else if ext == "html"@ {
        "html"@
    } else if ext == "htm"@ {
        "html"@
    } else if ext == "Dockerfile"@ {
        "dockerfile"@
    } else if ext == "Makefile"@ {
        "makefile"@
    } else {
        "text"@
    }
}

fn language_tag(ext: &str) -> (r: &'static str)
    ensures
        r@ == language_of(ext@),
{
    if str_eq(ext, "py") {
        "python"
    } else if str_eq(ext, "js") {
        "javascript"
    } else if str_eq(ext, "jsx") {
        "jsx"
    } else if str_eq(ext, "ts") {
        "typescript"
    } else if str_eq(ext, "tsx") {
        "tsx"
    } else if str_eq(ext, "php") {
        "php"
    } else if str_eq(ext, "java") {
        "java"
    } else if str_eq(ext, "rb") {
        "ruby"
    } else if str_eq(ext, "go") {
        "go"
    } else if str_eq(ext, "rs") {
        "rust"
    } else if str_eq(ext, "c") {
        "c"
    } else if str_eq(ext, "cpp") {
        "cpp"
    } else if str_eq(ext, "hpp") {
        "cpp"
    } else if str_eq(ext, "cs") {
        "csharp"
    } else if str_eq(ext, "scala") {
        "scala"
    } else if str_eq(ext, "kt") {
        "kotlin"
    } else if str_eq(ext, "swift") {
        "swift"
    } else if str_eq(ext, "sh") {
        "bash"
    } else if str_eq(ext, "bash") {
        "bash"
    } else if str_eq(ext, "zsh") {
        "bash"
    } else if str_eq(ext, "fish") {
        "fish"
    } else if str_eq(ext, "pl") {
        "perl"
    } else if str_eq(ext, "pm") {
        "perl"
    } else if str_eq(ext, "t") {
        "perl"
    } else if str_eq(ext, "css") {
        "css"
    } else if str_eq(ext, "scss") {
        "scss"
    } else if str_eq(ext, "less") {
        "less"
    } else if str_eq(ext, "sql") {
        "sql"
    } else if str_eq(ext, "md") {
        "markdown"
    } else if str_eq(ext, "json") {
        "json"
    } else if str_eq(ext, "xml") {
        "xml"
    } else if str_eq(ext, "yaml") {
        "yaml"
    } else if str_eq(ext, "yml") {
        "yaml"
    } else if str_eq(ext, "toml") {
        "toml"
    } else if str_eq(ext, "ini") {
        "ini"
    } else if str_eq(ext, "conf") {
        "conf"
    } else if str_eq(ext, "txt") {
        "text"
    } else if str_eq(ext, "csv") {
        "csv"
    } else if str_eq(ext, "html") {
        "html"
    } else if str_eq(ext, "htm") {
        "html"
    } else if str_eq(ext, "Dockerfile") {
        "dockerfile"
    } else if str_eq(ext, "Makefile") {
        "makefile"
    } else {
        "text"
    }
}

/// The language tag for a file's content block, from its extension
/// (none counts as empty).
pub fn guess_language(ext: Option<&str>) -> (r: String)
    ensures
        r@ == language_of(match ext {
            Some(x) => x@,
            None => Seq::empty(),
        }),
{
    proof {
        reveal_strlit("");
    }
    let e = match ext {
        Some(x) => x,
        None => "",
    };
    assert(e@ =~= match ext {
        Some(x) => x@,
        None => Seq::<char>::empty(),
    });
    String::from_str(language_tag(e))
}

/// Bytes in a kibibyte, mebibyte and gibibyte.
pub const KIB: u64 = 1024;
pub const MIB: u64 = 1048576;
pub const GIB: u64 = 1073741824;

/// A byte size in the largest unit it reaches, rounded down: the count and
/// the unit letter (`G`, `M`, `K` or `B`).
pub fn size_unit(size: u64) -> (r: (u64, char))
    ensures
        r == (if size >= GIB {
            (size / GIB, 'G')
        } else if size >= MIB {
            (size / MIB, 'M')
        } else if size >= KIB {
            (size / KIB, 'K')
        } else {
            (size, 'B')
        }),
{
    if size >= GIB {
        (size / GIB, 'G')
    } else if size >= MIB {
        (size / MIB, 'M')
    } else if size >= KIB {
        (size / KIB, 'K')
    } else {
        (size, 'B')
    }
}

/// The media type an entry is labelled with: what the content sniffer
/// reported, or `application/octet-stream` when it reported nothing.
pub fn type_label_of(sniffed: Option<&str>) -> (r: String)
    ensures
        r@ == match sniffed {
            Some(t) => t@,
            None => "application/octet-stream"@,
        },
{
    match sniffed {
        Some(t) => String::from_str(t),
        None => String::from_str("application/octet-stream"),
    }
}

} // verus!
