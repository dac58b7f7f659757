//! The fixed table of named extension groups.
use vstd::prelude::*;
use crate::text::{str_eq, tail_eq};

verus! {

/// A named set of extensions.
pub struct Group {
    pub name: String,
    pub extensions: Vec<String>,
}

/// Group names mapped to the extensions that belong to each.
pub struct GroupTable {
    pub groups: Vec<Group>,
}

impl View for Group {
    type V = (Seq<char>, Seq<Seq<char>>);

    open spec fn view(&self) -> (Seq<char>, Seq<Seq<char>>) {
        (self.name@, self.extensions@.map_values(|x: String| x@))
    }
}

impl View for GroupTable {
    type V = Seq<(Seq<char>, Seq<Seq<char>>)>;

    open spec fn view(&self) -> Seq<(Seq<char>, Seq<Seq<char>>)> {
        self.groups@.map_values(|g: Group| g@)
    }
}

/// Extension `x` belongs to the group named `g`; an unknown name holds none.
pub open spec fn group_has(t: Seq<(Seq<char>, Seq<Seq<char>>)>, g: Seq<char>, x: Seq<char>) -> bool {
    exists|i: int, j: int| 0 <= i < t.len() && t[i].0 == g && 0 <= j < t[i].1.len() && t[i].1[j] == x
}

/// The standard group table.
pub open spec fn standard_groups() -> Seq<(Seq<char>, Seq<Seq<char>>)> {
    seq![
        ("web"@, seq!["html"@, "htm"@, "css"@, "scss"@, "less"@, "js"@, "jsx"@, "ts"@, "tsx"@]),
        ("docs"@, seq!["md"@, "txt"@, "pdf"@, "doc"@, "docx"@, "odt"@, "rtf"@]),
        ("images"@, seq!["jpg"@, "jpeg"@, "png"@, "gif"@, "svg"@, "webp"@, "bmp"@]),
        ("code"@, seq![
            "py"@, "java"@, "cpp"@, "c"@, "h"@, "hpp"@, "cs"@, "go"@, "rs"@, "php"@, "rb"@, "pl"@,
            "scala"@, "kt"@, "swift"@,
        ]),
        ("config"@, seq!["json"@, "yaml"@, "yml"@, "toml"@, "ini"@, "conf"@, "xml"@]),
        ("data"@, seq!["csv"@, "sql"@, "db"@, "sqlite"@]),
        ("script"@, seq!["sh"@, "bash"@, "zsh"@, "fish"@, "ps1"@, "bat"@, "cmd"@]),
    ]
}

fn strings(xs: &[&str]) -> (r: Vec<String>)
    ensures
        r@.map_values(|x: String| x@) == xs@.map_values(|x: &str| x@),
{
    let mut r: Vec<String> = Vec::new();
    let mut i: usize = 0;
    while i < xs.len()
        invariant
            i <= xs@.len(),
            r@.len() == i,
            forall|k: int| 0 <= k < i ==> r@[k]@ == xs@[k]@,
        decreases xs@.len() - i,
    {
        r.push(String::from_str(xs[i]));
        i = i + 1;
    }
    assert(r@.map_values(|x: String| x@) =~= xs@.map_values(|x: &str| x@));
    r
}

fn group(name: &str, xs: &[&str]) -> (r: Group)
    ensures
        r@ == (name@, xs@.map_values(|x: &str| x@)),
{
    Group { name: String::from_str(name), extensions: strings(xs) }
}

/// The standard group table: web, docs, images, code, config, data, script.
pub fn file_type_groups() -> (r: GroupTable)
    ensures
        r@ == standard_groups(),
{
    let mut groups: Vec<Group> = Vec::new();
    groups.push(group("web", &["html", "htm", "css", "scss", "less", "js", "jsx", "ts", "tsx"]));
    groups.push(group("docs", &["md", "txt", "pdf", "doc", "docx", "odt", "rtf"]));
    groups.push(group("images", &["jpg", "jpeg", "png", "gif", "svg", "webp", "bmp"]));
    groups.push(
        group(
            "code",
            &[
                "py", "java", "cpp", "c", "h", "hpp", "cs", "go", "rs", "php", "rb", "pl", "scala",
                "kt", "swift",
            ],
        ),
    );
    groups.push(group("config", &["json", "yaml", "yml", "toml", "ini", "conf", "xml"]));
    groups.push(group("data", &["csv", "sql", "db", "sqlite"]));
    groups.push(group("script", &["sh", "bash", "zsh", "fish", "ps1", "bat", "cmd"]));
    let r = GroupTable { groups };
    assert(r@ =~~= standard_groups());
    r
}

impl GroupTable {
    /// Extension `x` belongs to the group whose name is the tail of `s` from
    /// position `start` on.
    pub fn has_at(&self, s: &str, start: usize, x: &str) -> (r: bool)
        ensures
            r == (start <= s@.len() && group_has(self@, s@.subrange(start as int, s@.len() as int), x@)),
    {
        let mut i: usize = 0;
        while i < self.groups.len()
            invariant
                i <= self.groups@.len(),
                forall|k: int, j: int|
                    0 <= k < i && start <= s@.len() && self@[k].0 == s@.subrange(start as int, s@.len() as int)
                        && 0 <= j < self@[k].1.len() ==> self@[k].1[j] != x@,
            decreases self.groups@.len() - i,
        {
            let g = &self.groups[i];
            if tail_eq(s, start, g.name.as_str()) {
                let mut j: usize = 0;
                while j < g.extensions.len()
                    invariant
                        i < self.groups@.len(),
                        g == self.groups@[i as int],
                        j <= g.extensions@.len(),
                        start <= s@.len(),
                        self@[i as int].0 == s@.subrange(start as int, s@.len() as int),
                        forall|l: int| 0 <= l < j ==> self@[i as int].1[l] != x@,
                    decreases g.extensions@.len() - j,
                {
                    if str_eq(g.extensions[j].as_str(), x) {
                        assert(self@[i as int].1[j as int] == x@);
                        assert(group_has(self@, s@.subrange(start as int, s@.len() as int), x@));
                        return true;
                    }
                    j = j + 1;
                }
            }
            i = i + 1;
        }
        false
    }
}

} // verus!
