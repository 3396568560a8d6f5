//! The language catalog: configuration data mapping file extensions to
//! language names, and extension-based language detection.

use vstd::prelude::*;

use crate::strutil::{spec_extension, str_views};

verus! {

/// The coarse class of a catalog entry.
#[derive(Clone, Copy, Debug, PartialEq, Eq, Structural)]
pub enum LangType {
    Data,
    Markup,
    Programming,
    Prose,
}

/// One catalog entry: a language, its extensions (with leading dot),
/// and an optional group it is a dialect of.
#[derive(Clone, Debug)]
pub struct LangListItem {
    pub extensions: Vec<String>,
    pub group: Option<String>,
    pub name: String,
    pub lang_type: LangType,
}

/// Whether `it` is the catalog entry with exactly this name, these
/// extensions, and this type, outside any group.
pub open spec fn item_is(it: LangListItem, name: Seq<char>, exts: Seq<Seq<char>>, t: LangType) -> bool {
    &&& it.name@ == name
    &&& str_views(it.extensions@) == exts
    &&& it.lang_type == t
    &&& it.group is None
}

/// Whether `it` is one of the catalog's entries.
pub open spec fn catalog_item(it: LangListItem) -> bool {
    ||| item_is(it, "1C Enterprise"@, seq![".bsl"@, ".os"@], LangType::Programming)
    ||| item_is(it, "2-Dimensional Array"@, seq![".2da"@], LangType::Data)
    ||| item_is(it, "HTML"@, seq![".html"@, ".htm"@], LangType::Markup)
    ||| item_is(it, "JSON"@, seq![".json"@], LangType::Data)
    ||| item_is(it, "JavaScript"@, seq![".js"@, ".jsx"@, ".mjs"@], LangType::Programming)
    ||| item_is(it, "Markdown"@, seq![".md"@, ".markdown"@], LangType::Prose)
    ||| item_is(it, "Python"@, seq![".py"@], LangType::Programming)
    ||| item_is(it, "Rust"@, seq![".rs"@], LangType::Programming)
    ||| item_is(it, "TOML"@, seq![".toml"@], LangType::Data)
    ||| item_is(it, "TypeScript"@, seq![".ts"@, ".tsx"@], LangType::Programming)
    ||| item_is(it, "YAML"@, seq![".yml"@, ".yaml"@], LangType::Data)
}

/// Whether some catalog entry claims the dotted extension `key`.
pub open spec fn catalog_has_key(key: Seq<char>) -> bool {
    ||| seq![".bsl"@, ".os"@].contains(key)
    ||| seq![".2da"@].contains(key)
    ||| seq![".html"@, ".htm"@].contains(key)
    ||| seq![".json"@].contains(key)
    ||| seq![".js"@, ".jsx"@, ".mjs"@].contains(key)
    ||| seq![".md"@, ".markdown"@].contains(key)
    ||| seq![".py"@].contains(key)
    ||| seq![".rs"@].contains(key)
    ||| seq![".toml"@].contains(key)
    ||| seq![".ts"@, ".tsx"@].contains(key)
    ||| seq![".yml"@, ".yaml"@].contains(key)
}

/// Whether the catalog pairs language name `nm` with the dotted
/// extension `key`.
pub open spec fn catalog_name_for_key(nm: Seq<char>, key: Seq<char>) -> bool {
    ||| (nm == "1C Enterprise"@ && seq![".bsl"@, ".os"@].contains(key))
    ||| (nm == "2-Dimensional Array"@ && seq![".2da"@].contains(key))
    ||| (nm == "HTML"@ && seq![".html"@, ".htm"@].contains(key))
    ||| (nm == "JSON"@ && seq![".json"@].contains(key))
    ||| (nm == "JavaScript"@ && seq![".js"@, ".jsx"@, ".mjs"@].contains(key))
    ||| (nm == "Markdown"@ && seq![".md"@, ".markdown"@].contains(key))
    ||| (nm == "Python"@ && seq![".py"@].contains(key))
    ||| (nm == "Rust"@ && seq![".rs"@].contains(key))
    ||| (nm == "TOML"@ && seq![".toml"@].contains(key))
    ||| (nm == "TypeScript"@ && seq![".ts"@, ".tsx"@].contains(key))
    ||| (nm == "YAML"@ && seq![".yml"@, ".yaml"@].contains(key))
}

/// An entry with one extension.
fn entry1(name: &str, a: &str, t: LangType) -> (r: LangListItem)
    ensures
        item_is(r, name@, seq![a@], t),
{
    let mut extensions: Vec<String> = Vec::new();
    extensions.push(String::from_str(a));
    let r = LangListItem { extensions, group: None, name: String::from_str(name), lang_type: t };
    proof {
        assert(str_views(r.extensions@) =~= seq![a@]);
    }
    r
}

/// An entry with two extensions.
fn entry2(name: &str, a: &str, b: &str, t: LangType) -> (r: LangListItem)
    ensures
        item_is(r, name@, seq![a@, b@], t),
{
    let mut extensions: Vec<String> = Vec::new();
    extensions.push(String::from_str(a));
    extensions.push(String::from_str(b));
    let r = LangListItem { extensions, group: None, name: String::from_str(name), lang_type: t };
    proof {
        assert(str_views(r.extensions@) =~= seq![a@, b@]);
    }
    r
}

/// An entry with three extensions.
fn entry3(name: &str, a: &str, b: &str, c: &str, t: LangType) -> (r: LangListItem)
    ensures
        item_is(r, name@, seq![a@, b@, c@], t),
{
    let mut extensions: Vec<String> = Vec::new();
    extensions.push(String::from_str(a));
    extensions.push(String::from_str(b));
    extensions.push(String::from_str(c));
    let r = LangListItem { extensions, group: None, name: String::from_str(name), lang_type: t };
    proof {
        assert(str_views(r.extensions@) =~= seq![a@, b@, c@]);
    }
    r
}

/// The whole catalog, in alphabetical order.
pub fn raw_list() -> (r: Vec<LangListItem>)
    ensures
        r@.len() == 11,
        forall|i: int| 0 <= i < r@.len() ==> catalog_item(#[trigger] r@[i]),
        item_is(r@[0], "1C Enterprise"@, seq![".bsl"@, ".os"@], LangType::Programming),
        item_is(r@[1], "2-Dimensional Array"@, seq![".2da"@], LangType::Data),
        item_is(r@[2], "HTML"@, seq![".html"@, ".htm"@], LangType::Markup),
        item_is(r@[3], "JSON"@, seq![".json"@], LangType::Data),
        item_is(r@[4], "JavaScript"@, seq![".js"@, ".jsx"@, ".mjs"@], LangType::Programming),
        item_is(r@[5], "Markdown"@, seq![".md"@, ".markdown"@], LangType::Prose),
        item_is(r@[6], "Python"@, seq![".py"@], LangType::Programming),
        item_is(r@[7], "Rust"@, seq![".rs"@], LangType::Programming),
        item_is(r@[8], "TOML"@, seq![".toml"@], LangType::Data),
        item_is(r@[9], "TypeScript"@, seq![".ts"@, ".tsx"@], LangType::Programming),
        item_is(r@[10], "YAML"@, seq![".yml"@, ".yaml"@], LangType::Data),
{
    let mut r: Vec<LangListItem> = Vec::new();
    r.push(entry2("1C Enterprise", ".bsl", ".os", LangType::Programming));
    r.push(entry1("2-Dimensional Array", ".2da", LangType::Data));
    r.push(entry2("HTML", ".html", ".htm", LangType::Markup));
    r.push(entry1("JSON", ".json", LangType::Data));
    r.push(entry3("JavaScript", ".js", ".jsx", ".mjs", LangType::Programming));
    r.push(entry2("Markdown", ".md", ".markdown", LangType::Prose));
    r.push(entry1("Python", ".py", LangType::Programming));
    r.push(entry1("Rust", ".rs", LangType::Programming));
    r.push(entry1("TOML", ".toml", LangType::Data));
    r.push(entry2("TypeScript", ".ts", ".tsx", LangType::Programming));
    r.push(entry2("YAML", ".yml", ".yaml", LangType::Data));
    r
}

/// The programming languages of the catalog, in catalog order.
pub fn languages() -> (r: Vec<LangListItem>)
    ensures
        r@.len() == 5,
        forall|i: int|
            0 <= i < r@.len() ==> catalog_item(#[trigger] r@[i]) && r@[i].lang_type
                == LangType::Programming,
        item_is(r@[0], "1C Enterprise"@, seq![".bsl"@, ".os"@], LangType::Programming),
        item_is(r@[1], "JavaScript"@, seq![".js"@, ".jsx"@, ".mjs"@], LangType::Programming),
        item_is(r@[2], "Python"@, seq![".py"@], LangType::Programming),
        item_is(r@[3], "Rust"@, seq![".rs"@], LangType::Programming),
        item_is(r@[4], "TypeScript"@, seq![".ts"@, ".tsx"@], LangType::Programming),
{
    let mut r: Vec<LangListItem> = Vec::new();
    r.push(entry2("1C Enterprise", ".bsl", ".os", LangType::Programming));
    r.push(entry3("JavaScript", ".js", ".jsx", ".mjs", LangType::Programming));
    r.push(entry1("Python", ".py", LangType::Programming));
    r.push(entry1("Rust", ".rs", LangType::Programming));
    r.push(entry2("TypeScript", ".ts", ".tsx", LangType::Programming));
    r
}

/// The non-programming entries of the catalog, in catalog order.
pub fn others() -> (r: Vec<LangListItem>)
    ensures
        r@.len() == 6,
        forall|i: int|
            0 <= i < r@.len() ==> catalog_item(#[trigger] r@[i]) && r@[i].lang_type
                != LangType::Programming,
        item_is(r@[0], "2-Dimensional Array"@, seq![".2da"@], LangType::Data),
        item_is(r@[1], "HTML"@, seq![".html"@, ".htm"@], LangType::Markup),
        item_is(r@[2], "JSON"@, seq![".json"@], LangType::Data),
        item_is(r@[3], "Markdown"@, seq![".md"@, ".markdown"@], LangType::Prose),
        item_is(r@[4], "TOML"@, seq![".toml"@], LangType::Data),
        item_is(r@[5], "YAML"@, seq![".yml"@, ".yaml"@], LangType::Data),
{
    let mut r: Vec<LangListItem> = Vec::new();
    r.push(entry1("2-Dimensional Array", ".2da", LangType::Data));
    r.push(entry2("HTML", ".html", ".htm", LangType::Markup));
    r.push(entry1("JSON", ".json", LangType::Data));
    r.push(entry2("Markdown", ".md", ".markdown", LangType::Prose));
    r.push(entry1("TOML", ".toml", LangType::Data));
    r.push(entry2("YAML", ".yml", ".yaml", LangType::Data));
    r
}

/// The first entry of `list` claiming the dotted extension `key`.
fn find_by_extension(list: &Vec<LangListItem>, key: &str) -> (r: Option<usize>)
    ensures
        match r {
            Some(i) => 0 <= i < list@.len() && str_views(list@[i as int].extensions@).contains(
                key@,
            ),
            None => forall|i: int|
                0 <= i < list@.len() ==> !str_views((#[trigger] list@[i]).extensions@).contains(
                    key@,
                ),
        },
{
    let n = list.len();
    let mut i: usize = 0;
    while i < n
        invariant
            n == list@.len(),
            0 <= i <= n,
            forall|k: int|
                0 <= k < i ==> !str_views((#[trigger] list@[k]).extensions@).contains(key@),
        decreases n - i,
    {
        if crate::strutil::contains_str(&list[i].extensions, key) {
            return Some(i);
        }
        i += 1;
    }
    None
}

/// Detect the language of a file from its extension: programming
/// languages first, then the data, markup and prose entries.
pub fn detect_lang(filename: &str) -> (r: Option<LangListItem>)
    ensures
        spec_extension(filename@) is None ==> r is None,
        spec_extension(filename@) matches Some(e) ==> {
            let key = seq!['.'] + e;
            match r {
                Some(it) => catalog_item(it) && str_views(it.extensions@).contains(key),
                None => !catalog_has_key(key),
            }
        },
{
    let ext = match crate::strutil::extension_of(filename) {
        None => {
            return None;
        },
        Some(e) => e,
    };
    let mut key = String::from_str(".");
    key.append(ext.as_str());
    proof {
        reveal_strlit(".");
        assert(key@ =~= seq!['.'] + spec_extension(filename@)->0);
    }
    let langs = languages();
    if let Some(i) = find_by_extension(&langs, key.as_str()) {
        let mut langs_m = langs;
        let it = langs_m.remove(i);
        return Some(it);
    }
    let rest = others();
    if let Some(i) = find_by_extension(&rest, key.as_str()) {
        let mut rest_m = rest;
        let it = rest_m.remove(i);
        return Some(it);
    }
    proof {
        assert(!str_views(langs@[0].extensions@).contains(key@));
        assert(!str_views(langs@[1].extensions@).contains(key@));
        assert(!str_views(langs@[2].extensions@).contains(key@));
        assert(!str_views(langs@[3].extensions@).contains(key@));
        assert(!str_views(langs@[4].extensions@).contains(key@));
        assert(!str_views(rest@[0].extensions@).contains(key@));
        assert(!str_views(rest@[1].extensions@).contains(key@));
        assert(!str_views(rest@[2].extensions@).contains(key@));
        assert(!str_views(rest@[3].extensions@).contains(key@));
        assert(!str_views(rest@[4].extensions@).contains(key@));
        assert(!str_views(rest@[5].extensions@).contains(key@));
        assert(!catalog_has_key(key@));
    }
    None
}

} // verus!
