use vstd::prelude::*;
use std::path::Path;
use syntect::parsing::SyntaxSet;

verus! {

#[verifier::external_type_specification]
#[verifier::external_body]
pub struct ExSyntaxSet(SyntaxSet);

/// The syntaxes of a set, in their order: each one's name and the file
/// extensions it is for.
pub uninterp spec fn syntax_table(set: SyntaxSet) -> Seq<(Seq<char>, Seq<Seq<char>>)>;

/// The extension of the file that the path `path` names, as
/// `Path::extension` cuts it, if there is one.
pub uninterp spec fn spec_path_extension(path: Seq<char>) -> Option<Seq<char>>;

/// `c` with an ASCII capital letter made small.
pub open spec fn ascii_lower(c: char) -> char {
    if 'A' <= c && c <= 'Z' {
        ((c as u32) + 32) as char
    } else {
        c
    }
}

/// `a` and `b` are equal when ASCII case is ignored.
pub open spec fn eq_ignore_ascii_case(a: Seq<char>, b: Seq<char>) -> bool {
    &&& a.len() == b.len()
    &&& forall|i: int| 0 <= i < a.len() ==> ascii_lower(a[i]) == ascii_lower(b[i])
}

/// One of `extensions` is `extension`, ASCII case ignored.
pub open spec fn has_extension(extensions: Seq<Seq<char>>, extension: Seq<char>) -> bool {
    exists|i: int| 0 <= i < extensions.len() && eq_ignore_ascii_case(extensions[i], extension)
}

/// The name of the last syntax, among the first `n` of `table`, that is for
/// files with extension `extension`.
pub open spec fn last_with_extension(table: Seq<(Seq<char>, Seq<Seq<char>>)>, extension: Seq<char>, n: nat) -> Option<
    Seq<char>,
>
    decreases n,
{
    if n == 0 || n > table.len() {
        Option::None
    } else if has_extension(table[n - 1].1, extension) {
        Option::Some(table[n - 1].0)
    } else {
        last_with_extension(table, extension, (n - 1) as nat)
    }
}

/// Some syntax of `table` is called `name`.
pub open spec fn has_syntax_named(table: Seq<(Seq<char>, Seq<Seq<char>>)>, name: Seq<char>) -> bool {
    exists|i: int| 0 <= i < table.len() && table[i].0 == name
}

/// The text of an optional string.
pub open spec fn path_view(path: Option<String>) -> Option<Seq<char>> {
    match path {
        Option::Some(p) => Option::Some(p@),
        Option::None => Option::None,
    }
}

/// The name of the syntax a file at `path` is shown in: the last syntax of
/// `table` for the file's extension, else plain text.
pub open spec fn syntax_name(table: Seq<(Seq<char>, Seq<Seq<char>>)>, path: Option<Seq<char>>) -> Seq<char> {
    let found = match path {
        Option::Some(p) => match spec_path_extension(p) {
            Option::Some(extension) => last_with_extension(table, extension, table.len()),
            Option::None => Option::None,
        },
        Option::None => Option::None,
    };
    match found {
        Option::Some(name) => name,
        Option::None => "Plain Text"@,
    }
}

/// `SyntaxSet::find_syntax_by_extension`: the syntaxes are searched from the
/// last one back for one with `extension` among its file extensions, ASCII
/// case ignored; the name of the one found.
#[verifier::external_body]
fn find_syntax_by_extension(set: &SyntaxSet, extension: &str) -> (r: Option<String>)
    ensures
        match r {
            Option::Some(name) => last_with_extension(syntax_table(*set), extension@, syntax_table(*set).len())
                == Option::Some(name@),
            Option::None => last_with_extension(syntax_table(*set), extension@, syntax_table(*set).len()) is None,
        },
{
    set.find_syntax_by_extension(extension).map(|syntax| syntax.name.clone())
}

/// `SyntaxSet::find_syntax_by_name`: the syntaxes are searched from the last
/// one back for one called `name`; the name of the one found.
#[verifier::external_body]
fn find_syntax_by_name(set: &SyntaxSet, name: &str) -> (r: Option<String>)
    ensures
        r is Some == has_syntax_named(syntax_table(*set), name@),
        r matches Option::Some(found) ==> found@ == name@,
{
    set.find_syntax_by_name(name).map(|syntax| syntax.name.clone())
}

/// `SyntaxSet::find_syntax_plain_text`: the syntax called "Plain Text"; it
/// panics when the set has none. Its name.
#[verifier::external_body]
fn find_syntax_plain_text(set: &SyntaxSet) -> (r: String)
    requires
        has_syntax_named(syntax_table(*set), "Plain Text"@),
    ensures
        r@ == "Plain Text"@,
{
    set.find_syntax_plain_text().name.clone()
}

/// `Path::extension` on the path `path`, if the extension is text.
#[verifier::external_body]
fn path_extension(path: &str) -> (r: Option<String>)
    ensures
        match r {
            Option::Some(extension) => spec_path_extension(path@) == Option::Some(extension@),
            Option::None => spec_path_extension(path@) is None,
        },
{
    Path::new(path).extension().and_then(|extension| extension.to_str()).map(|extension| extension.to_string())
}

/// Whether `set` has a plain-text syntax, which choosing a syntax needs.
pub fn has_plain_text(set: &SyntaxSet) -> (r: bool)
    ensures
        r == has_syntax_named(syntax_table(*set), "Plain Text"@),
{
    find_syntax_by_name(set, "Plain Text").is_some()
}

/// The name of the syntax a file at `path` is shown in; see `syntax_name`.
pub fn syntax_for(set: &SyntaxSet, path: Option<&String>) -> (r: String)
    requires
        has_syntax_named(syntax_table(*set), "Plain Text"@),
    ensures
        r@ == syntax_name(
            syntax_table(*set),
            match path {
                Option::Some(p) => Option::Some(p@),
                Option::None => Option::None,
            },
        ),
{
    let plain_text = find_syntax_plain_text(set);
    let found = match path {
        Option::Some(p) => match path_extension(p.as_str()) {
            Option::Some(extension) => find_syntax_by_extension(set, extension.as_str()),
            Option::None => Option::None,
        },
        Option::None => Option::None,
    };
    match found {
        Option::Some(name) => name,
        Option::None => plain_text,
    }
}

} // verus!
