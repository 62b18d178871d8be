use vstd::prelude::*;

use crate::display::Platform;
use crate::layout::{detail_index, detail_slot};
use crate::text::{
    chars_of, remove_all, remove_char, split_char, split_on, string_of, string_views, stripped,
    views, without,
};

verus! {

/// The names of the arts that can be shown on platform `p`, in the order they are
/// listed; `ahhhaah` is shown on Linux only.
pub open spec fn art_names(p: Platform) -> Seq<Seq<char>> {
    seq!["withhighthighs"@, "howyoulook"@] + if p == Platform::Linux {
        seq!["ahhhaah"@]
    } else {
        Seq::empty()
    } + seq![
        "cute"@,
        "cutereversed"@,
        "cutie"@,
        "sad"@,
        "sowhat"@,
        "squinting"@,
        "thesilly_large"@,
        "thesilly"@,
        "typing"@,
        "withhighthighsalt"@,
        "yayyy"@,
        "yippie"@,
        "youafurry"@,
        "youlikeboys"@,
        "youlikeboysfullbody"@,
    ]
}

/// The names of the arts that can be shown on platform `p`, in the order they are
/// listed.
pub fn boykisser_names(p: Platform) -> (r: Vec<String>)
    ensures
        string_views(r@) == art_names(p),
{
    let mut r: Vec<String> = Vec::new();
    r.push(String::from_str("withhighthighs"));
    r.push(String::from_str("howyoulook"));
    if p == Platform::Linux {
        r.push(String::from_str("ahhhaah"));
    }
    r.push(String::from_str("cute"));
    r.push(String::from_str("cutereversed"));
    r.push(String::from_str("cutie"));
    r.push(String::from_str("sad"));
    r.push(String::from_str("sowhat"));
    r.push(String::from_str("squinting"));
    r.push(String::from_str("thesilly_large"));
    r.push(String::from_str("thesilly"));
    r.push(String::from_str("typing"));
    r.push(String::from_str("withhighthighsalt"));
    r.push(String::from_str("yayyy"));
    r.push(String::from_str("yippie"));
    r.push(String::from_str("youafurry"));
    r.push(String::from_str("youlikeboys"));
    r.push(String::from_str("youlikeboysfullbody"));
    assert(string_views(r@) =~= art_names(p));
    r
}

/// Whether `name` names an art on platform `p`.
pub fn is_boykisser_name(name: &String, p: Platform) -> (r: bool)
    ensures
        r == art_names(p).contains(name@),
{
    let names = boykisser_names(p);
    let mut i: usize = 0;
    while i < names.len()
        invariant
            i <= names@.len(),
            string_views(names@) == art_names(p),
            forall|k: int| 0 <= k < i ==> art_names(p)[k] != name@,
        decreases names@.len() - i,
    {
        if names[i] == *name {
            assert(art_names(p)[i as int] == name@);
            return true;
        }
        i = i + 1;
    }
    false
}

/// What the list request prints on platform `p`: a heading, then each art name on
/// a line of its own.
pub open spec fn list_text(p: Platform) -> Seq<Seq<char>> {
    seq!["Available boykissers:"@] + art_names(p).map_values(|n: Seq<char>| "    "@ + n)
}

/// The lines that the list request prints on platform `p`.
pub fn list_lines(p: Platform) -> (r: Vec<String>)
    ensures
        string_views(r@) == list_text(p),
{
    let names = boykisser_names(p);
    let mut r: Vec<String> = Vec::new();
    r.push(String::from_str("Available boykissers:"));
    let mut i: usize = 0;
    while i < names.len()
        invariant
            i <= names@.len(),
            string_views(names@) == art_names(p),
            string_views(r@) == seq!["Available boykissers:"@] + art_names(p).subrange(
                0,
                i as int,
            ).map_values(|n: Seq<char>| "    "@ + n),
        decreases names@.len() - i,
    {
        assert(names@[i as int]@ == string_views(names@)[i as int]);
        let line = String::from_str("    ").concat(names[i].as_str());
        assert(line@ == "    "@ + art_names(p)[i as int]);
        let ghost before = r@;
        r.push(line);
        assert(string_views(r@) =~= string_views(before).push(line@));
        assert(art_names(p).subrange(0, i + 1) =~= art_names(p).subrange(0, i as int).push(
            art_names(p)[i as int],
        ));
        assert(string_views(r@) =~= seq!["Available boykissers:"@] + art_names(p).subrange(
            0,
            i + 1,
        ).map_values(|n: Seq<char>| "    "@ + n));
        i = i + 1;
    }
    assert(art_names(p).subrange(0, names@.len() as int) =~= art_names(p));
    r
}

/// An art: its text and how many lines it splits into.
#[allow(non_camel_case_types)]
pub struct boykisser {
    pub text: String,
    pub lines: u16,
}

/// How many lines a text splits into at its newlines.
pub open spec fn line_count(text: Seq<char>) -> int {
    split_on(text, '\n').len() as int
}

/// The art called `name` on platform `p`, whose text is `text`; `None` where no
/// art there has that name. The line count is kept in 16 bits, as the display
/// counts lines.
pub fn get_boykisser(name: String, text: String, p: Platform) -> (r: Option<boykisser>)
    ensures
        r is Some <==> art_names(p).contains(name@),
        r matches Some(b) ==> b.text@ == text@ && b.lines == line_count(text@) as u16,
{
    if !is_boykisser_name(&name, p) {
        return None;
    }
    let chars = chars_of(text.as_str());
    let pieces = split_char(&chars, '\n');
    assert(pieces@.len() == views(pieces@).len());
    let lines: u16 = pieces.len() as u16;
    Some(boykisser { text, lines })
}

/// Relies on the Debug format of str: the quoted, escaped form of `s`.
pub uninterp spec fn debug_of(s: Seq<char>) -> Seq<char>;

/// Relies on formatting a str with `{:?}`, which depends on the characters alone.
#[verifier::external_body]
fn debug_text(s: &Vec<char>) -> (r: Vec<char>)
    ensures
        r@ == debug_of(s@),
{
    let t: String = s.iter().collect();
    format!("{:?}", t).chars().collect()
}

/// What is printed of art line `line`: its escaped form with the quotes and
/// carriage-return escapes taken out.
pub open spec fn shown_line(text: Seq<char>, line: int) -> Seq<char> {
    stripped(without(debug_of(split_on(text, '\n')[line]), '"'), "\\r"@)
}

/// The shown form of an escaped art line: its double quotes and carriage-return
/// escapes taken out.
pub fn shown_text(escaped: &Vec<char>) -> (r: String)
    ensures
        r@ == stripped(without(escaped@, '"'), "\\r"@),
{
    let unquoted = remove_char(escaped, '"');
    let cr = chars_of("\\r");
    string_of(&remove_all(&unquoted, &cr))
}

/// The text shown for art line `line` of `boykisser`.
pub fn print_boykisserline(line: u16, boykisser: &str) -> (r: String)
    requires
        (line as int) < line_count(boykisser@),
    ensures
        r@ == shown_line(boykisser@, line as int),
{
    let chars = chars_of(boykisser);
    let pieces = split_char(&chars, '\n');
    assert(pieces@.len() == views(pieces@).len());
    assert(pieces@[line as int]@ == views(pieces@)[line as int]);
    let escaped = debug_text(&pieces[line as usize]);
    shown_text(&escaped)
}

/// The display of an art beside `n_details` rows: for each art line in order,
/// the text shown for it and the row shown beside it, if any.
pub fn display_lines(art: &boykisser, n_details: usize) -> (r: Vec<(String, Option<usize>)>)
    requires
        (art.lines as int) <= line_count(art.text@),
    ensures
        r@.len() == art.lines as int,
        forall|i: int|
            0 <= i < art.lines ==> #[trigger] r@[i].0@ == shown_line(art.text@, i) && match detail_slot(
                art.lines as int,
                n_details as int,
                i,
            ) {
                Some(k) => r@[i].1 == Some(k as usize),
                None => r@[i].1 is None,
            },
{
    let mut r: Vec<(String, Option<usize>)> = Vec::new();
    let mut i: u16 = 0;
    while i < art.lines
        invariant
            i <= art.lines,
            (art.lines as int) <= line_count(art.text@),
            r@.len() == i as int,
            forall|j: int|
                0 <= j < i ==> #[trigger] r@[j].0@ == shown_line(art.text@, j) && match detail_slot(
                    art.lines as int,
                    n_details as int,
                    j,
                ) {
                    Some(k) => r@[j].1 == Some(k as usize),
                    None => r@[j].1 is None,
                },
        decreases art.lines - i,
    {
        let line = print_boykisserline(i, art.text.as_str());
        let d = detail_index(art.lines, n_details, i);
        r.push((line, d));
        i = i + 1;
    }
    r
}

} // verus!
