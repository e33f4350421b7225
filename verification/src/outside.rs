//! The crate's trusted boundary: the declarations and wrappers through
//! which verified code reaches the outside crates and the few std
//! operations that vstd gives no specification for.

use vstd::prelude::*;

use crate::theme::{color_code, ColorSpec, TextStyle};

verus! {

/// Relies on `String`'s `FromIterator<char>` implementation: collecting an
/// iterator of characters builds the string of exactly those characters, in
/// order.
#[verifier::external_body]
pub fn string_from_chars(v: &Vec<char>) -> (r: String)
    ensures
        r@ == v@,
{
    v.iter().collect()
}

/// What painting a text with a style returns: the text wrapped in the ANSI
/// escape prefix and reset suffix of the style named by `color` (a code
/// built by `color_code`) and `bold`.
pub uninterp spec fn painted_of(s: Seq<char>, color: int, bold: bool) -> Seq<char>;

/// Relies on owo_colors' `Style` and `Styled`: formatting a value wrapped
/// in a style writes the style's ANSI escape prefix, then the text, then
/// the reset suffix; the result depends on the text and the style alone.
#[verifier::external_body]
pub fn paint(text: &str, style: TextStyle) -> (r: String)
    ensures
        r@ == painted_of(text@, color_code(style.color), style.bold),
{
    let base = match style.color {
        ColorSpec::NoColor => owo_colors::Style::new(),
        ColorSpec::Rgb(red, green, blue) => owo_colors::Style::new().truecolor(red, green, blue),
        ColorSpec::BrightRed => owo_colors::Style::new().bright_red(),
        ColorSpec::BrightYellow => owo_colors::Style::new().bright_yellow(),
        ColorSpec::BrightGreen => owo_colors::Style::new().bright_green(),
        ColorSpec::BrightBlue => owo_colors::Style::new().bright_blue(),
        ColorSpec::BrightCyan => owo_colors::Style::new().bright_cyan(),
        ColorSpec::BrightWhite => owo_colors::Style::new().bright_white(),
    };
    let full = if style.bold { base.bold() } else { base };
    format!("{}", owo_colors::OwoColorize::style(&text, full))
}

#[verifier::external_type_specification]
#[verifier::external_body]
#[verifier::reject_recursive_types(K)]
#[verifier::reject_recursive_types(V)]
#[verifier::reject_recursive_types(S)]
pub struct ExIndexMap<K, V, S>(indexmap::IndexMap<K, V, S>);

/// What an insertion-ordered map from source names to indices holds: its
/// key/value entries, in insertion order.
pub uninterp spec fn name_map_entries(m: indexmap::IndexMap<Option<String>, usize>) -> Seq<
    (Option<Seq<char>>, int),
>;

/// What an insertion-ordered map from line numbers to indices holds: its
/// key/value entries, in insertion order.
pub uninterp spec fn line_map_entries(m: indexmap::IndexMap<usize, usize>) -> Seq<(int, int)>;

/// The index of the first entry with the given key, or `-1` if none has it.
pub open spec fn find_name_key(es: Seq<(Option<Seq<char>>, int)>, k: Option<Seq<char>>) -> int
    decreases es.len(),
{
    if es.len() == 0 {
        -1
    } else if es[0].0 == k {
        0
    } else {
        let rest = find_name_key(es.drop_first(), k);
        if rest < 0 {
            -1
        } else {
            rest + 1
        }
    }
}

/// The index of the first entry with the given key, or `-1` if none has it.
pub open spec fn find_line_key(es: Seq<(int, int)>, k: int) -> int
    decreases es.len(),
{
    if es.len() == 0 {
        -1
    } else if es[0].0 == k {
        0
    } else {
        let rest = find_line_key(es.drop_first(), k);
        if rest < 0 {
            -1
        } else {
            rest + 1
        }
    }
}

/// Relies on `IndexMap::new`: creates an empty map.
#[verifier::external_body]
pub fn name_map_new() -> (r: indexmap::IndexMap<Option<String>, usize>)
    ensures
        name_map_entries(r) == Seq::<(Option<Seq<char>>, int)>::empty(),
{
    indexmap::IndexMap::new()
}

/// Relies on `IndexMap::get`: returns the value of the entry whose key
/// equals the given one, or `None` when the map holds no such entry.
#[verifier::external_body]
pub fn name_map_get(m: &indexmap::IndexMap<Option<String>, usize>, k: &Option<String>) -> (r:
    Option<usize>)
    ensures
        ({
            let es = name_map_entries(*m);
            let i = find_name_key(es, k.deep_view());
            if i >= 0 {
                r matches Some(v) && v as int == es[i].1
            } else {
                r is None
            }
        }),
{
    m.get(k).copied()
}

/// Relies on `IndexMap::insert`: an equivalent key keeps its place in the
/// order and has its value updated, with the old value returned; a new key
/// is appended last in order, and `None` is returned.
#[verifier::external_body]
pub fn name_map_insert(
    m: &mut indexmap::IndexMap<Option<String>, usize>,
    k: Option<String>,
    v: usize,
) -> (r: Option<usize>)
    ensures
        ({
            let es = name_map_entries(*old(m));
            let es2 = name_map_entries(*final (m));
            let i = find_name_key(es, k.deep_view());
            if i >= 0 {
                es2 == es.update(i, (k.deep_view(), v as int)) && (r matches Some(x) && x as int
                    == es[i].1)
            } else {
                es2 == es.push((k.deep_view(), v as int)) && r is None
            }
        }),
{
    m.insert(k, v)
}

/// Relies on `IndexMap::new`: creates an empty map.
#[verifier::external_body]
pub fn line_map_new() -> (r: indexmap::IndexMap<usize, usize>)
    ensures
        line_map_entries(r) == Seq::<(int, int)>::empty(),
{
    indexmap::IndexMap::new()
}

/// Relies on `IndexMap::get`: returns the value of the entry whose key
/// equals the given one, or `None` when the map holds no such entry.
#[verifier::external_body]
pub fn line_map_get(m: &indexmap::IndexMap<usize, usize>, k: &usize) -> (r: Option<usize>)
    ensures
        ({
            let es = line_map_entries(*m);
            let i = find_line_key(es, *k as int);
            if i >= 0 {
                r matches Some(v) && v as int == es[i].1
            } else {
                r is None
            }
        }),
{
    m.get(k).copied()
}

/// Relies on `IndexMap::insert`: an equivalent key keeps its place in the
/// order and has its value updated, with the old value returned; a new key
/// is appended last in order, and `None` is returned.
#[verifier::external_body]
pub fn line_map_insert(m: &mut indexmap::IndexMap<usize, usize>, k: usize, v: usize) -> (r:
    Option<usize>)
    ensures
        ({
            let es = line_map_entries(*old(m));
            let es2 = line_map_entries(*final (m));
            let i = find_line_key(es, k as int);
            if i >= 0 {
                es2 == es.update(i, (k as int, v as int)) && (r matches Some(x) && x as int
                    == es[i].1)
            } else {
                es2 == es.push((k as int, v as int)) && r is None
            }
        }),
{
    m.insert(k, v)
}

} // verus!
