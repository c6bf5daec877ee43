//! Source worksheet formatting written into a generated SpreadsheetML
//! worksheet part: source values, styled blank cells, cell and row styles,
//! column geometry, merged ranges and hyperlinks.

use vstd::prelude::*;

use std::collections::{BTreeMap, HashMap};

use crate::error::message;
use crate::text::{utf8_string, escaped, append_chars, append_decimal, append_range, append_str, chars_of, decimal};
use crate::xls_biff::{find_from, find_in_range, lemma_find_from, string_of};
use crate::doc_comments::last_from;
use vstd::string::StrSliceExecFns;
use vstd::utf8::{decode_utf8, encode_utf8, valid_utf8};
use crate::xls_ooxml::{range_ref_text, cell_ref_text, with_attribute, attr_needle, decimal_value, is_ascii_digit, lemma_decimal_grows, parse_cell_ref, parsed_cell_ref};
use crate::xls_biff::{CellRange, ColumnBand, HyperlinkTarget, RowLayout, XlsHyperlink};
use crate::xls_sheet::{DefaultColumnWidth, SheetFormatting, SourceCellValue, cell_key, cell_key_of, link_view, source_value_of};
use crate::xls_styles::{append_points, points_text};

verus! {

broadcast use vstd::std_specs::hash::group_hash_axioms, vstd::std_specs::btree::group_btree_axioms;

/// `p + r` when `r` holds a text.
pub open spec fn prepend(p: Seq<char>, r: Option<Seq<char>>) -> Option<Seq<char>> {
    match r {
        Some(x) => Some(p + x),
        None => None,
    }
}

/// The value of the attribute whose opening `needle` (` name="`) occurs
/// first in tag `t`: the text up to the next quote.
pub open spec fn attr_of(t: Seq<char>, needle: Seq<char>) -> Option<Seq<char>> {
    match find_from(t, needle, 0) {
        None => None,
        Some(start) => {
            let vs = start + needle.len();
            match find_from(t.subrange(vs, t.len() as int), seq!['"'], 0) {
                None => None,
                Some(rel) => Some(t.subrange(vs, vs + rel)),
            }
        },
    }
}

/// The value of attribute `name` of tag `t`.
pub open spec fn attr_value(t: Seq<char>, name: Seq<char>) -> Option<Seq<char>> {
    attr_of(t, attr_needle(name))
}

/// The characters of a string literal.
fn literal(s: &str) -> (res: Vec<char>)
    ensures
        res@ == s@,
{
    chars_of(s)
}

/// The bounds in `t` of the value of the attribute opened by `needle` in
/// the tag `t[a..b]`.
fn attr_bounds(t: &Vec<char>, a: usize, b: usize, needle: &Vec<char>) -> (res: Option<(usize, usize)>)
    requires
        a <= b <= t@.len(),
    ensures
        match attr_of(t@.subrange(a as int, b as int), needle@) {
            Some(v) => res matches Some((s, e)) && a <= s <= e <= b && t@.subrange(s as int, e as int) == v,
            None => res is None,
        },
{
    let ghost tag = t@.subrange(a as int, b as int);
    let start = match find_in_range(t, needle.as_slice(), a, b) {
        Some(k) => k,
        None => {
            return None;
        },
    };
    proof {
        lemma_find_from(tag, needle@, 0);
    }
    let vs = start + needle.len();
    let quote = ['"'];
    assert(quote@ =~= seq!['"']);
    proof {
        assert(tag.subrange(vs - a, tag.len() as int) =~= t@.subrange(vs as int, b as int));
    }
    let close = match find_in_range(t, &quote, vs, b) {
        Some(k) => k,
        None => {
            return None;
        },
    };
    proof {
        lemma_find_from(t@.subrange(vs as int, b as int), seq!['"'], 0);
        assert(tag.subrange(vs - a, close - a) =~= t@.subrange(vs as int, close as int));
    }
    Some((vs, close))
}

/// The value of a decimal `u32` as Rust parses it: an optional `+`, then
/// one or more ASCII digits, within range.
pub open spec fn parsed_u32(s: Seq<char>) -> Option<u32> {
    digits_u32(
        if s.len() > 1 && s[0] == '+' {
            s.drop_first()
        } else {
            s
        },
    )
}

/// The value of one or more ASCII digits `d` when it fits a `u32`.
pub open spec fn digits_u32(d: Seq<char>) -> Option<u32> {
    if d.len() == 0 || !(forall|i: int| 0 <= i < d.len() ==> is_ascii_digit(#[trigger] d[i])) {
        None
    } else if decimal_value(d) > u32::MAX {
        None
    } else {
        Some(decimal_value(d) as u32)
    }
}

/// Parses the digits `t[a..b]` as a `u32`.
fn parse_digits_in(t: &Vec<char>, a: usize, b: usize) -> (res: Option<u32>)
    requires
        a <= b <= t@.len(),
    ensures
        res == digits_u32(t@.subrange(a as int, b as int)),
{
    let ghost d = t@.subrange(a as int, b as int);
    if a == b {
        return None;
    }
    let mut value: u32 = 0;
    let mut k: usize = a;
    while k < b
        invariant
            a <= k <= b <= t@.len(),
            a < b,
            d == t@.subrange(a as int, b as int),
            forall|i: int| 0 <= i < k - a ==> is_ascii_digit(#[trigger] d[i]),
            value == decimal_value(d.take(k - a)),
        decreases b - k,
    {
        let c = t[k];
        if !('0' <= c && c <= '9') {
            assert(d[k - a] == c);
            assert(!is_ascii_digit(d[k - a]));
            return None;
        }
        let v: u32 = (c as u32) - 48;
        assert(d.take(k - a + 1).drop_last() =~= d.take(k - a));
        assert(d[k - a] == c);
        if value > (u32::MAX - v) / 10 {
            proof {
                if forall|i: int| 0 <= i < d.len() ==> is_ascii_digit(#[trigger] d[i]) {
                    lemma_decimal_grows(d, k - a + 1, d.len() as int);
                    assert(d.take(d.len() as int) =~= d);
                }
            }
            return None;
        }
        value = value * 10 + v;
        k = k + 1;
    }
    assert(d.take(b - a) =~= d);
    Some(value)
}

/// Parses `t[a..b]` as a decimal `u32`.
fn parse_u32_in(t: &Vec<char>, a: usize, b: usize) -> (res: Option<u32>)
    requires
        a <= b <= t@.len(),
    ensures
        res == parsed_u32(t@.subrange(a as int, b as int)),
{
    let ghost s = t@.subrange(a as int, b as int);
    if b - a > 1 && t[a] == '+' {
        assert(s[0] == '+');
        assert(s.drop_first() =~= t@.subrange(a + 1, b as int));
        parse_digits_in(t, a + 1, b)
    } else {
        parse_digits_in(t, a, b)
    }
}

/// The cell a tag addresses by its `r` attribute.
pub open spec fn cell_of(tag: Seq<char>) -> Option<(u16, u16)> {
    match attr_value(tag, "r"@) {
        Some(r) => parsed_cell_ref(r),
        None => None,
    }
}

/// The one-based row number a `<row>` tag carries, within the BIFF8 grid.
pub open spec fn row_of_tag(tag: Seq<char>) -> Option<u32> {
    match attr_value(tag, "r"@) {
        Some(r) => match parsed_u32(r) {
            Some(n) => if 1 <= n <= 65536 {
                Some(n)
            } else {
                None
            },
            None => None,
        },
        None => None,
    }
}

/// The SpreadsheetML name of a BIFF8 error code.
pub open spec fn error_name(code: u8) -> Seq<char> {
    if code == 0x00 {
        "#NULL!"@
    } else if code == 0x07 {
        "#DIV/0!"@
    } else if code == 0x17 {
        "#REF!"@
    } else if code == 0x1D {
        "#NAME?"@
    } else if code == 0x24 {
        "#NUM!"@
    } else if code == 0x2A {
        "#N/A"@
    } else {
        "#VALUE!"@
    }
}

/// A TRUE Boolean cell is written with value 1 and a FALSE one with value
/// 0: the cell element of a BOOLERR record with its error flag clear holds
/// `1` exactly when the record's value byte is not 0.
pub proof fn lemma_boolerr_element(d: Seq<u8>, reference: Seq<char>, number: Option<Seq<char>>)
    requires
        d.len() >= 8,
        d[7] == 0,
    ensures
        source_value_of(crate::xls_biff::BOOLERR, d) matches Some(Some(v)) && value_element(reference, v, number)
            == Some("<c r=\""@ + reference + "\" t=\"b\"><v>"@ + (if d[6] != 0 {
            "1"@
        } else {
            "0"@
        }) + "</v></c>"@),
{
    crate::xls_sheet::lemma_boolerr_value(d, d);
}

/// The cell element carrying source value `v` for the cell named
/// `reference`; a number takes its decimal text `number`, and without one
/// (a value that is not finite) the cell is left as generated.
pub open spec fn value_element(reference: Seq<char>, v: SourceCellValue, number: Option<Seq<char>>) -> Option<
    Seq<char>,
> {
    match v {
        SourceCellValue::Boolean(b) => Some(
            "<c r=\""@ + reference + "\" t=\"b\"><v>"@ + (if b {
                "1"@
            } else {
                "0"@
            }) + "</v></c>"@,
        ),
        SourceCellValue::Error(code) => Some(
            "<c r=\""@ + reference + "\" t=\"e\"><v>"@ + error_name(code) + "</v></c>"@,
        ),
        _ => match number {
            Some(x) => Some("<c r=\""@ + reference + "\"><v>"@ + x + "</v></c>"@),
            None => None,
        },
    }
}

/// The decimal text of the number kept for cell `key`, if any.
pub open spec fn number_text(numbers: Map<u32, String>, key: u32) -> Option<Seq<char>> {
    if numbers.contains_key(key) {
        Some(numbers[key]@)
    } else {
        None
    }
}

/// The key of the source value a cell tag addresses, when there is one.
pub open spec fn valued_key(tag: Seq<char>, values: Map<u32, SourceCellValue>) -> Option<u32> {
    match cell_of(tag) {
        Some((row, col)) => if values.contains_key(cell_key(row, col)) {
            Some(cell_key(row, col))
        } else {
            None
        },
        None => None,
    }
}

/// `t` with each `<c ...>...</c>` cell that has a source value rewritten
/// to carry that value, scanning cell start tags in order. `None` when a
/// cell tag is unterminated or a valued cell is unclosed.
pub open spec fn values_pass(t: Seq<char>, values: Map<u32, SourceCellValue>, numbers: Map<u32, String>) -> Option<
    Seq<char>,
>
    decreases t.len(),
{
    match find_from(t, "<c "@, 0) {
        None => Some(t),
        Some(start) => {
            proof {
                lemma_find_from(t, "<c "@, 0);
            }
            match find_from(t.subrange(start, t.len() as int), seq!['>'], 0) {
                None => None,
                Some(rel) => {
                    proof {
                        lemma_find_from(t.subrange(start, t.len() as int), seq!['>'], 0);
                    }
                    let tag_end = start + rel + 1;
                    let tag = t.subrange(start, tag_end);
                    match valued_key(tag, values) {
                        None => prepend(
                            t.subrange(0, tag_end),
                            values_pass(t.subrange(tag_end, t.len() as int), values, numbers),
                        ),
                        Some(key) => match find_from(t.subrange(tag_end, t.len() as int), "</c>"@, 0) {
                            None => None,
                            Some(r2) => {
                                proof {
                                    lemma_find_from(t.subrange(tag_end, t.len() as int), "</c>"@, 0);
                                    reveal_strlit("</c>");
                                }
                                let end = tag_end + r2 + 4;
                                let rest = values_pass(t.subrange(end, t.len() as int), values, numbers);
                                match value_element(
                                    attr_value(tag, "r"@)->Some_0,
                                    values[key],
                                    number_text(numbers, key),
                                ) {
                                    Some(e) => prepend(t.subrange(0, start) + e, rest),
                                    None => prepend(t.subrange(0, end), rest),
                                }
                            },
                        },
                    }
                },
            }
        },
    }
}

/// Appends the SpreadsheetML name of error code `code`.
fn append_error_name(out: &mut String, code: u8)
    ensures
        final(out)@ == old(out)@ + error_name(code),
{
    let name = if code == 0x00 {
        "#NULL!"
    } else if code == 0x07 {
        "#DIV/0!"
    } else if code == 0x17 {
        "#REF!"
    } else if code == 0x1D {
        "#NAME?"
    } else if code == 0x24 {
        "#NUM!"
    } else if code == 0x2A {
        "#N/A"
    } else {
        "#VALUE!"
    };
    append_str(out, name);
}

/// The cell element for source value `v` of the cell named `t[a..b]`.
fn value_element_text(t: &Vec<char>, a: usize, b: usize, v: SourceCellValue, number: Option<&String>) -> (res:
    Option<String>)
    requires
        a <= b <= t@.len(),
    ensures
        res matches Some(s) ==> value_element(t@.subrange(a as int, b as int), v, number_view(number)) == Some(s@),
        res is None ==> value_element(t@.subrange(a as int, b as int), v, number_view(number)) is None,
{
    let mut out = String::new();
    match v {
        SourceCellValue::Boolean(flag) => {
            append_str(&mut out, "<c r=\"");
            append_range(&mut out, t, a, b);
            append_str(&mut out, "\" t=\"b\"><v>");
            append_str(&mut out, if flag { "1" } else { "0" });
            append_str(&mut out, "</v></c>");
            Some(out)
        },
        SourceCellValue::Error(code) => {
            append_str(&mut out, "<c r=\"");
            append_range(&mut out, t, a, b);
            append_str(&mut out, "\" t=\"e\"><v>");
            append_error_name(&mut out, code);
            append_str(&mut out, "</v></c>");
            Some(out)
        },
        _ => match number {
            Some(x) => {
                append_str(&mut out, "<c r=\"");
                append_range(&mut out, t, a, b);
                append_str(&mut out, "\"><v>");
                append_str(&mut out, x.as_str());
                append_str(&mut out, "</v></c>");
                Some(out)
            },
            None => None,
        },
    }
}

/// The text of an optional number.
pub open spec fn number_view(number: Option<&String>) -> Option<Seq<char>> {
    match number {
        Some(x) => Some(x@),
        None => None,
    }
}

/// The position just past the `>` that ends the tag opened at `start`.
fn tag_end_from(t: &Vec<char>, start: usize) -> (res: Option<usize>)
    requires
        start <= t@.len(),
    ensures
        match find_from(t@.subrange(start as int, t@.len() as int), seq!['>'], 0) {
            Some(rel) => res matches Some(k) && k == start + rel + 1 && start < k <= t@.len(),
            None => res is None,
        },
{
    let close = ['>'];
    assert(close@ =~= seq!['>']);
    match find_in_range(t, &close, start, t.len()) {
        Some(k) => {
            proof {
                lemma_find_from(t@.subrange(start as int, t@.len() as int), seq!['>'], 0);
            }
            Some(k + 1)
        },
        None => None,
    }
}

/// The cell `t[a..b]` addresses by its `r` attribute, with the bounds of
/// that attribute's value.
fn cell_in(t: &Vec<char>, a: usize, b: usize, r_needle: &Vec<char>) -> (res: Option<(u16, u16, usize, usize)>)
    requires
        a <= b <= t@.len(),
        r_needle@ == attr_needle("r"@),
    ensures
        match cell_of(t@.subrange(a as int, b as int)) {
            Some((row, col)) => res matches Some((r, c, s, e)) && r == row && c == col && a <= s <= e <= b
                && attr_value(t@.subrange(a as int, b as int), "r"@) == Some(t@.subrange(s as int, e as int)),
            None => res is None,
        },
{
    match attr_bounds(t, a, b, r_needle) {
        Some((s, e)) => {
            let text = string_of(t, s, e);
            match parse_cell_ref(text.as_str()) {
                Some((row, col)) => Some((row, col, s, e)),
                None => None,
            }
        },
        None => None,
    }
}

/// Rewrites each cell of `t` that has a source value to carry it.
#[verifier::rlimit(40)]
fn patch_values(t: &Vec<char>, values: &HashMap<u32, SourceCellValue>, numbers: &HashMap<u32, String>) -> (res:
    Result<String, String>)
    ensures
        match values_pass(t@, values@, numbers@) {
            Some(x) => res matches Ok(s) && s@ == x,
            None => res is Err,
        },
{
    let open = literal("<c ");
    let close = literal("</c>");
    let r_needle = literal(" r=\"");
    proof {
        reveal_strlit("<c ");
        reveal_strlit("</c>");
        reveal_strlit(" r=\"");
        reveal_strlit("r");
        assert(r_needle@ =~= attr_needle("r"@));
    }
    let n = t.len();
    let mut out = String::new();
    let mut pos: usize = 0;
    assert(t@.subrange(0, n as int) =~= t@);
    assert(out@ + t@ =~= t@);
    loop
        invariant
            n == t@.len(),
            pos <= n,
            open@ == "<c "@,
            close@ == "</c>"@,
            close@.len() == 4,
            r_needle@ == attr_needle("r"@),
            values_pass(t@, values@, numbers@) == prepend(
                out@,
                values_pass(t@.subrange(pos as int, n as int), values@, numbers@),
            ),
        decreases n - pos,
    {
        let ghost x = t@.subrange(pos as int, n as int);
        let start = match find_in_range(t, open.as_slice(), pos, n) {
            Some(k) => k,
            None => {
                append_range(&mut out, t, pos, n);
                return Ok(out);
            },
        };
        proof {
            lemma_find_from(x, "<c "@, 0);
            assert(x.subrange(start - pos, x.len() as int) =~= t@.subrange(start as int, n as int));
        }
        let tag_end = match tag_end_from(t, start) {
            Some(k) => k,
            None => {
                return Err(message("unterminated worksheet cell"));
            },
        };
        let ghost tag = t@.subrange(start as int, tag_end as int);
        assert(x.subrange(start - pos, tag_end - pos) =~= tag);
        assert(x.subrange(tag_end - pos, x.len() as int) =~= t@.subrange(tag_end as int, n as int));
        let found = match cell_in(t, start, tag_end, &r_needle) {
            Some((row, col, s, e)) => {
                let key = cell_key_of(row, col);
                match values.get(&key) {
                    Some(v) => Some((key, *v, s, e)),
                    None => None,
                }
            },
            None => None,
        };
        match found {
            None => {
                assert(valued_key(tag, values@) is None);
                let ghost before = out@;
                append_range(&mut out, t, pos, tag_end);
                proof {
                    assert(x.subrange(0, tag_end - pos) =~= t@.subrange(pos as int, tag_end as int));
                    let rest = values_pass(t@.subrange(tag_end as int, n as int), values@, numbers@);
                    if rest is Some {
                        assert(before + (x.subrange(0, tag_end - pos) + rest->Some_0) =~= out@ + rest->Some_0);
                    }
                }
                pos = tag_end;
            },
            Some((key, v, s, e)) => {
                assert(valued_key(tag, values@) == Some(key));
                let close_at = match find_in_range(t, close.as_slice(), tag_end, n) {
                    Some(k) => k,
                    None => {
                        return Err(message("source value cell is not closed"));
                    },
                };
                proof {
                    lemma_find_from(t@.subrange(tag_end as int, n as int), "</c>"@, 0);
                }
                let end = close_at + 4;
                assert(x.subrange(end - pos, x.len() as int) =~= t@.subrange(end as int, n as int));
                let number = numbers.get(&key);
                assert(number_view(number) == number_text(numbers@, key));
                let element = value_element_text(t, s, e, v, number);
                let ghost before = out@;
                match element {
                    Some(text) => {
                        append_range(&mut out, t, pos, start);
                        append_str(&mut out, text.as_str());
                        proof {
                            assert(x.subrange(0, start - pos) =~= t@.subrange(pos as int, start as int));
                            let rest = values_pass(t@.subrange(end as int, n as int), values@, numbers@);
                            if rest is Some {
                                assert(before + (x.subrange(0, start - pos) + text@ + rest->Some_0) =~= out@
                                    + rest->Some_0);
                            }
                        }
                    },
                    None => {
                        append_range(&mut out, t, pos, end);
                        proof {
                            assert(x.subrange(0, end - pos) =~= t@.subrange(pos as int, end as int));
                            let rest = values_pass(t@.subrange(end as int, n as int), values@, numbers@);
                            if rest is Some {
                                assert(before + (x.subrange(0, end - pos) + rest->Some_0) =~= out@ + rest->Some_0);
                            }
                        }
                    },
                }
                pos = end;
            },
        }
    }
}

/// The XF a cell tag's cell is styled with, when it has one.
pub open spec fn styled_xf(tag: Seq<char>, xfs: Map<u32, u16>) -> Option<u16> {
    match cell_of(tag) {
        Some((row, col)) => if xfs.contains_key(cell_key(row, col)) {
            Some(xfs[cell_key(row, col)])
        } else {
            None
        },
        None => None,
    }
}

/// `t` with the style attribute of each styled cell's start tag set to its
/// XF. `None` when a cell tag is unterminated.
pub open spec fn styles_pass(t: Seq<char>, xfs: Map<u32, u16>) -> Option<Seq<char>>
    decreases t.len(),
{
    match find_from(t, "<c "@, 0) {
        None => Some(t),
        Some(start) => {
            proof {
                lemma_find_from(t, "<c "@, 0);
            }
            match find_from(t.subrange(start, t.len() as int), seq!['>'], 0) {
                None => None,
                Some(rel) => {
                    proof {
                        lemma_find_from(t.subrange(start, t.len() as int), seq!['>'], 0);
                    }
                    let tag_end = start + rel + 1;
                    let tag = t.subrange(start, tag_end);
                    let rest = styles_pass(t.subrange(tag_end, t.len() as int), xfs);
                    match styled_xf(tag, xfs) {
                        Some(xf) => prepend(t.subrange(0, start) + with_attribute(tag, "s"@, decimal(xf as nat)), rest),
                        None => prepend(t.subrange(0, tag_end), rest),
                    }
                },
            }
        },
    }
}

/// The decimal text of `n`.
fn decimal_string(n: u64) -> (res: String)
    ensures
        res@ == decimal(n as nat),
{
    let mut out = String::new();
    append_decimal(&mut out, n);
    assert(out@ =~= decimal(n as nat));
    out
}

/// Sets the style of each styled cell of `t`.
#[verifier::rlimit(40)]
fn patch_cell_styles(t: &Vec<char>, xfs: &HashMap<u32, u16>) -> (res: Result<String, String>)
    ensures
        match styles_pass(t@, xfs@) {
            Some(x) => res matches Ok(s) && s@ == x,
            None => res is Err,
        },
{
    let open = literal("<c ");
    let r_needle = literal(" r=\"");
    proof {
        reveal_strlit("<c ");
        reveal_strlit(" r=\"");
        reveal_strlit("r");
        assert(r_needle@ =~= attr_needle("r"@));
    }
    let n = t.len();
    let mut out = String::new();
    let mut pos: usize = 0;
    assert(t@.subrange(0, n as int) =~= t@);
    assert(out@ + t@ =~= t@);
    loop
        invariant
            n == t@.len(),
            pos <= n,
            open@ == "<c "@,
            r_needle@ == attr_needle("r"@),
            styles_pass(t@, xfs@) == prepend(out@, styles_pass(t@.subrange(pos as int, n as int), xfs@)),
        decreases n - pos,
    {
        let ghost x = t@.subrange(pos as int, n as int);
        let start = match find_in_range(t, open.as_slice(), pos, n) {
            Some(k) => k,
            None => {
                append_range(&mut out, t, pos, n);
                return Ok(out);
            },
        };
        proof {
            lemma_find_from(x, "<c "@, 0);
            assert(x.subrange(start - pos, x.len() as int) =~= t@.subrange(start as int, n as int));
        }
        let tag_end = match tag_end_from(t, start) {
            Some(k) => k,
            None => {
                return Err(message("unterminated worksheet cell"));
            },
        };
        let ghost tag = t@.subrange(start as int, tag_end as int);
        assert(x.subrange(start - pos, tag_end - pos) =~= tag);
        assert(x.subrange(tag_end - pos, x.len() as int) =~= t@.subrange(tag_end as int, n as int));
        let xf = match cell_in(t, start, tag_end, &r_needle) {
            Some((row, col, _, _)) => {
                let key = cell_key_of(row, col);
                match xfs.get(&key) {
                    Some(v) => Some(*v),
                    None => None,
                }
            },
            None => None,
        };
        assert(xf == styled_xf(tag, xfs@));
        let ghost before = out@;
        match xf {
            Some(value) => {
                append_range(&mut out, t, pos, start);
                let tag_text = string_of(t, start, tag_end);
                let value_text = decimal_string(value as u64);
                let replaced = crate::xls_ooxml::set_attribute(tag_text.as_str(), "s", value_text.as_str());
                proof {
                    reveal_strlit("s");
                }
                append_str(&mut out, replaced.as_str());
                proof {
                    assert(x.subrange(0, start - pos) =~= t@.subrange(pos as int, start as int));
                    let rest = styles_pass(t@.subrange(tag_end as int, n as int), xfs@);
                    if rest is Some {
                        assert(before + (x.subrange(0, start - pos) + replaced@ + rest->Some_0) =~= out@
                            + rest->Some_0);
                    }
                }
            },
            None => {
                append_range(&mut out, t, pos, tag_end);
                proof {
                    assert(x.subrange(0, tag_end - pos) =~= t@.subrange(pos as int, tag_end as int));
                    let rest = styles_pass(t@.subrange(tag_end as int, n as int), xfs@);
                    if rest is Some {
                        assert(before + (x.subrange(0, tag_end - pos) + rest->Some_0) =~= out@ + rest->Some_0);
                    }
                }
            },
        }
        pos = tag_end;
    }
}

/// Row start tag `tag` carrying source layout `l`: a height in points with
/// the custom-height flag when the height was customised or is not zero,
/// the hidden flag, and a row style with the custom-format flag.
pub open spec fn row_tag_patched(tag: Seq<char>, l: RowLayout) -> Seq<char> {
    let sized = if l.custom_height || l.height_twips != 0 {
        with_attribute(with_attribute(tag, "ht"@, points_text(l.height_twips)), "customHeight"@, "1"@)
    } else {
        tag
    };
    let hidden = if l.hidden {
        with_attribute(sized, "hidden"@, "1"@)
    } else {
        sized
    };
    match l.xf {
        Some(xf) => with_attribute(with_attribute(hidden, "s"@, decimal(xf as nat)), "customFormat"@, "1"@),
        None => hidden,
    }
}

/// The source layout of the row a row start tag addresses, if any.
pub open spec fn row_layout_of(tag: Seq<char>, rows: Map<u16, RowLayout>) -> Option<RowLayout> {
    match row_of_tag(tag) {
        Some(n) => if rows.contains_key((n - 1) as u16) {
            Some(rows[(n - 1) as u16])
        } else {
            None
        },
        None => None,
    }
}

/// `t` with each `<row ...>` start tag of a row with a source layout
/// carrying it. `None` when a row tag is unterminated.
pub open spec fn rows_pass(t: Seq<char>, rows: Map<u16, RowLayout>) -> Option<Seq<char>>
    decreases t.len(),
{
    match find_from(t, "<row "@, 0) {
        None => Some(t),
        Some(start) => {
            proof {
                lemma_find_from(t, "<row "@, 0);
            }
            match find_from(t.subrange(start, t.len() as int), seq!['>'], 0) {
                None => None,
                Some(rel) => {
                    proof {
                        lemma_find_from(t.subrange(start, t.len() as int), seq!['>'], 0);
                    }
                    let tag_end = start + rel + 1;
                    let tag = t.subrange(start, tag_end);
                    let rest = rows_pass(t.subrange(tag_end, t.len() as int), rows);
                    match row_layout_of(tag, rows) {
                        Some(l) => prepend(t.subrange(0, start) + row_tag_patched(tag, l), rest),
                        None => prepend(t.subrange(0, tag_end), rest),
                    }
                },
            }
        },
    }
}

/// The row number of the row tag `t[a..b]`.
fn row_in(t: &Vec<char>, a: usize, b: usize, r_needle: &Vec<char>) -> (res: Option<u32>)
    requires
        a <= b <= t@.len(),
        r_needle@ == attr_needle("r"@),
    ensures
        res == row_of_tag(t@.subrange(a as int, b as int)),
{
    match attr_bounds(t, a, b, r_needle) {
        Some((s, e)) => match parse_u32_in(t, s, e) {
            Some(number) => if 1 <= number && number <= 65536 {
                Some(number)
            } else {
                None
            },
            None => None,
        },
        None => None,
    }
}

/// Row start tag `tag` carrying layout `l`.
fn patched_row_tag(tag: String, l: RowLayout) -> (res: String)
    ensures
        res@ == row_tag_patched(tag@, l),
{
    proof {
        reveal_strlit("ht");
        reveal_strlit("customHeight");
        reveal_strlit("1");
        reveal_strlit("hidden");
        reveal_strlit("s");
        reveal_strlit("customFormat");
    }
    let mut current = tag;
    if l.custom_height || l.height_twips != 0 {
        let mut points = String::new();
        append_points(&mut points, l.height_twips);
        assert(points@ =~= points_text(l.height_twips));
        current = crate::xls_ooxml::set_attribute(current.as_str(), "ht", points.as_str());
        current = crate::xls_ooxml::set_attribute(current.as_str(), "customHeight", "1");
    }
    if l.hidden {
        current = crate::xls_ooxml::set_attribute(current.as_str(), "hidden", "1");
    }
    if let Some(xf) = l.xf {
        let value = decimal_string(xf as u64);
        current = crate::xls_ooxml::set_attribute(current.as_str(), "s", value.as_str());
        current = crate::xls_ooxml::set_attribute(current.as_str(), "customFormat", "1");
    }
    current
}

/// Writes the source layout of each laid-out row of `t`.
#[verifier::rlimit(40)]
fn patch_rows(t: &Vec<char>, rows: &BTreeMap<u16, RowLayout>) -> (res: Result<String, String>)
    ensures
        match rows_pass(t@, rows@) {
            Some(x) => res matches Ok(s) && s@ == x,
            None => res is Err,
        },
{
    let open = literal("<row ");
    let r_needle = literal(" r=\"");
    proof {
        reveal_strlit("<row ");
        reveal_strlit(" r=\"");
        reveal_strlit("r");
        assert(r_needle@ =~= attr_needle("r"@));
    }
    let n = t.len();
    let mut out = String::new();
    let mut pos: usize = 0;
    assert(t@.subrange(0, n as int) =~= t@);
    assert(out@ + t@ =~= t@);
    loop
        invariant
            n == t@.len(),
            pos <= n,
            open@ == "<row "@,
            r_needle@ == attr_needle("r"@),
            rows_pass(t@, rows@) == prepend(out@, rows_pass(t@.subrange(pos as int, n as int), rows@)),
        decreases n - pos,
    {
        let ghost x = t@.subrange(pos as int, n as int);
        let start = match find_in_range(t, open.as_slice(), pos, n) {
            Some(k) => k,
            None => {
                append_range(&mut out, t, pos, n);
                return Ok(out);
            },
        };
        proof {
            lemma_find_from(x, "<row "@, 0);
            assert(x.subrange(start - pos, x.len() as int) =~= t@.subrange(start as int, n as int));
        }
        let tag_end = match tag_end_from(t, start) {
            Some(k) => k,
            None => {
                return Err(message("unterminated worksheet row"));
            },
        };
        let ghost tag = t@.subrange(start as int, tag_end as int);
        assert(x.subrange(start - pos, tag_end - pos) =~= tag);
        assert(x.subrange(tag_end - pos, x.len() as int) =~= t@.subrange(tag_end as int, n as int));
        let layout = match row_in(t, start, tag_end, &r_needle) {
            Some(number) => {
                let source_row = (number - 1) as u16;
                match rows.get(&source_row) {
                    Some(l) => Some(*l),
                    None => None,
                }
            },
            None => None,
        };
        assert(layout == row_layout_of(tag, rows@));
        let ghost before = out@;
        match layout {
            Some(l) => {
                append_range(&mut out, t, pos, start);
                let tag_text = string_of(t, start, tag_end);
                let replaced = patched_row_tag(tag_text, l);
                append_str(&mut out, replaced.as_str());
                proof {
                    assert(x.subrange(0, start - pos) =~= t@.subrange(pos as int, start as int));
                    let rest = rows_pass(t@.subrange(tag_end as int, n as int), rows@);
                    if rest is Some {
                        assert(before + (x.subrange(0, start - pos) + replaced@ + rest->Some_0) =~= out@
                            + rest->Some_0);
                    }
                }
            },
            None => {
                append_range(&mut out, t, pos, tag_end);
                proof {
                    assert(x.subrange(0, tag_end - pos) =~= t@.subrange(pos as int, tag_end as int));
                    let rest = rows_pass(t@.subrange(tag_end as int, n as int), rows@);
                    if rest is Some {
                        assert(before + (x.subrange(0, tag_end - pos) + rest->Some_0) =~= out@ + rest->Some_0);
                    }
                }
            },
        }
        pos = tag_end;
    }
}

/// `r` with its position moved on by `k`.
pub open spec fn shifted(k: int, r: Option<(bool, int)>) -> Option<(bool, int)> {
    match r {
        Some((present, p)) => Some((present, k + p)),
        None => None,
    }
}

/// Scans the cell start tags of row fragment `f` for cell `reference` in
/// column `col`: `(true, p)` when a tag at `p` names that cell, `(false, p)`
/// when the tag at `p` is the first one of a later column, `(false,
/// f.len())` when neither occurs. `None` when a cell tag is unterminated.
pub open spec fn cell_scan(f: Seq<char>, reference: Seq<char>, col: u16) -> Option<(bool, int)>
    decreases f.len(),
{
    match find_from(f, "<c "@, 0) {
        None => Some((false, f.len() as int)),
        Some(start) => {
            proof {
                lemma_find_from(f, "<c "@, 0);
            }
            match find_from(f.subrange(start, f.len() as int), seq!['>'], 0) {
                None => None,
                Some(rel) => {
                    proof {
                        lemma_find_from(f.subrange(start, f.len() as int), seq!['>'], 0);
                    }
                    let tag_end = start + rel + 1;
                    let tag = f.subrange(start, tag_end);
                    let later = shifted(tag_end, cell_scan(f.subrange(tag_end, f.len() as int), reference, col));
                    match attr_value(tag, "r"@) {
                        Some(r) => if r == reference {
                            Some((true, start))
                        } else if parsed_cell_ref(r) matches Some((_, c)) && c > col {
                            Some((false, start))
                        } else {
                            later
                        },
                        None => later,
                    }
                },
            }
        },
    }
}

/// The empty cell element `<c r="REF" s="XF"/>`.
pub open spec fn blank_element(reference: Seq<char>, xf: u16) -> Seq<char> {
    "<c r=\""@ + reference + "\" s=\""@ + decimal(xf as nat) + "\"/>"@
}

/// Row fragment `f` with an empty cell of XF `xf` at (`row`, `col`),
/// unless the cell is already there: before the first cell of a later
/// column, else before the last `</row>`. `None` when a cell tag is
/// unterminated or the row is unclosed.
pub open spec fn with_blank_cell(f: Seq<char>, row: u16, col: u16, xf: u16) -> Option<Seq<char>> {
    let reference = cell_ref_text(row, col);
    match cell_scan(f, reference, col) {
        None => None,
        Some((present, p)) => if present {
            Some(f)
        } else {
            let at = if p < f.len() {
                Some(p)
            } else {
                last_from(f, "</row>"@, f.len() - 6)
            };
            match at {
                Some(i) => Some(f.subrange(0, i) + blank_element(reference, xf) + f.subrange(i, f.len() as int)),
                None => None,
            }
        },
    }
}

/// Whether `t[a..b]` equals `r`.
pub(crate) fn range_equals(t: &Vec<char>, a: usize, b: usize, r: &Vec<char>) -> (res: bool)
    requires
        a <= b <= t@.len(),
    ensures
        res == (t@.subrange(a as int, b as int) == r@),
{
    if b - a != r.len() {
        assert(t@.subrange(a as int, b as int).len() != r@.len());
        return false;
    }
    let mut k: usize = 0;
    while k < r.len()
        invariant
            a <= b <= t@.len(),
            b - a == r@.len(),
            k <= r@.len(),
            t@.subrange(a as int, a + k) =~= r@.take(k as int),
        decreases r@.len() - k,
    {
        if t[a + k] != r[k] {
            assert(t@.subrange(a as int, b as int)[k as int] != r@[k as int]);
            return false;
        }
        assert(t@.subrange(a as int, a + k + 1) =~= t@.subrange(a as int, a + k).push(t@[a + k]));
        assert(r@.take(k + 1) =~= r@.take(k as int).push(r@[k as int]));
        k = k + 1;
    }
    assert(r@.take(r@.len() as int) =~= r@);
    true
}

/// The last position at which `p` occurs wholly inside `t`.
fn last_occurrence(t: &Vec<char>, p: &Vec<char>) -> (res: Option<usize>)
    ensures
        match last_from(t@, p@, t@.len() - p@.len()) {
            Some(j) => res matches Some(k) && k == j && k + p@.len() <= t@.len(),
            None => res is None,
        },
{
    if p.len() > t.len() {
        assert(last_from(t@, p@, t@.len() - p@.len()) is None);
        return None;
    }
    let tn = t.len();
    let mut i: usize = t.len() - p.len();
    loop
        invariant
            tn == t@.len(),
            i + p@.len() <= t@.len(),
            last_from(t@, p@, t@.len() - p@.len()) == last_from(t@, p@, i as int),
        decreases i,
    {
        if range_equals(t, i, i + p.len(), p) {
            return Some(i);
        }
        if i == 0 {
            assert(last_from(t@, p@, -1) is None);
            return None;
        }
        i = i - 1;
    }
}

/// Row fragment `f` with an empty cell of XF `xf` at (`row`, `col`).
#[verifier::rlimit(40)]
fn insert_blank_cell(f: &Vec<char>, row: u16, col: u16, xf: u16) -> (res: Result<Vec<char>, String>)
    ensures
        match with_blank_cell(f@, row, col, xf) {
            Some(x) => res matches Ok(v) && v@ == x,
            None => res is Err,
        },
{
    let open = literal("<c ");
    let r_needle = literal(" r=\"");
    let row_close = literal("</row>");
    proof {
        reveal_strlit("<c ");
        reveal_strlit(" r=\"");
        reveal_strlit("r");
        reveal_strlit("</row>");
        assert(r_needle@ =~= attr_needle("r"@));
    }
    let reference = chars_of(crate::xls_ooxml::cell_ref(row, col).as_str());
    let ghost target = cell_ref_text(row, col);
    let n = f.len();
    let mut pos: usize = 0;
    assert(f@.subrange(0, n as int) =~= f@);
    let mut found: Option<(bool, usize)> = None;
    while found.is_none()
        invariant_except_break
            found is None,
        invariant
            n == f@.len(),
            pos <= n,
            open@ == "<c "@,
            r_needle@ == attr_needle("r"@),
            reference@ == target,
            target == cell_ref_text(row, col),
            cell_scan(f@, target, col) == shifted(pos as int, cell_scan(f@.subrange(pos as int, n as int), target, col)),
        ensures
            found matches Some((present, p)) && cell_scan(f@, target, col) == Some((present, p as int)) && p <= n,
        decreases n - pos,
    {
        let ghost x = f@.subrange(pos as int, n as int);
        let start = match find_in_range(f, open.as_slice(), pos, n) {
            Some(k) => k,
            None => {
                found = Some((false, n));
                break;
            },
        };
        proof {
            lemma_find_from(x, "<c "@, 0);
            assert(x.subrange(start - pos, x.len() as int) =~= f@.subrange(start as int, n as int));
        }
        let tag_end = match tag_end_from(f, start) {
            Some(k) => k,
            None => {
                return Err(message("unterminated worksheet cell"));
            },
        };
        let ghost tag = f@.subrange(start as int, tag_end as int);
        assert(x.subrange(start - pos, tag_end - pos) =~= tag);
        assert(x.subrange(tag_end - pos, x.len() as int) =~= f@.subrange(tag_end as int, n as int));
        if let Some((s, e)) = attr_bounds(f, start, tag_end, &r_needle) {
            if range_equals(f, s, e, &reference) {
                found = Some((true, start));
                break;
            }
            let text = string_of(f, s, e);
            if let Some((_, existing)) = crate::xls_ooxml::parse_cell_ref(text.as_str()) {
                if existing > col {
                    found = Some((false, start));
                    break;
                }
            }
        }
        pos = tag_end;
    }
    let (present, p) = match found {
        Some(v) => v,
        None => {
            return Err(message("unterminated worksheet cell"));
        },
    };
    if present {
        return Ok(f.clone());
    }
    let at = if p < n {
        p
    } else {
        match last_occurrence(f, &row_close) {
            Some(k) => k,
            None => {
                return Err(message("worksheet row is not closed"));
            },
        }
    };
    let mut out: Vec<char> = Vec::new();
    let mut k: usize = 0;
    while k < at
        invariant
            at <= n == f@.len(),
            k <= at,
            out@ =~= f@.subrange(0, k as int),
        decreases at - k,
    {
        out.push(f[k]);
        k = k + 1;
    }
    let element = chars_of(
        {
            let mut e = String::new();
            append_str(&mut e, "<c r=\"");
            append_chars(&mut e, &reference);
            append_str(&mut e, "\" s=\"");
            append_decimal(&mut e, xf as u64);
            append_str(&mut e, "\"/>");
            e
        }.as_str(),
    );
    assert(element@ =~= blank_element(target, xf));
    let mut j: usize = 0;
    while j < element.len()
        invariant
            j <= element@.len(),
            out@ =~= f@.subrange(0, at as int) + element@.take(j as int),
        decreases element@.len() - j,
    {
        out.push(element[j]);
        j = j + 1;
    }
    assert(element@.take(element@.len() as int) =~= element@);
    let ghost mid = out@;
    let mut k: usize = at;
    while k < n
        invariant
            at <= k <= n == f@.len(),
            out@ =~= mid + f@.subrange(at as int, k as int),
        decreases n - k,
    {
        out.push(f[k]);
        k = k + 1;
    }
    Ok(out)
}

/// The row fragments of a worksheet, indexed by one-based row number.
pub open spec fn frag_view(v: Seq<Option<Vec<char>>>) -> Seq<Option<Seq<char>>> {
    v.map_values(
        |o: Option<Vec<char>>|
            match o {
                Some(x) => Some(x@),
                None => None,
            },
    )
}

/// No row fragments yet: one empty slot per row number up to 65536.
pub open spec fn no_rows() -> Seq<Option<Seq<char>>> {
    Seq::new(65537, |i: int| None::<Seq<char>>)
}

/// The `<row ...>...</row>` fragments of sheet data `c` added to `acc` by
/// row number. `None` when a row tag is unterminated, has no row number
/// within the grid, is unclosed, or repeats a row.
pub open spec fn row_fragments(c: Seq<char>, acc: Seq<Option<Seq<char>>>) -> Option<Seq<Option<Seq<char>>>>
    decreases c.len(),
{
    match find_from(c, "<row "@, 0) {
        None => Some(acc),
        Some(start) => {
            proof {
                lemma_find_from(c, "<row "@, 0);
            }
            match find_from(c.subrange(start, c.len() as int), seq!['>'], 0) {
                None => None,
                Some(rel) => {
                    proof {
                        lemma_find_from(c.subrange(start, c.len() as int), seq!['>'], 0);
                    }
                    let tag_end = start + rel + 1;
                    match row_of_tag(c.subrange(start, tag_end)) {
                        None => None,
                        Some(number) => match find_from(c.subrange(tag_end, c.len() as int), "</row>"@, 0) {
                            None => None,
                            Some(r2) => {
                                proof {
                                    lemma_find_from(c.subrange(tag_end, c.len() as int), "</row>"@, 0);
                                    reveal_strlit("</row>");
                                }
                                let end = tag_end + r2 + 6;
                                if acc[number as int] is Some {
                                    None
                                } else {
                                    row_fragments(
                                        c.subrange(end, c.len() as int),
                                        acc.update(number as int, Some(c.subrange(start, end))),
                                    )
                                }
                            },
                        },
                    }
                },
            }
        },
    }
}

/// Collects the row fragments of the sheet data `t[a..b]` into `acc`.
#[verifier::rlimit(40)]
fn collect_rows(t: &Vec<char>, a: usize, b: usize, acc: &mut Vec<Option<Vec<char>>>) -> (res: Result<(), String>)
    requires
        a <= b <= t@.len(),
        old(acc)@.len() == 65537,
    ensures
        final(acc)@.len() == 65537,
        match row_fragments(t@.subrange(a as int, b as int), frag_view(old(acc)@)) {
            Some(x) => res is Ok && frag_view(final(acc)@) == x,
            None => res is Err,
        },
{
    let open = literal("<row ");
    let close = literal("</row>");
    let r_needle = literal(" r=\"");
    proof {
        reveal_strlit("<row ");
        reveal_strlit("</row>");
        reveal_strlit(" r=\"");
        reveal_strlit("r");
        assert(r_needle@ =~= attr_needle("r"@));
    }
    let ghost total = row_fragments(t@.subrange(a as int, b as int), frag_view(acc@));
    let mut pos: usize = a;
    loop
        invariant
            a <= pos <= b <= t@.len(),
            acc@.len() == 65537,
            open@ == "<row "@,
            close@ == "</row>"@,
            close@.len() == 6,
            r_needle@ == attr_needle("r"@),
            total == row_fragments(t@.subrange(a as int, b as int), frag_view(old(acc)@)),
            total == row_fragments(t@.subrange(pos as int, b as int), frag_view(acc@)),
        decreases b - pos,
    {
        let ghost x = t@.subrange(pos as int, b as int);
        let start = match find_in_range(t, open.as_slice(), pos, b) {
            Some(k) => k,
            None => {
                return Ok(());
            },
        };
        proof {
            lemma_find_from(x, "<row "@, 0);
        }
        let close_tag = ['>'];
        assert(close_tag@ =~= seq!['>']);
        let gt = match find_in_range(t, &close_tag, start, b) {
            Some(k) => k,
            None => {
                assert(x.subrange(start - pos, x.len() as int) =~= t@.subrange(start as int, b as int));
                return Err(message("unterminated worksheet row"));
            },
        };
        proof {
            assert(x.subrange(start - pos, x.len() as int) =~= t@.subrange(start as int, b as int));
            lemma_find_from(t@.subrange(start as int, b as int), seq!['>'], 0);
        }
        let tag_end = gt + 1;
        assert(x.subrange(start - pos, tag_end - pos) =~= t@.subrange(start as int, tag_end as int));
        let number = match row_in(t, start, tag_end, &r_needle) {
            Some(v) => v,
            None => {
                return Err(message("worksheet row has no valid r attribute"));
            },
        };
        assert(x.subrange(tag_end - pos, x.len() as int) =~= t@.subrange(tag_end as int, b as int));
        let end_at = match find_in_range(t, close.as_slice(), tag_end, b) {
            Some(k) => k,
            None => {
                return Err(message("worksheet row is not closed"));
            },
        };
        proof {
            lemma_find_from(t@.subrange(tag_end as int, b as int), "</row>"@, 0);
        }
        let end = end_at + 6;
        assert(x.subrange(end - pos, x.len() as int) =~= t@.subrange(end as int, b as int));
        assert(x.subrange(start - pos, end - pos) =~= t@.subrange(start as int, end as int));
        let index = number as usize;
        if acc[index].is_some() {
            return Err(message("worksheet contains a duplicate row"));
        }
        let mut fragment: Vec<char> = Vec::new();
        let mut k: usize = start;
        while k < end
            invariant
                start <= k <= end <= t@.len(),
                fragment@ =~= t@.subrange(start as int, k as int),
            decreases end - k,
        {
            fragment.push(t[k]);
            k = k + 1;
        }
        let ghost prior = frag_view(acc@);
        acc.set(index, Some(fragment));
        assert(frag_view(acc@) =~= prior.update(index as int, Some(t@.subrange(start as int, end as int))));
        pos = end;
    }
}

/// The empty row element for one-based row `n`.
pub open spec fn empty_row(n: nat) -> Seq<char> {
    "<row r=\""@ + decimal(n) + "\"></row>"@
}

/// `acc` with an empty row for each laid-out source row inside `d` that
/// has no fragment yet.
pub open spec fn layout_rows(acc: Seq<Option<Seq<char>>>, rows: Map<u16, RowLayout>, d: CellRange) -> Seq<
    Option<Seq<char>>,
> {
    Seq::new(
        acc.len(),
        |i: int|
            if acc[i] is None && d.first_row < i <= d.last_row + 1 && rows.contains_key((i - 1) as u16) {
                Some(empty_row(i as nat))
            } else {
                acc[i]
            },
    )
}

/// The characters of the empty row element for row `n`.
fn empty_row_chars(n: u32) -> (res: Vec<char>)
    ensures
        res@ == empty_row(n as nat),
{
    let mut e = String::new();
    append_str(&mut e, "<row r=\"");
    append_decimal(&mut e, n as u64);
    append_str(&mut e, "\"></row>");
    chars_of(e.as_str())
}

/// The fragments `start` with an empty row for each laid-out source row
/// from `d.first_row` up to (not including) `r` that has none.
pub open spec fn layout_rows_below(start: Seq<Option<Seq<char>>>, rows: Map<u16, RowLayout>, d: CellRange, r: int) -> Seq<
    Option<Seq<char>>,
> {
    Seq::new(
        start.len(),
        |i: int|
            if start[i] is None && d.first_row < i <= r && rows.contains_key((i - 1) as u16) {
                Some(empty_row(i as nat))
            } else {
                start[i]
            },
    )
}

/// Gives each laid-out source row inside `d` a fragment.
fn add_layout_rows(acc: &mut Vec<Option<Vec<char>>>, rows: &BTreeMap<u16, RowLayout>, d: CellRange)
    requires
        old(acc)@.len() == 65537,
    ensures
        final(acc)@.len() == 65537,
        frag_view(final(acc)@) == layout_rows(frag_view(old(acc)@), rows@, d),
{
    let ghost start = frag_view(acc@);
    let mut r: u32 = d.first_row as u32;
    assert(frag_view(acc@) =~= layout_rows_below(start, rows@, d, r as int));
    while r <= d.last_row as u32
        invariant
            acc@.len() == 65537,
            d.first_row <= r,
            r <= d.last_row + 1 || r == d.first_row,
            start.len() == 65537,
            frag_view(acc@) == layout_rows_below(start, rows@, d, r as int),
        decreases d.last_row + 1 - r,
    {
        let ghost prior = frag_view(acc@);
        let index = (r + 1) as usize;
        let key = r as u16;
        let ghost want = layout_rows_below(start, rows@, d, r + 1);
        if rows.contains_key(&key) && acc[index].is_none() {
            acc.set(index, Some(empty_row_chars(r + 1)));
            proof {
                assert forall|i: int| 0 <= i < 65537 implies frag_view(acc@)[i] == want[i] by {
                    if i != index {
                        assert(frag_view(acc@)[i] == prior[i]);
                    } else {
                        assert(((i - 1) as u16) == key);
                        assert(prior[i] is None);
                        assert(start[i] is None);
                    }
                }
                assert(frag_view(acc@) =~= want);
            }
        } else {
            proof {
                assert forall|i: int| 0 <= i < 65537 implies frag_view(acc@)[i] == want[i] by {
                    if i == index {
                        assert(((i - 1) as u16) == key);
                    }
                }
                assert(frag_view(acc@) =~= want);
            }
        }
        r = r + 1;
    }
    assert(layout_rows_below(start, rows@, d, r as int) =~= layout_rows(start, rows@, d));
}

/// `acc` with an empty cell added for each styled cell inside `d`, row by
/// row and column by column from (`r`, `c`); a row without a fragment gets
/// an empty one first. `None` when a fragment cannot take its cell.
pub open spec fn blank_fold(acc: Seq<Option<Seq<char>>>, xfs: Map<u32, u16>, d: CellRange, r: int, c: int) -> Option<
    Seq<Option<Seq<char>>>,
>
    decreases d.last_row + 1 - r, d.last_col + 1 - c,
{
    if r > d.last_row {
        Some(acc)
    } else if c > d.last_col {
        blank_fold(acc, xfs, d, r + 1, d.first_col as int)
    } else {
        let key = cell_key(r as u16, c as u16);
        if xfs.contains_key(key) {
            let number = r + 1;
            let fragment = match acc[number] {
                Some(f) => f,
                None => empty_row(number as nat),
            };
            match with_blank_cell(fragment, r as u16, c as u16, xfs[key]) {
                None => None,
                Some(f) => blank_fold(acc.update(number, Some(f)), xfs, d, r, c + 1),
            }
        } else {
            blank_fold(acc, xfs, d, r, c + 1)
        }
    }
}

/// Adds an empty cell for each styled cell inside `d`.
#[verifier::rlimit(40)]
fn add_blank_cells(acc: &mut Vec<Option<Vec<char>>>, xfs: &HashMap<u32, u16>, d: CellRange) -> (res: Result<
    (),
    String,
>)
    requires
        old(acc)@.len() == 65537,
        d.first_row <= d.last_row,
    ensures
        final(acc)@.len() == 65537,
        match blank_fold(frag_view(old(acc)@), xfs@, d, d.first_row as int, d.first_col as int) {
            Some(x) => res is Ok && frag_view(final(acc)@) == x,
            None => res is Err,
        },
{
    let ghost total = blank_fold(frag_view(acc@), xfs@, d, d.first_row as int, d.first_col as int);
    let mut r: u32 = d.first_row as u32;
    while r <= d.last_row as u32
        invariant
            acc@.len() == 65537,
            d.first_row <= r <= d.last_row + 1,
            total == blank_fold(frag_view(old(acc)@), xfs@, d, d.first_row as int, d.first_col as int),
            total == blank_fold(frag_view(acc@), xfs@, d, r as int, d.first_col as int),
        decreases d.last_row + 1 - r,
    {
        let mut c: u32 = d.first_col as u32;
        while c <= d.last_col as u32
            invariant
                acc@.len() == 65537,
                d.first_row <= r <= d.last_row,
                d.first_col <= c <= d.last_col + 1 || c == d.first_col,
                total == blank_fold(frag_view(old(acc)@), xfs@, d, d.first_row as int, d.first_col as int),
                total == blank_fold(frag_view(acc@), xfs@, d, r as int, c as int),
            decreases d.last_col + 1 - c,
        {
            let key = cell_key_of(r as u16, c as u16);
            match xfs.get(&key) {
                Some(xf) => {
                    let index = (r + 1) as usize;
                    let fragment = match &acc[index] {
                        Some(f) => f.clone(),
                        None => empty_row_chars(r + 1),
                    };
                    let updated = insert_blank_cell(&fragment, r as u16, c as u16, *xf)?;
                    let ghost prior = frag_view(acc@);
                    acc.set(index, Some(updated));
                    assert(frag_view(acc@) =~= prior.update(index as int, Some(updated@)));
                },
                None => {},
            }
            c = c + 1;
        }
        r = r + 1;
    }
    Ok(())
}

/// The fragments of `acc` from slot `k` on, concatenated in row order.
pub open spec fn rows_text(acc: Seq<Option<Seq<char>>>, k: int) -> Seq<char>
    decreases acc.len() - k,
{
    if k < 0 || k >= acc.len() {
        seq![]
    } else {
        (match acc[k] {
            Some(f) => f,
            None => seq![],
        }) + rows_text(acc, k + 1)
    }
}

/// Appends the fragments of `acc` in row order.
fn append_rows(out: &mut String, acc: &Vec<Option<Vec<char>>>)
    ensures
        final(out)@ == old(out)@ + rows_text(frag_view(acc@), 0),
{
    let ghost v = frag_view(acc@);
    let mut k: usize = 0;
    assert(old(out)@ + rows_text(v, 0) =~= out@ + rows_text(v, 0));
    while k < acc.len()
        invariant
            k <= acc@.len(),
            v == frag_view(acc@),
            old(out)@ + rows_text(v, 0) =~= out@ + rows_text(v, k as int),
        decreases acc@.len() - k,
    {
        let ghost before = out@;
        match &acc[k] {
            Some(f) => append_chars(out, f),
            None => {},
        }
        assert(before + rows_text(v, k as int) =~= out@ + rows_text(v, k + 1));
        k = k + 1;
    }
}

/// The bounds of the content of the `sheetData` element of `t`.
pub open spec fn sheet_data_content(t: Seq<char>) -> Option<(int, int)> {
    match find_from(t, "<sheetData"@, 0) {
        None => None,
        Some(s) => match find_from(t.subrange(s, t.len() as int), seq!['>'], 0) {
            None => None,
            Some(r) => {
                let cs = s + r + 1;
                match find_from(t.subrange(cs, t.len() as int), "</sheetData>"@, 0) {
                    None => None,
                    Some(r2) => Some((cs, cs + r2)),
                }
            },
        },
    }
}

/// `t` with an empty cell for each styled cell inside the dimensions `dims`
/// that the generated sheet lacks, and a row for each laid-out source row
/// inside them; the sheet data is rewritten as its row fragments in row
/// order. Unchanged without dimensions.
pub open spec fn blanks_pass(t: Seq<char>, dims: Option<CellRange>, rows: Map<u16, RowLayout>, xfs: Map<u32, u16>) -> Option<
    Seq<char>,
> {
    match dims {
        None => Some(t),
        Some(d) => match sheet_data_content(t) {
            None => None,
            Some((cs, ce)) => match row_fragments(t.subrange(cs, ce), no_rows()) {
                None => None,
                Some(acc) => match blank_fold(
                    layout_rows(acc, rows, d),
                    xfs,
                    d,
                    d.first_row as int,
                    d.first_col as int,
                ) {
                    None => None,
                    Some(filled) => Some(t.subrange(0, cs) + rows_text(filled, 0) + t.subrange(ce, t.len() as int)),
                },
            },
        },
    }
}

/// Finds the content bounds of the `sheetData` element of `t`.
fn sheet_data_bounds(t: &Vec<char>) -> (res: Option<(usize, usize)>)
    ensures
        match sheet_data_content(t@) {
            Some((cs, ce)) => res matches Some((a, b)) && a == cs && b == ce && a <= b <= t@.len(),
            None => res is None,
        },
{
    let open = literal("<sheetData");
    let close = literal("</sheetData>");
    proof {
        reveal_strlit("<sheetData");
        reveal_strlit("</sheetData>");
    }
    let n = t.len();
    let s = match find_in_range(t, open.as_slice(), 0, n) {
        Some(k) => k,
        None => {
            assert(t@.subrange(0, n as int) =~= t@);
            return None;
        },
    };
    assert(t@.subrange(0, n as int) =~= t@);
    proof {
        lemma_find_from(t@, "<sheetData"@, 0);
    }
    let cs = match tag_end_from(t, s) {
        Some(k) => k,
        None => {
            return None;
        },
    };
    match find_in_range(t, close.as_slice(), cs, n) {
        Some(k) => {
            proof {
                lemma_find_from(t@.subrange(cs as int, n as int), "</sheetData>"@, 0);
            }
            Some((cs, k))
        },
        None => None,
    }
}

/// Adds the styled blank cells and laid-out rows to the sheet data of `t`.
fn ensure_styled_blank_cells(
    t: &Vec<char>,
    dims: Option<CellRange>,
    rows: &BTreeMap<u16, RowLayout>,
    xfs: &HashMap<u32, u16>,
) -> (res: Result<String, String>)
    ensures
        match blanks_pass(t@, dims, rows@, xfs@) {
            Some(x) => res matches Ok(s) && s@ == x,
            None => res is Err,
        },
{
    let d = match dims {
        Some(d) => d,
        None => {
            let mut out = String::new();
            append_range(&mut out, t, 0, t.len());
            assert(t@.subrange(0, t@.len() as int) =~= t@);
            return Ok(out);
        },
    };
    let (cs, ce) = match sheet_data_bounds(t) {
        Some(bounds) => bounds,
        None => {
            return Err(message("worksheet is missing sheetData"));
        },
    };
    let mut acc: Vec<Option<Vec<char>>> = Vec::new();
    let mut k: usize = 0;
    while k < 65537
        invariant
            k <= 65537,
            acc@.len() == k,
            forall|i: int| 0 <= i < k ==> acc@[i] is None,
        decreases 65537 - k,
    {
        acc.push(None);
        k = k + 1;
    }
    assert(frag_view(acc@) =~= no_rows());
    collect_rows(t, cs, ce, &mut acc)?;
    add_layout_rows(&mut acc, rows, d);
    if d.first_row <= d.last_row {
        add_blank_cells(&mut acc, xfs, d)?;
    } else {
        assert(blank_fold(frag_view(acc@), xfs@, d, d.first_row as int, d.first_col as int) == Some(frag_view(acc@)));
    }
    let mut out = String::new();
    append_range(&mut out, t, 0, cs);
    append_rows(&mut out, &acc);
    append_range(&mut out, t, ce, t.len());
    Ok(out)
}

/// The four decimal digits of `n` (below 10000).
pub open spec fn four_digits(n: int) -> Seq<char> {
    seq![(48 + n / 1000) as char, (48 + n / 100 % 10) as char, (48 + n / 10 % 10) as char, (48 + n % 10) as char]
}

/// `u / 256` with four decimals, rounded to nearest with ties to even, as
/// a width in characters prints.
pub open spec fn units_text(u: u16) -> Seq<char> {
    let scaled = u as int * 625;
    let q0 = scaled / 16;
    let rem = scaled % 16;
    let q = if rem > 8 || (rem == 8 && q0 % 2 == 1) {
        q0 + 1
    } else {
        q0
    };
    decimal((q / 10000) as nat) + seq!['.'] + four_digits(q % 10000)
}

/// A default column width in characters with four decimals.
pub open spec fn width_text(w: DefaultColumnWidth) -> Seq<char> {
    match w {
        DefaultColumnWidth::Characters(n) => decimal(n as nat) + ".0000"@,
        DefaultColumnWidth::Units(u) => units_text(u),
    }
}

/// Appends the digit `d` (below 10).
fn push_digit(out: &mut String, d: u32)
    requires
        d < 10,
    ensures
        final(out)@ == old(out)@.push((48 + d) as char),
{
    let c = match crate::text::char_from_u32(48 + d) {
        Some(c) => c,
        None => '0',
    };
    crate::text::push_char(out, c);
}

/// Appends `u / 256` with four decimals.
fn append_units(out: &mut String, u: u16)
    ensures
        final(out)@ == old(out)@ + units_text(u),
{
    let ghost start = out@;
    let scaled: u32 = u as u32 * 625;
    let q0 = scaled / 16;
    let rem = scaled % 16;
    let q = if rem > 8 || (rem == 8 && q0 % 2 == 1) {
        q0 + 1
    } else {
        q0
    };
    append_decimal(out, (q / 10000) as u64);
    crate::text::push_char(out, '.');
    let f = q % 10000;
    push_digit(out, f / 1000);
    push_digit(out, f / 100 % 10);
    push_digit(out, f / 10 % 10);
    push_digit(out, f % 10);
    assert(out@ =~= start + units_text(u));
}

/// Appends a default column width.
fn append_width(out: &mut String, w: DefaultColumnWidth)
    ensures
        final(out)@ == old(out)@ + width_text(w),
{
    match w {
        DefaultColumnWidth::Characters(n) => {
            append_decimal(out, n as u64);
            append_str(out, ".0000");
        },
        DefaultColumnWidth::Units(u) => append_units(out, u),
    }
}

/// The `<sheetFormatPr>` element of the default sizes, when there is one.
pub open spec fn format_text(w: Option<DefaultColumnWidth>, h: Option<u16>) -> Seq<char> {
    if w is None && h is None {
        seq![]
    } else {
        "<sheetFormatPr"@ + (match w {
            Some(x) => " defaultColWidth=\""@ + width_text(x) + "\""@,
            None => seq![],
        }) + (match h {
            Some(v) => " defaultRowHeight=\""@ + points_text(v) + "\""@,
            None => seq![],
        }) + "/>"@
    }
}

/// The `<col>` element of a column band.
pub open spec fn column_element(c: ColumnBand) -> Seq<char> {
    "<col min=\""@ + decimal(c.first as nat + 1) + "\" max=\""@ + decimal(c.last as nat + 1) + "\" width=\""@
        + units_text(c.width_units) + "\" customWidth=\"1\""@ + (if c.hidden {
        " hidden=\"1\""@
    } else {
        seq![]
    }) + (if c.xf < 4096 {
        " style=\""@ + decimal(c.xf as nat) + "\""@
    } else {
        seq![]
    }) + "/>"@
}

/// The `<col>` elements of the bands of `cs`, in order.
pub open spec fn columns_text(cs: Seq<ColumnBand>) -> Seq<char>
    decreases cs.len(),
{
    if cs.len() == 0 {
        seq![]
    } else {
        columns_text(cs.drop_last()) + column_element(cs.last())
    }
}

/// What goes before the sheet data: default sizes, then column bands.
pub open spec fn head_text(s: SheetFormatting) -> Seq<char> {
    format_text(s.default_col_width, s.default_row_height_twips) + (if s.columns@.len() > 0 {
        "<cols>"@ + columns_text(s.columns@) + "</cols>"@
    } else {
        seq![]
    })
}

/// The `<mergeCell>` elements of `ms`, in order.
pub open spec fn merges_text(ms: Seq<CellRange>) -> Seq<char>
    decreases ms.len(),
{
    if ms.len() == 0 {
        seq![]
    } else {
        merges_text(ms.drop_last()) + "<mergeCell ref=\""@ + range_ref_text(ms.last()) + "\"/>"@
    }
}

/// How many of the links `ls` point outside the workbook.
pub open spec fn external_count(ls: Seq<(CellRange, bool, Seq<char>)>) -> nat
    decreases ls.len(),
{
    if ls.len() == 0 {
        0
    } else {
        external_count(ls.drop_last()) + (if ls.last().1 {
            1nat
        } else {
            0nat
        })
    }
}

/// The relationship id of the `n`-th external link.
pub open spec fn link_rel_id(n: nat) -> Seq<char> {
    "rIdZrimoXlsH"@ + decimal(n)
}

/// The `<hyperlink>` element of link `l`; an external link refers to the
/// `ext`-th external relationship.
pub open spec fn link_element(l: (CellRange, bool, Seq<char>), ext: nat) -> Seq<char> {
    if l.1 {
        "<hyperlink ref=\""@ + range_ref_text(l.0) + "\" r:id=\""@ + link_rel_id(ext) + "\"/>"@
    } else {
        "<hyperlink ref=\""@ + range_ref_text(l.0) + "\" location=\""@ + escaped(l.2) + "\"/>"@
    }
}

/// The `<hyperlink>` elements of `ls`, in order.
pub open spec fn links_text(ls: Seq<(CellRange, bool, Seq<char>)>) -> Seq<char>
    decreases ls.len(),
{
    if ls.len() == 0 {
        seq![]
    } else {
        links_text(ls.drop_last()) + link_element(ls.last(), external_count(ls))
    }
}

/// The links of a sheet as (range, external, target).
pub open spec fn sheet_links(s: SheetFormatting) -> Seq<(CellRange, bool, Seq<char>)> {
    s.hyperlinks@.map_values(|l: XlsHyperlink| link_view(l))
}

/// What goes after the sheet data: merged ranges, then hyperlinks.
pub open spec fn tail_text(s: SheetFormatting) -> Seq<char> {
    (if s.merges@.len() > 0 {
        "<mergeCells count=\""@ + decimal(s.merges@.len()) + "\">"@ + merges_text(s.merges@) + "</mergeCells>"@
    } else {
        seq![]
    }) + (if s.hyperlinks@.len() > 0 {
        "<hyperlinks>"@ + links_text(sheet_links(s)) + "</hyperlinks>"@
    } else {
        seq![]
    })
}

/// Appends the `<sheetFormatPr>` element of the default sizes.
#[verifier::rlimit(40)]
#[verifier::spinoff_prover]
fn append_format(out: &mut String, w: Option<DefaultColumnWidth>, h: Option<u16>)
    ensures
        final(out)@ == old(out)@ + format_text(w, h),
{
    let ghost start = out@;
    if w.is_some() || h.is_some() {
        append_str(out, "<sheetFormatPr");
        let ghost a = out@;
        if let Some(x) = w {
            append_str(out, " defaultColWidth=\"");
            append_width(out, x);
            append_str(out, "\"");
        }
        assert(out@ =~= a + (match w {
            Some(x) => " defaultColWidth=\""@ + width_text(x) + "\""@,
            None => seq![],
        }));
        let ghost b = out@;
        if let Some(v) = h {
            append_str(out, " defaultRowHeight=\"");
            append_points(out, v);
            append_str(out, "\"");
        }
        assert(out@ =~= b + (match h {
            Some(v) => " defaultRowHeight=\""@ + points_text(v) + "\""@,
            None => seq![],
        }));
        append_str(out, "/>");
    }
    assert(out@ =~= start + format_text(w, h));
}

/// Appends the `<col>` element of band `c`.
#[verifier::rlimit(60)]
#[verifier::spinoff_prover]
fn append_column(out: &mut String, c: ColumnBand)
    ensures
        final(out)@ == old(out)@ + column_element(c),
{
    let ghost start = out@;
    append_str(out, "<col min=\"");
    append_decimal(out, c.first as u64 + 1);
    append_str(out, "\" max=\"");
    append_decimal(out, c.last as u64 + 1);
    append_str(out, "\" width=\"");
    append_units(out, c.width_units);
    append_str(out, "\" customWidth=\"1\"");
    let ghost a = out@;
    if c.hidden {
        append_str(out, " hidden=\"1\"");
    }
    let ghost b = out@;
    if c.xf < 4096 {
        append_str(out, " style=\"");
        append_decimal(out, c.xf as u64);
        append_str(out, "\"");
    }
    let ghost e = out@;
    append_str(out, "/>");
    assert(b =~= a + (if c.hidden {
        " hidden=\"1\""@
    } else {
        seq![]
    }));
    assert(e =~= b + (if c.xf < 4096 {
        " style=\""@ + decimal(c.xf as nat) + "\""@
    } else {
        seq![]
    }));
    assert(out@ =~= start + column_element(c));
}

/// Appends what goes before the sheet data of `s`.
fn append_head(out: &mut String, s: &SheetFormatting)
    ensures
        final(out)@ == old(out)@ + head_text(*s),
{
    let ghost start = out@;
    append_format(out, s.default_col_width, s.default_row_height_twips);
    let ghost mid = out@;
    if s.columns.len() > 0 {
        append_str(out, "<cols>");
        let ghost open = out@;
        let mut k: usize = 0;
        while k < s.columns.len()
            invariant
                k <= s.columns@.len(),
                out@ =~= open + columns_text(s.columns@.take(k as int)),
            decreases s.columns@.len() - k,
        {
            append_column(out, s.columns[k]);
            assert(s.columns@.take(k + 1).drop_last() =~= s.columns@.take(k as int));
            k = k + 1;
        }
        assert(s.columns@.take(s.columns@.len() as int) =~= s.columns@);
        append_str(out, "</cols>");
    }
    assert(out@ =~= start + head_text(*s));
}

/// Appends the `<hyperlink>` element of `link`, an external link being the
/// `ext`-th one.
fn append_link(out: &mut String, link: &XlsHyperlink, ext: u64)
    ensures
        final(out)@ == old(out)@ + link_element(link_view(*link), ext as nat),
{
    let ghost start = out@;
    append_str(out, "<hyperlink ref=\"");
    let range_text = crate::xls_ooxml::range_ref(link.range);
    append_str(out, range_text.as_str());
    match &link.target {
        HyperlinkTarget::External(_) => {
            append_str(out, "\" r:id=\"");
            let ghost a = out@;
            append_str(out, "rIdZrimoXlsH");
            append_decimal(out, ext);
            assert(out@ =~= a + link_rel_id(ext as nat));
            append_str(out, "\"/>");
        },
        HyperlinkTarget::Internal(location) => {
            append_str(out, "\" location=\"");
            crate::text::append_escaped(out, location.as_str());
            append_str(out, "\"/>");
        },
    }
    assert(out@ =~= start + link_element(link_view(*link), ext as nat));
}

/// Appends the `<hyperlink>` elements of the links of `s`.
fn append_links(out: &mut String, s: &SheetFormatting)
    ensures
        final(out)@ == old(out)@ + links_text(sheet_links(*s)),
{
    let ghost ls = sheet_links(*s);
    let ghost start = out@;
    let mut external: u64 = 0;
    let mut k: usize = 0;
    while k < s.hyperlinks.len()
        invariant
            k <= s.hyperlinks@.len(),
            ls == sheet_links(*s),
            ls.len() == s.hyperlinks@.len(),
            external == external_count(ls.take(k as int)),
            external <= k,
            out@ =~= start + links_text(ls.take(k as int)),
        decreases s.hyperlinks@.len() - k,
    {
        let link = &s.hyperlinks[k];
        assert(ls.take(k + 1).drop_last() =~= ls.take(k as int));
        assert(ls.take(k + 1).last() == link_view(*link));
        let is_external = match &link.target {
            HyperlinkTarget::External(_) => true,
            HyperlinkTarget::Internal(_) => false,
        };
        if is_external {
            external = external + 1;
        }
        assert(external == external_count(ls.take(k + 1)));
        append_link(out, link, external);
        k = k + 1;
    }
    assert(ls.take(k as int) =~= ls);
}

/// Appends what goes after the sheet data of `s`.
fn append_tail(out: &mut String, s: &SheetFormatting)
    ensures
        final(out)@ == old(out)@ + tail_text(*s),
{
    let ghost start = out@;
    if s.merges.len() > 0 {
        append_str(out, "<mergeCells count=\"");
        append_decimal(out, s.merges.len() as u64);
        append_str(out, "\">");
        let ghost open = out@;
        let mut k: usize = 0;
        while k < s.merges.len()
            invariant
                k <= s.merges@.len(),
                out@ =~= open + merges_text(s.merges@.take(k as int)),
            decreases s.merges@.len() - k,
        {
            let ghost before = out@;
            append_str(out, "<mergeCell ref=\"");
            let range_text = crate::xls_ooxml::range_ref(s.merges[k]);
            append_str(out, range_text.as_str());
            append_str(out, "\"/>");
            assert(s.merges@.take(k + 1).drop_last() =~= s.merges@.take(k as int));
            k = k + 1;
        }
        assert(s.merges@.take(s.merges@.len() as int) =~= s.merges@);
        append_str(out, "</mergeCells>");
    }
    let ghost mid = out@;
    if s.hyperlinks.len() > 0 {
        append_str(out, "<hyperlinks>");
        append_links(out, s);
        append_str(out, "</hyperlinks>");
    }
    assert(out@ =~= start + tail_text(*s));
}

/// Sheet text `t` with the head before its sheet data and the tail after
/// it. `None` when the sheet data is missing or unterminated.
pub open spec fn framed(t: Seq<char>, s: SheetFormatting) -> Option<Seq<char>> {
    match find_from(t, "<sheetData"@, 0) {
        None => None,
        Some(p) => {
            let t5 = t.subrange(0, p) + head_text(s) + t.subrange(p, t.len() as int);
            match find_from(t5, "</sheetData>"@, 0) {
                None => None,
                Some(e) => {
                    let after = e + 12;
                    Some(t5.subrange(0, after) + tail_text(s) + t5.subrange(after, t5.len() as int))
                },
            }
        },
    }
}

/// The generated worksheet part `d` (UTF-8) with the formatting of source
/// sheet `s`: source values (numbers by their decimal text in `numbers`),
/// styled blank cells, cell styles, row layout, then default sizes and
/// column bands before the sheet data and merged ranges and hyperlinks
/// after it. `None` when the part is not UTF-8 or not a worksheet this can
/// patch.
pub open spec fn worksheet_patch(d: Seq<u8>, s: SheetFormatting, numbers: Map<u32, String>) -> Option<Seq<u8>> {
    if !valid_utf8(d) {
        None
    } else {
        match values_pass(decode_utf8(d), s.source_values@, numbers) {
            None => None,
            Some(t1) => match blanks_pass(t1, s.dimensions, s.rows@, s.cell_xfs@) {
                None => None,
                Some(t2) => match styles_pass(t2, s.cell_xfs@) {
                    None => None,
                    Some(t3) => match rows_pass(t3, s.rows@) {
                        None => None,
                        Some(t4) => match framed(t4, s) {
                            None => None,
                            Some(x) => Some(encode_utf8(x)),
                        },
                    },
                },
            },
        }
    }
}

/// Writes the head and tail of `sheet` around the sheet data of `t`.
#[verifier::rlimit(40)]
fn frame_sheet_data(t: &Vec<char>, sheet: &SheetFormatting) -> (res: Result<String, String>)
    ensures
        match framed(t@, *sheet) {
            Some(x) => res matches Ok(v) && v@ == x,
            None => res is Err,
        },
{
    let open = literal("<sheetData");
    let close = literal("</sheetData>");
    proof {
        reveal_strlit("<sheetData");
        reveal_strlit("</sheetData>");
    }
    let n4 = t.len();
    let p = match find_in_range(t, open.as_slice(), 0, n4) {
        Some(k) => k,
        None => {
            assert(t@.subrange(0, n4 as int) =~= t@);
            return Err(message("worksheet is missing sheetData"));
        },
    };
    assert(t@.subrange(0, n4 as int) =~= t@);
    proof {
        lemma_find_from(t@, "<sheetData"@, 0);
    }
    let mut with_head = String::new();
    append_range(&mut with_head, t, 0, p);
    append_head(&mut with_head, sheet);
    append_range(&mut with_head, t, p, n4);
    let t5 = chars_of(with_head.as_str());
    let n5 = t5.len();
    let e = match find_in_range(&t5, close.as_slice(), 0, n5) {
        Some(k) => k,
        None => {
            assert(t5@.subrange(0, n5 as int) =~= t5@);
            return Err(message("worksheet has unterminated sheetData"));
        },
    };
    proof {
        assert(t5@.subrange(0, n5 as int) =~= t5@);
        lemma_find_from(t5@, "</sheetData>"@, 0);
    }
    let after = e + 12;
    let mut patched = String::new();
    append_range(&mut patched, &t5, 0, after);
    append_tail(&mut patched, sheet);
    append_range(&mut patched, &t5, after, n5);
    Ok(patched)
}

/// Writes the formatting of source sheet `sheet` into its generated
/// worksheet part `data`. `numbers` holds the decimal text of each finite
/// numeric source value by cell key; a numeric value without one is left
/// as generated.
pub fn patch_worksheet(data: &[u8], sheet: &SheetFormatting, numbers: &HashMap<u32, String>) -> (res: Result<
    Vec<u8>,
    String,
>)
    ensures
        match worksheet_patch(data@, *sheet, numbers@) {
            Some(bytes) => res matches Ok(v) && v@ == bytes,
            None => res is Err,
        },
{
    let xml = match utf8_string(data) {
        Some(text) => text,
        None => {
            return Err(message("generated worksheet XML is not UTF-8"));
        },
    };
    proof {
        vstd::utf8::encode_utf8_decode_utf8(xml@);
    }
    let t0 = chars_of(xml.as_str());
    let t1 = chars_of(patch_values(&t0, &sheet.source_values, numbers)?.as_str());
    let t2 = chars_of(ensure_styled_blank_cells(&t1, sheet.dimensions, &sheet.rows, &sheet.cell_xfs)?.as_str());
    let t3 = chars_of(patch_cell_styles(&t2, &sheet.cell_xfs)?.as_str());
    let t4 = chars_of(patch_rows(&t3, &sheet.rows)?.as_str());
    let patched = frame_sheet_data(&t4, sheet)?;
    Ok(patched.as_str().as_bytes_vec())
}

/// The worksheet relationship of an external link that is the `ext`-th
/// one, to target `target`.
pub open spec fn relationship_element(ext: nat, target: Seq<char>) -> Seq<char> {
    "<Relationship Id=\""@ + link_rel_id(ext)
        + "\" Type=\"http://schemas.openxmlformats.org/officeDocument/2006/relationships/hyperlink\" Target=\""@
        + escaped(target) + "\" TargetMode=\"External\"/>"@
}

/// The relationships of the external links of `ls`, in order.
pub open spec fn relationship_elements(ls: Seq<(CellRange, bool, Seq<char>)>) -> Seq<char>
    decreases ls.len(),
{
    if ls.len() == 0 {
        seq![]
    } else {
        relationship_elements(ls.drop_last()) + (if ls.last().1 {
            relationship_element(external_count(ls), ls.last().2)
        } else {
            seq![]
        })
    }
}

/// Whether one of the links `ls` points outside the workbook.
pub open spec fn has_external(ls: Seq<(CellRange, bool, Seq<char>)>) -> bool {
    exists|i: int| 0 <= i < ls.len() && (#[trigger] ls[i]).1
}

/// Whether a sheet has an external hyperlink.
pub fn has_external_hyperlinks(sheet: &SheetFormatting) -> (res: bool)
    ensures
        res == has_external(sheet_links(*sheet)),
{
    let ghost ls = sheet_links(*sheet);
    let mut k: usize = 0;
    while k < sheet.hyperlinks.len()
        invariant
            k <= sheet.hyperlinks@.len(),
            ls == sheet_links(*sheet),
            forall|i: int| 0 <= i < k ==> !(#[trigger] ls[i]).1,
        decreases sheet.hyperlinks@.len() - k,
    {
        match &sheet.hyperlinks[k] {
            XlsHyperlink { target: HyperlinkTarget::External(_), .. } => {
                assert(ls[k as int].1);
                return true;
            },
            _ => {},
        }
        k = k + 1;
    }
    false
}

/// Appends the relationship elements of the external links of `sheet`.
#[verifier::rlimit(40)]
fn append_relationship_elements(out: &mut String, sheet: &SheetFormatting)
    ensures
        final(out)@ == old(out)@ + relationship_elements(sheet_links(*sheet)),
{
    let ghost ls = sheet_links(*sheet);
    let ghost start = out@;
    let mut external: u64 = 0;
    let mut k: usize = 0;
    while k < sheet.hyperlinks.len()
        invariant
            k <= sheet.hyperlinks@.len(),
            ls == sheet_links(*sheet),
            ls.len() == sheet.hyperlinks@.len(),
            external == external_count(ls.take(k as int)),
            external <= k,
            out@ =~= start + relationship_elements(ls.take(k as int)),
        decreases sheet.hyperlinks@.len() - k,
    {
        assert(ls.take(k + 1).drop_last() =~= ls.take(k as int));
        assert(ls.take(k + 1).last() == link_view(sheet.hyperlinks@[k as int]));
        match &sheet.hyperlinks[k].target {
            HyperlinkTarget::External(target) => {
                external = external + 1;
                let ghost before = out@;
                append_str(out, "<Relationship Id=\"");
                let ghost a = out@;
                append_str(out, "rIdZrimoXlsH");
                append_decimal(out, external);
                assert(out@ =~= a + link_rel_id(external as nat));
                append_str(
                    out,
                    "\" Type=\"http://schemas.openxmlformats.org/officeDocument/2006/relationships/hyperlink\" Target=\"",
                );
                crate::text::append_escaped(out, target.as_str());
                append_str(out, "\" TargetMode=\"External\"/>");
                assert(out@ =~= before + relationship_element(external as nat, target@));
            },
            HyperlinkTarget::Internal(_) => {},
        }
        k = k + 1;
    }
    assert(ls.take(k as int) =~= ls);
}

/// The relationships part of a worksheet that had none: the external
/// links of `s`.
pub open spec fn new_relationships_text(s: SheetFormatting) -> Seq<char> {
    "<?xml version=\"1.0\" encoding=\"UTF-8\" standalone=\"yes\"?><Relationships xmlns=\"http://schemas.openxmlformats.org/package/2006/relationships\">"@
        + relationship_elements(sheet_links(s)) + "</Relationships>"@
}

/// A new relationships part for the external links of `sheet`.
pub fn new_relationships(sheet: &SheetFormatting) -> (res: String)
    ensures
        res@ == new_relationships_text(*sheet),
{
    let mut out = String::new();
    append_str(
        &mut out,
        "<?xml version=\"1.0\" encoding=\"UTF-8\" standalone=\"yes\"?><Relationships xmlns=\"http://schemas.openxmlformats.org/package/2006/relationships\">",
    );
    append_relationship_elements(&mut out, sheet);
    append_str(&mut out, "</Relationships>");
    out
}

/// The worksheet relationships part `d` with a relationship for each
/// external link of `s` before its last `</Relationships>`; unchanged
/// when there is none. `None` when the part must change and is not UTF-8
/// or has no closing tag.
pub open spec fn relationships_patch(d: Seq<u8>, s: SheetFormatting) -> Option<Seq<u8>> {
    if !has_external(sheet_links(s)) {
        Some(d)
    } else if !valid_utf8(d) {
        None
    } else {
        let t = decode_utf8(d);
        match last_from(t, "</Relationships>"@, t.len() - 16) {
            None => None,
            Some(i) => Some(
                encode_utf8(t.subrange(0, i) + relationship_elements(sheet_links(s)) + t.subrange(i, t.len() as int)),
            ),
        }
    }
}

/// Adds the external links of `sheet` to its worksheet relationships part.
pub fn patch_relationships(data: &[u8], sheet: &SheetFormatting) -> (res: Result<Vec<u8>, String>)
    ensures
        match relationships_patch(data@, *sheet) {
            Some(bytes) => res matches Ok(v) && v@ == bytes,
            None => res is Err,
        },
{
    if !has_external_hyperlinks(sheet) {
        let mut copy: Vec<u8> = Vec::new();
        let mut k: usize = 0;
        while k < data.len()
            invariant
                k <= data@.len(),
                copy@ =~= data@.take(k as int),
            decreases data@.len() - k,
        {
            copy.push(data[k]);
            k = k + 1;
        }
        assert(data@.take(data@.len() as int) =~= data@);
        return Ok(copy);
    }
    let xml = match utf8_string(data) {
        Some(text) => text,
        None => {
            return Err(message("worksheet relationships are not UTF-8"));
        },
    };
    proof {
        vstd::utf8::encode_utf8_decode_utf8(xml@);
    }
    let t = chars_of(xml.as_str());
    let close = literal("</Relationships>");
    proof {
        reveal_strlit("</Relationships>");
    }
    let insertion = match last_occurrence(&t, &close) {
        Some(k) => k,
        None => {
            return Err(message("invalid worksheet relationships XML"));
        },
    };
    let mut out = String::new();
    append_range(&mut out, &t, 0, insertion);
    append_relationship_elements(&mut out, sheet);
    append_range(&mut out, &t, insertion, t.len());
    Ok(out.as_str().as_bytes_vec())
}

/// The value of a decimal `usize` as Rust parses it: an optional `+`,
/// then one or more ASCII digits, within range.
pub open spec fn parsed_usize(s: Seq<char>) -> Option<usize> {
    digits_usize(
        if s.len() > 1 && s[0] == '+' {
            s.drop_first()
        } else {
            s
        },
    )
}

/// The value of one or more ASCII digits `d` when it fits a `usize`.
pub open spec fn digits_usize(d: Seq<char>) -> Option<usize> {
    if d.len() == 0 || !(forall|i: int| 0 <= i < d.len() ==> is_ascii_digit(#[trigger] d[i])) {
        None
    } else if decimal_value(d) > usize::MAX {
        None
    } else {
        Some(decimal_value(d) as usize)
    }
}

/// Parses the digits `d` (after any sign) as a `usize`.
fn parse_usize_digits(d: &Vec<char>, from: usize) -> (res: Option<usize>)
    requires
        from < d@.len(),
    ensures
        res == digits_usize(d@.subrange(from as int, d@.len() as int)),
{
    let ghost s = d@.subrange(from as int, d@.len() as int);
    let n = d.len();
    let mut value: usize = 0;
    let mut k: usize = from;
    while k < n
        invariant
            from <= k <= n == d@.len(),
            from < n,
            s == d@.subrange(from as int, n as int),
            forall|i: int| 0 <= i < k - from ==> is_ascii_digit(#[trigger] s[i]),
            value == decimal_value(s.take(k - from)),
        decreases n - k,
    {
        let c = d[k];
        if !('0' <= c && c <= '9') {
            assert(s[k - from] == c);
            assert(!is_ascii_digit(s[k - from]));
            return None;
        }
        let v: usize = (c as u32 - 48) as usize;
        assert(s.take(k - from + 1).drop_last() =~= s.take(k - from));
        assert(s[k - from] == c);
        if value > (usize::MAX - v) / 10 {
            proof {
                if forall|i: int| 0 <= i < s.len() ==> is_ascii_digit(#[trigger] s[i]) {
                    lemma_decimal_grows(s, k - from + 1, s.len() as int);
                    assert(s.take(s.len() as int) =~= s);
                }
            }
            return None;
        }
        value = value * 10 + v;
        k = k + 1;
    }
    assert(s.take(n - from) =~= s);
    Some(value)
}

/// The name prefix of a worksheet part (`.xml`) or of its relationships.
pub open spec fn worksheet_prefix(suffix: Seq<char>) -> Seq<char> {
    if suffix == ".xml"@ {
        "xl/worksheets/sheet"@
    } else {
        "xl/worksheets/_rels/sheet"@
    }
}

/// The zero-based sheet index that part name `name` stands for: the
/// worksheet prefix, a one-based number, then `suffix`.
pub open spec fn worksheet_index_of(name: Seq<char>, suffix: Seq<char>) -> Option<usize> {
    let prefix = worksheet_prefix(suffix);
    if prefix.len() + suffix.len() > name.len() || name.take(prefix.len() as int) != prefix || name.skip(
        name.len() - suffix.len(),
    ) != suffix {
        None
    } else {
        match parsed_usize(name.subrange(prefix.len() as int, name.len() - suffix.len())) {
            Some(v) => if v >= 1 {
                Some((v - 1) as usize)
            } else {
                None
            },
            None => None,
        }
    }
}

/// The zero-based sheet index of a worksheet part name (suffix `.xml`) or
/// of its relationships part name (suffix `.xml.rels`).
pub fn worksheet_index(name: &str, suffix: &str) -> (res: Option<usize>)
    ensures
        res == worksheet_index_of(name@, suffix@),
{
    let n = chars_of(name);
    let x = chars_of(suffix);
    let xml = literal(".xml");
    let prefix = if range_equals(&x, 0, x.len(), &xml) {
        literal("xl/worksheets/sheet")
    } else {
        literal("xl/worksheets/_rels/sheet")
    };
    assert(x@.subrange(0, x@.len() as int) =~= x@);
    assert(prefix@ == worksheet_prefix(suffix@));
    if prefix.len() > n.len() || x.len() > n.len() - prefix.len() {
        return None;
    }
    let tail = n.len() - x.len();
    if !range_equals(&n, 0, prefix.len(), &prefix) {
        assert(n@.subrange(0, prefix@.len() as int) =~= n@.take(prefix@.len() as int));
        return None;
    }
    assert(n@.subrange(0, prefix@.len() as int) =~= n@.take(prefix@.len() as int));
    if !range_equals(&n, tail, n.len(), &x) {
        assert(n@.subrange(tail as int, n@.len() as int) =~= n@.skip(tail as int));
        return None;
    }
    assert(n@.subrange(tail as int, n@.len() as int) =~= n@.skip(tail as int));
    let mut middle: Vec<char> = Vec::new();
    let mut k: usize = prefix.len();
    while k < tail
        invariant
            prefix@.len() <= k <= tail <= n@.len(),
            middle@ =~= n@.subrange(prefix@.len() as int, k as int),
        decreases tail - k,
    {
        middle.push(n[k]);
        k = k + 1;
    }
    let ghost m = middle@;
    if middle.len() == 0 {
        return None;
    }
    let from: usize = if middle.len() > 1 && middle[0] == '+' {
        1
    } else {
        0
    };
    proof {
        if from == 1 {
            assert(m.drop_first() =~= m.subrange(1, m.len() as int));
        } else {
            assert(m =~= m.subrange(0, m.len() as int));
        }
    }
    if from >= middle.len() {
        return None;
    }
    let ghost d = m.subrange(from as int, m.len() as int);
    assert(m == name@.subrange(prefix@.len() as int, name@.len() - suffix@.len()));
    assert(d == (if m.len() > 1 && m[0] == '+' {
        m.drop_first()
    } else {
        m
    }));
    let parsed = parse_usize_digits(&middle, from);
    assert(parsed == parsed_usize(m));
    match parsed {
        Some(v) => if v >= 1 {
            Some(v - 1)
        } else {
            None
        },
        None => None,
    }
}

} // verus!
