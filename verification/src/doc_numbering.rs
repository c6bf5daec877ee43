//! WordprocessingML numbering: list projection markers in the generated
//! document part and the number formats of Word list levels.

use vstd::prelude::*;

use crate::error::message;
use crate::properties::ToggleValue;
use crate::fonts::{FontEntry, FontTable};
use crate::lists::{ListFollow, ListLevel, marker_chars, used_placeholders};
use crate::properties::{
    CharacterPropertyDelta, ParagraphPropertyDelta, TabChange, TabStop, apply_character_sprms, apply_paragraph_sprms,
    character_fields_match, character_sprm_ok, paragraph_fields_match, paragraph_sprm_ok, tab_change_matches,
    tab_sprms,
};
use crate::text::{append_decimal, append_escaped, append_str, chars_of, decimal, escaped};
use crate::doc_comments::last_from;
use crate::lists::{ListCollection, ListDefinition, ListLevelOverride, ListOverride, definition_from};
use std::collections::BTreeSet;
use vstd::string::StrSliceExecFns;
use crate::xls_biff::{find_from, find_in_range, occurs_at, string_of};

verus! {

/// The OOXML number format of a Word `MSONFC` code, `None` for a code
/// without one.
pub open spec fn number_format_text(v: u8) -> Option<Seq<char>> {
    if v == 0 {
        Some("decimal"@)
    } else if v == 1 {
        Some("upperRoman"@)
    } else if v == 2 {
        Some("lowerRoman"@)
    } else if v == 3 {
        Some("upperLetter"@)
    } else if v == 4 {
        Some("lowerLetter"@)
    } else if v == 5 {
        Some("ordinal"@)
    } else if v == 6 {
        Some("cardinalText"@)
    } else if v == 7 {
        Some("ordinalText"@)
    } else if v == 10 {
        Some("aiueo"@)
    } else if v == 11 {
        Some("iroha"@)
    } else if v == 12 {
        Some("decimalFullWidth"@)
    } else if v == 13 {
        Some("decimalHalfWidth"@)
    } else if v == 14 {
        Some("japaneseCounting"@)
    } else if v == 16 {
        Some("decimalEnclosedCircle"@)
    } else if v == 17 {
        Some("decimalFullWidth2"@)
    } else if v == 18 {
        Some("aiueoFullWidth"@)
    } else if v == 20 {
        Some("irohaFullWidth"@)
    } else if v == 21 {
        Some("decimalZero"@)
    } else if v == 23 {
        Some("bullet"@)
    } else if v == 24 {
        Some("ganada"@)
    } else if v == 25 {
        Some("chosung"@)
    } else if v == 26 {
        Some("decimalEnclosedFullstop"@)
    } else if v == 27 {
        Some("decimalEnclosedParen"@)
    } else if v == 28 {
        Some("decimalEnclosedCircleChinese"@)
    } else if v == 29 {
        Some("ideographEnclosedCircle"@)
    } else if v == 30 {
        Some("ideographTraditional"@)
    } else if v == 31 {
        Some("ideographZodiac"@)
    } else if v == 32 {
        Some("ideographZodiacTraditional"@)
    } else if v == 33 {
        Some("taiwaneseCounting"@)
    } else if v == 34 {
        Some("ideographLegalTraditional"@)
    } else if v == 35 {
        Some("taiwaneseCountingThousand"@)
    } else if v == 36 {
        Some("taiwaneseDigital"@)
    } else if v == 37 {
        Some("chineseCounting"@)
    } else if v == 38 {
        Some("chineseLegalSimplified"@)
    } else if v == 39 {
        Some("chineseCountingThousand"@)
    } else if v == 41 {
        Some("koreanDigital"@)
    } else if v == 42 {
        Some("koreanCounting"@)
    } else if v == 43 {
        Some("koreanLegal"@)
    } else if v == 44 {
        Some("koreanDigital2"@)
    } else if v == 45 {
        Some("hebrew1"@)
    } else if v == 46 {
        Some("arabicAlpha"@)
    } else if v == 47 {
        Some("hebrew2"@)
    } else if v == 48 {
        Some("arabicAbjad"@)
    } else if v == 49 {
        Some("hindiVowels"@)
    } else if v == 50 {
        Some("hindiConsonants"@)
    } else if v == 51 {
        Some("hindiNumbers"@)
    } else if v == 52 {
        Some("hindiCounting"@)
    } else if v == 53 {
        Some("thaiLetters"@)
    } else if v == 54 {
        Some("thaiNumbers"@)
    } else if v == 55 {
        Some("thaiCounting"@)
    } else if v == 56 {
        Some("vietnameseCounting"@)
    } else if v == 57 {
        Some("numberInDash"@)
    } else if v == 58 {
        Some("russianLower"@)
    } else if v == 59 {
        Some("russianUpper"@)
    } else if v == 0xFF {
        Some("none"@)
    } else {
        None
    }
}

/// The Roman and letter formats name the case of the numerals their code
/// denotes, and no other code shares them: `upperRoman` is the format of
/// code 1 alone, `lowerRoman` of code 2, `upperLetter` of code 3,
/// `lowerLetter` of code 4, and `decimal` of code 0.
pub proof fn lemma_number_format_case(v: u8)
    ensures
        number_format_text(v) == Some("upperRoman"@) <==> v == 1,
        number_format_text(v) == Some("lowerRoman"@) <==> v == 2,
        number_format_text(v) == Some("upperLetter"@) <==> v == 3,
        number_format_text(v) == Some("lowerLetter"@) <==> v == 4,
        number_format_text(v) == Some("decimal"@) <==> v == 0,
{
    reveal_strlit("aiueo");
    reveal_strlit("aiueoFullWidth");
    reveal_strlit("arabicAbjad");
    reveal_strlit("arabicAlpha");
    reveal_strlit("bullet");
    reveal_strlit("cardinalText");
    reveal_strlit("chineseCounting");
    reveal_strlit("chineseCountingThousand");
    reveal_strlit("chineseLegalSimplified");
    reveal_strlit("chosung");
    reveal_strlit("decimal");
    reveal_strlit("decimalEnclosedCircle");
    reveal_strlit("decimalEnclosedCircleChinese");
    reveal_strlit("decimalEnclosedFullstop");
    reveal_strlit("decimalEnclosedParen");
    reveal_strlit("decimalFullWidth");
    reveal_strlit("decimalFullWidth2");
    reveal_strlit("decimalHalfWidth");
    reveal_strlit("decimalZero");
    reveal_strlit("ganada");
    reveal_strlit("hebrew1");
    reveal_strlit("hebrew2");
    reveal_strlit("hindiConsonants");
    reveal_strlit("hindiCounting");
    reveal_strlit("hindiNumbers");
    reveal_strlit("hindiVowels");
    reveal_strlit("ideographEnclosedCircle");
    reveal_strlit("ideographLegalTraditional");
    reveal_strlit("ideographTraditional");
    reveal_strlit("ideographZodiac");
    reveal_strlit("ideographZodiacTraditional");
    reveal_strlit("iroha");
    reveal_strlit("irohaFullWidth");
    reveal_strlit("japaneseCounting");
    reveal_strlit("koreanCounting");
    reveal_strlit("koreanDigital");
    reveal_strlit("koreanDigital2");
    reveal_strlit("koreanLegal");
    reveal_strlit("lowerLetter");
    reveal_strlit("lowerRoman");
    reveal_strlit("none");
    reveal_strlit("numberInDash");
    reveal_strlit("ordinal");
    reveal_strlit("ordinalText");
    reveal_strlit("russianLower");
    reveal_strlit("russianUpper");
    reveal_strlit("taiwaneseCounting");
    reveal_strlit("taiwaneseCountingThousand");
    reveal_strlit("taiwaneseDigital");
    reveal_strlit("thaiCounting");
    reveal_strlit("thaiLetters");
    reveal_strlit("thaiNumbers");
    reveal_strlit("upperLetter");
    reveal_strlit("upperRoman");
    reveal_strlit("vietnameseCounting");
    let t = number_format_text(v);
    if t == Some("upperRoman"@) {
        assert(t.unwrap().len() == 10 && t.unwrap()[0] == 'u' && t.unwrap()[5] == 'R');
    }
    if t == Some("lowerRoman"@) {
        assert(t.unwrap().len() == 10 && t.unwrap()[0] == 'l' && t.unwrap()[5] == 'R');
    }
    if t == Some("upperLetter"@) {
        assert(t.unwrap().len() == 11 && t.unwrap()[0] == 'u' && t.unwrap()[5] == 'L');
    }
    if t == Some("lowerLetter"@) {
        assert(t.unwrap().len() == 11 && t.unwrap()[0] == 'l' && t.unwrap()[5] == 'L');
    }
    if t == Some("decimal"@) {
        assert(t.unwrap().len() == 7 && t.unwrap()[0] == 'd' && t.unwrap()[6] == 'l');
    }
}

/// The OOXML number format of a Word list level's `MSONFC` code.
pub fn number_format(value: u8) -> (res: Result<&'static str, String>)
    ensures
        match number_format_text(value) {
            Some(t) => res matches Ok(s) && s@ == t,
            None => res is Err,
        },
{
    let v = value;
    let name = if v == 0 {
        "decimal"
    } else if v == 1 {
        "upperRoman"
    } else if v == 2 {
        "lowerRoman"
    } else if v == 3 {
        "upperLetter"
    } else if v == 4 {
        "lowerLetter"
    } else if v == 5 {
        "ordinal"
    } else if v == 6 {
        "cardinalText"
    } else if v == 7 {
        "ordinalText"
    } else if v == 10 {
        "aiueo"
    } else if v == 11 {
        "iroha"
    } else if v == 12 {
        "decimalFullWidth"
    } else if v == 13 {
        "decimalHalfWidth"
    } else if v == 14 {
        "japaneseCounting"
    } else if v == 16 {
        "decimalEnclosedCircle"
    } else if v == 17 {
        "decimalFullWidth2"
    } else if v == 18 {
        "aiueoFullWidth"
    } else if v == 20 {
        "irohaFullWidth"
    } else if v == 21 {
        "decimalZero"
    } else if v == 23 {
        "bullet"
    } else if v == 24 {
        "ganada"
    } else if v == 25 {
        "chosung"
    } else if v == 26 {
        "decimalEnclosedFullstop"
    } else if v == 27 {
        "decimalEnclosedParen"
    } else if v == 28 {
        "decimalEnclosedCircleChinese"
    } else if v == 29 {
        "ideographEnclosedCircle"
    } else if v == 30 {
        "ideographTraditional"
    } else if v == 31 {
        "ideographZodiac"
    } else if v == 32 {
        "ideographZodiacTraditional"
    } else if v == 33 {
        "taiwaneseCounting"
    } else if v == 34 {
        "ideographLegalTraditional"
    } else if v == 35 {
        "taiwaneseCountingThousand"
    } else if v == 36 {
        "taiwaneseDigital"
    } else if v == 37 {
        "chineseCounting"
    } else if v == 38 {
        "chineseLegalSimplified"
    } else if v == 39 {
        "chineseCountingThousand"
    } else if v == 41 {
        "koreanDigital"
    } else if v == 42 {
        "koreanCounting"
    } else if v == 43 {
        "koreanLegal"
    } else if v == 44 {
        "koreanDigital2"
    } else if v == 45 {
        "hebrew1"
    } else if v == 46 {
        "arabicAlpha"
    } else if v == 47 {
        "hebrew2"
    } else if v == 48 {
        "arabicAbjad"
    } else if v == 49 {
        "hindiVowels"
    } else if v == 50 {
        "hindiConsonants"
    } else if v == 51 {
        "hindiNumbers"
    } else if v == 52 {
        "hindiCounting"
    } else if v == 53 {
        "thaiLetters"
    } else if v == 54 {
        "thaiNumbers"
    } else if v == 55 {
        "thaiCounting"
    } else if v == 56 {
        "vietnameseCounting"
    } else if v == 57 {
        "numberInDash"
    } else if v == 58 {
        "russianLower"
    } else if v == 59 {
        "russianUpper"
    } else if v == 0xFF {
        "none"
    } else {
        return Err(message("unsupported Word list MSONFC"));
    };
    Ok(name)
}

/// An explicit on or off toggle; relative and absent toggles give none.
pub open spec fn explicit_toggle_value(value: Option<ToggleValue>) -> Option<bool> {
    match value {
        Some(ToggleValue::On) => Some(true),
        Some(ToggleValue::Off) => Some(false),
        _ => None,
    }
}

/// An explicit on or off toggle.
pub fn explicit_toggle(value: Option<ToggleValue>) -> (res: Option<bool>)
    ensures
        res == explicit_toggle_value(value),
{
    match value {
        Some(ToggleValue::On) => Some(true),
        Some(ToggleValue::Off) => Some(false),
        _ => None,
    }
}

/// The value of a hexadecimal digit, or -1.
pub open spec fn hex_digit_value(c: char) -> int {
    if '0' <= c && c <= '9' {
        c as int - 48
    } else if 'a' <= c && c <= 'f' {
        c as int - 87
    } else if 'A' <= c && c <= 'F' {
        c as int - 55
    } else {
        -1
    }
}

/// The value of a run of hexadecimal digits.
pub open spec fn hex_value(s: Seq<char>) -> int
    decreases s.len(),
{
    if s.len() == 0 {
        0
    } else {
        hex_value(s.drop_last()) * 16 + hex_digit_value(s.last())
    }
}

/// The digits of a hexadecimal number: without its optional leading `+`.
pub open spec fn hex_digits(s: Seq<char>) -> Seq<char> {
    if s.len() > 0 && s[0] == '+' {
        s.drop_first()
    } else {
        s
    }
}

/// Whether every character of `d` is a hexadecimal digit.
pub open spec fn all_hex(d: Seq<char>) -> bool {
    forall|i: int| 0 <= i < d.len() ==> hex_digit_value(#[trigger] d[i]) >= 0
}

/// A `u32` written in hexadecimal with an optional leading `+`, as
/// `u32::from_str_radix` reads it.
pub open spec fn parsed_hex(s: Seq<char>) -> Option<u32> {
    let digits = hex_digits(s);
    if digits.len() == 0 || !all_hex(digits) || hex_value(digits) > u32::MAX {
        None
    } else {
        Some(hex_value(digits) as u32)
    }
}

/// Hexadecimal values grow with each digit appended.
proof fn lemma_hex_grows(s: Seq<char>, k: int, j: int)
    requires
        0 <= k <= j <= s.len(),
        forall|i: int| 0 <= i < s.len() ==> hex_digit_value(#[trigger] s[i]) >= 0,
    ensures
        0 <= hex_value(s.take(k)) <= hex_value(s.take(j)),
    decreases j - k,
{
    if k < j {
        lemma_hex_grows(s, k, j - 1);
        assert(s.take(j).drop_last() =~= s.take(j - 1));
        assert(hex_digit_value(s[j - 1]) >= 0);
    } else {
        lemma_hex_nonneg(s.take(k));
    }
}

/// Hexadecimal values of digits are non-negative.
proof fn lemma_hex_nonneg(s: Seq<char>)
    requires
        forall|i: int| 0 <= i < s.len() ==> hex_digit_value(#[trigger] s[i]) >= 0,
    ensures
        hex_value(s) >= 0,
    decreases s.len(),
{
    if s.len() > 0 {
        assert(hex_digit_value(s[s.len() - 1]) >= 0);
        lemma_hex_nonneg(s.drop_last());
    }
}

/// Reads the hexadecimal value of `t[a..b]`.
fn hex_in_range(t: &Vec<char>, a: usize, b: usize) -> (res: Option<u32>)
    requires
        a <= b <= t@.len(),
    ensures
        res == parsed_hex(t@.subrange(a as int, b as int)),
{
    let ghost s = t@.subrange(a as int, b as int);
    let start: usize = if a < b && t[a] == '+' {
        a + 1
    } else {
        a
    };
    let ghost digits = t@.subrange(start as int, b as int);
    assert(digits =~= hex_digits(s));
    if start >= b {
        return None;
    }
    let mut value: u32 = 0;
    let mut k: usize = start;
    while k < b
        invariant
            a <= start < b <= t@.len(),
            start <= k <= b,
            digits == t@.subrange(start as int, b as int),
            s == t@.subrange(a as int, b as int),
            digits == hex_digits(s),
            forall|i: int| 0 <= i < k - start ==> hex_digit_value(#[trigger] digits[i]) >= 0,
            value == hex_value(digits.take(k - start)),
        decreases b - k,
    {
        let c = t[k];
        assert(digits[k - start] == c);
        let d: u32 = if '0' <= c && c <= '9' {
            (c as u32) - 48
        } else if 'a' <= c && c <= 'f' {
            (c as u32) - 87
        } else if 'A' <= c && c <= 'F' {
            (c as u32) - 55
        } else {
            assert(hex_digit_value(digits[k - start]) < 0);
            assert(!all_hex(digits));
            return None;
        };
        assert(digits.take(k - start + 1).drop_last() =~= digits.take(k - start));
        if value > (u32::MAX - d) / 16 {
            assert(value * 16 + d > u32::MAX) by (nonlinear_arith)
                requires
                    value > (u32::MAX - d) / 16,
                    d <= 15,
            ;
            assert(hex_value(digits.take(k - start + 1)) == value * 16 + d);
            proof {
                if all_hex(digits) {
                    lemma_hex_grows(digits, k - start + 1, digits.len() as int);
                    assert(digits.take(digits.len() as int) =~= digits);
                }
            }
            return None;
        }
        value = value * 16 + d;
        k = k + 1;
    }
    assert(digits.take(b - start) =~= digits);
    Some(value)
}

/// `\u{F0000}DOCS_VIEWER_WASM_LIST_`, the start of a list projection marker.
pub open spec fn list_marker_prefix() -> Seq<char> {
    "\u{F0000}DOCS_VIEWER_WASM_LIST_"@
}

/// The (CP, numId, level) of a marker body `CP_NUMID_LEVEL` in hexadecimal.
pub open spec fn marker_fields(body: Seq<char>) -> Option<(u32, u32, u32)> {
    match find_from(body, seq!['_'], 0) {
        None => None,
        Some(i) => {
            let rest = body.subrange(i + 1, body.len() as int);
            match find_from(rest, seq!['_'], 0) {
                None => None,
                Some(j) => {
                    let third = rest.subrange(j + 1, rest.len() as int);
                    if find_from(third, seq!['_'], 0) is Some {
                        None
                    } else {
                        match (parsed_hex(body.take(i)), parsed_hex(rest.take(j)), parsed_hex(third)) {
                            (Some(cp), Some(num_id), Some(level)) => Some((cp, num_id, level)),
                            _ => None,
                        }
                    }
                },
            }
        },
    }
}

/// The list markers of `t` from position `cursor`, as (start, end, numId,
/// level) character positions; `None` when a marker is unterminated or
/// malformed, names numId 0, or a level above 8.
pub open spec fn markers_from(t: Seq<char>, cursor: int) -> Option<Seq<(int, int, u32, u8)>>
    decreases t.len() + 1 - cursor,
{
    if cursor < 0 || cursor > t.len() {
        Some(seq![])
    } else {
        match find_from(t, list_marker_prefix(), cursor) {
            None => Some(seq![]),
            Some(start) => match find_from(t, seq!['\u{F0001}'], start) {
                None => None,
                Some(s) => {
                    let body = t.subrange(start + list_marker_prefix().len(), s);
                    match marker_fields(body) {
                        None => None,
                        Some((_, num_id, level)) => if num_id == 0 || level > 8 || s + 1 <= cursor || s + 1
                            > t.len() {
                            None
                        } else {
                            match markers_from(t, s + 1) {
                                None => None,
                                Some(rest) => Some(seq![(start, s + 1, num_id, level as u8)] + rest),
                            }
                        },
                    }
                },
            },
        }
    }
}

/// A list projection marker found in the generated document part.
#[derive(Debug, Clone)]
pub struct Marker {
    pub start: usize,
    pub end: usize,
    pub raw: String,
    pub num_id: u32,
    pub level: u8,
}

/// Whether markers `ms` are the markers `list` of text `t`.
pub open spec fn markers_match(ms: Seq<Marker>, list: Seq<(int, int, u32, u8)>, t: Seq<char>) -> bool {
    &&& ms.len() == list.len()
    &&& forall|i: int|
        0 <= i < list.len() ==> {
            &&& (#[trigger] ms[i]).start == list[i].0
            &&& ms[i].end == list[i].1
            &&& ms[i].num_id == list[i].2
            &&& ms[i].level == list[i].3
            &&& ms[i].raw@ == t.subrange(list[i].0, list[i].1)
        }
}

/// Finds the first `_` in `t[a..b]`.
fn underscore_in(t: &Vec<char>, a: usize, b: usize) -> (res: Option<usize>)
    requires
        a <= b <= t@.len(),
    ensures
        match find_from(t@.subrange(a as int, b as int), seq!['_'], 0) {
            Some(i) => res matches Some(k) && k == a + i,
            None => res is None,
        },
{
    let underscore = ['_'];
    assert(underscore@ =~= seq!['_']);
    find_in_range(t, underscore.as_slice(), a, b)
}

/// Reads the fields of the marker body `t[a..b]`.
fn parse_marker_fields(t: &Vec<char>, a: usize, b: usize) -> (res: Option<(u32, u32, u32)>)
    requires
        a <= b <= t@.len(),
    ensures
        res == marker_fields(t@.subrange(a as int, b as int)),
{
    let ghost body = t@.subrange(a as int, b as int);
    let i = underscore_in(t, a, b)?;
    proof {
        crate::xls_biff::lemma_find_from(body, seq!['_'], 0);
    }
    let ghost rest = body.subrange(i - a + 1, body.len() as int);
    assert(rest =~= t@.subrange(i + 1, b as int));
    let j = underscore_in(t, i + 1, b)?;
    proof {
        crate::xls_biff::lemma_find_from(rest, seq!['_'], 0);
    }
    let ghost third = rest.subrange(j - i, rest.len() as int);
    assert(third =~= t@.subrange(j + 1, b as int));
    if underscore_in(t, j + 1, b).is_some() {
        return None;
    }
    assert(body.take(i - a) =~= t@.subrange(a as int, i as int));
    assert(rest.take(j - i - 1) =~= t@.subrange(i + 1, j as int));
    let cp = hex_in_range(t, a, i);
    let num_id = hex_in_range(t, i + 1, j);
    let level = hex_in_range(t, j + 1, b);
    match (cp, num_id, level) {
        (Some(cp), Some(num_id), Some(level)) => Some((cp, num_id, level)),
        _ => None,
    }
}

/// Finds the list projection markers of a generated document part, in
/// document order; positions count characters.
pub fn parse_markers(xml: &str) -> (res: Result<Vec<Marker>, String>)
    ensures
        match markers_from(xml@, 0) {
            Some(list) => res matches Ok(v) && markers_match(v@, list, xml@),
            None => res is Err,
        },
{
    let t = chars_of(xml);
    let prefix = chars_of("\u{F0000}DOCS_VIEWER_WASM_LIST_");
    let suffix = ['\u{F0001}'];
    proof {
        reveal_strlit("\u{F0000}DOCS_VIEWER_WASM_LIST_");
    }
    assert(suffix@ =~= seq!['\u{F0001}']);
    let n = t.len();
    let mut result: Vec<Marker> = Vec::new();
    let ghost mut done: Seq<(int, int, u32, u8)> = seq![];
    let mut cursor: usize = 0;
    while cursor <= n
        invariant
            n == t@.len(),
            t@ == xml@,
            prefix@ == list_marker_prefix(),
            suffix@ == seq!['\u{F0001}'],
            cursor <= n + 1,
            markers_match(result@, done, t@),
            markers_from(t@, 0) == match markers_from(t@, cursor as int) {
                None => None,
                Some(rest) => Some(done + rest),
            },
        decreases n + 1 - cursor,
    {
        let start = match find_in_range(&t, prefix.as_slice(), cursor, n) {
            Some(k) => k,
            None => {
                proof {
                    lemma_find_from_suffix(t@, list_marker_prefix(), cursor as int);
                    assert(done + seq![] =~= done);
                }
                return Ok(result);
            },
        };
        proof {
            lemma_find_from_suffix(t@, list_marker_prefix(), cursor as int);
            crate::xls_biff::lemma_find_from(t@, list_marker_prefix(), cursor as int);
        }
        let body_start = start + prefix.len();
        let close = match find_in_range(&t, suffix.as_slice(), start, n) {
            Some(k) => k,
            None => {
                proof {
                    lemma_find_from_suffix(t@, seq!['\u{F0001}'], start as int);
                }
                return Err(message("unterminated DOC list projection marker"));
            },
        };
        proof {
            lemma_find_from_suffix(t@, seq!['\u{F0001}'], start as int);
            crate::xls_biff::lemma_find_from(t@, seq!['\u{F0001}'], start as int);
            lemma_suffix_after_prefix(t@, start as int, close as int);
        }
        let fields = parse_marker_fields(&t, body_start, close);
        let (num_id, level) = match fields {
            Some((_, num_id, level)) => {
                if num_id == 0 || level > 8 {
                    return Err(message("malformed DOC list projection marker"));
                }
                (num_id, level as u8)
            },
            None => {
                return Err(message("malformed DOC list projection marker"));
            },
        };
        let end = close + 1;
        let raw = string_of(&t, start, end);
        let ghost entry = (start as int, end as int, num_id, level);
        result.push(Marker { start, end, raw, num_id, level });
        proof {
            let rest = markers_from(t@, end as int);
            if rest is Some {
                assert(done.push(entry) + rest->Some_0 =~= done + (seq![entry] + rest->Some_0));
            }
            done = done.push(entry);
        }
        cursor = end;
    }
    proof {
        assert(done + seq![] =~= done);
    }
    Ok(result)
}

/// Searching the suffix from `i` finds what searching the whole from `i`
/// does, as a position of the whole.
proof fn lemma_find_from_suffix(t: Seq<char>, p: Seq<char>, i: int)
    requires
        0 <= i <= t.len(),
    ensures
        match find_from(t.subrange(i, t.len() as int), p, 0) {
            Some(k) => find_from(t, p, i) == Some(i + k),
            None => find_from(t, p, i) is None,
        },
{
    lemma_find_shift(t, p, i, 0);
}

/// Searching a suffix from `k` is searching the whole from `i + k`.
proof fn lemma_find_shift(t: Seq<char>, p: Seq<char>, i: int, k: int)
    requires
        0 <= i <= t.len(),
        0 <= k,
    ensures
        match find_from(t.subrange(i, t.len() as int), p, k) {
            Some(m) => find_from(t, p, i + k) == Some(i + m),
            None => find_from(t, p, i + k) is None,
        },
    decreases t.len() + 1 - (i + k),
{
    let s = t.subrange(i, t.len() as int);
    if k + p.len() <= s.len() {
        assert(crate::xls_biff::occurs_at(s, p, k) <==> crate::xls_biff::occurs_at(t, p, i + k)) by {
            assert(s.subrange(k, k + p.len()) =~= t.subrange(i + k, i + k + p.len()));
        }
        lemma_find_shift(t, p, i, k + 1);
    }
}

/// The marker suffix found after a marker prefix lies past the prefix,
/// which does not hold the suffix character.
proof fn lemma_suffix_after_prefix(t: Seq<char>, start: int, close: int)
    requires
        crate::xls_biff::occurs_at(t, list_marker_prefix(), start),
        find_from(t, seq!['\u{F0001}'], start) == Some(close),
        crate::xls_biff::occurs_at(t, seq!['\u{F0001}'], close),
        start <= close,
    ensures
        start + list_marker_prefix().len() <= close,
{
    reveal_strlit("\u{F0000}DOCS_VIEWER_WASM_LIST_");
    let p = list_marker_prefix();
    if close < start + p.len() {
        assert(t.subrange(start, start + p.len())[close - start] == t[close]);
        assert(t.subrange(close, close + 1)[0] == t[close]);
        assert(p[close - start] != '\u{F0001}');
    }
}

/// The decimal text of a signed twip value.
pub open spec fn signed_text(v: i16) -> Seq<char> {
    if v < 0 {
        "-"@ + decimal((-(v as int)) as nat)
    } else {
        decimal(v as nat)
    }
}

/// Appends the decimal text of a signed twip value.
fn append_signed(out: &mut String, v: i16)
    ensures
        final(out)@ == old(out)@ + signed_text(v),
{
    if v < 0 {
        append_str(out, "-");
        append_decimal(out, (-(v as i32)) as u64);
    } else {
        append_decimal(out, v as u64);
    }
}

/// The OOXML name of a tab alignment code.
pub open spec fn tab_alignment_name(a: u8) -> Seq<char> {
    if a == 1 {
        "center"@
    } else if a == 2 {
        "right"@
    } else if a == 3 {
        "decimal"@
    } else if a == 4 {
        "bar"@
    } else {
        "left"@
    }
}

/// The OOXML name of a tab leader code.
pub open spec fn tab_leader_name(l: u8) -> Seq<char> {
    if l == 1 {
        "dot"@
    } else if l == 2 {
        "hyphen"@
    } else if l == 3 {
        "underscore"@
    } else if l == 4 {
        "heavy"@
    } else if l == 5 {
        "middleDot"@
    } else {
        "none"@
    }
}

/// The `<w:tab>` element of an added tab stop.
pub open spec fn tab_stop_element(t: TabStop) -> Seq<char> {
    "<w:tab w:val=\""@ + tab_alignment_name(t.alignment) + "\" w:leader=\""@ + tab_leader_name(t.leader)
        + "\" w:pos=\""@ + signed_text(t.position_twips) + "\"/>"@
}

/// The `<w:tab>` elements of the stops `ts`, in order.
pub open spec fn tab_stop_elements(ts: Seq<TabStop>) -> Seq<char>
    decreases ts.len(),
{
    if ts.len() == 0 {
        seq![]
    } else {
        tab_stop_elements(ts.drop_last()) + tab_stop_element(ts.last())
    }
}

/// The `<w:tab>` elements of the stops each change adds, in order.
pub open spec fn change_tab_elements(cs: Seq<TabChange>) -> Seq<char>
    decreases cs.len(),
{
    if cs.len() == 0 {
        seq![]
    } else {
        change_tab_elements(cs.drop_last()) + tab_stop_elements(cs.last().additions@)
    }
}

/// The indent element of a list level's paragraph properties, a negative
/// first-line indent being a hanging one.
pub open spec fn indent_text(pd: ParagraphPropertyDelta) -> Seq<char> {
    "<w:ind"@ + (match pd.indent_left_twips {
        Some(v) => " w:left=\""@ + signed_text(v) + "\""@,
        None => seq![],
    }) + (match pd.indent_right_twips {
        Some(v) => " w:right=\""@ + signed_text(v) + "\""@,
        None => seq![],
    }) + (match pd.first_line_indent_twips {
        Some(v) => if v < 0 {
            " w:hanging=\""@ + decimal((-(v as int)) as nat) + "\""@
        } else {
            " w:firstLine=\""@ + decimal(v as nat) + "\""@
        },
        None => seq![],
    }) + "/>"@
}

/// The paragraph properties of a list level: its added tab stops and its
/// indents, a negative first-line indent being a hanging one. Empty when
/// it has neither.
pub open spec fn level_paragraph_text(pd: ParagraphPropertyDelta) -> Seq<char> {
    let has_indent = pd.indent_left_twips is Some || pd.indent_right_twips is Some
        || pd.first_line_indent_twips is Some;
    if !has_indent && pd.tab_changes@.len() == 0 {
        seq![]
    } else {
        "<w:pPr>"@ + (if pd.tab_changes@.len() > 0 {
            "<w:tabs>"@ + change_tab_elements(pd.tab_changes@) + "</w:tabs>"@
        } else {
            seq![]
        }) + (if has_indent {
            indent_text(pd)
        } else {
            seq![]
        }) + "</w:pPr>"@
    }
}

/// Appends the `<w:tab>` element of a stop.
fn append_tab_stop(out: &mut String, t: TabStop)
    ensures
        final(out)@ == old(out)@ + tab_stop_element(t),
{
    let ghost start = out@;
    append_str(out, "<w:tab w:val=\"");
    append_str(
        out,
        if t.alignment == 1 {
            "center"
        } else if t.alignment == 2 {
            "right"
        } else if t.alignment == 3 {
            "decimal"
        } else if t.alignment == 4 {
            "bar"
        } else {
            "left"
        },
    );
    append_str(out, "\" w:leader=\"");
    append_str(
        out,
        if t.leader == 1 {
            "dot"
        } else if t.leader == 2 {
            "hyphen"
        } else if t.leader == 3 {
            "underscore"
        } else if t.leader == 4 {
            "heavy"
        } else if t.leader == 5 {
            "middleDot"
        } else {
            "none"
        },
    );
    append_str(out, "\" w:pos=\"");
    append_signed(out, t.position_twips);
    append_str(out, "\"/>");
    assert(out@ =~= start + tab_stop_element(t));
}

/// Appends the `<w:tab>` elements of the stops the changes add.
#[verifier::rlimit(80)]
#[verifier::spinoff_prover]
fn append_change_tabs(out: &mut String, changes: &Vec<TabChange>)
    ensures
        final(out)@ == old(out)@ + change_tab_elements(changes@),
{
    let ghost start = out@;
    let mut k: usize = 0;
    while k < changes.len()
        invariant
            k <= changes@.len(),
            out@ =~= start + change_tab_elements(changes@.take(k as int)),
        decreases changes@.len() - k,
    {
        let ghost open = out@;
        let additions = &changes[k].additions;
        let mut a: usize = 0;
        while a < additions.len()
            invariant
                a <= additions@.len(),
                out@ =~= open + tab_stop_elements(additions@.take(a as int)),
            decreases additions@.len() - a,
        {
            append_tab_stop(out, additions[a]);
            assert(additions@.take(a + 1).drop_last() =~= additions@.take(a as int));
            a = a + 1;
        }
        assert(additions@.take(a as int) =~= additions@);
        assert(changes@.take(k + 1).drop_last() =~= changes@.take(k as int));
        k = k + 1;
    }
    assert(changes@.take(k as int) =~= changes@);
}

/// Appends the indent element of a level's paragraph properties.
#[verifier::rlimit(80)]
#[verifier::spinoff_prover]
fn append_indent(out: &mut String, pd: &ParagraphPropertyDelta)
    ensures
        final(out)@ == old(out)@ + indent_text(*pd),
{
    let ghost start = out@;
    append_str(out, "<w:ind");
    let ghost a = out@;
    if let Some(v) = pd.indent_left_twips {
        append_str(out, " w:left=\"");
        append_signed(out, v);
        append_str(out, "\"");
    }
    let ghost b = out@;
    assert(b =~= a + (match pd.indent_left_twips {
        Some(v) => " w:left=\""@ + signed_text(v) + "\""@,
        None => seq![],
    }));
    if let Some(v) = pd.indent_right_twips {
        append_str(out, " w:right=\"");
        append_signed(out, v);
        append_str(out, "\"");
    }
    let ghost c = out@;
    assert(c =~= b + (match pd.indent_right_twips {
        Some(v) => " w:right=\""@ + signed_text(v) + "\""@,
        None => seq![],
    }));
    if let Some(v) = pd.first_line_indent_twips {
        if v < 0 {
            append_str(out, " w:hanging=\"");
            append_decimal(out, (-(v as i32)) as u64);
        } else {
            append_str(out, " w:firstLine=\"");
            append_decimal(out, v as u64);
        }
        append_str(out, "\"");
    }
    let ghost e = out@;
    assert(e =~= c + (match pd.first_line_indent_twips {
        Some(v) => if v < 0 {
            " w:hanging=\""@ + decimal((-(v as int)) as nat) + "\""@
        } else {
            " w:firstLine=\""@ + decimal(v as nat) + "\""@
        },
        None => seq![],
    }));
    append_str(out, "/>");
    assert(out@ =~= start + indent_text(*pd));
}

/// Appends the paragraph properties of a list level.
#[verifier::rlimit(80)]
#[verifier::spinoff_prover]
fn append_level_paragraph(out: &mut String, pd: &ParagraphPropertyDelta)
    ensures
        final(out)@ == old(out)@ + level_paragraph_text(*pd),
{
    let ghost start = out@;
    let has_indent = pd.indent_left_twips.is_some() || pd.indent_right_twips.is_some()
        || pd.first_line_indent_twips.is_some();
    if !has_indent && pd.tab_changes.len() == 0 {
        assert(out@ =~= start + level_paragraph_text(*pd));
        return;
    }
    append_str(out, "<w:pPr>");
    let ghost a = out@;
    if pd.tab_changes.len() > 0 {
        append_str(out, "<w:tabs>");
        append_change_tabs(out, &pd.tab_changes);
        append_str(out, "</w:tabs>");
    }
    let ghost b = out@;
    assert(b =~= a + (if pd.tab_changes@.len() > 0 {
        "<w:tabs>"@ + change_tab_elements(pd.tab_changes@) + "</w:tabs>"@
    } else {
        seq![]
    }));
    if has_indent {
        append_indent(out, pd);
    }
    append_str(out, "</w:pPr>");
    assert(out@ =~= start + level_paragraph_text(*pd));
}

/// The font a list level's marker uses: the ASCII font when one is set,
/// else the other-script font, when it is in the font table.
pub open spec fn level_font(cd: CharacterPropertyDelta, fonts: Seq<FontEntry>) -> Option<FontEntry> {
    let index = if cd.font_ascii is Some {
        cd.font_ascii
    } else {
        cd.font_other
    };
    match index {
        Some(i) => if i < fonts.len() {
            Some(fonts[i as int])
        } else {
            None
        },
        None => None,
    }
}

/// The `<w:b>` or `<w:i>` element of an explicit toggle.
pub open spec fn toggle_element(name: Seq<char>, value: Option<bool>) -> Seq<char> {
    match value {
        Some(true) => "<"@ + name + "/>"@,
        Some(false) => "<"@ + name + " w:val=\"0\"/>"@,
        None => seq![],
    }
}

/// The run properties of a list level's marker: its font, explicit bold
/// and italic, and size. Empty when it has none of them.
pub open spec fn level_character_text(cd: CharacterPropertyDelta, fonts: Seq<FontEntry>) -> Seq<char> {
    let font = level_font(cd, fonts);
    let bold = explicit_toggle_value(cd.bold);
    let italic = explicit_toggle_value(cd.italic);
    if font is None && bold is None && italic is None && cd.font_size_half_points is None {
        seq![]
    } else {
        "<w:rPr>"@ + (match font {
            Some(f) => "<w:rFonts w:ascii=\""@ + escaped(f.name@) + "\" w:hAnsi=\""@ + escaped(f.name@) + "\" w:cs=\""@
                + escaped(f.name@) + "\"/>"@,
            None => seq![],
        }) + toggle_element("w:b"@, bold) + toggle_element("w:i"@, italic) + (match cd.font_size_half_points {
            Some(v) => "<w:sz w:val=\""@ + decimal(v as nat) + "\"/>"@,
            None => seq![],
        }) + "</w:rPr>"@
    }
}

/// Appends the element of an explicit toggle named `name`.
fn append_toggle(out: &mut String, name: &str, value: Option<bool>)
    ensures
        final(out)@ == old(out)@ + toggle_element(name@, value),
{
    let ghost start = out@;
    match value {
        Some(on) => {
            append_str(out, "<");
            append_str(out, name);
            if on {
                append_str(out, "/>");
            } else {
                append_str(out, " w:val=\"0\"/>");
            }
        },
        None => {},
    }
    assert(out@ =~= start + toggle_element(name@, value));
}

/// Appends the `<w:rFonts>` element of a marker font.
fn append_font(out: &mut String, f: &FontEntry)
    ensures
        final(out)@ == old(out)@ + "<w:rFonts w:ascii=\""@ + escaped(f.name@) + "\" w:hAnsi=\""@ + escaped(f.name@)
            + "\" w:cs=\""@ + escaped(f.name@) + "\"/>"@,
{
    append_str(out, "<w:rFonts w:ascii=\"");
    append_escaped(out, f.name.as_str());
    append_str(out, "\" w:hAnsi=\"");
    append_escaped(out, f.name.as_str());
    append_str(out, "\" w:cs=\"");
    append_escaped(out, f.name.as_str());
    append_str(out, "\"/>");
}

/// Appends the run properties of a list level's marker.
#[verifier::rlimit(80)]
#[verifier::spinoff_prover]
fn append_level_character(out: &mut String, cd: &CharacterPropertyDelta, fonts: &FontTable)
    ensures
        final(out)@ == old(out)@ + level_character_text(*cd, fonts.spec_fonts()),
{
    let ghost start = out@;
    let index = if cd.font_ascii.is_some() {
        cd.font_ascii
    } else {
        cd.font_other
    };
    let font = match index {
        Some(i) => fonts.get(i),
        None => None,
    };
    assert(font matches Some(f) ==> level_font(*cd, fonts.spec_fonts()) == Some(*f));
    assert(font is None ==> level_font(*cd, fonts.spec_fonts()) is None);
    let bold = explicit_toggle(cd.bold);
    let italic = explicit_toggle(cd.italic);
    if font.is_none() && bold.is_none() && italic.is_none() && cd.font_size_half_points.is_none() {
        assert(out@ =~= start + level_character_text(*cd, fonts.spec_fonts()));
        return;
    }
    append_str(out, "<w:rPr>");
    let ghost a = out@;
    match font {
        Some(f) => append_font(out, f),
        None => {},
    }
    let ghost b = out@;
    assert(b =~= a + (match level_font(*cd, fonts.spec_fonts()) {
        Some(f) => "<w:rFonts w:ascii=\""@ + escaped(f.name@) + "\" w:hAnsi=\""@ + escaped(f.name@) + "\" w:cs=\""@
            + escaped(f.name@) + "\"/>"@,
        None => seq![],
    }));
    append_toggle(out, "w:b", bold);
    append_toggle(out, "w:i", italic);
    let ghost c = out@;
    if let Some(v) = cd.font_size_half_points {
        append_str(out, "<w:sz w:val=\"");
        append_decimal(out, v as u64);
        append_str(out, "\"/>");
    }
    assert(out@ =~= c + (match cd.font_size_half_points {
        Some(v) => "<w:sz w:val=\""@ + decimal(v as nat) + "\"/>"@,
        None => seq![],
    }));
    append_str(out, "</w:rPr>");
    assert(out@ =~= start + level_character_text(*cd, fonts.spec_fonts()));
}

/// Whether list level `level` can be written: its number format is known,
/// its justification is left, center or right, and its paragraph and
/// character property SPRMs are valid.
pub open spec fn level_writable(level: ListLevel) -> bool {
    &&& number_format_text(level.number_format) is Some
    &&& level.justification <= 2
    &&& forall|i: int| 0 <= i < level.paragraph_sprms@.len() ==> #[trigger] paragraph_sprm_ok(level.paragraph_sprms@[i])
    &&& forall|i: int| 0 <= i < level.character_sprms@.len() ==> #[trigger] character_sprm_ok(level.character_sprms@[i])
}

/// Whether a level's numbering has no value: a bullet or no number.
pub open spec fn unnumbered(level: ListLevel) -> bool {
    level.number_format == 23 || level.number_format == 0xFF
}

/// The marker text of a list level in OOXML form.
pub open spec fn level_text_of(level: ListLevel) -> Seq<char> {
    marker_chars(
        used_placeholders(level.placeholder_offsets@),
        level.number_format == 0x17,
        level.level_text@,
        level.level_text@.len() as int,
    )
}

/// The OOXML name of what follows a list marker.
pub open spec fn follow_name(f: ListFollow) -> Seq<char> {
    match f {
        ListFollow::Tab => "tab"@,
        ListFollow::Space => "space"@,
        ListFollow::Nothing => "nothing"@,
    }
}

/// The OOXML name of a marker justification (0 to 2).
pub open spec fn justification_name(j: u8) -> Seq<char> {
    if j == 0 {
        "left"@
    } else if j == 1 {
        "center"@
    } else {
        "right"@
    }
}

/// The head of a `<w:lvl>` element: index, start (one for a bullet or no
/// number), format, restart limit and legal numbering.
pub open spec fn level_head(index: u8, level: ListLevel) -> Seq<char> {
    "<w:lvl w:ilvl=\""@ + decimal(index as nat) + "\"><w:start w:val=\""@ + decimal(
        (if unnumbered(level) {
            1
        } else {
            level.start_at
        }) as nat,
    ) + "\"/><w:numFmt w:val=\""@ + number_format_text(level.number_format)->Some_0 + "\"/>"@ + (if level.no_restart
        && !unnumbered(level) {
        "<w:lvlRestart w:val=\""@ + decimal(level.restart_limit as nat) + "\"/>"@
    } else {
        seq![]
    }) + (if level.legal_numbering {
        "<w:isLgl/>"@
    } else {
        seq![]
    })
}

/// The suffix, text and justification elements of a list level.
pub open spec fn level_marker(level: ListLevel) -> Seq<char> {
    "<w:suff w:val=\""@ + follow_name(level.follow) + "\"/><w:lvlText w:val=\""@ + escaped(level_text_of(level))
        + "\"/><w:lvlJc w:val=\""@ + justification_name(level.justification) + "\"/>"@
}

/// The `<w:lvl>` element of list level `level` at `index`, with paragraph
/// properties `pd` and marker run properties `cd`.
pub open spec fn level_xml(
    index: u8,
    level: ListLevel,
    fonts: Seq<FontEntry>,
    pd: ParagraphPropertyDelta,
    cd: CharacterPropertyDelta,
) -> Seq<char> {
    level_head(index, level) + level_marker(level) + level_paragraph_text(pd) + level_character_text(cd, fonts)
        + "</w:lvl>"@
}

/// The paragraph properties some delta takes from a level's SPRMs.
pub open spec fn level_paragraph_delta(level: ListLevel) -> ParagraphPropertyDelta {
    choose|pd: ParagraphPropertyDelta|
        paragraph_fields_match(pd, level.paragraph_sprms@, level.paragraph_sprms@.len() as int)
}

/// The marker run properties some delta takes from a level's SPRMs.
pub open spec fn level_character_delta(level: ListLevel) -> CharacterPropertyDelta {
    choose|cd: CharacterPropertyDelta|
        character_fields_match(cd, level.character_sprms@, level.character_sprms@.len() as int)
}

/// The `<w:lvl>` element of list level `level` at `index`, its properties
/// taken from its SPRMs.
pub open spec fn level_text(index: u8, level: ListLevel, fonts: Seq<FontEntry>) -> Seq<char> {
    level_xml(index, level, fonts, level_paragraph_delta(level), level_character_delta(level))
}

/// The tab elements of changes depend only on the stops they add.
proof fn lemma_change_tabs_same(a: Seq<TabChange>, b: Seq<TabChange>)
    requires
        a.len() == b.len(),
        forall|k: int| 0 <= k < a.len() ==> (#[trigger] a[k]).additions@ == b[k].additions@,
    ensures
        change_tab_elements(a) == change_tab_elements(b),
    decreases a.len(),
{
    if a.len() > 0 {
        assert forall|k: int| 0 <= k < a.drop_last().len() implies (#[trigger] a.drop_last()[k]).additions@
            == b.drop_last()[k].additions@ by {
            assert(a.drop_last()[k] == a[k]);
            assert(b.drop_last()[k] == b[k]);
        }
        lemma_change_tabs_same(a.drop_last(), b.drop_last());
        assert(a.last().additions@ == b.last().additions@);
    }
}

/// Every delta that matches a level's SPRMs gives the same `<w:lvl>`.
#[verifier::rlimit(80)]
#[verifier::spinoff_prover]
proof fn lemma_level_xml_determined(
    index: u8,
    level: ListLevel,
    fonts: Seq<FontEntry>,
    pd: ParagraphPropertyDelta,
    cd: CharacterPropertyDelta,
)
    requires
        paragraph_fields_match(pd, level.paragraph_sprms@, level.paragraph_sprms@.len() as int),
        character_fields_match(cd, level.character_sprms@, level.character_sprms@.len() as int),
    ensures
        level_xml(index, level, fonts, pd, cd) == level_text(index, level, fonts),
{
    let pd2 = level_paragraph_delta(level);
    let cd2 = level_character_delta(level);
    let sprms = level.paragraph_sprms@;
    let n = sprms.len() as int;
    assert(paragraph_fields_match(pd2, sprms, n));
    assert(character_fields_match(cd2, level.character_sprms@, level.character_sprms@.len() as int));
    assert forall|k: int| 0 <= k < pd.tab_changes@.len() implies (#[trigger] pd.tab_changes@[k]).additions@
        == pd2.tab_changes@[k].additions@ by {
        assert(tab_change_matches(pd.tab_changes@[k], tab_sprms(sprms, n)[k]));
        assert(tab_change_matches(pd2.tab_changes@[k], tab_sprms(sprms, n)[k]));
    }
    lemma_change_tabs_same(pd.tab_changes@, pd2.tab_changes@);
    assert(indent_text(pd) == indent_text(pd2));
    assert(level_paragraph_text(pd) == level_paragraph_text(pd2));
    assert(level_character_text(cd, fonts) == level_character_text(cd2, fonts));
}

/// Appends the head of a `<w:lvl>` element.
#[verifier::rlimit(80)]
#[verifier::spinoff_prover]
fn append_level_head(out: &mut String, index: u8, level: &ListLevel, format: &str)
    requires
        number_format_text(level.number_format) == Some(format@),
    ensures
        final(out)@ == old(out)@ + level_head(index, *level),
{
    let ghost start = out@;
    let unnumbered_level = level.number_format == 23 || level.number_format == 0xFF;
    let start_at = if unnumbered_level {
        1
    } else {
        level.start_at
    };
    append_str(out, "<w:lvl w:ilvl=\"");
    append_decimal(out, index as u64);
    append_str(out, "\"><w:start w:val=\"");
    append_decimal(out, start_at as u64);
    append_str(out, "\"/><w:numFmt w:val=\"");
    append_str(out, format);
    append_str(out, "\"/>");
    let ghost a = out@;
    if level.no_restart && !unnumbered_level {
        append_str(out, "<w:lvlRestart w:val=\"");
        append_decimal(out, level.restart_limit as u64);
        append_str(out, "\"/>");
    }
    let ghost b = out@;
    if level.legal_numbering {
        append_str(out, "<w:isLgl/>");
    }
    assert(b =~= a + (if level.no_restart && !unnumbered(*level) {
        "<w:lvlRestart w:val=\""@ + decimal(level.restart_limit as nat) + "\"/>"@
    } else {
        seq![]
    }));
    assert(out@ =~= start + level_head(index, *level));
}

/// Appends the suffix, text and justification elements of a list level.
fn append_level_marker(out: &mut String, level: &ListLevel)
    requires
        level.justification <= 2,
    ensures
        final(out)@ == old(out)@ + level_marker(*level),
{
    let ghost start = out@;
    append_str(out, "<w:suff w:val=\"");
    append_str(
        out,
        match level.follow {
            ListFollow::Tab => "tab",
            ListFollow::Space => "space",
            ListFollow::Nothing => "nothing",
        },
    );
    append_str(out, "\"/><w:lvlText w:val=\"");
    let text = level.ooxml_level_text();
    append_escaped(out, text.as_str());
    append_str(out, "\"/><w:lvlJc w:val=\"");
    append_str(
        out,
        if level.justification == 0 {
            "left"
        } else if level.justification == 1 {
            "center"
        } else {
            "right"
        },
    );
    append_str(out, "\"/>");
    assert(out@ =~= start + level_marker(*level));
}

/// Appends the `<w:lvl>` element of list level `level` at `level_index`.
/// Fails, having appended part of the element, on an unknown number
/// format, justification or property SPRM.
#[verifier::rlimit(80)]
#[verifier::spinoff_prover]
pub fn write_level(xml: &mut String, level_index: u8, level: &ListLevel, fonts: &FontTable) -> (res: Result<(), String>)
    ensures
        res is Ok <==> level_writable(*level),
        res is Ok ==> final(xml)@ == old(xml)@ + level_text(level_index, *level, fonts.spec_fonts()),
        old(xml)@.len() <= final(xml)@.len(),
        final(xml)@.subrange(0, old(xml)@.len() as int) == old(xml)@,
{
    let ghost start = xml@;
    let format = match number_format(level.number_format) {
        Ok(f) => f,
        Err(e) => {
            assert(xml@.subrange(0, start.len() as int) =~= start);
            return Err(e);
        },
    };
    append_level_head(xml, level_index, level, format);
    if level.justification > 2 {
        assert(xml@.subrange(0, start.len() as int) =~= start);
        return Err(message("invalid list justification"));
    }
    append_level_marker(xml, level);
    let pd = match apply_paragraph_sprms(level.paragraph_sprms.as_slice()) {
        Ok(d) => d,
        Err(e) => {
            assert(xml@.subrange(0, start.len() as int) =~= start);
            return Err(e.describe());
        },
    };
    append_level_paragraph(xml, &pd);
    let cd = match apply_character_sprms(level.character_sprms.as_slice()) {
        Ok(d) => d,
        Err(e) => {
            assert(xml@.subrange(0, start.len() as int) =~= start);
            return Err(e.describe());
        },
    };
    append_level_character(xml, &cd, fonts);
    append_str(xml, "</w:lvl>");
    assert(xml@ =~= start + level_xml(level_index, *level, fonts.spec_fonts(), pd, cd));
    proof {
        lemma_level_xml_determined(level_index, *level, fonts.spec_fonts(), pd, cd);
    }
    assert(xml@.subrange(0, start.len() as int) =~= start);
    Ok(())
}

/// Whether a paragraph start tag `<w:p>` or `<w:p ...>` opens at `o`
/// within the first `limit` characters of `t`.
pub open spec fn paragraph_open_at(t: Seq<char>, limit: int, o: int) -> bool {
    occurs_at(t.take(limit), "<w:p"@, o) && o + 4 < t.len() && (t[o + 4] == '>' || t[o + 4] == ' ')
}

/// The last paragraph start at or before `i` within the first `limit`
/// characters of `t`.
pub open spec fn last_paragraph_from(t: Seq<char>, limit: int, i: int) -> Option<int>
    decreases i + 1,
{
    if i < 0 {
        None
    } else if paragraph_open_at(t, limit, i) {
        Some(i)
    } else {
        last_paragraph_from(t, limit, i - 1)
    }
}

/// The numbering properties of a list paragraph.
pub open spec fn num_pr_text(level: u8, num_id: u32) -> Seq<char> {
    "<w:numPr><w:ilvl w:val=\""@ + decimal(level as nat) + "\"/><w:numId w:val=\""@ + decimal(num_id as nat)
        + "\"/></w:numPr>"@
}

/// `t` with the marker `raw` at `start..end` removed and numbering
/// properties for (`num_id`, `level`) given to the paragraph holding it:
/// before the last `</w:pPr>` between the paragraph's start tag and the
/// marker, else in new paragraph properties right after that start tag.
/// `None` when the marker is not at its place, is not inside one `w:t`
/// and one paragraph, or the paragraph already has numbering properties.
pub open spec fn marker_patch(t: Seq<char>, start: int, end: int, raw: Seq<char>, num_id: u32, level: u8) -> Option<
    Seq<char>,
> {
    if !(0 <= start <= end <= t.len()) || t.subrange(start, end) != raw {
        None
    } else {
        match last_from(t.take(start), "<w:t"@, start - 4) {
            None => None,
            Some(ts) => if find_from(t.subrange(ts, start), "</w:t>"@, 0) is Some || find_from(
                t.skip(end),
                "</w:t>"@,
                0,
            ) is None {
                None
            } else {
                match last_paragraph_from(t, start, start - 4) {
                    None => None,
                    Some(ps) => if find_from(t.subrange(ps, start), "</w:p>"@, 0) is Some {
                        None
                    } else {
                        match find_from(t.skip(ps), seq!['>'], 0) {
                            None => None,
                            Some(r) => {
                                let open_end = ps + r + 1;
                                if open_end > start {
                                    None
                                } else {
                                    match find_from(t.skip(end), "</w:p>"@, 0) {
                                        None => None,
                                        Some(r2) => if find_from(t.subrange(ps, end + r2), "<w:numPr"@, 0) is Some {
                                            None
                                        } else {
                                            let removed = t.take(start) + t.skip(end);
                                            let np = num_pr_text(level, num_id);
                                            match last_from(
                                                t.subrange(open_end, start),
                                                "</w:pPr>"@,
                                                start - open_end - 8,
                                            ) {
                                                Some(o) => Some(
                                                    removed.take(open_end + o) + np + removed.skip(open_end + o),
                                                ),
                                                None => Some(
                                                    removed.take(open_end) + "<w:pPr>"@ + np + "</w:pPr>"@
                                                        + removed.skip(open_end),
                                                ),
                                            }
                                        },
                                    }
                                }
                            },
                        }
                    },
                }
            },
        }
    }
}

/// The last occurrence of `p` wholly inside `t[a..b]`, as a position of
/// `t`.
#[verifier::rlimit(80)]
#[verifier::spinoff_prover]
fn last_in_range(t: &Vec<char>, p: &Vec<char>, a: usize, b: usize) -> (res: Option<usize>)
    requires
        a <= b <= t@.len(),
    ensures
        match last_from(t@.subrange(a as int, b as int), p@, b - a - p@.len()) {
            Some(j) => res matches Some(k) && k == a + j && k + p@.len() <= b,
            None => res is None,
        },
{
    let ghost w = t@.subrange(a as int, b as int);
    if p.len() > b - a {
        assert(last_from(w, p@, b - a - p@.len()) is None);
        return None;
    }
    let mut i: usize = b - a - p.len();
    loop
        invariant
            a <= b <= t@.len(),
            w == t@.subrange(a as int, b as int),
            i + p@.len() <= b - a,
            last_from(w, p@, b - a - p@.len()) == last_from(w, p@, i as int),
        decreases i,
    {
        let same = crate::sheet_patch::range_equals(t, a + i, a + i + p.len(), p);
        assert(w.subrange(i as int, i + p@.len()) =~= t@.subrange(a + i, a + i + p@.len()));
        if same {
            return Some(a + i);
        }
        if i == 0 {
            assert(last_from(w, p@, -1) is None);
            return None;
        }
        i = i - 1;
    }
}

/// The last paragraph start before `start` in `t`.
#[verifier::rlimit(80)]
#[verifier::spinoff_prover]
fn last_paragraph_open(t: &Vec<char>, start: usize) -> (res: Option<usize>)
    requires
        start < t@.len(),
    ensures
        match last_paragraph_from(t@, start as int, start - 4) {
            Some(j) => res matches Some(k) && k == j && k + 4 <= start,
            None => res is None,
        },
{
    proof {
        reveal_strlit("<w:p");
    }
    if start < 4 {
        return None;
    }
    let mut i: usize = start - 4;
    loop
        invariant
            i + 4 <= start < t@.len(),
            "<w:p"@ == seq!['<', 'w', ':', 'p'],
            last_paragraph_from(t@, start as int, start - 4) == last_paragraph_from(t@, start as int, i as int),
        decreases i,
    {
        let hit = t[i] == '<' && t[i + 1] == 'w' && t[i + 2] == ':' && t[i + 3] == 'p' && (t[i + 4] == '>' || t[i
            + 4] == ' ');
        proof {
            let pre = t@.take(start as int);
            if hit {
                assert(pre.subrange(i as int, i + 4) =~= "<w:p"@);
            } else if paragraph_open_at(t@, start as int, i as int) {
                assert(pre.subrange(i as int, i + 4)[0] == t@[i as int]);
                assert(pre.subrange(i as int, i + 4)[1] == t@[i + 1]);
                assert(pre.subrange(i as int, i + 4)[2] == t@[i + 2]);
                assert(pre.subrange(i as int, i + 4)[3] == t@[i + 3]);
            }
        }
        if hit {
            return Some(i);
        }
        if i == 0 {
            assert(last_paragraph_from(t@, start as int, -1) is None);
            return None;
        }
        i = i - 1;
    }
}

/// The characters of the numbering properties of (`num_id`, `level`).
fn num_pr_chars(level: u8, num_id: u32) -> (res: Vec<char>)
    ensures
        res@ == num_pr_text(level, num_id),
{
    let mut out = String::new();
    append_str(&mut out, "<w:numPr><w:ilvl w:val=\"");
    append_decimal(&mut out, level as u64);
    append_str(&mut out, "\"/><w:numId w:val=\"");
    append_decimal(&mut out, num_id as u64);
    append_str(&mut out, "\"/></w:numPr>");
    chars_of(out.as_str())
}

/// `t[a..b]` followed by `extra`, appended to `out`.
fn push_range(out: &mut Vec<char>, t: &Vec<char>, a: usize, b: usize)
    requires
        a <= b <= t@.len(),
    ensures
        final(out)@ == old(out)@ + t@.subrange(a as int, b as int),
{
    let mut k = a;
    while k < b
        invariant
            a <= k <= b <= t@.len(),
            out@ =~= old(out)@ + t@.subrange(a as int, k as int),
        decreases b - k,
    {
        out.push(t[k]);
        k = k + 1;
    }
}

/// Replaces list marker `marker` in `t` by numbering properties on its
/// paragraph.
#[verifier::rlimit(80)]
#[verifier::spinoff_prover]
pub fn patch_marker(t: &Vec<char>, marker: &Marker) -> (res: Result<Vec<char>, String>)
    ensures
        match marker_patch(t@, marker.start as int, marker.end as int, marker.raw@, marker.num_id, marker.level) {
            Some(x) => res matches Ok(v) && v@ == x,
            None => res is Err,
        },
{
    let n = t.len();
    let start = marker.start;
    let end = marker.end;
    let raw = chars_of(marker.raw.as_str());
    let text_open = chars_of("<w:t");
    let text_close = chars_of("</w:t>");
    let para_close = chars_of("</w:p>");
    let num_pr_open = chars_of("<w:numPr");
    let ppr_close = chars_of("</w:pPr>");
    proof {
        reveal_strlit("<w:t");
        reveal_strlit("</w:t>");
        reveal_strlit("</w:p>");
        reveal_strlit("<w:numPr");
        reveal_strlit("</w:pPr>");
    }
    if !(start <= end && end <= n) || !crate::sheet_patch::range_equals(t, start, end, &raw) {
        return Err(message("DOC list marker moved unexpectedly"));
    }
    assert(text_open@ =~= crate::doc_comments::text_open_prefix());
    let ts = match crate::doc_comments::rfind_text_open(t, start) {
        Some(k) => k,
        None => {
            return Err(message("list marker is outside a w:t element"));
        },
    };
    assert(t@.subrange(end as int, n as int) =~= t@.skip(end as int));
    if find_in_range(t, text_close.as_slice(), ts, start).is_some() || find_in_range(
        t,
        text_close.as_slice(),
        end,
        n,
    ).is_none() {
        return Err(message("list marker is not contained by one w:t element"));
    }
    if start >= n {
        assert(last_paragraph_from(t@, start as int, start - 4) is None) by {
            assert(start == end);
            assert(find_from(t@.skip(end as int), "</w:t>"@, 0) is Some);
            crate::xls_biff::lemma_find_from(t@.skip(end as int), "</w:t>"@, 0);
        }
        return Err(message("list marker is outside a w:p element"));
    }
    let ps = match last_paragraph_open(t, start) {
        Some(k) => k,
        None => {
            return Err(message("list marker is outside a w:p element"));
        },
    };
    if find_in_range(t, para_close.as_slice(), ps, start).is_some() {
        return Err(message("list marker follows its paragraph end"));
    }
    let gt = ['>'];
    assert(gt@ =~= seq!['>']);
    assert(t@.subrange(ps as int, n as int) =~= t@.skip(ps as int));
    let open_end = match find_in_range(t, &gt, ps, n) {
        Some(k) => {
            proof {
                crate::xls_biff::lemma_find_from(t@.subrange(ps as int, n as int), seq!['>'], 0);
            }
            k + 1
        },
        None => {
            return Err(message("generated paragraph start tag is unterminated"));
        },
    };
    if open_end > start {
        return Err(message("generated paragraph start tag is unterminated"));
    }
    let pe = match find_in_range(t, para_close.as_slice(), end, n) {
        Some(k) => k,
        None => {
            return Err(message("generated list paragraph has no closing tag"));
        },
    };
    proof {
        crate::xls_biff::lemma_find_from(t@.skip(end as int), "</w:p>"@, 0);
    }
    if find_in_range(t, num_pr_open.as_slice(), ps, pe).is_some() {
        return Err(message("generated list paragraph already contains numPr"));
    }
    let np = num_pr_chars(marker.level, marker.num_id);
    let ghost removed = t@.take(start as int) + t@.skip(end as int);
    let at = last_in_range(t, &ppr_close, open_end, start);
    let mut out: Vec<char> = Vec::new();
    match at {
        Some(o) => {
            push_range(&mut out, t, 0, o);
            crate::doc_comments::push_all(&mut out, &np);
            push_range(&mut out, t, o, start);
            push_range(&mut out, t, end, n);
            assert(removed.take(o as int) =~= t@.subrange(0, o as int));
            assert(removed.skip(o as int) =~= t@.subrange(o as int, start as int) + t@.subrange(end as int, n as int));
        },
        None => {
            push_range(&mut out, t, 0, open_end);
            let head = chars_of("<w:pPr>");
            let tail = chars_of("</w:pPr>");
            crate::doc_comments::push_all(&mut out, &head);
            crate::doc_comments::push_all(&mut out, &np);
            crate::doc_comments::push_all(&mut out, &tail);
            push_range(&mut out, t, open_end, start);
            push_range(&mut out, t, end, n);
            assert(removed.take(open_end as int) =~= t@.subrange(0, open_end as int));
            assert(removed.skip(open_end as int) =~= t@.subrange(open_end as int, start as int) + t@.subrange(
                end as int,
                n as int,
            ));
        },
    }
    proof {
        let x = marker_patch(t@, start as int, end as int, marker.raw@, marker.num_id, marker.level);
        assert(x is Some);
        assert(out@ =~= x->Some_0);
    }
    Ok(out)
}

/// Whether list marker (`num_id`, `level`) names an existing list
/// instance whose definition has that level.
pub open spec fn marker_valid(lists: ListCollection, num_id: u32, level: u8) -> bool {
    let overrides = lists.spec_overrides();
    &&& 1 <= num_id
    &&& num_id - 1 < overrides.len()
    &&& match definition_from(lists.spec_definitions(), overrides[num_id - 1].lsid, 0) {
        Some(i) => level < lists.spec_definitions()[i].levels@.len(),
        None => false,
    }
}

/// Whether the markers `list` of `t` all have different text.
pub open spec fn markers_distinct(list: Seq<(int, int, u32, u8)>, t: Seq<char>) -> bool {
    forall|i: int, j: int|
        #![trigger list[i], list[j]]
        0 <= i < j < list.len() ==> t.subrange(list[i].0, list[i].1) != t.subrange(list[j].0, list[j].1)
}

/// `t` with the first `k` markers `list` of the original text `t0`
/// patched, the last one first.
pub open spec fn markers_patched(t: Seq<char>, t0: Seq<char>, list: Seq<(int, int, u32, u8)>, k: int) -> Option<
    Seq<char>,
>
    decreases k,
{
    if k <= 0 {
        Some(t)
    } else {
        let m = list[k - 1];
        match marker_patch(t, m.0, m.1, t0.subrange(m.0, m.1), m.2, m.3) {
            None => None,
            Some(x) => markers_patched(x, t0, list, k - 1),
        }
    }
}

/// The generated document part `d` (UTF-8) with each list marker replaced
/// by numbering properties on its paragraph, with the list instances the
/// markers use; unchanged without markers. `None` when a marker is
/// malformed or repeated, names a missing list, definition or level, cannot
/// be placed, or a marker remains.
pub open spec fn numbering_document_patch(d: Seq<u8>, lists: ListCollection) -> Option<(Seq<u8>, Set<u32>)> {
    if !vstd::utf8::valid_utf8(d) {
        None
    } else {
        let t = vstd::utf8::decode_utf8(d);
        match markers_from(t, 0) {
            None => None,
            Some(list) => if list.len() == 0 {
                Some((d, Set::empty()))
            } else if !markers_distinct(list, t) || !(forall|i: int|
                0 <= i < list.len() ==> marker_valid(lists, (#[trigger] list[i]).2, list[i].3)) {
                None
            } else {
                match markers_patched(t, t, list, list.len() as int) {
                    None => None,
                    Some(x) => if find_from(x, list_marker_prefix(), 0) is Some {
                        None
                    } else {
                        Some(
                            (
                                vstd::utf8::encode_utf8(x),
                                Set::new(|n: u32| exists|i: int| 0 <= i < list.len() && (#[trigger] list[i]).2 == n),
                            ),
                        )
                    },
                }
            },
        }
    }
}

/// Whether `a` and `b` hold the same characters.
fn chars_equal(a: &Vec<char>, b: &Vec<char>) -> (res: bool)
    ensures
        res == (a@ == b@),
{
    if a.len() != b.len() {
        return false;
    }
    let mut k: usize = 0;
    while k < a.len()
        invariant
            a@.len() == b@.len(),
            k <= a@.len(),
            a@.take(k as int) =~= b@.take(k as int),
        decreases a@.len() - k,
    {
        if a[k] != b[k] {
            return false;
        }
        assert(a@.take(k + 1) =~= a@.take(k as int).push(a@[k as int]));
        assert(b@.take(k + 1) =~= b@.take(k as int).push(b@[k as int]));
        k = k + 1;
    }
    assert(a@.take(k as int) =~= a@);
    assert(b@.take(k as int) =~= b@);
    true
}

/// Whether list marker (`num_id`, `level`) names an existing list level.
fn valid_marker(lists: &ListCollection, num_id: u32, level: u8) -> (res: bool)
    ensures
        res == marker_valid(*lists, num_id, level),
{
    let overrides = lists.overrides();
    if num_id == 0 || (num_id - 1) as usize >= overrides.len() {
        return false;
    }
    match lists.definition(overrides[(num_id - 1) as usize].lsid) {
        Some(definition) => (level as usize) < definition.levels.len(),
        None => false,
    }
}

/// Replaces the list markers of a generated `word/document.xml` by
/// numbering properties on their paragraphs, and gives the list instances
/// they use.
#[verifier::rlimit(80)]
#[verifier::spinoff_prover]
pub fn patch_document_xml(data: &[u8], lists: &ListCollection) -> (res: Result<(Vec<u8>, BTreeSet<u32>), String>)
    ensures
        match numbering_document_patch(data@, *lists) {
            Some((bytes, used)) => res matches Ok((v, u)) && v@ == bytes && u@ == used,
            None => res is Err,
        },
{
    let xml = match crate::text::utf8_string(data) {
        Some(text) => text,
        None => {
            return Err(message("generated word/document.xml is not UTF-8"));
        },
    };
    proof {
        vstd::utf8::encode_utf8_decode_utf8(xml@);
    }
    let markers = parse_markers(xml.as_str())?;
    let ghost list = markers_from(xml@, 0)->Some_0;
    let t = chars_of(xml.as_str());
    if markers.len() == 0 {
        let mut copy: Vec<u8> = Vec::new();
        let mut k: usize = 0;
        while k < data.len()
            invariant
                k <= data@.len(),
                copy@ =~= data@.take(k as int),
            decreases data@.len() - k,
        {
            copy.push(data[k]);
            k = k + 1;
        }
        assert(data@.take(data@.len() as int) =~= data@);
        let empty: BTreeSet<u32> = BTreeSet::new();
        assert(empty@ =~= Set::<u32>::empty());
        return Ok((copy, empty));
    }
    let mut used: BTreeSet<u32> = BTreeSet::new();
    let mut i: usize = 0;
    while i < markers.len()
        invariant
            i <= markers@.len(),
            markers_match(markers@, list, t@),
            t@ == xml@,
            vstd::utf8::valid_utf8(data@),
            t@ == vstd::utf8::decode_utf8(data@),
            markers_from(t@, 0) == Some(list),
            list.len() == markers@.len(),
            markers@.len() > 0,
            forall|p: int, q: int|
                #![trigger list[p], list[q]]
                0 <= p < q < i ==> t@.subrange(list[p].0, list[p].1) != t@.subrange(list[q].0, list[q].1),
            forall|p: int| 0 <= p < i ==> marker_valid(*lists, (#[trigger] list[p]).2, list[p].3),
            used@ =~= Set::new(|n: u32| exists|p: int| 0 <= p < i && (#[trigger] list[p]).2 == n),
        decreases markers@.len() - i,
    {
        let raw = chars_of(markers[i].raw.as_str());
        assert(markers@[i as int] == markers[i as int]);
        let mut j: usize = 0;
        while j < i
            invariant
                j <= i < markers@.len(),
                markers_match(markers@, list, t@),
                forall|p: int, q: int|
                    #![trigger list[p], list[q]]
                    0 <= p < q < i ==> t@.subrange(list[p].0, list[p].1) != t@.subrange(list[q].0, list[q].1),
                forall|p: int| 0 <= p < i ==> marker_valid(*lists, (#[trigger] list[p]).2, list[p].3),
                vstd::utf8::valid_utf8(data@),
                t@ == vstd::utf8::decode_utf8(data@),
                markers_from(t@, 0) == Some(list),
                list.len() == markers@.len(),
                markers@.len() > 0,
                raw@ == t@.subrange(list[i as int].0, list[i as int].1),
                forall|p: int|
                    0 <= p < j ==> t@.subrange((#[trigger] list[p]).0, list[p].1) != t@.subrange(
                        list[i as int].0,
                        list[i as int].1,
                    ),
            decreases i - j,
        {
            let other = chars_of(markers[j].raw.as_str());
            assert(markers@[j as int] == markers[j as int]);
            if chars_equal(&other, &raw) {
                assert(t@.subrange(list[j as int].0, list[j as int].1) == t@.subrange(list[i as int].0, list[i as int].1));
                assert(!markers_distinct(list, t@));
                return Err(message("duplicate DOC list projection marker"));
            }
            j = j + 1;
        }
        if !valid_marker(lists, markers[i].num_id, markers[i].level) {
            assert(!marker_valid(*lists, list[i as int].2, list[i as int].3));
            return Err(message("list marker references a missing list, definition or level"));
        }
        used.insert(markers[i].num_id);
        proof {
            assert forall|p: int, q: int|
                #![trigger list[p], list[q]]
                0 <= p < q < i + 1 implies t@.subrange(list[p].0, list[p].1) != t@.subrange(list[q].0, list[q].1) by {
                if q == i {
                    assert(t@.subrange((list[p]).0, list[p].1) != t@.subrange(list[i as int].0, list[i as int].1));
                }
            }
            assert(used@ =~= Set::new(|n: u32| exists|p: int| 0 <= p < i + 1 && (#[trigger] list[p]).2 == n)) by {
                assert forall|n: u32| used@.contains(n) implies exists|p: int| 0 <= p < i + 1 && (#[trigger] list[p]).2 == n by {
                    if n == list[i as int].2 {
                        assert(list[i as int].2 == n);
                    }
                }
            }
        }
        i = i + 1;
    }
    let mut current = t.clone();
    let mut k: usize = markers.len();
    assert(current@ == t@);
    while k > 0
        invariant
            k <= markers@.len(),
            markers_match(markers@, list, t@),
            markers_distinct(list, t@),
            forall|p: int| 0 <= p < list.len() ==> marker_valid(*lists, (#[trigger] list[p]).2, list[p].3),
            vstd::utf8::valid_utf8(data@),
            t@ == vstd::utf8::decode_utf8(data@),
            markers_from(t@, 0) == Some(list),
            list.len() == markers@.len(),
            markers@.len() > 0,
            markers_patched(t@, t@, list, list.len() as int) == markers_patched(current@, t@, list, k as int),
        decreases k,
    {
        let marker = &markers[k - 1];
        assert(markers@[k - 1] == markers[k - 1]);
        current = patch_marker(&current, marker)?;
        k = k - 1;
    }
    let prefix = chars_of("\u{F0000}DOCS_VIEWER_WASM_LIST_");
    let n = current.len();
    if find_in_range(&current, prefix.as_slice(), 0, n).is_some() {
        assert(current@.subrange(0, n as int) =~= current@);
        return Err(message("a DOC list projection marker remained in document.xml"));
    }
    assert(current@.subrange(0, n as int) =~= current@);
    let mut out = String::new();
    crate::text::append_chars(&mut out, &current);
    assert(out@ =~= current@);
    Ok((out.as_str().as_bytes_vec(), used))
}

/// The `w:ilvl` of level position `k`: `k` itself, or 8 past a byte.
pub open spec fn level_index_of(k: int) -> u8 {
    if 0 <= k <= 255 {
        k as u8
    } else {
        8
    }
}

/// The replacement formatting the first override item for level `k` from
/// `i` on carries, if any.
pub open spec fn level_replacement(items: Seq<ListLevelOverride>, k: u8, i: int) -> Option<ListLevel>
    decreases items.len() - i,
{
    if i < 0 || i >= items.len() {
        None
    } else if items[i].level == k {
        items[i].formatting
    } else {
        level_replacement(items, k, i + 1)
    }
}

/// The level a list instance uses at position `k` of its definition.
pub open spec fn chosen_level(list: ListOverride, def: ListDefinition, k: int) -> ListLevel {
    match level_replacement(list.levels@, level_index_of(k), 0) {
        Some(l) => l,
        None => def.levels@[k],
    }
}

/// The `<w:lvl>` elements of the first `k` levels of an instance.
pub open spec fn levels_text(list: ListOverride, def: ListDefinition, fonts: Seq<FontEntry>, k: int) -> Option<Seq<char>>
    decreases k,
{
    if k <= 0 {
        Some(seq![])
    } else {
        match levels_text(list, def, fonts, k - 1) {
            None => None,
            Some(p) => {
                let l = chosen_level(list, def, k - 1);
                if level_writable(l) {
                    Some(p + level_text(level_index_of(k - 1), l, fonts))
                } else {
                    None
                }
            },
        }
    }
}

/// The OOXML multi-level type of a list definition.
pub open spec fn multi_level_name(def: ListDefinition) -> Seq<char> {
    if def.simple {
        "singleLevel"@
    } else if def.hybrid {
        "hybridMultilevel"@
    } else {
        "multilevel"@
    }
}

/// The list instance and definition of `num_id`, when both exist.
pub open spec fn instance_of(lists: ListCollection, num_id: u32) -> Option<(ListOverride, ListDefinition)> {
    let overrides = lists.spec_overrides();
    if num_id < 1 || num_id - 1 >= overrides.len() {
        None
    } else {
        let list = overrides[num_id - 1];
        match definition_from(lists.spec_definitions(), list.lsid, 0) {
            Some(i) => Some((list, lists.spec_definitions()[i])),
            None => None,
        }
    }
}

/// The `<w:abstractNum>` element of `num_id`.
pub open spec fn abstract_num_text(lists: ListCollection, fonts: Seq<FontEntry>, num_id: u32) -> Option<Seq<char>> {
    match instance_of(lists, num_id) {
        None => None,
        Some((list, def)) => match levels_text(list, def, fonts, def.levels@.len() as int) {
            None => None,
            Some(levels) => Some(abstract_head(num_id, def) + levels + "</w:abstractNum>"@),
        },
    }
}

/// The start overrides of the override items `items`.
pub open spec fn start_overrides_text(items: Seq<ListLevelOverride>) -> Seq<char>
    decreases items.len(),
{
    if items.len() == 0 {
        seq![]
    } else {
        start_overrides_text(items.drop_last()) + match items.last().start_at {
            Some(v) => "<w:lvlOverride w:ilvl=\""@ + decimal(items.last().level as nat) + "\"><w:startOverride w:val=\""@
                + decimal(v as nat) + "\"/></w:lvlOverride>"@,
            None => seq![],
        }
    }
}

/// The `<w:num>` element of `num_id`, for instance `list`.
pub open spec fn num_text(list: ListOverride, num_id: u32) -> Seq<char> {
    "<w:num w:numId=\""@ + decimal(num_id as nat) + "\"><w:abstractNumId w:val=\""@ + decimal((num_id - 1) as nat)
        + "\"/>"@ + start_overrides_text(list.levels@) + "</w:num>"@
}

/// The abstract numbering elements of the first `k` used instances.
pub open spec fn abstract_nums_text(lists: ListCollection, fonts: Seq<FontEntry>, used: Seq<u32>, k: int) -> Option<
    Seq<char>,
>
    decreases k,
{
    if k <= 0 {
        Some(seq![])
    } else {
        match abstract_nums_text(lists, fonts, used, k - 1) {
            None => None,
            Some(p) => match abstract_num_text(lists, fonts, used[k - 1]) {
                None => None,
                Some(x) => Some(p + x),
            },
        }
    }
}

/// The numbering instance elements of the first `k` used instances.
pub open spec fn nums_text(lists: ListCollection, used: Seq<u32>, k: int) -> Seq<char>
    decreases k,
{
    if k <= 0 {
        seq![]
    } else {
        nums_text(lists, used, k - 1) + num_text(lists.spec_overrides()[used[k - 1] - 1], used[k - 1])
    }
}

/// The header of a numbering part.
pub open spec fn numbering_header() -> Seq<char> {
    "<?xml version=\"1.0\" encoding=\"UTF-8\" standalone=\"yes\"?>\n<w:numbering xmlns:w=\"http://schemas.openxmlformats.org/wordprocessingml/2006/main\">"@
}

/// The numbering part for the instances `used`, in order: an abstract
/// numbering per instance, then the instances with their start overrides.
/// `None` when an instance, its definition or one of its levels is missing
/// or cannot be written.
pub open spec fn numbering_text(lists: ListCollection, fonts: Seq<FontEntry>, used: Seq<u32>) -> Option<Seq<char>> {
    match abstract_nums_text(lists, fonts, used, used.len() as int) {
        None => None,
        Some(a) => Some(numbering_header() + a + nums_text(lists, used, used.len() as int) + "</w:numbering>"@),
    }
}

/// The replacement formatting for level `k` of instance items `items`.
fn find_replacement(items: &Vec<ListLevelOverride>, k: u8) -> (res: Option<&ListLevel>)
    ensures
        match level_replacement(items@, k, 0) {
            Some(l) => res == Some(&l),
            None => res is None,
        },
{
    let mut i: usize = 0;
    while i < items.len()
        invariant
            i <= items@.len(),
            level_replacement(items@, k, 0) == level_replacement(items@, k, i as int),
        decreases items@.len() - i,
    {
        if items[i].level == k {
            return match &items[i].formatting {
                Some(l) => Some(l),
                None => None,
            };
        }
        i = i + 1;
    }
    None
}

/// Appends the `<w:lvl>` elements of instance `list` of `definition`.
#[verifier::rlimit(80)]
#[verifier::spinoff_prover]
fn append_levels(xml: &mut String, list: &ListOverride, definition: &ListDefinition, fonts: &FontTable) -> (res: Result<
    (),
    String,
>)
    ensures
        match levels_text(*list, *definition, fonts.spec_fonts(), definition.levels@.len() as int) {
            Some(x) => res is Ok && final(xml)@ == old(xml)@ + x,
            None => res is Err,
        },
{
    let ghost def = *definition;
    let ghost head = xml@;
    let mut k: usize = 0;
    while k < definition.levels.len()
        invariant
            k <= def.levels@.len(),
            def == *definition,
            levels_text(*list, def, fonts.spec_fonts(), k as int) == Some(xml@.subrange(head.len() as int, xml@.len() as int)),
            head == old(xml)@,
            head.len() <= xml@.len(),
            xml@.subrange(0, head.len() as int) == head,
        decreases def.levels@.len() - k,
    {
        let index: u8 = if k <= 255 {
            k as u8
        } else {
            8
        };
        let chosen = match find_replacement(&list.levels, index) {
            Some(l) => l,
            None => &definition.levels[k],
        };
        assert(*chosen == chosen_level(*list, def, k as int));
        let ghost before = xml@;
        match write_level(xml, index, chosen, fonts) {
            Ok(()) => {},
            Err(e) => {
                proof {
                    lemma_levels_none(*list, def, fonts.spec_fonts(), k as int + 1, def.levels@.len() as int);
                }
                return Err(e);
            },
        }
        assert(xml@.subrange(head.len() as int, xml@.len() as int) =~= before.subrange(head.len() as int, before.len() as int)
            + level_text(index, *chosen, fonts.spec_fonts()));
        assert(xml@.subrange(0, head.len() as int) =~= before.subrange(0, head.len() as int));
        k = k + 1;
    }
    assert(xml@ =~= head + xml@.subrange(head.len() as int, xml@.len() as int));
    Ok(())
}

/// A level that cannot be written stops all later ones.
proof fn lemma_levels_none(list: ListOverride, def: ListDefinition, fonts: Seq<FontEntry>, k: int, m: int)
    requires
        1 <= k <= m,
        levels_text(list, def, fonts, k) is None,
    ensures
        levels_text(list, def, fonts, m) is None,
    decreases m - k,
{
    if k < m {
        lemma_levels_none(list, def, fonts, k + 1, m);
    }
}

/// The start of the `<w:abstractNum>` element of `num_id`.
pub open spec fn abstract_head(num_id: u32, def: ListDefinition) -> Seq<char> {
    "<w:abstractNum w:abstractNumId=\""@ + decimal((num_id - 1) as nat) + "\"><w:multiLevelType w:val=\""@
        + multi_level_name(def) + "\"/>"@
}

/// Appends the start of the `<w:abstractNum>` element of `num_id`.
fn append_abstract_head(xml: &mut String, num_id: u32, definition: &ListDefinition)
    requires
        num_id >= 1,
    ensures
        final(xml)@ == old(xml)@ + abstract_head(num_id, *definition),
{
    let ghost start = xml@;
    append_str(xml, "<w:abstractNum w:abstractNumId=\"");
    append_decimal(xml, (num_id - 1) as u64);
    append_str(xml, "\"><w:multiLevelType w:val=\"");
    append_str(
        xml,
        if definition.simple {
            "singleLevel"
        } else if definition.hybrid {
            "hybridMultilevel"
        } else {
            "multilevel"
        },
    );
    append_str(xml, "\"/>");
    assert(xml@ =~= start + abstract_head(num_id, *definition));
}

/// Appends the `<w:abstractNum>` element of `num_id`.
#[verifier::rlimit(60)]
#[verifier::spinoff_prover]
fn append_abstract_num(xml: &mut String, lists: &ListCollection, fonts: &FontTable, num_id: u32) -> (res: Result<
    (),
    String,
>)
    ensures
        match abstract_num_text(*lists, fonts.spec_fonts(), num_id) {
            Some(x) => res is Ok && final(xml)@ == old(xml)@ + x,
            None => res is Err,
        },
{
    let overrides = lists.overrides();
    if num_id == 0 || (num_id - 1) as usize >= overrides.len() {
        return Err(message("missing list override"));
    }
    let list = &overrides[(num_id - 1) as usize];
    let definition = match lists.definition(list.lsid) {
        Some(d) => d,
        None => {
            return Err(message("missing list definition"));
        },
    };
    let ghost def = *definition;
    assert(instance_of(*lists, num_id) == Some((*list, def)));
    let ghost start = xml@;
    append_abstract_head(xml, num_id, definition);
    let ghost head = xml@;
    append_levels(xml, list, definition, fonts)?;
    let ghost levels = levels_text(*list, def, fonts.spec_fonts(), def.levels@.len() as int)->Some_0;
    append_str(xml, "</w:abstractNum>");
    assert(xml@ =~= head + levels + "</w:abstractNum>"@);
    assert(xml@ =~= start + abstract_num_text(*lists, fonts.spec_fonts(), num_id)->Some_0);
    Ok(())
}

/// Appends the `<w:num>` element of `num_id` for instance `list`.
#[verifier::rlimit(80)]
#[verifier::spinoff_prover]
fn append_num(xml: &mut String, list: &ListOverride, num_id: u32)
    requires
        num_id >= 1,
    ensures
        final(xml)@ == old(xml)@ + num_text(*list, num_id),
{
    let ghost start = xml@;
    append_str(xml, "<w:num w:numId=\"");
    append_decimal(xml, num_id as u64);
    append_str(xml, "\"><w:abstractNumId w:val=\"");
    append_decimal(xml, (num_id - 1) as u64);
    append_str(xml, "\"/>");
    let ghost head = xml@;
    let mut k: usize = 0;
    while k < list.levels.len()
        invariant
            k <= list.levels@.len(),
            xml@ =~= head + start_overrides_text(list.levels@.take(k as int)),
        decreases list.levels@.len() - k,
    {
        let item = &list.levels[k];
        assert(list.levels@.take(k + 1).drop_last() =~= list.levels@.take(k as int));
        assert(list.levels@.take(k + 1).last() == *item);
        if let Some(v) = item.start_at {
            append_str(xml, "<w:lvlOverride w:ilvl=\"");
            append_decimal(xml, item.level as u64);
            append_str(xml, "\"><w:startOverride w:val=\"");
            append_decimal(xml, v as u64);
            append_str(xml, "\"/></w:lvlOverride>");
        }
        k = k + 1;
    }
    assert(list.levels@.take(k as int) =~= list.levels@);
    append_str(xml, "</w:num>");
    assert(xml@ =~= start + num_text(*list, num_id));
}

/// The numbering part for the list instances `used`, in the order given
/// (ascending, as a set of them iterates).
#[verifier::rlimit(80)]
#[verifier::spinoff_prover]
pub fn numbering_xml(lists: &ListCollection, fonts: &FontTable, used: &[u32]) -> (res: Result<String, String>)
    ensures
        match numbering_text(*lists, fonts.spec_fonts(), used@) {
            Some(x) => res matches Ok(s) && s@ == x,
            None => res is Err,
        },
{
    let mut xml = String::new();
    append_str(
        &mut xml,
        "<?xml version=\"1.0\" encoding=\"UTF-8\" standalone=\"yes\"?>\n<w:numbering xmlns:w=\"http://schemas.openxmlformats.org/wordprocessingml/2006/main\">",
    );
    let ghost head = xml@;
    let mut k: usize = 0;
    while k < used.len()
        invariant
            k <= used@.len(),
            head == numbering_header(),
            head.len() <= xml@.len(),
            xml@.subrange(0, head.len() as int) == head,
            abstract_nums_text(*lists, fonts.spec_fonts(), used@, k as int) == Some(
                xml@.subrange(head.len() as int, xml@.len() as int),
            ),
            forall|i: int| 0 <= i < k ==> instance_of(*lists, #[trigger] used@[i]) is Some,
        decreases used@.len() - k,
    {
        let ghost before = xml@;
        match append_abstract_num(&mut xml, lists, fonts, used[k]) {
            Ok(()) => {},
            Err(e) => {
                proof {
                    lemma_abstract_nums_none(*lists, fonts.spec_fonts(), used@, k as int + 1, used@.len() as int);
                }
                return Err(e);
            },
        }
        assert(xml@.subrange(head.len() as int, xml@.len() as int) =~= before.subrange(head.len() as int, before.len() as int)
            + abstract_num_text(*lists, fonts.spec_fonts(), used@[k as int])->Some_0);
        assert(xml@.subrange(0, head.len() as int) =~= before.subrange(0, head.len() as int));
        k = k + 1;
    }
    assert(used@.take(k as int) =~= used@);
    let ghost abstracts = xml@.subrange(head.len() as int, xml@.len() as int);
    let ghost mid = xml@;
    assert(mid =~= head + abstracts);
    let overrides = lists.overrides();
    let mut k: usize = 0;
    while k < used.len()
        invariant
            k <= used@.len(),
            overrides@ == lists.spec_overrides(),
            forall|i: int| 0 <= i < used@.len() ==> instance_of(*lists, #[trigger] used@[i]) is Some,
            xml@ =~= mid + nums_text(*lists, used@, k as int),
        decreases used@.len() - k,
    {
        let num_id = used[k];
        assert(instance_of(*lists, used@[k as int]) is Some);
        append_num(&mut xml, &overrides[(num_id - 1) as usize], num_id);
        k = k + 1;
    }
    append_str(&mut xml, "</w:numbering>");
    Ok(xml)
}

/// An abstract numbering that cannot be written stops all later ones.
proof fn lemma_abstract_nums_none(lists: ListCollection, fonts: Seq<FontEntry>, used: Seq<u32>, k: int, m: int)
    requires
        1 <= k <= m,
        abstract_nums_text(lists, fonts, used, k) is None,
    ensures
        abstract_nums_text(lists, fonts, used, m) is None,
    decreases m - k,
{
    if k < m {
        lemma_abstract_nums_none(lists, fonts, used, k + 1, m);
    }
}

} // verus!
