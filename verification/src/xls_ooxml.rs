//! SpreadsheetML text helpers: A1 cell references and tag attributes.

use vstd::prelude::*;

use crate::text::{append_chars, append_range, char_from_u32, chars_of, decimal, decimal_text, push_char};
use crate::xls_biff::{CellRange, find_chars, find_from, string_of};

verus! {

/// The letter of base-26 digit `d`.
pub open spec fn letter(d: int) -> char {
    (65 + d) as char
}

/// The column name of zero-based column `c`: `A`..`Z`, `AA`, ...
pub open spec fn col_name(c: nat) -> Seq<char>
    decreases c,
{
    if c < 26 {
        seq![letter(c as int)]
    } else {
        col_name((c / 26 - 1) as nat) + seq![letter(c as int % 26)]
    }
}

/// The A1 reference of zero-based `row` and `col`.
pub open spec fn cell_ref_text(row: u16, col: u16) -> Seq<char> {
    col_name(col as nat) + decimal(row as nat + 1)
}

/// The column name of zero-based column `col`.
pub fn column_name(col: u16) -> (res: String)
    ensures
        res@ == col_name(col as nat),
{
    let mut c = col;
    let mut suffix: Vec<char> = Vec::new();
    loop
        invariant
            col_name(col as nat) == col_name(c as nat) + suffix@,
        decreases c,
    {
        let letter_char = match char_from_u32(65 + (c % 26) as u32) {
            Some(ch) => ch,
            None => 'A',
        };
        assert(letter_char == letter(c as int % 26));
        if c < 26 {
            suffix.insert(0, letter_char);
            assert(col_name(col as nat) =~= suffix@);
            let mut name = String::new();
            append_chars(&mut name, &suffix);
            return name;
        }
        let ghost old_suffix = suffix@;
        suffix.insert(0, letter_char);
        assert(suffix@ =~= seq![letter_char] + old_suffix);
        assert(col_name(c as nat) + old_suffix =~= col_name((c / 26 - 1) as nat) + suffix@);
        c = c / 26 - 1;
    }
}

/// The A1 reference of a zero-based cell.
pub fn cell_ref(row: u16, col: u16) -> (res: String)
    ensures
        res@ == cell_ref_text(row, col),
{
    let mut text = column_name(col);
    let digits = decimal_text(row as u64 + 1);
    append_chars(&mut text, &digits);
    text
}

/// The A1 text of a range: one reference for a single cell, else `first:last`.
pub open spec fn range_ref_text(r: CellRange) -> Seq<char> {
    let first = cell_ref_text(r.first_row, r.first_col);
    let last = cell_ref_text(r.last_row, r.last_col);
    if first == last {
        first
    } else {
        first + seq![':'] + last
    }
}

/// The A1 text of a range.
pub fn range_ref(range: CellRange) -> (res: String)
    ensures
        res@ == range_ref_text(range),
{
    let first = cell_ref(range.first_row, range.first_col);
    let last = cell_ref(range.last_row, range.last_col);
    let first_chars = chars_of(first.as_str());
    let last_chars = chars_of(last.as_str());
    let mut same = first_chars.len() == last_chars.len();
    let mut k: usize = 0;
    while same && k < first_chars.len()
        invariant
            same ==> first_chars@.len() == last_chars@.len(),
            same ==> first_chars@.take(k as int) =~= last_chars@.take(k as int),
            !same ==> first_chars@ != last_chars@,
            k <= first_chars@.len(),
        decreases first_chars@.len() - k,
    {
        if first_chars[k] != last_chars[k] {
            same = false;
        } else {
            assert(first_chars@.take(k + 1) =~= first_chars@.take(k as int).push(first_chars@[k as int]));
            assert(last_chars@.take(k + 1) =~= last_chars@.take(k as int).push(last_chars@[k as int]));
        }
        k = k + 1;
    }
    if same {
        assert(first_chars@.take(first_chars@.len() as int) =~= first_chars@);
        assert(last_chars@.take(last_chars@.len() as int) =~= last_chars@);
        first
    } else {
        let mut text = first;
        push_char(&mut text, ':');
        append_chars(&mut text, &last_chars);
        text
    }
}

/// Whether `c` is an ASCII letter.
pub open spec fn is_ascii_alpha(c: char) -> bool {
    ('A' <= c && c <= 'Z') || ('a' <= c && c <= 'z')
}

/// Whether `c` is an ASCII digit.
pub open spec fn is_ascii_digit(c: char) -> bool {
    '0' <= c && c <= '9'
}

/// The base-26 digit an ASCII letter stands for, `A` (or `a`) being one.
pub open spec fn letter_value(c: char) -> int {
    if 'a' <= c && c <= 'z' {
        c as int - 96
    } else {
        c as int - 64
    }
}

/// The bijective base-26 value of a column name.
pub open spec fn alpha_value(s: Seq<char>) -> int
    decreases s.len(),
{
    if s.len() == 0 {
        0
    } else {
        alpha_value(s.drop_last()) * 26 + letter_value(s.last())
    }
}

/// The value of a run of decimal digits.
pub open spec fn decimal_value(s: Seq<char>) -> int
    decreases s.len(),
{
    if s.len() == 0 {
        0
    } else {
        decimal_value(s.drop_last()) * 10 + (s.last() as int - 48)
    }
}

/// The position of the first ASCII digit of `s` from `i`, or the length.
pub open spec fn first_digit(s: Seq<char>, i: int) -> int
    decreases s.len() - i,
{
    if i < 0 || i >= s.len() {
        s.len() as int
    } else if is_ascii_digit(s[i]) {
        i
    } else {
        first_digit(s, i + 1)
    }
}

/// The zero-based (row, column) of an A1 reference: letters then digits,
/// within the BIFF8 grid of 65,536 rows and 256 columns.
pub open spec fn parsed_cell_ref(s: Seq<char>) -> Option<(u16, u16)> {
    let split = first_digit(s, 0);
    if split >= s.len() || split == 0 {
        None
    } else {
        let letters = s.take(split);
        let digits = s.skip(split);
        if !(forall|i: int| 0 <= i < letters.len() ==> is_ascii_alpha(#[trigger] letters[i])) || !(forall|i: int|
            0 <= i < digits.len() ==> is_ascii_digit(#[trigger] digits[i])) {
            None
        } else {
            let col = alpha_value(letters);
            let row = decimal_value(digits);
            if col > u32::MAX || row > u32::MAX || col == 0 || col > 256 || row == 0 || row > 65536 {
                None
            } else {
                Some(((row - 1) as u16, (col - 1) as u16))
            }
        }
    }
}

/// Letter values grow with each letter appended.
proof fn lemma_alpha_grows(s: Seq<char>, k: int, j: int)
    requires
        0 <= k <= j <= s.len(),
        forall|i: int| 0 <= i < s.len() ==> is_ascii_alpha(#[trigger] s[i]),
    ensures
        alpha_value(s.take(k)) <= alpha_value(s.take(j)),
    decreases j - k,
{
    if k < j {
        lemma_alpha_grows(s, k, j - 1);
        assert(s.take(j).drop_last() =~= s.take(j - 1));
        assert(is_ascii_alpha(s[j - 1]));
        assert(alpha_value(s.take(j - 1)) >= 0) by {
            lemma_alpha_nonneg(s.take(j - 1));
        }
    }
}

/// Column-name values of letters are non-negative.
proof fn lemma_alpha_nonneg(s: Seq<char>)
    requires
        forall|i: int| 0 <= i < s.len() ==> is_ascii_alpha(#[trigger] s[i]),
    ensures
        alpha_value(s) >= 0,
    decreases s.len(),
{
    if s.len() > 0 {
        assert(is_ascii_alpha(s[s.len() - 1]));
        lemma_alpha_nonneg(s.drop_last());
    }
}

/// Decimal values grow with each digit appended.
pub(crate) proof fn lemma_decimal_grows(s: Seq<char>, k: int, j: int)
    requires
        0 <= k <= j <= s.len(),
        forall|i: int| 0 <= i < s.len() ==> is_ascii_digit(#[trigger] s[i]),
    ensures
        0 <= decimal_value(s.take(k)) <= decimal_value(s.take(j)),
    decreases j - k,
{
    if k < j {
        lemma_decimal_grows(s, k, j - 1);
        assert(s.take(j).drop_last() =~= s.take(j - 1));
        assert(is_ascii_digit(s[j - 1]));
    } else {
        lemma_decimal_nonneg(s.take(k));
    }
}

/// Decimal values of digits are non-negative.
proof fn lemma_decimal_nonneg(s: Seq<char>)
    requires
        forall|i: int| 0 <= i < s.len() ==> is_ascii_digit(#[trigger] s[i]),
    ensures
        decimal_value(s) >= 0,
    decreases s.len(),
{
    if s.len() > 0 {
        assert(is_ascii_digit(s[s.len() - 1]));
        lemma_decimal_nonneg(s.drop_last());
    }
}

/// Parses an A1 cell reference into a zero-based (row, column).
pub fn parse_cell_ref(value: &str) -> (res: Option<(u16, u16)>)
    ensures
        res == parsed_cell_ref(value@),
{
    let s = chars_of(value);
    let n = s.len();
    let mut split: usize = 0;
    while split < n && !('0' <= s[split] && s[split] <= '9')
        invariant
            n == s@.len(),
            split <= n,
            first_digit(s@, 0) == first_digit(s@, split as int),
        decreases n - split,
    {
        split = split + 1;
    }
    if split >= n || split == 0 {
        return None;
    }
    let ghost letters = s@.take(split as int);
    let ghost digits = s@.skip(split as int);
    let mut col: u32 = 0;
    let mut k: usize = 0;
    while k < split
        invariant
            n == s@.len(),
            s@ == value@,
            split as int == first_digit(s@, 0),
            0 < split < n,
            letters == s@.take(split as int),
            digits == s@.skip(split as int),
            k <= split,
            forall|i: int| 0 <= i < k ==> is_ascii_alpha(#[trigger] letters[i]),
            col == alpha_value(letters.take(k as int)),
        decreases split - k,
    {
        let c = s[k];
        if !(('A' <= c && c <= 'Z') || ('a' <= c && c <= 'z')) {
            assert(letters[k as int] == c);
            assert(!is_ascii_alpha(letters[k as int]));
            return None;
        }
        let v: u32 = if 'a' <= c && c <= 'z' {
            (c as u32) - 96
        } else {
            (c as u32) - 64
        };
        assert(letters.take(k + 1).drop_last() =~= letters.take(k as int));
        assert(letters.take(k + 1).last() == c);
        if col > (u32::MAX - v) / 26 {
            proof {
                if forall|i: int| 0 <= i < letters.len() ==> is_ascii_alpha(#[trigger] letters[i]) {
                    lemma_alpha_grows(letters, k + 1, letters.len() as int);
                    assert(letters.take(letters.len() as int) =~= letters);
                }
            }
            return None;
        }
        col = col * 26 + v;
        k = k + 1;
    }
    assert(letters.take(split as int) =~= letters);
    let mut row: u32 = 0;
    let mut d: usize = split;
    while d < n
        invariant
            n == s@.len(),
            s@ == value@,
            split as int == first_digit(s@, 0),
            0 < split <= d <= n,
            0 < split < n,
            letters == s@.take(split as int),
            digits == s@.skip(split as int),
            forall|i: int| 0 <= i < letters.len() ==> is_ascii_alpha(#[trigger] letters[i]),
            col as int == alpha_value(letters),
            forall|i: int| 0 <= i < d - split ==> is_ascii_digit(#[trigger] digits[i]),
            row == decimal_value(digits.take(d - split)),
        decreases n - d,
    {
        let c = s[d];
        if !('0' <= c && c <= '9') {
            assert(digits[d - split] == c);
            return None;
        }
        let v: u32 = (c as u32) - 48;
        assert(digits.take(d - split + 1).drop_last() =~= digits.take(d - split));
        assert(digits[d - split] == c);
        if row > (u32::MAX - v) / 10 {
            proof {
                if forall|i: int| 0 <= i < digits.len() ==> is_ascii_digit(#[trigger] digits[i]) {
                    lemma_decimal_grows(digits, d - split + 1, digits.len() as int);
                    assert(digits.take(digits.len() as int) =~= digits);
                }
            }
            return None;
        }
        row = row * 10 + v;
        d = d + 1;
    }
    assert(digits.take(n - split) =~= digits);
    if col == 0 || col > 256 || row == 0 || row > 65536 {
        return None;
    }
    Some(((row - 1) as u16, (col - 1) as u16))
}

/// Column names are upper-case letters worth one more than the column.
proof fn lemma_col_name(c: nat)
    ensures
        col_name(c).len() >= 1,
        forall|i: int| 0 <= i < col_name(c).len() ==> 'A' <= #[trigger] col_name(c)[i] && col_name(c)[i] <= 'Z',
        alpha_value(col_name(c)) == c + 1,
    decreases c,
{
    let r = c as int % 26;
    assert((letter(r) as int) == 65 + r);
    assert(letter_value(letter(r)) == r + 1);
    assert(alpha_value(Seq::<char>::empty()) == 0);
    if c < 26 {
        assert(col_name(c).drop_last() =~= Seq::<char>::empty());
        assert(alpha_value(col_name(c)) == alpha_value(col_name(c).drop_last()) * 26 + letter_value(col_name(c).last()));
    } else {
        let q = (c / 26 - 1) as nat;
        lemma_col_name(q);
        assert(col_name(c).drop_last() =~= col_name(q));
        assert(col_name(c).last() == letter(r));
        assert(c == 26 * (c / 26) + r);
        assert(alpha_value(col_name(c)) == alpha_value(col_name(c).drop_last()) * 26 + letter_value(col_name(c).last()));
    }
}

/// Decimal texts are digits worth the number.
proof fn lemma_decimal(n: nat)
    ensures
        decimal(n).len() >= 1,
        forall|i: int| 0 <= i < decimal(n).len() ==> is_ascii_digit(#[trigger] decimal(n)[i]),
        decimal_value(decimal(n)) == n,
    decreases n,
{
    let r = n % 10;
    assert((((48 + r) as char) as int) == 48 + r);
    assert(decimal_value(Seq::<char>::empty()) == 0);
    if n < 10 {
        assert(decimal(n).drop_last() =~= Seq::<char>::empty());
        assert(decimal_value(decimal(n)) == decimal_value(decimal(n).drop_last()) * 10 + (decimal(n).last() as int - 48));
    } else {
        lemma_decimal(n / 10);
        assert(decimal(n).drop_last() =~= decimal(n / 10));
        assert(n == 10 * (n / 10) + r);
        assert(decimal_value(decimal(n)) == decimal_value(decimal(n).drop_last()) * 10 + (decimal(n).last() as int - 48));
    }
}

/// The first digit of letters followed by digits is where the digits start.
proof fn lemma_first_digit_after_letters(letters: Seq<char>, digits: Seq<char>, i: int)
    requires
        0 <= i <= letters.len(),
        digits.len() >= 1,
        forall|k: int| 0 <= k < letters.len() ==> 'A' <= #[trigger] letters[k] && letters[k] <= 'Z',
        forall|k: int| 0 <= k < digits.len() ==> is_ascii_digit(#[trigger] digits[k]),
    ensures
        first_digit(letters + digits, i) == letters.len(),
    decreases letters.len() - i,
{
    let s = letters + digits;
    if i < letters.len() {
        assert(s[i] == letters[i]);
        lemma_first_digit_after_letters(letters, digits, i + 1);
    } else {
        assert(s[i] == digits[0]);
    }
}

/// Printing a cell reference and parsing it back gives the cell again, for
/// every row and every column of the BIFF8 grid.
pub proof fn lemma_cell_ref_round_trip(row: u16, col: u16)
    requires
        col < 256,
    ensures
        parsed_cell_ref(cell_ref_text(row, col)) == Some((row, col)),
{
    let letters = col_name(col as nat);
    let digits = decimal(row as nat + 1);
    lemma_col_name(col as nat);
    lemma_decimal(row as nat + 1);
    let s = letters + digits;
    lemma_first_digit_after_letters(letters, digits, 0);
    assert(s.take(letters.len() as int) =~= letters);
    assert(s.skip(letters.len() as int) =~= digits);
    assert forall|i: int| 0 <= i < letters.len() implies is_ascii_alpha(#[trigger] letters[i]) by {
        assert('A' <= letters[i] && letters[i] <= 'Z');
    }
    assert(letters.len() < s.len());
}

/// Two cells have the same A1 reference only when they are the same cell,
/// for every row and column.
pub proof fn lemma_cell_ref_injective(r1: u16, c1: u16, r2: u16, c2: u16)
    ensures
        cell_ref_text(r1, c1) == cell_ref_text(r2, c2) ==> r1 == r2 && c1 == c2,
{
    if cell_ref_text(r1, c1) == cell_ref_text(r2, c2) {
        let l1 = col_name(c1 as nat);
        let d1 = decimal(r1 as nat + 1);
        let l2 = col_name(c2 as nat);
        let d2 = decimal(r2 as nat + 1);
        lemma_col_name(c1 as nat);
        lemma_col_name(c2 as nat);
        lemma_decimal(r1 as nat + 1);
        lemma_decimal(r2 as nat + 1);
        let s = l1 + d1;
        assert(s == l2 + d2);
        lemma_first_digit_after_letters(l1, d1, 0);
        lemma_first_digit_after_letters(l2, d2, 0);
        assert(l1.len() == l2.len());
        assert(l1 =~= s.take(l1.len() as int));
        assert(l2 =~= (l2 + d2).take(l2.len() as int));
        assert(d1 =~= s.skip(l1.len() as int));
        assert(d2 =~= (l2 + d2).skip(l2.len() as int));
        assert(l1 == l2);
        assert(d1 == d2);
    }
}

/// The A1 text of a range is the reference of its single cell when its
/// first and last cells are the same cell, and otherwise the first cell's
/// reference, a colon, and the last cell's: a range that spans more than
/// one row or more than one column keeps both ends.
pub proof fn lemma_range_ref_text(r: CellRange)
    ensures
        (r.first_row == r.last_row && r.first_col == r.last_col) ==> range_ref_text(r) == cell_ref_text(
            r.first_row,
            r.first_col,
        ),
        (r.first_row != r.last_row || r.first_col != r.last_col) ==> range_ref_text(r) == cell_ref_text(
            r.first_row,
            r.first_col,
        ) + seq![':'] + cell_ref_text(r.last_row, r.last_col),
{
    lemma_cell_ref_injective(r.first_row, r.first_col, r.last_row, r.last_col);
}

/// The text ` name="` that starts attribute `name` in a tag.
pub open spec fn attr_needle(name: Seq<char>) -> Seq<char> {
    seq![' '] + name + seq!['=', '"']
}

/// The last position before `k` holding `c`, or -1.
pub open spec fn last_index(t: Seq<char>, c: char, k: int) -> int
    decreases k,
{
    if k <= 0 {
        -1
    } else if t[k - 1] == c {
        k - 1
    } else {
        last_index(t, c, k - 1)
    }
}

/// Where a new attribute goes: before a closing `/>`, else before the last
/// `>`, else at the end.
pub open spec fn insertion_point(t: Seq<char>) -> int {
    if t.len() >= 2 && t[t.len() - 2] == '/' && t[t.len() - 1] == '>' {
        t.len() - 2
    } else if last_index(t, '>', t.len() as int) >= 0 {
        last_index(t, '>', t.len() as int)
    } else {
        t.len() as int
    }
}

/// Tag `t` with attribute `name` set to `value`: an existing quoted value is
/// replaced; otherwise the attribute is inserted at the insertion point.
pub open spec fn with_attribute(t: Seq<char>, name: Seq<char>, value: Seq<char>) -> Seq<char> {
    let needle = attr_needle(name);
    let replaced = match find_from(t, needle, 0) {
        Some(start) => {
            let value_start = start + needle.len();
            match find_from(t.subrange(value_start, t.len() as int), seq!['"'], 0) {
                Some(rel) => Some(t.subrange(0, value_start) + value + t.subrange(value_start + rel, t.len() as int)),
                None => None,
            }
        },
        None => None,
    };
    match replaced {
        Some(r) => r,
        None => {
            let i = insertion_point(t);
            t.subrange(0, i) + needle + value + seq!['"'] + t.subrange(i, t.len() as int)
        },
    }
}

/// Sets attribute `name` of an XML start tag to `value`.
pub fn set_attribute(tag: &str, name: &str, value: &str) -> (res: String)
    ensures
        res@ == with_attribute(tag@, name@, value@),
{
    let t = chars_of(tag);
    let name_chars = chars_of(name);
    let value_chars = chars_of(value);
    let n = t.len();
    let mut needle: Vec<char> = Vec::new();
    needle.push(' ');
    let mut k: usize = 0;
    while k < name_chars.len()
        invariant
            k <= name_chars@.len(),
            needle@ =~= seq![' '] + name_chars@.take(k as int),
        decreases name_chars@.len() - k,
    {
        needle.push(name_chars[k]);
        k = k + 1;
    }
    needle.push('=');
    needle.push('"');
    assert(name_chars@.take(name_chars@.len() as int) =~= name_chars@);
    assert(needle@ =~= attr_needle(name@));
    if let Some(start) = find_chars(&t, needle.as_slice()) {
        proof {
            crate::xls_biff::lemma_find_from(t@, needle@, 0);
        }
        let value_start = start + needle.len();
        let ghost rest = t@.subrange(value_start as int, n as int);
        let mut j = value_start;
        while j < n && t[j] != '"'
            invariant
                value_start <= j <= n,
                n == t@.len(),
                rest == t@.subrange(value_start as int, n as int),
                find_from(rest, seq!['"'], 0) == find_from(rest, seq!['"'], j - value_start),
            decreases n - j,
        {
            assert(!occurs_one(rest, j - value_start)) by {
                assert(rest[j - value_start] == t@[j as int]);
                if rest.subrange(j - value_start, j - value_start + 1) =~= seq!['"'] {
                    assert(rest.subrange(j - value_start, j - value_start + 1)[0] == rest[j - value_start]);
                }
            }
            j = j + 1;
        }
        if j < n {
            assert(rest.subrange(j - value_start, j - value_start + 1) =~= seq!['"']);
            let mut result = String::new();
            append_range(&mut result, &t, 0, value_start);
            append_chars(&mut result, &value_chars);
            append_range(&mut result, &t, j, n);
            return result;
        }
    }
    let insertion = if n >= 2 && t[n - 2] == '/' && t[n - 1] == '>' {
        n - 2
    } else {
        let mut k: usize = n;
        while k > 0 && t[k - 1] != '>'
            invariant
                k <= n,
                n == t@.len(),
                last_index(t@, '>', n as int) == last_index(t@, '>', k as int),
            decreases k,
        {
            k = k - 1;
        }
        if k > 0 {
            k - 1
        } else {
            n
        }
    };
    let mut result = String::new();
    append_range(&mut result, &t, 0, insertion);
    append_chars(&mut result, &needle);
    append_chars(&mut result, &value_chars);
    push_char(&mut result, '"');
    append_range(&mut result, &t, insertion, n);
    result
}

/// Whether `"` occurs in `rest` at `i`.
pub open spec fn occurs_one(rest: Seq<char>, i: int) -> bool {
    crate::xls_biff::occurs_at(rest, seq!['"'], i)
}

} // verus!
