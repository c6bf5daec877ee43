//! Text through the standard library: UTF-16 and UTF-8 decoding, characters
//! and decimal digits.

use vstd::prelude::*;
use vstd::std_specs::iter::IteratorSpec;

verus! {

/// Whether `u` is a UTF-16 surrogate code unit.
pub open spec fn is_surrogate(u: u16) -> bool {
    0xD800 <= u <= 0xDFFF
}

/// Whether `units` start with a high surrogate followed by a low one.
pub open spec fn starts_with_pair(units: Seq<u16>) -> bool {
    units.len() >= 2 && 0xD800 <= units[0] <= 0xDBFF && 0xDC00 <= units[1] <= 0xDFFF
}

/// The supplementary-plane character that surrogate pair `hi`, `lo` encodes.
pub open spec fn pair_char(hi: u16, lo: u16) -> char {
    (0x10000 + (hi - 0xD800) * 0x400 + (lo - 0xDC00)) as char
}

/// UTF-16 decoding of `units` in which each unpaired surrogate becomes
/// U+FFFD: what `String::from_utf16_lossy` returns.
pub open spec fn utf16_lossy(units: Seq<u16>) -> Seq<char>
    decreases units.len(),
{
    if units.len() == 0 {
        seq![]
    } else if starts_with_pair(units) {
        seq![pair_char(units[0], units[1])] + utf16_lossy(units.skip(2))
    } else if is_surrogate(units[0]) {
        seq!['\u{FFFD}'] + utf16_lossy(units.skip(1))
    } else {
        seq![units[0] as char] + utf16_lossy(units.skip(1))
    }
}

/// UTF-16 decoding of `units`, or `None` when a surrogate is unpaired: what
/// `String::from_utf16` returns.
pub open spec fn utf16_strict(units: Seq<u16>) -> Option<Seq<char>>
    decreases units.len(),
{
    if units.len() == 0 {
        Some(seq![])
    } else if starts_with_pair(units) {
        match utf16_strict(units.skip(2)) {
            Some(rest) => Some(seq![pair_char(units[0], units[1])] + rest),
            None => None,
        }
    } else if is_surrogate(units[0]) {
        None
    } else {
        match utf16_strict(units.skip(1)) {
            Some(rest) => Some(seq![units[0] as char] + rest),
            None => None,
        }
    }
}

/// Whether `units` are well-formed UTF-16: every high surrogate is followed
/// by a low one and every low surrogate follows a high one.
pub closed spec fn valid_utf16(units: Seq<u16>) -> bool {
    &&& forall|i: int|
        0 <= i < units.len() && 0xD800 <= #[trigger] units[i] <= 0xDBFF ==> i + 1 < units.len()
            && 0xDC00 <= units[i + 1] <= 0xDFFF
    &&& forall|i: int|
        0 <= i < units.len() && 0xDC00 <= #[trigger] units[i] <= 0xDFFF ==> i > 0 && 0xD800
            <= units[i - 1] <= 0xDBFF
}

/// Calls `String::from_utf16_lossy`, which decodes UTF-16 and replaces each
/// unpaired surrogate by U+FFFD, as its documentation states.
#[verifier::external_body]
pub(crate) fn decode_utf16_lossy(units: &[u16]) -> (res: String)
    ensures
        res@ == utf16_lossy(units@),
{
    String::from_utf16_lossy(units)
}

/// Calls `String::from_utf16`; it fails exactly on ill-formed UTF-16 and
/// otherwise decodes it, as its documentation states.
#[verifier::external_body]
pub(crate) fn decode_utf16(units: &[u16]) -> (res: Option<String>)
    ensures
        res is Some <==> valid_utf16(units@),
        res is Some <==> utf16_strict(units@) is Some,
        res matches Some(text) ==> text@ == utf16_strict(units@).unwrap(),
{
    String::from_utf16(units).ok()
}

/// The character with scalar value `v`, or U+FFFD for a surrogate or a
/// value above U+10FFFF.
pub open spec fn scalar_char(v: u32) -> char {
    if (0xD800 <= v && v <= 0xDFFF) || v > 0x10FFFF {
        '\u{FFFD}'
    } else {
        v as char
    }
}

/// Calls `char::from_u32`, which gives the character of a Unicode scalar
/// value and `None` for a surrogate or a value above U+10FFFF.
#[verifier::external_body]
pub(crate) fn char_from_u32(v: u32) -> (res: Option<char>)
    ensures
        (0xD800 <= v && v <= 0xDFFF) || v > 0x10FFFF ==> res is None,
        !((0xD800 <= v && v <= 0xDFFF) || v > 0x10FFFF) ==> res == Some(v as char),
{
    char::from_u32(v)
}

/// Calls `String::push`, which appends one character.
#[verifier::external_body]
pub(crate) fn push_char(s: &mut String, c: char)
    ensures
        final(s)@ == old(s)@.push(c),
{
    s.push(c)
}

/// Calls `String::from_utf8`, which fails exactly when the bytes are not
/// UTF-8 and otherwise keeps them as the string's bytes.
#[verifier::external_body]
pub(crate) fn utf8_string(bytes: &[u8]) -> (res: Option<String>)
    ensures
        res is Some <==> vstd::utf8::valid_utf8(bytes@),
        res matches Some(text) ==> vstd::utf8::encode_utf8(text@) == bytes@,
{
    String::from_utf8(bytes.to_vec()).ok()
}

/// The characters of `s`, read once through its character iterator.
pub(crate) fn chars_of(s: &str) -> (res: Vec<char>)
    ensures
        res@ == s@,
{
    broadcast use vstd::string::axiom_spec_iter, vstd::string::next_postcondition;

    let mut it = s.chars();
    let mut out: Vec<char> = Vec::new();
    loop
        invariant
            out@ + IteratorSpec::remaining(&it) == s@,
        ensures
            out@ == s@,
        decreases s@.len() - out@.len(),
    {
        match it.next() {
            Some(c) => {
                out.push(c);
            },
            None => {
                assert(IteratorSpec::remaining(&it).len() == 0);
                assert(out@ =~= s@);
                break;
            },
        }
    }
    out
}

/// The decimal digits of `n`.
pub open spec fn decimal(n: nat) -> Seq<char>
    decreases n,
{
    if n < 10 {
        seq![(48 + n) as char]
    } else {
        decimal(n / 10) + seq![(48 + n % 10) as char]
    }
}

/// Appends the characters `s` to `out`.
pub(crate) fn append_chars(out: &mut String, s: &Vec<char>)
    ensures
        final(out)@ == old(out)@ + s@,
{
    let mut k: usize = 0;
    while k < s.len()
        invariant
            k <= s@.len(),
            out@ =~= old(out)@ + s@.take(k as int),
        decreases s@.len() - k,
    {
        push_char(out, s[k]);
        k = k + 1;
    }
    assert(s@.take(s@.len() as int) =~= s@);
}

/// The decimal text of `n`.
pub(crate) fn decimal_text(n: u64) -> (res: Vec<char>)
    ensures
        res@ == decimal(n as nat),
{
    let mut v = n;
    let mut suffix: Vec<char> = Vec::new();
    loop
        invariant
            decimal(n as nat) == decimal(v as nat) + suffix@,
        decreases v,
    {
        let digit = match char_from_u32((48 + v % 10) as u32) {
            Some(ch) => ch,
            None => '0',
        };
        assert(digit == (48 + v as nat % 10) as char);
        if v < 10 {
            suffix.insert(0, digit);
            assert(decimal(n as nat) =~= suffix@);
            return suffix;
        }
        let ghost old_suffix = suffix@;
        suffix.insert(0, digit);
        assert(suffix@ =~= seq![digit] + old_suffix);
        assert(decimal(v as nat) + old_suffix =~= decimal((v / 10) as nat) + suffix@);
        v = v / 10;
    }
}

/// The characters `t[a..b]` appended to `out`.
pub(crate) fn append_range(out: &mut String, t: &Vec<char>, a: usize, b: usize)
    requires
        a <= b <= t@.len(),
    ensures
        final(out)@ == old(out)@ + t@.subrange(a as int, b as int),
{
    let mut k = a;
    while k < b
        invariant
            a <= k <= b <= t@.len(),
            out@ =~= old(out)@ + t@.subrange(a as int, k as int),
        decreases b - k,
    {
        push_char(out, t[k]);
        k = k + 1;
    }
}

/// Appends the characters of `s` to `out`.
pub(crate) fn append_str(out: &mut String, s: &str)
    ensures
        final(out)@ == old(out)@ + s@,
{
    let chars = chars_of(s);
    append_chars(out, &chars);
}

/// Appends the decimal digits of `n` to `out`.
pub(crate) fn append_decimal(out: &mut String, n: u64)
    ensures
        final(out)@ == old(out)@ + decimal(n as nat),
{
    let digits = decimal_text(n);
    append_chars(out, &digits);
}

/// `c` escaped for XML text and attribute values.
pub open spec fn escape_char(c: char) -> Seq<char> {
    if c == '&' {
        seq!['&', 'a', 'm', 'p', ';']
    } else if c == '<' {
        seq!['&', 'l', 't', ';']
    } else if c == '>' {
        seq!['&', 'g', 't', ';']
    } else if c == '"' {
        seq!['&', 'q', 'u', 'o', 't', ';']
    } else if c == '\'' {
        seq!['&', 'a', 'p', 'o', 's', ';']
    } else {
        seq![c]
    }
}

/// `s` escaped for XML.
pub open spec fn escaped(s: Seq<char>) -> Seq<char>
    decreases s.len(),
{
    if s.len() == 0 {
        seq![]
    } else {
        escaped(s.drop_last()) + escape_char(s.last())
    }
}

/// Appends `s` escaped for XML.
pub(crate) fn append_escaped(out: &mut String, s: &str)
    ensures
        final(out)@ == old(out)@ + escaped(s@),
{
    let chars = chars_of(s);
    let mut k: usize = 0;
    while k < chars.len()
        invariant
            k <= chars@.len(),
            chars@ == s@,
            out@ =~= old(out)@ + escaped(chars@.take(k as int)),
        decreases chars@.len() - k,
    {
        let c = chars[k];
        let replacement = if c == '&' {
            chars_of("&amp;")
        } else if c == '<' {
            chars_of("&lt;")
        } else if c == '>' {
            chars_of("&gt;")
        } else if c == '"' {
            chars_of("&quot;")
        } else if c == '\'' {
            chars_of("&apos;")
        } else {
            let mut single: Vec<char> = Vec::new();
            single.push(c);
            single
        };
        proof {
            reveal_strlit("&amp;");
            reveal_strlit("&lt;");
            reveal_strlit("&gt;");
            reveal_strlit("&quot;");
            reveal_strlit("&apos;");
            assert(replacement@ =~= escape_char(c));
            assert(chars@.take(k + 1).drop_last() =~= chars@.take(k as int));
            assert(chars@.take(k + 1).last() == c);
        }
        append_chars(out, &replacement);
        k = k + 1;
    }
    assert(chars@.take(chars@.len() as int) =~= chars@);
}

} // verus!
