//! WordprocessingML comment parts: the comment bodies and the replacement of
//! projection markers in the generated document part.

use vstd::prelude::*;

use crate::comments::{CommentCollection, SourceComment, projection_text};
use crate::document::WordBinaryDocument;
use crate::error::{DocError, message};
use crate::text::{
    append_chars, append_escaped, chars_of, decimal, decimal_text, decode_utf16_lossy, escaped, push_char, utf16_lossy,
    utf8_string,
};
use crate::xls_biff::{find_from, find_in_range, occurs_at};
use vstd::string::StrSliceExecFns;
use vstd::utf8::{decode_utf8, encode_utf8};

verus! {

/// A source comment ready to be written into a generated package.
#[derive(Debug)]
pub struct ProjectedComment {
    pub id: u32,
    pub author: String,
    pub initials: String,
    pub marker: String,
    pub range_markers: Option<(String, String)>,
    pub body: Vec<u16>,
}

/// The characters of a string literal.
fn literal(s: &str) -> (res: Vec<char>)
    ensures
        res@ == s@,
{
    chars_of(s)
}

/// `<w:t xml:space="preserve">`.
pub open spec fn preserved_text_open() -> Seq<char> {
    seq!['<', 'w', ':', 't', ' ', 'x', 'm', 'l', ':', 's', 'p', 'a', 'c', 'e', '=', '"', 'p', 'r', 'e', 's', 'e', 'r', 'v', 'e', '"', '>']
}

/// `</w:t>`.
pub open spec fn text_close() -> Seq<char> {
    seq!['<', '/', 'w', ':', 't', '>']
}

/// The run text for pending units: nothing when there are none, else a
/// preserved `w:t` holding them decoded and escaped.
pub open spec fn flushed(pending: Seq<u16>) -> Seq<char> {
    if pending.len() == 0 {
        seq![]
    } else {
        preserved_text_open() + escaped(utf16_lossy(pending)) + text_close()
    }
}

/// `<w:p><w:r>`.
pub open spec fn paragraph_open() -> Seq<char> {
    seq!['<', 'w', ':', 'p', '>', '<', 'w', ':', 'r', '>']
}

/// `</w:r></w:p>`.
pub open spec fn paragraph_close() -> Seq<char> {
    seq!['<', '/', 'w', ':', 'r', '>', '<', '/', 'w', ':', 'p', '>']
}

/// `<w:tab/>`.
pub open spec fn tab_element() -> Seq<char> {
    seq!['<', 'w', ':', 't', 'a', 'b', '/', '>']
}

/// `<w:br/>`.
pub open spec fn break_element() -> Seq<char> {
    seq!['<', 'w', ':', 'b', 'r', '/', '>']
}

/// Writing the first `k` units of a comment body: the finished paragraphs,
/// the open paragraph's written run content, and its pending text units.
/// A paragraph mark closes a paragraph, a tab or line break flushes the
/// pending text and writes its element, other control units are dropped.
pub open spec fn body_fold(body: Seq<u16>, k: int) -> (Seq<char>, Seq<char>, Seq<u16>)
    decreases k,
{
    if k <= 0 {
        (seq![], seq![], seq![])
    } else {
        let (done, current, pending) = body_fold(body, k - 1);
        let u = body[k - 1];
        if u == 0x000D {
            (done + paragraph_open() + current + flushed(pending) + paragraph_close(), seq![], seq![])
        } else if u == 0x0009 {
            (done, current + flushed(pending) + tab_element(), seq![])
        } else if u == 0x000B {
            (done, current + flushed(pending) + break_element(), seq![])
        } else if u >= 0x0020 {
            (done, current, pending.push(u))
        } else {
            (done, current, pending)
        }
    }
}

/// The paragraphs of a comment body.
pub open spec fn body_xml(body: Seq<u16>) -> Seq<char> {
    let (done, current, pending) = body_fold(body, body.len() as int);
    done + paragraph_open() + current + flushed(pending) + paragraph_close()
}

/// Appends the run text for pending units and clears them.
fn flush_comment_text(xml: &mut String, text: &mut Vec<u16>)
    ensures
        final(xml)@ == old(xml)@ + flushed(old(text)@),
        final(text)@ == Seq::<u16>::empty(),
{
    if text.len() == 0 {
        return;
    }
    let decoded = decode_utf16_lossy(text.as_slice());
    let open = literal("<w:t xml:space=\"preserve\">");
    let close = literal("</w:t>");
    proof {
        reveal_strlit("<w:t xml:space=\"preserve\">");
        reveal_strlit("</w:t>");
    }
    assert(open@ =~= preserved_text_open());
    assert(close@ =~= text_close());
    append_chars(xml, &open);
    append_escaped(xml, decoded.as_str());
    append_chars(xml, &close);
    text.clear();
}

/// Appends the paragraphs of a comment body.
fn append_comment_body(xml: &mut String, body: &[u16])
    ensures
        final(xml)@ == old(xml)@ + body_xml(body@),
{
    let paragraph_start = literal("<w:p><w:r>");
    let paragraph_end = literal("</w:r></w:p>");
    let tab = literal("<w:tab/>");
    let line_break = literal("<w:br/>");
    proof {
        reveal_strlit("<w:p><w:r>");
        reveal_strlit("</w:r></w:p>");
        reveal_strlit("<w:tab/>");
        reveal_strlit("<w:br/>");
    }
    assert(paragraph_start@ =~= paragraph_open());
    assert(paragraph_end@ =~= paragraph_close());
    assert(tab@ =~= tab_element());
    assert(line_break@ =~= break_element());
    let ghost prefix = xml@;
    let mut current = String::new();
    let mut pending: Vec<u16> = Vec::new();
    let mut k: usize = 0;
    while k < body.len()
        invariant
            k <= body@.len(),
            paragraph_start@ == paragraph_open(),
            paragraph_end@ == paragraph_close(),
            tab@ == tab_element(),
            line_break@ == break_element(),
            body_fold(body@, k as int) == (xml@.skip(prefix.len() as int), current@, pending@),
            xml@.len() >= prefix.len(),
            xml@.take(prefix.len() as int) == prefix,
        decreases body@.len() - k,
    {
        let unit = body[k];
        let ghost done = xml@.skip(prefix.len() as int);
        if unit == 0x000D {
            append_chars(xml, &paragraph_start);
            let current_chars = chars_of(current.as_str());
            append_chars(xml, &current_chars);
            flush_comment_text(xml, &mut pending);
            append_chars(xml, &paragraph_end);
            current = String::new();
        } else if unit == 0x0009 {
            flush_comment_text(&mut current, &mut pending);
            append_chars(&mut current, &tab);
        } else if unit == 0x000B {
            flush_comment_text(&mut current, &mut pending);
            append_chars(&mut current, &line_break);
        } else if unit >= 0x0020 {
            pending.push(unit);
        }
        proof {
            assert(xml@.take(prefix.len() as int) =~= prefix);
            if unit == 0x000D {
                assert(xml@.skip(prefix.len() as int) =~= done + paragraph_open() + body_fold(
                    body@,
                    k as int,
                ).1 + flushed(body_fold(body@, k as int).2) + paragraph_close());
            } else {
                assert(xml@.skip(prefix.len() as int) =~= done);
            }
        }
        k = k + 1;
    }
    let ghost done = xml@.skip(prefix.len() as int);
    append_chars(xml, &paragraph_start);
    let current_chars = chars_of(current.as_str());
    append_chars(xml, &current_chars);
    flush_comment_text(xml, &mut pending);
    append_chars(xml, &paragraph_end);
    assert(xml@ =~= prefix + body_xml(body@));
}

/// The attribute text `name="value"` preceded by a space.
pub open spec fn attribute_text(name: Seq<char>, value: Seq<char>) -> Seq<char> {
    seq![' '] + name + seq!['=', '"'] + value + seq!['"']
}

/// The `w:comment` element of one comment.
pub open spec fn comment_element(c: ProjectedComment) -> Seq<char> {
    seq!['<', 'w', ':', 'c', 'o', 'm', 'm', 'e', 'n', 't'] + attribute_text(seq!['w', ':', 'i', 'd'], decimal(c.id as nat))
        + attribute_text(seq!['w', ':', 'a', 'u', 't', 'h', 'o', 'r'], escaped(c.author@)) + attribute_text(
        seq!['w', ':', 'i', 'n', 'i', 't', 'i', 'a', 'l', 's'],
        escaped(c.initials@),
    ) + seq!['>'] + body_xml(c.body@) + seq!['<', '/', 'w', ':', 'c', 'o', 'm', 'm', 'e', 'n', 't', '>']
}

/// The elements of the first `k` comments.
pub open spec fn comment_elements(cs: Seq<ProjectedComment>, k: int) -> Seq<char>
    decreases k,
{
    if k <= 0 {
        seq![]
    } else {
        comment_elements(cs, k - 1) + comment_element(cs[k - 1])
    }
}

/// The XML declaration and `w:comments` start tag of a comments part.
pub open spec fn comments_header() -> Seq<char> {
    COMMENTS_HEADER@
}

/// The XML declaration and `w:comments` start tag of a comments part.
pub const COMMENTS_HEADER: &'static str = "<?xml version=\"1.0\" encoding=\"UTF-8\" standalone=\"yes\"?>\n<w:comments xmlns:w=\"http://schemas.openxmlformats.org/wordprocessingml/2006/main\">";

/// The comments part for `cs`.
pub open spec fn comments_part(cs: Seq<ProjectedComment>) -> Seq<char> {
    comments_header() + comment_elements(cs, cs.len() as int) + seq!['<', '/', 'w', ':', 'c', 'o', 'm', 'm', 'e', 'n', 't', 's', '>']
}

/// Appends `name="value"` preceded by a space, the value given as text.
fn append_attribute(out: &mut String, name: &str, value: &Vec<char>)
    ensures
        final(out)@ == old(out)@ + attribute_text(name@, value@),
{
    push_char(out, ' ');
    let name_chars = chars_of(name);
    append_chars(out, &name_chars);
    push_char(out, '=');
    push_char(out, '"');
    append_chars(out, value);
    push_char(out, '"');
}

/// Appends `name="value"` preceded by a space, the value escaped.
fn append_escaped_attribute(out: &mut String, name: &str, value: &str)
    ensures
        final(out)@ == old(out)@ + attribute_text(name@, escaped(value@)),
{
    push_char(out, ' ');
    let name_chars = chars_of(name);
    append_chars(out, &name_chars);
    push_char(out, '=');
    push_char(out, '"');
    append_escaped(out, value);
    push_char(out, '"');
}

/// Serializes the comments part.
pub fn comments_xml(comments: &[ProjectedComment]) -> (res: String)
    ensures
        res@ == comments_part(comments@),
{
    let mut xml = String::new();
    let header = chars_of(COMMENTS_HEADER);
    append_chars(&mut xml, &header);
    let open = literal("<w:comment");
    let close = literal("</w:comment>");
    let all_close = literal("</w:comments>");
    proof {
        reveal_strlit("<w:comment");
        reveal_strlit("</w:comment>");
        reveal_strlit("</w:comments>");
        reveal_strlit("w:id");
        reveal_strlit("w:author");
        reveal_strlit("w:initials");
    }
    let mut k: usize = 0;
    while k < comments.len()
        invariant
            k <= comments@.len(),
            open@ == seq!['<', 'w', ':', 'c', 'o', 'm', 'm', 'e', 'n', 't'],
            close@ == seq!['<', '/', 'w', ':', 'c', 'o', 'm', 'm', 'e', 'n', 't', '>'],
            xml@ == comments_header() + comment_elements(comments@, k as int),
        decreases comments@.len() - k,
    {
        let comment = &comments[k];
        let ghost before = xml@;
        append_chars(&mut xml, &open);
        let id_text = decimal_text(comment.id as u64);
        append_attribute(&mut xml, "w:id", &id_text);
        append_escaped_attribute(&mut xml, "w:author", comment.author.as_str());
        append_escaped_attribute(&mut xml, "w:initials", comment.initials.as_str());
        push_char(&mut xml, '>');
        append_comment_body(&mut xml, comment.body.as_slice());
        append_chars(&mut xml, &close);
        proof {
            reveal_strlit("w:id");
            reveal_strlit("w:author");
            reveal_strlit("w:initials");
        }
        assert("w:id"@ =~= seq!['w', ':', 'i', 'd']);
        assert("w:author"@ =~= seq!['w', ':', 'a', 'u', 't', 'h', 'o', 'r']);
        assert("w:initials"@ =~= seq!['w', ':', 'i', 'n', 'i', 't', 'i', 'a', 'l', 's']);
        assert(xml@ =~= before + comment_element(comments@[k as int]));
        k = k + 1;
    }
    append_chars(&mut xml, &all_close);
    assert(all_close@ =~= seq!['<', '/', 'w', ':', 'c', 'o', 'm', 'm', 'e', 'n', 't', 's', '>']);
    xml
}

/// The position of the only non-overlapping occurrence of `p` in `t`.
pub open spec fn unique_at(t: Seq<char>, p: Seq<char>) -> Option<int> {
    match find_from(t, p, 0) {
        Some(j) => if find_from(t, p, j + p.len()) is None {
            Some(j)
        } else {
            None
        },
        None => None,
    }
}

/// The last position at or before `i` where `p` occurs in `t`.
pub open spec fn last_from(t: Seq<char>, p: Seq<char>, i: int) -> Option<int>
    decreases i + 1,
{
    if i < 0 {
        None
    } else if occurs_at(t, p, i) {
        Some(i)
    } else {
        last_from(t, p, i - 1)
    }
}

/// `<w:t`.
pub open spec fn text_open_prefix() -> Seq<char> {
    seq!['<', 'w', ':', 't']
}

/// `t` with its only occurrence of `marker` replaced by `element`, closing
/// and reopening the `w:t` element that holds the marker. `None` when the
/// marker does not occur exactly once or is not inside one `w:t`.
pub open spec fn replace_marker(t: Seq<char>, marker: Seq<char>, element: Seq<char>) -> Option<Seq<char>> {
    match unique_at(t, marker) {
        None => None,
        Some(off) => match last_from(t.take(off), text_open_prefix(), off - 4) {
            None => None,
            Some(ts) => if find_from(t.subrange(ts, off), text_close(), 0) is Some || find_from(
                t.skip(off + marker.len()),
                text_close(),
                0,
            ) is None {
                None
            } else {
                Some(t.take(off) + text_close() + element + preserved_text_open() + t.skip(off + marker.len()))
            },
        },
    }
}

/// The element `<w:NAME w:id="id"/>`.
pub open spec fn id_element(name: Seq<char>, id: u32) -> Seq<char> {
    seq!['<', 'w', ':'] + name + attribute_text(seq!['w', ':', 'i', 'd'], decimal(id as nat)) + seq!['/', '>']
}

/// `commentRangeStart`.
pub open spec fn range_start_name() -> Seq<char> {
    seq!['c', 'o', 'm', 'm', 'e', 'n', 't', 'R', 'a', 'n', 'g', 'e', 'S', 't', 'a', 'r', 't']
}

/// `commentRangeEnd`.
pub open spec fn range_end_name() -> Seq<char> {
    seq!['c', 'o', 'm', 'm', 'e', 'n', 't', 'R', 'a', 'n', 'g', 'e', 'E', 'n', 'd']
}

/// `commentReference`.
pub open spec fn reference_name() -> Seq<char> {
    seq!['c', 'o', 'm', 'm', 'e', 'n', 't', 'R', 'e', 'f', 'e', 'r', 'e', 'n', 'c', 'e']
}

/// The markers of one comment replaced in `t`: its range start and end
/// when it has a range, then its reference.
pub open spec fn comment_markers_replaced(t: Seq<char>, c: ProjectedComment) -> Option<Seq<char>> {
    let ranged = match c.range_markers {
        Some((start, end)) => match replace_marker(t, start@, id_element(range_start_name(), c.id)) {
            None => None,
            Some(t1) => replace_marker(t1, end@, id_element(range_end_name(), c.id)),
        },
        None => Some(t),
    };
    match ranged {
        None => None,
        Some(t2) => replace_marker(t2, c.marker@, id_element(reference_name(), c.id)),
    }
}

/// The markers of every comment of `cs` replaced in `t`, in order.
pub open spec fn comment_patch(t: Seq<char>, cs: Seq<ProjectedComment>) -> Option<Seq<char>>
    decreases cs.len(),
{
    if cs.len() == 0 {
        Some(t)
    } else {
        match comment_markers_replaced(t, cs[0]) {
            None => None,
            Some(t1) => comment_patch(t1, cs.drop_first()),
        }
    }
}

/// `ZRIMO_COMMENT`, the stem a leftover marker is recognised by.
pub open spec fn leftover_marker() -> Seq<char> {
    seq!['Z', 'R', 'I', 'M', 'O', '_', 'C', 'O', 'M', 'M', 'E', 'N', 'T']
}

/// The patched document part for UTF-8 bytes `d`, or `None` on failure.
pub open spec fn comments_document_patch(d: Seq<u8>, cs: Seq<ProjectedComment>) -> Option<Seq<u8>> {
    if !vstd::utf8::valid_utf8(d) {
        None
    } else {
        match comment_patch(decode_utf8(d), cs) {
            None => None,
            Some(x) => if find_from(x, leftover_marker(), 0) is Some {
                None
            } else {
                Some(encode_utf8(x))
            },
        }
    }
}

/// The last `<w:t` that ends before position `offset` of `t`.
pub(crate) fn rfind_text_open(t: &Vec<char>, offset: usize) -> (res: Option<usize>)
    requires
        offset <= t@.len(),
    ensures
        match last_from(t@.take(offset as int), text_open_prefix(), offset - 4) {
            Some(j) => res matches Some(k) && k == j && k + 4 <= offset,
            None => res is None,
        },
{
    let ghost prefix = t@.take(offset as int);
    if offset < 4 {
        return None;
    }
    let mut i: usize = offset - 4;
    loop
        invariant
            i + 4 <= offset <= t@.len(),
            prefix == t@.take(offset as int),
            last_from(prefix, text_open_prefix(), offset - 4) == last_from(prefix, text_open_prefix(), i as int),
        decreases i,
    {
        let hit = t[i] == '<' && t[i + 1] == 'w' && t[i + 2] == ':' && t[i + 3] == 't';
        proof {
            if hit {
                assert(prefix.subrange(i as int, i + 4) =~= text_open_prefix());
            } else if prefix.subrange(i as int, i + 4) =~= text_open_prefix() {
                assert(prefix.subrange(i as int, i + 4)[0] == t@[i as int]);
                assert(prefix.subrange(i as int, i + 4)[1] == t@[i + 1]);
                assert(prefix.subrange(i as int, i + 4)[2] == t@[i + 2]);
                assert(prefix.subrange(i as int, i + 4)[3] == t@[i + 3]);
            }
        }
        if hit {
            return Some(i);
        }
        if i == 0 {
            assert(last_from(prefix, text_open_prefix(), -1) is None);
            return None;
        }
        i = i - 1;
    }
}

/// Replaces the only occurrence of `marker` in `t` by `element`.
fn replace_comment_marker(t: &Vec<char>, marker: &str, element: &Vec<char>) -> (res: Result<Vec<char>, String>)
    ensures
        match replace_marker(t@, marker@, element@) {
            Some(x) => res matches Ok(v) && v@ == x,
            None => res is Err,
        },
{
    let m = chars_of(marker);
    let n = t.len();
    proof {
        assert(t@.subrange(0, n as int) =~= t@);
    }
    let offset = match find_in_range(t, m.as_slice(), 0, n) {
        Some(k) => k,
        None => {
            return Err(message("comment projection marker does not occur in document.xml"));
        },
    };
    proof {
        crate::xls_biff::lemma_find_from(t@, m@, 0);
    }
    let after = offset + m.len();
    proof {
        lemma_find_from_shift(t@, m@, after as int);
    }
    if find_in_range(t, m.as_slice(), after, n).is_some() {
        return Err(message("comment projection marker occurs more than once in document.xml"));
    }
    let open = literal("<w:t");
    let close = literal("</w:t>");
    let reopen = literal("<w:t xml:space=\"preserve\">");
    proof {
        reveal_strlit("<w:t");
        reveal_strlit("</w:t>");
        reveal_strlit("<w:t xml:space=\"preserve\">");
    }
    assert(open@ =~= text_open_prefix());
    assert(close@ =~= text_close());
    assert(reopen@ =~= preserved_text_open());
    let text_start = match rfind_text_open(t, offset) {
        Some(k) => k,
        None => {
            return Err(message("comment projection marker is outside a w:t element"));
        },
    };
    if find_in_range(t, close.as_slice(), text_start, offset).is_some() {
        return Err(message("comment projection marker is not contained by one w:t element"));
    }
    proof {
        assert(t@.subrange(text_start as int, offset as int) =~= t@.subrange(text_start as int, offset as int));
        assert(t@.subrange(after as int, n as int) =~= t@.skip(after as int));
    }
    if find_in_range(t, close.as_slice(), after, n).is_none() {
        return Err(message("comment projection marker is not contained by one w:t element"));
    }
    let mut out: Vec<char> = Vec::new();
    let mut k: usize = 0;
    while k < offset
        invariant
            k <= offset <= n,
            n == t@.len(),
            out@ =~= t@.take(k as int),
        decreases offset - k,
    {
        out.push(t[k]);
        k = k + 1;
    }
    push_all(&mut out, &close);
    push_all(&mut out, element);
    push_all(&mut out, &reopen);
    let ghost head = out@;
    let mut k: usize = after;
    while k < n
        invariant
            after <= k <= n,
            n == t@.len(),
            out@ =~= head + t@.subrange(after as int, k as int),
        decreases n - k,
    {
        out.push(t[k]);
        k = k + 1;
    }
    Ok(out)
}

/// A match found from `j` on lies at or after `j`, and none from the end.
proof fn lemma_find_from_shift(t: Seq<char>, p: Seq<char>, j: int)
    requires
        0 <= j <= t.len(),
    ensures
        find_from(t.subrange(j, t.len() as int), p, 0) is None <==> find_from(t, p, j) is None,
{
    lemma_find_from_sub(t, p, j, 0);
}

/// Searching a suffix from `i` is searching the whole from `j + i`.
proof fn lemma_find_from_sub(t: Seq<char>, p: Seq<char>, j: int, i: int)
    requires
        0 <= j <= t.len(),
        0 <= i,
    ensures
        find_from(t.subrange(j, t.len() as int), p, i) is None <==> find_from(t, p, j + i) is None,
    decreases t.len() + 1 - (j + i),
{
    let s = t.subrange(j, t.len() as int);
    if i + p.len() <= s.len() {
        assert(occurs_at(s, p, i) <==> occurs_at(t, p, j + i)) by {
            assert(s.subrange(i, i + p.len()) =~= t.subrange(j + i, j + i + p.len()));
        }
        lemma_find_from_sub(t, p, j, i + 1);
    }
}

/// Appends all of `s` to `out`.
pub(crate) fn push_all(out: &mut Vec<char>, s: &Vec<char>)
    ensures
        final(out)@ == old(out)@ + s@,
{
    let mut k: usize = 0;
    while k < s.len()
        invariant
            k <= s@.len(),
            out@ =~= old(out)@ + s@.take(k as int),
        decreases s@.len() - k,
    {
        out.push(s[k]);
        k = k + 1;
    }
    assert(s@.take(s@.len() as int) =~= s@);
}

/// The characters `<w:NAME w:id="id"/>`.
fn id_element_text(name: &str, id: u32) -> (res: Vec<char>)
    ensures
        res@ == id_element(name@, id),
{
    let mut out: Vec<char> = Vec::new();
    out.push('<');
    out.push('w');
    out.push(':');
    let name_chars = chars_of(name);
    push_all(&mut out, &name_chars);
    out.push(' ');
    out.push('w');
    out.push(':');
    out.push('i');
    out.push('d');
    out.push('=');
    out.push('"');
    let digits = decimal_text(id as u64);
    push_all(&mut out, &digits);
    out.push('"');
    out.push('/');
    out.push('>');
    assert(out@ =~= id_element(name@, id));
    out
}

/// Replaces the projection markers of one comment.
fn replace_markers_of(t: &Vec<char>, comment: &ProjectedComment) -> (res: Result<Vec<char>, String>)
    ensures
        match comment_markers_replaced(t@, *comment) {
            Some(x) => res matches Ok(v) && v@ == x,
            None => res is Err,
        },
{
    proof {
        reveal_strlit("commentRangeStart");
        reveal_strlit("commentRangeEnd");
        reveal_strlit("commentReference");
    }
    let ranged = match &comment.range_markers {
        Some((start, end)) => {
            let start_element = id_element_text("commentRangeStart", comment.id);
            assert("commentRangeStart"@ =~= range_start_name());
            let t1 = replace_comment_marker(t, start.as_str(), &start_element)?;
            let end_element = id_element_text("commentRangeEnd", comment.id);
            assert("commentRangeEnd"@ =~= range_end_name());
            replace_comment_marker(&t1, end.as_str(), &end_element)?
        },
        None => t.clone(),
    };
    let reference_element = id_element_text("commentReference", comment.id);
    assert("commentReference"@ =~= reference_name());
    replace_comment_marker(&ranged, comment.marker.as_str(), &reference_element)
}

/// Replaces every comment's projection markers in a generated
/// `word/document.xml` with comment range and reference elements.
pub fn patch_document_xml(data: &[u8], comments: &[ProjectedComment]) -> (res: Result<Vec<u8>, String>)
    ensures
        match comments_document_patch(data@, comments@) {
            Some(bytes) => res matches Ok(v) && v@ == bytes,
            None => res is Err,
        },
{
    let xml = match utf8_string(data) {
        Some(text) => text,
        None => {
            return Err(message("generated word/document.xml is not UTF-8"));
        },
    };
    proof {
        vstd::utf8::encode_utf8_decode_utf8(xml@);
    }
    let mut t = chars_of(xml.as_str());
    let mut k: usize = 0;
    proof {
        assert(comments@.skip(0) =~= comments@);
    }
    while k < comments.len()
        invariant
            k <= comments@.len(),
            comment_patch(decode_utf8(data@), comments@) == comment_patch(t@, comments@.skip(k as int)),
        decreases comments@.len() - k,
    {
        assert(comments@.skip(k as int)[0] == comments@[k as int]);
        assert(comments@.skip(k as int).drop_first() =~= comments@.skip(k + 1));
        t = replace_markers_of(&t, &comments[k])?;
        k = k + 1;
    }
    assert(comments@.skip(k as int) =~= Seq::<ProjectedComment>::empty());
    let leftover = literal("ZRIMO_COMMENT");
    proof {
        reveal_strlit("ZRIMO_COMMENT");
    }
    assert(leftover@ =~= leftover_marker());
    let n = t.len();
    assert(t@.subrange(0, n as int) =~= t@);
    if find_in_range(&t, leftover.as_slice(), 0, n).is_some() {
        return Err(message("a DOC comment projection marker remained in document.xml"));
    }
    let mut out = String::new();
    append_chars(&mut out, &t);
    Ok(out.as_str().as_bytes_vec())
}

/// Whether comment `c` of `doc` can be projected: its body range, after the
/// reference marker and before the closing paragraph mark, decodes, and
/// its anchor range is complete or absent.
pub open spec fn comment_projectable(doc: WordBinaryDocument, c: SourceComment) -> bool {
    &&& c.cp_end > 0
    &&& c.cp_start < u32::MAX
    &&& doc.spec_decode((c.cp_start + 1) as u32, (c.cp_end - 1) as u32) is Ok
    &&& (c.anchor_cp_start is Some <==> c.anchor_cp_end is Some)
}

/// Whether `p` is comment `c` of `doc` ready for projection.
pub open spec fn projected_from(p: ProjectedComment, c: SourceComment, doc: WordBinaryDocument) -> bool {
    &&& p.id == c.comment_id
    &&& p.author@ == c.author@
    &&& p.initials@ == c.initials@
    &&& p.marker@ == projection_text("ZRIMO_COMMENT_"@, c.comment_id)
    &&& p.body@ == doc.spec_decode((c.cp_start + 1) as u32, (c.cp_end - 1) as u32)->Ok_0
    &&& match p.range_markers {
        Some((start, end)) => c.anchor_cp_start is Some && start@ == projection_text(
            "ZRIMO_COMMENT_RANGE_START_"@,
            c.comment_id,
        ) && end@ == projection_text("ZRIMO_COMMENT_RANGE_END_"@, c.comment_id),
        None => c.anchor_cp_start is None,
    }
}

/// The source comments of `document` ready for projection: body text
/// without the leading marker and trailing paragraph mark, the projection
/// markers, and the range markers of ranged comments.
pub fn project_comments(document: &WordBinaryDocument, comments: &CommentCollection) -> (res: Result<
    Vec<ProjectedComment>,
    String,
>)
    ensures
        res is Ok <==> forall|k: int|
            0 <= k < comments.spec_comments().len() ==> #[trigger] comment_projectable(*document, comments.spec_comments()[k]),
        res matches Ok(v) ==> v@.len() == comments.spec_comments().len() && forall|k: int|
            0 <= k < v@.len() ==> #[trigger] projected_from(v@[k], comments.spec_comments()[k], *document),
{
    let source = comments.comments();
    let mut projected: Vec<ProjectedComment> = Vec::new();
    let mut k: usize = 0;
    while k < source.len()
        invariant
            k <= source@.len(),
            source@ == comments.spec_comments(),
            projected@.len() == k,
            forall|j: int| 0 <= j < k ==> #[trigger] comment_projectable(*document, source@[j]),
            forall|j: int| 0 <= j < k ==> #[trigger] projected_from(projected@[j], source@[j], *document),
        decreases source@.len() - k,
    {
        let comment = &source[k];
        assert(source@[k as int] == *comment);
        if comment.cp_end == 0 {
            assert(!comment_projectable(*document, source@[k as int]));
            return Err(message("comment body end underflows"));
        }
        if comment.cp_start == u32::MAX {
            assert(!comment_projectable(*document, source@[k as int]));
            return Err(message("comment body start overflows"));
        }
        let body = match document.decode_range(comment.content_cp_start(), comment.cp_end - 1) {
            Ok(decoded) => decoded.utf16,
            Err(error) => {
                assert(!comment_projectable(*document, source@[k as int]));
                return Err(error.describe());
            },
        };
        let range_markers = match (comment.anchor_cp_start, comment.anchor_cp_end) {
            (Some(_), Some(_)) => Some(
                (comment.range_start_projection_marker(), comment.range_end_projection_marker()),
            ),
            (None, None) => None,
            _ => {
                assert(!comment_projectable(*document, source@[k as int]));
                return Err(message("comment has an incomplete source anchor range"));
            },
        };
        projected.push(
            ProjectedComment {
                id: comment.comment_id,
                author: comment.author.clone(),
                initials: comment.initials.clone(),
                marker: comment.projection_marker(),
                range_markers,
                body,
            },
        );
        k = k + 1;
    }
    Ok(projected)
}

} // verus!
