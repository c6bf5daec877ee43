//! Source-backed DOC table layout properties written into generated
//! WordprocessingML: fixed table layout and row height rules.

use vstd::prelude::*;

use crate::error::message;
use crate::tables::{Table, TableCollection, TableRow};
use crate::text::{append_chars, append_range, chars_of, decimal, decimal_text, utf8_string};
use crate::xls_biff::{find_from, find_in_range};
use vstd::string::StrSliceExecFns;
use vstd::utf8::{decode_utf8, encode_utf8};

verus! {

/// How a source row height applies.
#[derive(Debug, Clone, Copy, PartialEq, Eq, Structural)]
pub enum RowHeightRule {
    AtLeast,
    Exact,
}

/// The height rule of one source row, in row order.
#[derive(Debug, Clone, Copy, PartialEq, Eq, Structural)]
pub struct RowHeightPatch {
    pub cp_start: u32,
    pub height_twips: u16,
    pub rule: RowHeightRule,
}

/// `<w:tblPr>`.
pub open spec fn tbl_pr_start() -> Seq<char> {
    seq!['<', 'w', ':', 't', 'b', 'l', 'P', 'r', '>']
}

/// `</w:tblPr>`.
pub open spec fn tbl_pr_end() -> Seq<char> {
    seq!['<', '/', 'w', ':', 't', 'b', 'l', 'P', 'r', '>']
}

/// `<w:tblLayout`.
pub open spec fn tbl_layout_tag() -> Seq<char> {
    seq!['<', 'w', ':', 't', 'b', 'l', 'L', 'a', 'y', 'o', 'u', 't']
}

/// `<w:tblLayout w:type="fixed"/>`.
pub open spec fn fixed_layout() -> Seq<char> {
    tbl_layout_tag() + seq![' ', 'w', ':', 't', 'y', 'p', 'e', '=', '"', 'f', 'i', 'x', 'e', 'd', '"', '/', '>']
}

/// `<w:trHeight `.
pub open spec fn tr_height_tag() -> Seq<char> {
    seq!['<', 'w', ':', 't', 'r', 'H', 'e', 'i', 'g', 'h', 't', ' ']
}

/// `/>`.
pub open spec fn empty_close() -> Seq<char> {
    seq!['/', '>']
}

/// `w:hRule=`.
pub open spec fn h_rule_name() -> Seq<char> {
    seq!['w', ':', 'h', 'R', 'u', 'l', 'e', '=']
}

/// `w:val="h"` for height `h`.
pub open spec fn height_value(h: u16) -> Seq<char> {
    seq!['w', ':', 'v', 'a', 'l', '=', '"'] + decimal(h as nat) + seq!['"']
}

/// ` w:hRule="exact"` or ` w:hRule="atLeast"`.
pub open spec fn rule_attribute(rule: RowHeightRule) -> Seq<char> {
    seq![' '] + h_rule_name() + seq!['"'] + match rule {
        RowHeightRule::Exact => seq!['e', 'x', 'a', 'c', 't'],
        RowHeightRule::AtLeast => seq!['a', 't', 'L', 'e', 'a', 's', 't'],
    } + seq!['"']
}

/// `x` with one table layout decision per `<w:tblPr>` in order: a fixed
/// layout element closes the properties of each fixed table. `None` when the
/// tables and decisions differ in number, a property block is unclosed, or
/// one already has a layout.
pub open spec fn layout_patch(x: Seq<char>, fixed: Seq<bool>) -> Option<Seq<char>>
    decreases fixed.len(),
{
    match find_from(x, tbl_pr_start(), 0) {
        None => if fixed.len() == 0 {
            Some(x)
        } else {
            None
        },
        Some(start) => if fixed.len() == 0 {
            None
        } else {
            let after = start + tbl_pr_start().len();
            match find_from(x.subrange(after, x.len() as int), tbl_pr_end(), 0) {
                None => None,
                Some(rel) => {
                    let end = after + rel;
                    if find_from(x.subrange(after, end), tbl_layout_tag(), 0) is Some {
                        None
                    } else {
                        match layout_patch(x.subrange(end, x.len() as int), fixed.drop_first()) {
                            None => None,
                            Some(rest) => Some(
                                x.subrange(0, end) + (if fixed[0] {
                                    fixed_layout()
                                } else {
                                    seq![]
                                }) + rest,
                            ),
                        }
                    }
                },
            }
        },
    }
}

/// `x` with one height rule per `<w:trHeight .../>` in order: each element
/// must hold the source height and no rule yet. `None` when rows and rules
/// differ in number or an element does not match.
pub open spec fn height_patch(x: Seq<char>, hs: Seq<RowHeightPatch>) -> Option<Seq<char>>
    decreases hs.len(),
{
    match find_from(x, tr_height_tag(), 0) {
        None => if hs.len() == 0 {
            Some(x)
        } else {
            None
        },
        Some(start) => if hs.len() == 0 {
            None
        } else {
            match find_from(x.subrange(start, x.len() as int), empty_close(), 0) {
                None => None,
                Some(rel) => {
                    let end = start + rel + 2;
                    let element = x.subrange(start, end);
                    if find_from(element, height_value(hs[0].height_twips), 0) is None || find_from(
                        element,
                        h_rule_name(),
                        0,
                    ) is Some {
                        None
                    } else {
                        match height_patch(x.subrange(end, x.len() as int), hs.drop_first()) {
                            None => None,
                            Some(rest) => Some(
                                x.subrange(0, end - 2) + rule_attribute(hs[0].rule) + x.subrange(end - 2, end) + rest,
                            ),
                        }
                    }
                },
            }
        },
    }
}

/// The patched document part for UTF-8 bytes `d`, or `None` on failure.
pub open spec fn document_patch(d: Seq<u8>, fixed: Seq<bool>, hs: Seq<RowHeightPatch>) -> Option<Seq<u8>> {
    if !vstd::utf8::valid_utf8(d) {
        None
    } else {
        match layout_patch(decode_utf8(d), fixed) {
            None => None,
            Some(laid_out) => match height_patch(laid_out, hs) {
                None => None,
                Some(text) => Some(encode_utf8(text)),
            },
        }
    }
}

/// The characters of a string literal.
fn literal(s: &str) -> (res: Vec<char>)
    ensures
        res@ == s@,
{
    chars_of(s)
}

/// Adds fixed layouts to the table properties of `t`.
fn patch_layouts(t: &Vec<char>, fixed: &[bool]) -> (res: Result<String, String>)
    ensures
        match layout_patch(t@, fixed@) {
            Some(x) => res matches Ok(s) && s@ == x,
            None => res is Err,
        },
{
    let start_tag = literal("<w:tblPr>");
    let end_tag = literal("</w:tblPr>");
    let layout_tag = literal("<w:tblLayout");
    let fixed_text = literal("<w:tblLayout w:type=\"fixed\"/>");
    proof {
        reveal_strlit("<w:tblPr>");
        reveal_strlit("</w:tblPr>");
        reveal_strlit("<w:tblLayout");
        reveal_strlit("<w:tblLayout w:type=\"fixed\"/>");
    }
    assert(start_tag@ =~= tbl_pr_start());
    assert(end_tag@ =~= tbl_pr_end());
    assert(layout_tag@ =~= tbl_layout_tag());
    assert(fixed_text@ =~= fixed_layout());
    let n = t.len();
    let mut out = String::new();
    let mut pos: usize = 0;
    let mut index: usize = 0;
    proof {
        assert(t@.subrange(0, n as int) =~= t@);
        assert(fixed@.skip(0) =~= fixed@);
        if layout_patch(t@, fixed@) is Some {
            assert(out@ + layout_patch(t@, fixed@)->Some_0 =~= layout_patch(t@, fixed@)->Some_0);
        }
    }
    while index < fixed.len()
        invariant
            n == t@.len(),
            pos <= n,
            index <= fixed@.len(),
            start_tag@ == tbl_pr_start(),
            end_tag@ == tbl_pr_end(),
            layout_tag@ == tbl_layout_tag(),
            fixed_text@ == fixed_layout(),
            layout_patch(t@, fixed@) == match layout_patch(t@.subrange(pos as int, n as int), fixed@.skip(index as int)) {
                None => None,
                Some(rest) => Some(out@ + rest),
            },
        decreases fixed@.len() - index,
    {
        let ghost x = t@.subrange(pos as int, n as int);
        assert(fixed@.skip(index as int).len() > 0);
        let start = match find_in_range(t, start_tag.as_slice(), pos, n) {
            Some(k) => k,
            None => {
                return Err(message("generated document.xml has fewer table properties than source tables"));
            },
        };
        proof {
            crate::xls_biff::lemma_find_from(x, tbl_pr_start(), 0);
        }
        let after = start + start_tag.len();
        proof {
            assert(x.subrange(after - pos, x.len() as int) =~= t@.subrange(after as int, n as int));
        }
        let end = match find_in_range(t, end_tag.as_slice(), after, n) {
            Some(k) => k,
            None => {
                return Err(message("generated table has unclosed w:tblPr"));
            },
        };
        proof {
            crate::xls_biff::lemma_find_from(t@.subrange(after as int, n as int), tbl_pr_end(), 0);
            assert(x.subrange(after - pos, end - pos) =~= t@.subrange(after as int, end as int));
            assert(x.subrange(end - pos, x.len() as int) =~= t@.subrange(end as int, n as int));
            assert(fixed@.skip(index as int).drop_first() =~= fixed@.skip(index + 1));
            assert(fixed@.skip(index as int)[0] == fixed@[index as int]);
        }
        if find_in_range(t, layout_tag.as_slice(), after, end).is_some() {
            return Err(message("generated table unexpectedly already contains w:tblLayout"));
        }
        let ghost before = out@;
        append_range(&mut out, t, pos, end);
        if fixed[index] {
            append_chars(&mut out, &fixed_text);
        }
        proof {
            assert(x.subrange(0, end - pos) =~= t@.subrange(pos as int, end as int));
            let rest = layout_patch(t@.subrange(end as int, n as int), fixed@.skip(index + 1));
            if rest is Some {
                assert(before + (x.subrange(0, end - pos) + (if fixed@[index as int] {
                    fixed_layout()
                } else {
                    seq![]
                }) + rest->Some_0) =~= out@ + rest->Some_0);
            }
        }
        pos = end;
        index = index + 1;
    }
    assert(fixed@.skip(index as int) =~= Seq::<bool>::empty());
    if find_in_range(t, start_tag.as_slice(), pos, n).is_some() {
        return Err(message("generated document.xml has more tables than the source table model"));
    }
    let ghost before = out@;
    append_range(&mut out, t, pos, n);
    Ok(out)
}

/// The characters `w:val="h"`.
fn height_value_text(h: u16) -> (res: Vec<char>)
    ensures
        res@ == height_value(h),
{
    let mut text = literal("w:val=\"");
    proof {
        reveal_strlit("w:val=\"");
    }
    assert(text@ =~= seq!['w', ':', 'v', 'a', 'l', '=', '"']);
    let ghost prefix = text@;
    let digits = decimal_text(h as u64);
    let mut k: usize = 0;
    while k < digits.len()
        invariant
            k <= digits@.len(),
            text@ =~= prefix + digits@.take(k as int),
        decreases digits@.len() - k,
    {
        text.push(digits[k]);
        k = k + 1;
    }
    text.push('"');
    assert(digits@.take(digits@.len() as int) =~= digits@);
    text
}

/// Adds a height rule to each row height element of `t`.
#[verifier::rlimit(80)]
#[verifier::spinoff_prover]
fn patch_row_heights(t: &Vec<char>, row_heights: &[RowHeightPatch]) -> (res: Result<String, String>)
    ensures
        match height_patch(t@, row_heights@) {
            Some(x) => res matches Ok(s) && s@ == x,
            None => res is Err,
        },
{
    let height_tag = literal("<w:trHeight ");
    let close = literal("/>");
    let rule_name = literal("w:hRule=");
    let exact = literal(" w:hRule=\"exact\"");
    let at_least = literal(" w:hRule=\"atLeast\"");
    proof {
        reveal_strlit("<w:trHeight ");
        reveal_strlit("/>");
        reveal_strlit("w:hRule=");
        reveal_strlit(" w:hRule=\"exact\"");
        reveal_strlit(" w:hRule=\"atLeast\"");
    }
    assert(height_tag@ =~= tr_height_tag());
    assert(close@ =~= empty_close());
    assert(rule_name@ =~= h_rule_name());
    assert(exact@ =~= rule_attribute(RowHeightRule::Exact));
    assert(at_least@ =~= rule_attribute(RowHeightRule::AtLeast));
    let n = t.len();
    let mut out = String::new();
    let mut pos: usize = 0;
    let mut index: usize = 0;
    proof {
        assert(t@.subrange(0, n as int) =~= t@);
        assert(row_heights@.skip(0) =~= row_heights@);
        if height_patch(t@, row_heights@) is Some {
            assert(out@ + height_patch(t@, row_heights@)->Some_0 =~= height_patch(t@, row_heights@)->Some_0);
        }
    }
    while index < row_heights.len()
        invariant
            n == t@.len(),
            pos <= n,
            index <= row_heights@.len(),
            height_tag@ == tr_height_tag(),
            close@ == empty_close(),
            rule_name@ == h_rule_name(),
            exact@ == rule_attribute(RowHeightRule::Exact),
            at_least@ == rule_attribute(RowHeightRule::AtLeast),
            height_patch(t@, row_heights@) == match height_patch(
                t@.subrange(pos as int, n as int),
                row_heights@.skip(index as int),
            ) {
                None => None,
                Some(rest) => Some(out@ + rest),
            },
        decreases row_heights@.len() - index,
    {
        let ghost x = t@.subrange(pos as int, n as int);
        let ghost hs = row_heights@.skip(index as int);
        assert(hs.len() > 0);
        assert(hs[0] == row_heights@[index as int]);
        assert(hs.drop_first() =~= row_heights@.skip(index + 1));
        let start = match find_in_range(t, height_tag.as_slice(), pos, n) {
            Some(k) => k,
            None => {
                return Err(message("generated document.xml has fewer row heights than source rows"));
            },
        };
        proof {
            crate::xls_biff::lemma_find_from(x, tr_height_tag(), 0);
            assert(x.subrange(start - pos, x.len() as int) =~= t@.subrange(start as int, n as int));
        }
        let close_at = match find_in_range(t, close.as_slice(), start, n) {
            Some(k) => k,
            None => {
                return Err(message("generated row height is unclosed"));
            },
        };
        proof {
            crate::xls_biff::lemma_find_from(t@.subrange(start as int, n as int), empty_close(), 0);
        }
        let end = close_at + 2;
        proof {
            assert(x.subrange(start - pos, end - pos) =~= t@.subrange(start as int, end as int));
        }
        let patch = row_heights[index];
        let value_text = height_value_text(patch.height_twips);
        if find_in_range(t, value_text.as_slice(), start, end).is_none() {
            return Err(message("generated row height does not match the source value"));
        }
        if find_in_range(t, rule_name.as_slice(), start, end).is_some() {
            return Err(message("generated row height unexpectedly already contains w:hRule"));
        }
        let ghost before = out@;
        append_range(&mut out, t, pos, end - 2);
        match patch.rule {
            RowHeightRule::Exact => append_chars(&mut out, &exact),
            RowHeightRule::AtLeast => append_chars(&mut out, &at_least),
        }
        append_range(&mut out, t, end - 2, end);
        proof {
            assert(x.subrange(0, end - 2 - pos) =~= t@.subrange(pos as int, end - 2));
            assert(x.subrange(end - 2 - pos, end - pos) =~= t@.subrange(end - 2, end as int));
            assert(x.subrange(end - pos, x.len() as int) =~= t@.subrange(end as int, n as int));
            let rest = height_patch(t@.subrange(end as int, n as int), row_heights@.skip(index + 1));
            if rest is Some {
                assert(before + (x.subrange(0, end - 2 - pos) + rule_attribute(patch.rule) + x.subrange(
                    end - 2 - pos,
                    end - pos,
                ) + rest->Some_0) =~= out@ + rest->Some_0);
            }
        }
        pos = end;
        index = index + 1;
    }
    assert(row_heights@.skip(index as int) =~= Seq::<RowHeightPatch>::empty());
    if find_in_range(t, height_tag.as_slice(), pos, n).is_some() {
        return Err(message("generated document.xml has more row heights than the source table model"));
    }
    append_range(&mut out, t, pos, n);
    Ok(out)
}

/// Writes source table layout into a generated `word/document.xml`: a fixed
/// layout for each source table without autofit, then a height rule for
/// each source row height, both in document order.
pub fn patch_document_xml(data: &[u8], fixed: &[bool], row_heights: &[RowHeightPatch]) -> (res: Result<
    Vec<u8>,
    String,
>)
    ensures
        match document_patch(data@, fixed@, row_heights@) {
            Some(bytes) => res matches Ok(v) && v@ == bytes,
            None => res is Err,
        },
{
    let xml = match utf8_string(data) {
        Some(text) => text,
        None => {
            return Err(message("generated word/document.xml is not UTF-8"));
        },
    };
    proof {
        vstd::utf8::encode_utf8_decode_utf8(xml@);
    }
    let t = chars_of(xml.as_str());
    let laid_out = patch_layouts(&t, fixed)?;
    let laid_out_chars = chars_of(laid_out.as_str());
    let patched = patch_row_heights(&laid_out_chars, row_heights)?;
    Ok(patched.as_str().as_bytes_vec())
}

/// The fixed-layout flag of each table: its first row does not autofit.
pub open spec fn fixed_layouts(ts: Seq<Table>) -> Seq<bool> {
    ts.map_values(|t: Table| t.rows@.len() > 0 && t.rows@[0].properties.autofit != Some(true))
}

/// The rows of the first `n` tables of `ts`, table by table.
pub open spec fn table_rows(ts: Seq<Table>, n: int) -> Seq<TableRow>
    decreases n,
{
    if n <= 0 {
        seq![]
    } else {
        table_rows(ts, n - 1) + ts[n - 1].rows@
    }
}

/// The height patch of row `r` with a non-zero source height: its absolute
/// value, applied exactly when negative or when the row's content fits it.
pub open spec fn row_patch(r: TableRow, h: i16, fits: bool) -> RowHeightPatch {
    RowHeightPatch {
        cp_start: r.cp_start,
        height_twips: (if h < 0 {
            -h
        } else {
            h as int
        }) as u16,
        rule: if h < 0 || fits {
            RowHeightRule::Exact
        } else {
            RowHeightRule::AtLeast
        },
    }
}

/// The height patches of the first `n` rows of `rows`, in row order; rows
/// without a height, or with height zero, give none.
pub open spec fn height_patches(rows: Seq<TableRow>, fits: Seq<bool>, n: int) -> Seq<RowHeightPatch>
    decreases n,
{
    if n <= 0 {
        seq![]
    } else {
        let prev = height_patches(rows, fits, n - 1);
        match rows[n - 1].properties.row_height_twips {
            Some(h) => if h != 0 {
                prev.push(row_patch(rows[n - 1], h, fits[n - 1]))
            } else {
                prev
            },
            None => prev,
        }
    }
}

/// The index before which `p` goes in `s`: the first patch from `i` on that
/// starts after it.
pub open spec fn patch_slot(s: Seq<RowHeightPatch>, key: u32, i: int) -> int
    decreases s.len() - i,
{
    if i >= s.len() {
        s.len() as int
    } else if s[i].cp_start > key {
        i
    } else {
        patch_slot(s, key, i + 1)
    }
}

/// The first `n` patches of `ps` ordered by start CP, each inserted after the
/// patches placed before it that start no later (so equal starts keep their order).
pub open spec fn sorted_patches(ps: Seq<RowHeightPatch>, n: int) -> Seq<RowHeightPatch>
    decreases n,
{
    if n <= 0 {
        seq![]
    } else {
        let s = sorted_patches(ps, n - 1);
        s.insert(patch_slot(s, ps[n - 1].cp_start, 0), ps[n - 1])
    }
}

/// `patch_slot` lies in `[i, len]` from any `i` in range.
proof fn lemma_patch_slot_range(s: Seq<RowHeightPatch>, key: u32, i: int)
    requires
        0 <= i <= s.len(),
    ensures
        i <= patch_slot(s, key, i) <= s.len(),
    decreases s.len() - i,
{
    if i < s.len() && s[i].cp_start <= key {
        lemma_patch_slot_range(s, key, i + 1);
    }
}

/// The table-layout patches of `tables` for a generated DOCX: the fixed-layout
/// flag of each table, and the height patch of each row with a non-zero
/// source height ordered by start CP. `fits[i]` tells whether the content of
/// the `i`-th row (table by table) fits its positive source height.
pub fn table_layout_patches(tables: &TableCollection, fits: &[bool]) -> (res: (Vec<bool>, Vec<RowHeightPatch>))
    requires
        fits@.len() == table_rows(tables.spec_tables(), tables.spec_tables().len() as int).len(),
    ensures
        res.0@ == fixed_layouts(tables.spec_tables()),
        ({
            let rows = table_rows(tables.spec_tables(), tables.spec_tables().len() as int);
            let ps = height_patches(rows, fits@, rows.len() as int);
            res.1@ == sorted_patches(ps, ps.len() as int)
        }),
{
    let ts = tables.tables();
    let mut fixed: Vec<bool> = Vec::new();
    let mut t: usize = 0;
    while t < ts.len()
        invariant
            ts@ == tables.spec_tables(),
            t <= ts@.len(),
            fixed@ =~= fixed_layouts(ts@).take(t as int),
        decreases ts@.len() - t,
    {
        let table = &ts[t];
        let flag = table.rows.len() > 0 && table.rows[0].properties.autofit != Some(true);
        fixed.push(flag);
        t = t + 1;
        assert(fixed@ =~= fixed_layouts(ts@).take(t as int));
    }
    assert(fixed_layouts(ts@).take(t as int) =~= fixed_layouts(ts@));
    let ghost rows = table_rows(ts@, ts@.len() as int);
    let fits_len = fits.len();
    let mut patches: Vec<RowHeightPatch> = Vec::new();
    let mut flat: usize = 0;
    let mut t: usize = 0;
    while t < ts.len()
        invariant
            ts@ == tables.spec_tables(),
            rows == table_rows(ts@, ts@.len() as int),
            fits@.len() == rows.len(),
            fits_len == fits@.len(),
            t <= ts@.len(),
            flat == table_rows(ts@, t as int).len(),
            patches@ == height_patches(rows, fits@, flat as int),
        decreases ts@.len() - t,
    {
        proof {
            lemma_rows_prefix(ts@, t as int + 1, ts@.len() as int);
        }
        let table = &ts[t];
        let mut r: usize = 0;
        while r < table.rows.len()
            invariant
                ts@ == tables.spec_tables(),
                rows == table_rows(ts@, ts@.len() as int),
                fits@.len() == rows.len(),
                fits_len == fits@.len(),
                t < ts@.len(),
                *table == ts@[t as int],
                r <= table.rows@.len(),
                flat == table_rows(ts@, t as int).len() + r,
                table_rows(ts@, t as int + 1).len() <= rows.len(),
                table_rows(ts@, t as int + 1) == rows.take(table_rows(ts@, t as int + 1).len() as int),
                patches@ == height_patches(rows, fits@, flat as int),
            decreases table.rows@.len() - r,
        {
            let row = &table.rows[r];
            proof {
                assert(table_rows(ts@, t as int + 1) == table_rows(ts@, t as int) + table.rows@);
                assert(rows[flat as int] == table_rows(ts@, t as int + 1)[flat as int]);
                assert(rows[flat as int] == *row);
            }
            match row.properties.row_height_twips {
                Some(h) => {
                    if h != 0 {
                        let height: u16 = if h < 0 {
                            (0i32 - h as i32) as u16
                        } else {
                            h as u16
                        };
                        let rule = if h < 0 || fits[flat] {
                            RowHeightRule::Exact
                        } else {
                            RowHeightRule::AtLeast
                        };
                        patches.push(RowHeightPatch { cp_start: row.cp_start, height_twips: height, rule });
                    }
                },
                None => {},
            }
            assert(flat < table_rows(ts@, t as int + 1).len());
            r = r + 1;
            flat = flat + 1;
        }
        t = t + 1;
    }
    let ghost ps = patches@;
    assert(flat == rows.len());
    let mut sorted: Vec<RowHeightPatch> = Vec::new();
    let mut k: usize = 0;
    while k < patches.len()
        invariant
            ps == patches@,
            k <= ps.len(),
            sorted@ == sorted_patches(ps, k as int),
        decreases ps.len() - k,
    {
        let p = patches[k];
        let mut pos: usize = 0;
        proof {
            lemma_patch_slot_range(sorted@, p.cp_start, 0);
        }
        while pos < sorted.len() && sorted[pos].cp_start <= p.cp_start
            invariant
                pos <= sorted@.len(),
                patch_slot(sorted@, p.cp_start, pos as int) == patch_slot(sorted@, p.cp_start, 0),
            decreases sorted@.len() - pos,
        {
            pos = pos + 1;
        }
        sorted.insert(pos, p);
        k = k + 1;
    }
    (fixed, sorted)
}

/// The rows of the first `m` tables are a prefix of those of the first `n`.
proof fn lemma_rows_prefix(ts: Seq<Table>, m: int, n: int)
    requires
        0 <= m <= n,
    ensures
        table_rows(ts, m).len() <= table_rows(ts, n).len(),
        table_rows(ts, m) == table_rows(ts, n).take(table_rows(ts, m).len() as int),
    decreases n - m,
{
    if m < n {
        lemma_rows_prefix(ts, m, n - 1);
        let a = table_rows(ts, m);
        let b = table_rows(ts, n - 1);
        assert(table_rows(ts, n) == b + ts[n - 1].rows@);
        assert((b + ts[n - 1].rows@).take(a.len() as int) =~= b.take(a.len() as int));
    } else {
        assert(table_rows(ts, n).take(table_rows(ts, n).len() as int) =~= table_rows(ts, n));
    }
}

} // verus!
