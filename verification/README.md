# legacy_doc

A bounded reader for Word 97–2003 binary documents and legacy Excel
workbooks, with the pieces that turn them into Office Open XML parts,
written in Verus: each parser and each XML writer carries a contract that
states what it returns and on which inputs it fails, and Verus proves it.

## Layout

- `src/` — the verified library.
  - Word Binary: `binary`, `fib`, `sprm`, `piece_table`, `container`,
    `document`, `plc`, `fields`, `notes`, `comments`, `fonts`,
    `properties`, `styles`, `formatting`, `sections`, `headers`, `lists`,
    `tables`, `media`, `ooxml_ir`.
  - BIFF8 workbooks: `xls_biff`, `xls_sheet`, `xls_workbook`,
    `xls_styles`, `xls_ooxml`, `sheet_patch`.
  - WordprocessingML parts: `doc_tables`, `doc_comments`, `doc_numbering`.
  - Raw-byte entry points through `office_oxide`: `bridge`.
  - In-memory ZIP packages through `zip`, and the table-layout, comment,
    numbering and workbook-fidelity rewrites of their parts: `package`.
  - Content-type tables and relationship parts of a package through
    `office_oxide`'s packaging types: `opc`.
  - Shared text, error and format helpers: `text`, `error`, `format`,
    `limits`, `seq_util`.
- `tests/` — tests that run the library on concrete inputs.
- `app/` — serde and error-trait forms of the public types, and the
  floating-point projection of source cell values and row-height
  estimates.

The library does not project a Word document into `office_oxide`'s
document model, and so offers no conversion of raw DOC bytes to a DOCX
package; its DOCX rewrites work on a package made elsewhere.

Calls into `office_oxide` and into parts of `std` that Verus has no
specification for go through small trusted wrappers whose contracts are
stated next to them.
