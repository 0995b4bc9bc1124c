//! The fixed parts of a package: the content-type declarations, the
//! relationships, and the workbook part that enumerates the sheets.

use vstd::prelude::*;
use vstd::string::StringExecFns;
use crate::text::{
    concat, decimal, lemma_concat_ends, lemma_concat_take, lemma_decimal_injective, push_decimal,
};

verus! {

/// The name of the part that declares the content types.
pub open spec fn content_types_name() -> Seq<char> {
    "[Content_Types].xml"@
}

/// The name of the part that holds the relationships of the package root.
pub open spec fn root_relationships_name() -> Seq<char> {
    "_rels/.rels"@
}

/// The name of the workbook part.
pub open spec fn workbook_name() -> Seq<char> {
    "xl/workbook.xml"@
}

/// The name of the part that holds the relationships of the workbook part.
pub open spec fn workbook_relationships_name() -> Seq<char> {
    "xl/_rels/workbook.xml.rels"@
}

/// The name of the shared-styles part.
pub open spec fn styles_name() -> Seq<char> {
    "xl/styles.xml"@
}

/// The name of the worksheet part of the sheet with identifier `id`.
pub open spec fn sheet_name(id: nat) -> Seq<char> {
    "xl/worksheets/sheet"@ + decimal(id) + ".xml"@
}

/// The content-type declaration of the worksheet part with identifier `id`.
pub open spec fn sheet_override(id: nat) -> Seq<char> {
    "<Override PartName=\"/xl/worksheets/sheet"@ + decimal(id)
        + ".xml\" ContentType=\"application/vnd.openxmlformats-officedocument.spreadsheetml.worksheet+xml\"/>"@
}

/// The declarations of the worksheet parts of `sheets` sheets, in order of
/// identifier: the entry at position `i` is that of sheet `i + 1`.
pub open spec fn sheet_overrides(sheets: nat) -> Seq<Seq<char>> {
    Seq::new(sheets, |i: int| sheet_override((i + 1) as nat))
}

/// The content-types part of a package with `sheets` sheets. It declares
/// every part of the package.
pub open spec fn content_types_xml(sheets: nat) -> Seq<char> {
    "<?xml version=\"1.0\" encoding=\"UTF-8\" standalone=\"yes\"?>\n<Types xmlns=\"http://schemas.openxmlformats.org/package/2006/content-types\"><Default Extension=\"rels\" ContentType=\"application/vnd.openxmlformats-package.relationships+xml\"/><Default Extension=\"xml\" ContentType=\"application/xml\"/><Override PartName=\"/xl/workbook.xml\" ContentType=\"application/vnd.openxmlformats-officedocument.spreadsheetml.sheet.main+xml\"/><Override PartName=\"/xl/styles.xml\" ContentType=\"application/vnd.openxmlformats-officedocument.spreadsheetml.styles+xml\"/>"@
        + concat(sheet_overrides(sheets)) + "</Types>"@
}

/// The relationships of the package root: the one that leads to the workbook
/// part.
pub open spec fn root_relationships_xml() -> Seq<char> {
    "<?xml version=\"1.0\" encoding=\"UTF-8\" standalone=\"yes\"?>\n<Relationships xmlns=\"http://schemas.openxmlformats.org/package/2006/relationships\"><Relationship Id=\"rId1\" Type=\"http://schemas.openxmlformats.org/officeDocument/2006/relationships/officeDocument\" Target=\"xl/workbook.xml\"/></Relationships>"@
}

/// The entry of the sheet with identifier `id` in the workbook part.
pub open spec fn sheet_entry(id: nat) -> Seq<char> {
    "<sheet name=\"Sheet"@ + decimal(id) + "\" sheetId=\""@ + decimal(id) + "\" r:id=\"rId"@
        + decimal(id) + "\"/>"@
}

/// The entries of `sheets` sheets in the workbook part, in order of
/// creation: the entry at position `i` is that of sheet `i + 1`.
pub open spec fn sheet_entries(sheets: nat) -> Seq<Seq<char>> {
    Seq::new(sheets, |i: int| sheet_entry((i + 1) as nat))
}

/// The workbook part of a package with `sheets` sheets.
pub open spec fn workbook_xml(sheets: nat) -> Seq<char> {
    "<?xml version=\"1.0\" encoding=\"UTF-8\" standalone=\"yes\"?>\n<workbook xmlns=\"http://schemas.openxmlformats.org/spreadsheetml/2006/main\" xmlns:r=\"http://schemas.openxmlformats.org/officeDocument/2006/relationships\"><sheets>"@
        + concat(sheet_entries(sheets)) + "</sheets></workbook>"@
}

/// The relationship that leads from the workbook part to the worksheet part
/// with identifier `id`.
pub open spec fn sheet_relationship(id: nat) -> Seq<char> {
    "<Relationship Id=\"rId"@ + decimal(id)
        + "\" Type=\"http://schemas.openxmlformats.org/officeDocument/2006/relationships/worksheet\" Target=\"worksheets/sheet"@
        + decimal(id) + ".xml\"/>"@
}

/// The relationships to the worksheet parts of `sheets` sheets, in order of
/// identifier.
pub open spec fn sheet_relationships(sheets: nat) -> Seq<Seq<char>> {
    Seq::new(sheets, |i: int| sheet_relationship((i + 1) as nat))
}

/// The relationships of the workbook part of a package with `sheets` sheets:
/// one to each worksheet part, and one to the shared-styles part.
pub open spec fn workbook_relationships_xml(sheets: nat) -> Seq<char> {
    "<?xml version=\"1.0\" encoding=\"UTF-8\" standalone=\"yes\"?>\n<Relationships xmlns=\"http://schemas.openxmlformats.org/package/2006/relationships\">"@
        + concat(sheet_relationships(sheets))
        + "<Relationship Id=\"styles\" Type=\"http://schemas.openxmlformats.org/officeDocument/2006/relationships/styles\" Target=\"styles.xml\"/></Relationships>"@
}

/// The workbook part enumerates the sheets in the order of their creation:
/// it holds one entry for each sheet, and the entry at position `k` names
/// sheet `k + 1`. The content types and the relationships do the same.
pub proof fn lemma_sheets_enumerated_in_order(sheets: nat, k: int)
    requires
        0 <= k < sheets,
    ensures
        sheet_entries(sheets).len() == sheets,
        sheet_entries(sheets)[k] == sheet_entry((k + 1) as nat),
        sheet_overrides(sheets).len() == sheets,
        sheet_overrides(sheets)[k] == sheet_override((k + 1) as nat),
        sheet_relationships(sheets).len() == sheets,
        sheet_relationships(sheets)[k] == sheet_relationship((k + 1) as nat),
{
}

/// Sheets with different identifiers have worksheet parts with different
/// names: no name is used twice.
pub proof fn lemma_sheet_names_distinct(a: nat, b: nat)
    requires
        sheet_name(a) == sheet_name(b),
    ensures
        a == b,
{
    let head = "xl/worksheets/sheet"@;
    let tail = ".xml"@;
    let x = decimal(a);
    let y = decimal(b);
    assert(sheet_name(a).len() == head.len() + x.len() + tail.len());
    assert(sheet_name(b).len() == head.len() + y.len() + tail.len());
    assert(x =~= y) by {
        assert forall|i: int| 0 <= i < x.len() implies x[i] == y[i] by {
            assert(sheet_name(a)[head.len() + i] == x[i]);
            assert(sheet_name(b)[head.len() + i] == y[i]);
        }
    }
    lemma_decimal_injective(a, b);
}

/// The name of the worksheet part of the sheet with identifier `id`.
pub fn sheet_part_name(id: usize) -> (name: String)
    ensures
        name@ == sheet_name(id as nat),
{
    let mut name = String::from_str("xl/worksheets/sheet");
    push_decimal(&mut name, id as u64);
    name.append(".xml");
    assert(name@ =~= sheet_name(id as nat));
    name
}

/// Appends the content-type declaration of the worksheet part `id` to `out`.
fn push_sheet_override(out: &mut String, id: usize)
    ensures
        final(out)@ == old(out)@ + sheet_override(id as nat),
{
    out.append("<Override PartName=\"/xl/worksheets/sheet");
    push_decimal(out, id as u64);
    out.append(
        ".xml\" ContentType=\"application/vnd.openxmlformats-officedocument.spreadsheetml.worksheet+xml\"/>",
    );
    assert(final(out)@ =~= old(out)@ + sheet_override(id as nat));
}

/// Appends the entry of the sheet `id` in the workbook part to `out`.
fn push_sheet_entry(out: &mut String, id: usize)
    ensures
        final(out)@ == old(out)@ + sheet_entry(id as nat),
{
    out.append("<sheet name=\"Sheet");
    push_decimal(out, id as u64);
    out.append("\" sheetId=\"");
    push_decimal(out, id as u64);
    out.append("\" r:id=\"rId");
    push_decimal(out, id as u64);
    out.append("\"/>");
    assert(final(out)@ =~= old(out)@ + sheet_entry(id as nat));
}

/// Appends the relationship to the worksheet part `id` to `out`.
fn push_sheet_relationship(out: &mut String, id: usize)
    ensures
        final(out)@ == old(out)@ + sheet_relationship(id as nat),
{
    out.append("<Relationship Id=\"rId");
    push_decimal(out, id as u64);
    out.append(
        "\" Type=\"http://schemas.openxmlformats.org/officeDocument/2006/relationships/worksheet\" Target=\"worksheets/sheet",
    );
    push_decimal(out, id as u64);
    out.append(".xml\"/>");
    assert(final(out)@ =~= old(out)@ + sheet_relationship(id as nat));
}

/// The content-types part of a package with `sheets` sheets.
pub fn content_types_part(sheets: usize) -> (part: String)
    ensures
        part@ == content_types_xml(sheets as nat),
{
    let ghost entries = sheet_overrides(sheets as nat);
    let mut out = String::from_str(
        "<?xml version=\"1.0\" encoding=\"UTF-8\" standalone=\"yes\"?>\n<Types xmlns=\"http://schemas.openxmlformats.org/package/2006/content-types\"><Default Extension=\"rels\" ContentType=\"application/vnd.openxmlformats-package.relationships+xml\"/><Default Extension=\"xml\" ContentType=\"application/xml\"/><Override PartName=\"/xl/workbook.xml\" ContentType=\"application/vnd.openxmlformats-officedocument.spreadsheetml.sheet.main+xml\"/><Override PartName=\"/xl/styles.xml\" ContentType=\"application/vnd.openxmlformats-officedocument.spreadsheetml.styles+xml\"/>",
    );
    let ghost head = out@;
    proof {
        lemma_concat_ends(entries);
        assert(out@ =~= head + concat(entries.take(0)));
    }
    let mut i: usize = 0;
    while i < sheets
        invariant
            entries == sheet_overrides(sheets as nat),
            0 <= i <= sheets,
            out@ == head + concat(entries.take(i as int)),
        decreases sheets - i,
    {
        proof {
            lemma_concat_take(entries, i as int);
        }
        push_sheet_override(&mut out, i + 1);
        i = i + 1;
        assert(out@ =~= head + concat(entries.take(i as int)));
    }
    out.append("</Types>");
    proof {
        lemma_concat_ends(entries);
        assert(out@ =~= content_types_xml(sheets as nat));
    }
    out
}

/// The relationships part of the package root.
pub fn root_relationships_part() -> (part: String)
    ensures
        part@ == root_relationships_xml(),
{
    String::from_str(
        "<?xml version=\"1.0\" encoding=\"UTF-8\" standalone=\"yes\"?>\n<Relationships xmlns=\"http://schemas.openxmlformats.org/package/2006/relationships\"><Relationship Id=\"rId1\" Type=\"http://schemas.openxmlformats.org/officeDocument/2006/relationships/officeDocument\" Target=\"xl/workbook.xml\"/></Relationships>",
    )
}

/// The workbook part of a package with `sheets` sheets.
pub fn workbook_part(sheets: usize) -> (part: String)
    ensures
        part@ == workbook_xml(sheets as nat),
{
    let ghost entries = sheet_entries(sheets as nat);
    let mut out = String::from_str(
        "<?xml version=\"1.0\" encoding=\"UTF-8\" standalone=\"yes\"?>\n<workbook xmlns=\"http://schemas.openxmlformats.org/spreadsheetml/2006/main\" xmlns:r=\"http://schemas.openxmlformats.org/officeDocument/2006/relationships\"><sheets>",
    );
    let ghost head = out@;
    proof {
        lemma_concat_ends(entries);
        assert(out@ =~= head + concat(entries.take(0)));
    }
    let mut i: usize = 0;
    while i < sheets
        invariant
            entries == sheet_entries(sheets as nat),
            0 <= i <= sheets,
            out@ == head + concat(entries.take(i as int)),
        decreases sheets - i,
    {
        proof {
            lemma_concat_take(entries, i as int);
        }
        push_sheet_entry(&mut out, i + 1);
        i = i + 1;
        assert(out@ =~= head + concat(entries.take(i as int)));
    }
    out.append("</sheets></workbook>");
    proof {
        lemma_concat_ends(entries);
        assert(out@ =~= workbook_xml(sheets as nat));
    }
    out
}

/// The relationships part of the workbook part of a package with `sheets`
/// sheets.
pub fn workbook_relationships_part(sheets: usize) -> (part: String)
    ensures
        part@ == workbook_relationships_xml(sheets as nat),
{
    let ghost entries = sheet_relationships(sheets as nat);
    let mut out = String::from_str(
        "<?xml version=\"1.0\" encoding=\"UTF-8\" standalone=\"yes\"?>\n<Relationships xmlns=\"http://schemas.openxmlformats.org/package/2006/relationships\">",
    );
    let ghost head = out@;
    proof {
        lemma_concat_ends(entries);
        assert(out@ =~= head + concat(entries.take(0)));
    }
    let mut i: usize = 0;
    while i < sheets
        invariant
            entries == sheet_relationships(sheets as nat),
            0 <= i <= sheets,
            out@ == head + concat(entries.take(i as int)),
        decreases sheets - i,
    {
        proof {
            lemma_concat_take(entries, i as int);
        }
        push_sheet_relationship(&mut out, i + 1);
        i = i + 1;
        assert(out@ =~= head + concat(entries.take(i as int)));
    }
    out.append(
        "<Relationship Id=\"styles\" Type=\"http://schemas.openxmlformats.org/officeDocument/2006/relationships/styles\" Target=\"styles.xml\"/></Relationships>",
    );
    proof {
        lemma_concat_ends(entries);
        assert(out@ =~= workbook_relationships_xml(sheets as nat));
    }
    out
}

} // verus!
