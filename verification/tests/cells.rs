use simple_xlsx_writer::{CellValue, Row, WorkBook};

fn xml_of(cell: &CellValue, column: usize, row: usize) -> String {
    let mut out = String::new();
    cell.write(column, row, &mut out);
    out
}

#[test]
fn number_cell_without_style_has_no_style_attribute() {
    assert_eq!(xml_of(&CellValue::number(1), 0, 1), "<c r=\"A1\"><v>1</v></c>");
    assert_eq!(xml_of(&CellValue::number(-25), 2, 7), "<c r=\"C7\"><v>-25</v></c>");
    assert_eq!(CellValue::number(1).style_id(), None);
    assert!(!xml_of(&CellValue::number(1), 0, 1).contains(" s="));
}

#[test]
fn cell_with_style_carries_the_identifier_of_the_style() {
    let mut workbook = WorkBook::new(Vec::new());
    let first = workbook.create_cell_style((255, 255, 255), (0, 0, 0));
    let second = workbook.create_cell_style((1, 2, 3), (4, 5, 6));
    assert_eq!(xml_of(&CellValue::number(1).with_style(&first), 0, 1), "<c r=\"A1\" s=\"0\"><v>1</v></c>");
    assert_eq!(xml_of(&CellValue::number(1).with_style(&second), 0, 1), "<c r=\"A1\" s=\"1\"><v>1</v></c>");
    assert_eq!(
        xml_of(&CellValue::text("My").with_style(&second), 1, 3),
        "<c r=\"B3\" s=\"1\" t=\"inlineStr\"><is><t>My</t></is></c>"
    );
    assert_eq!(
        xml_of(&CellValue::boolean(true).with_style(&first), 26, 2),
        "<c r=\"AA2\" s=\"0\" t=\"b\"><v>1</v></c>"
    );
    assert_eq!(CellValue::number(1).with_style(&second).style_id(), Some(1));
}

#[test]
fn number_cell_from_literal_is_written_as_it_is() {
    let cell = CellValue::number_from_literal(&format!("{}", 10.3)).unwrap();
    assert_eq!(xml_of(&cell, 1, 1), "<c r=\"B1\"><v>10.3</v></c>");
    let cell = CellValue::number_from_literal("-0.5").unwrap();
    assert_eq!(xml_of(&cell, 0, 2), "<c r=\"A2\"><v>-0.5</v></c>");
    let cell = CellValue::number_from_literal("NaN").unwrap();
    assert_eq!(xml_of(&cell, 0, 2), "<c r=\"A2\"><v>NaN</v></c>");
}

#[test]
fn number_cell_from_other_text_is_refused() {
    assert!(CellValue::number_from_literal("").is_none());
    assert!(CellValue::number_from_literal("</v>").is_none());
    assert!(CellValue::number_from_literal("1e5").is_none());
    assert!(CellValue::number_from_literal("12").is_some());
}

#[test]
fn text_cell_is_inline_and_escaped() {
    assert_eq!(
        xml_of(&CellValue::text("ola"), 0, 2),
        "<c r=\"A2\" t=\"inlineStr\"><is><t>ola</t></is></c>"
    );
    assert_eq!(
        xml_of(&CellValue::text("a<b & \"c\""), 3, 4),
        "<c r=\"D4\" t=\"inlineStr\"><is><t>a&lt;b &amp; &quot;c&quot;</t></is></c>"
    );
    assert_eq!(xml_of(&CellValue::text(""), 0, 1), "<c r=\"A1\" t=\"inlineStr\"><is><t></t></is></c>");
}

#[test]
fn text_cell_reads_back_under_an_xml_parser() {
    let texts = ["a<b>c", "x & y", "say \"hi\"", "it's", "</t></is></c><c r=\"Z9\" s=\"3\">"];
    for text in texts {
        let xml = xml_of(&CellValue::text(text), 0, 1);
        let doc = roxmltree::Document::parse(&xml).unwrap();
        let cell = doc.root_element();
        assert!(cell.has_tag_name("c"));
        assert_eq!(cell.attribute("r"), Some("A1"));
        assert_eq!(cell.attribute("s"), None);
        assert_eq!(cell.attribute("t"), Some("inlineStr"));
        let read: String = cell.descendants().filter(|n| n.is_text()).map(|n| n.text().unwrap()).collect();
        assert_eq!(read, text);
    }
}

#[test]
fn boolean_cell_is_one_or_zero() {
    assert_eq!(xml_of(&CellValue::boolean(true), 0, 3), "<c r=\"A3\" t=\"b\"><v>1</v></c>");
    assert_eq!(xml_of(&CellValue::boolean(false), 1, 3), "<c r=\"B3\" t=\"b\"><v>0</v></c>");
}

#[test]
fn cell_is_appended_to_what_is_there() {
    let mut out = String::from("<row r=\"1\">\n");
    CellValue::number(5).write(0, 1, &mut out);
    CellValue::number(6).write(1, 1, &mut out);
    assert_eq!(out, "<row r=\"1\">\n<c r=\"A1\"><v>5</v></c><c r=\"B1\"><v>6</v></c>");
}

#[test]
fn row_keeps_cells_in_the_order_added() {
    let mut row = Row::new();
    assert_eq!(row.len(), 0);
    assert!(row.cells().is_empty());
    row.add_cell(CellValue::number(1));
    row.add_cell(CellValue::text("two"));
    row.add_cell(CellValue::boolean(true));
    assert_eq!(row.len(), 3);
    assert_eq!(row.cells().len(), 3);
    assert_eq!(xml_of(&row.cells()[0], 0, 1), "<c r=\"A1\"><v>1</v></c>");
    assert_eq!(xml_of(&row.cells()[1], 1, 1), "<c r=\"B1\" t=\"inlineStr\"><is><t>two</t></is></c>");
    assert_eq!(xml_of(&row.cells()[2], 2, 1), "<c r=\"C1\" t=\"b\"><v>1</v></c>");
}

#[test]
fn row_xml_places_cells_in_columns_by_position() {
    let mut row = Row::new();
    row.add_cell(CellValue::number(1));
    row.add_cell(CellValue::number(2));
    row.add_cell(CellValue::number(3));
    assert_eq!(
        row.to_xml(2),
        "<row r=\"2\">\n<c r=\"A2\"><v>1</v></c><c r=\"B2\"><v>2</v></c><c r=\"C2\"><v>3</v></c>\n</row>\n"
    );
}

#[test]
fn row_xml_of_an_empty_row() {
    assert_eq!(Row::new().to_xml(1), "<row r=\"1\">\n\n</row>\n");
    assert_eq!(Row::new().to_xml(12), "<row r=\"12\">\n\n</row>\n");
}

#[test]
fn row_xml_reaches_beyond_column_z() {
    let mut row = Row::new();
    for n in 0..28 {
        row.add_cell(CellValue::number(n));
    }
    let xml = row.to_xml(5);
    assert!(xml.contains("<c r=\"Z5\"><v>25</v></c><c r=\"AA5\"><v>26</v></c><c r=\"AB5\"><v>27</v></c>"));
}
