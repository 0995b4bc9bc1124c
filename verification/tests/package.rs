use simple_xlsx_writer::package::{
    content_types_part, root_relationships_part, sheet_part_name, workbook_part, workbook_relationships_part,
};
use simple_xlsx_writer::style::styles_part;
use simple_xlsx_writer::{CellStyle, WorkBook};

const DECLARATION: &str = "<?xml version=\"1.0\" encoding=\"UTF-8\" standalone=\"yes\"?>\n";

fn styles(colors: &[((u8, u8, u8), (u8, u8, u8))]) -> Vec<CellStyle> {
    let mut workbook = WorkBook::new(Vec::new());
    colors.iter().map(|(foreground, background)| workbook.create_cell_style(*foreground, *background)).collect()
}

#[test]
fn sheet_part_is_named_by_its_identifier() {
    assert_eq!(sheet_part_name(1), "xl/worksheets/sheet1.xml");
    assert_eq!(sheet_part_name(2), "xl/worksheets/sheet2.xml");
    assert_eq!(sheet_part_name(15), "xl/worksheets/sheet15.xml");
}

#[test]
fn content_types_declare_every_part() {
    let head = "<Types xmlns=\"http://schemas.openxmlformats.org/package/2006/content-types\"><Default Extension=\"rels\" ContentType=\"application/vnd.openxmlformats-package.relationships+xml\"/><Default Extension=\"xml\" ContentType=\"application/xml\"/><Override PartName=\"/xl/workbook.xml\" ContentType=\"application/vnd.openxmlformats-officedocument.spreadsheetml.sheet.main+xml\"/><Override PartName=\"/xl/styles.xml\" ContentType=\"application/vnd.openxmlformats-officedocument.spreadsheetml.styles+xml\"/>";
    assert_eq!(content_types_part(0), format!("{}{}</Types>", DECLARATION, head));
    assert_eq!(
        content_types_part(2),
        format!(
            "{}{}<Override PartName=\"/xl/worksheets/sheet1.xml\" ContentType=\"application/vnd.openxmlformats-officedocument.spreadsheetml.worksheet+xml\"/><Override PartName=\"/xl/worksheets/sheet2.xml\" ContentType=\"application/vnd.openxmlformats-officedocument.spreadsheetml.worksheet+xml\"/></Types>",
            DECLARATION, head
        )
    );
}

#[test]
fn root_relationships_lead_to_the_workbook_part() {
    assert_eq!(
        root_relationships_part(),
        format!(
            "{}<Relationships xmlns=\"http://schemas.openxmlformats.org/package/2006/relationships\"><Relationship Id=\"rId1\" Type=\"http://schemas.openxmlformats.org/officeDocument/2006/relationships/officeDocument\" Target=\"xl/workbook.xml\"/></Relationships>",
            DECLARATION
        )
    );
}

#[test]
fn workbook_part_enumerates_sheets_in_order() {
    let open = "<workbook xmlns=\"http://schemas.openxmlformats.org/spreadsheetml/2006/main\" xmlns:r=\"http://schemas.openxmlformats.org/officeDocument/2006/relationships\"><sheets>";
    assert_eq!(workbook_part(0), format!("{}{}</sheets></workbook>", DECLARATION, open));
    assert_eq!(
        workbook_part(3),
        format!(
            "{}{}<sheet name=\"Sheet1\" sheetId=\"1\" r:id=\"rId1\"/><sheet name=\"Sheet2\" sheetId=\"2\" r:id=\"rId2\"/><sheet name=\"Sheet3\" sheetId=\"3\" r:id=\"rId3\"/></sheets></workbook>",
            DECLARATION, open
        )
    );
}

#[test]
fn workbook_relationships_lead_to_sheets_and_styles() {
    let open = "<Relationships xmlns=\"http://schemas.openxmlformats.org/package/2006/relationships\">";
    let styles = "<Relationship Id=\"styles\" Type=\"http://schemas.openxmlformats.org/officeDocument/2006/relationships/styles\" Target=\"styles.xml\"/></Relationships>";
    assert_eq!(workbook_relationships_part(0), format!("{}{}{}", DECLARATION, open, styles));
    assert_eq!(
        workbook_relationships_part(2),
        format!(
            "{}{}<Relationship Id=\"rId1\" Type=\"http://schemas.openxmlformats.org/officeDocument/2006/relationships/worksheet\" Target=\"worksheets/sheet1.xml\"/><Relationship Id=\"rId2\" Type=\"http://schemas.openxmlformats.org/officeDocument/2006/relationships/worksheet\" Target=\"worksheets/sheet2.xml\"/>{}",
            DECLARATION, open, styles
        )
    );
}

#[test]
fn styles_part_without_styles_holds_the_defaults() {
    assert_eq!(
        styles_part(&Vec::new()),
        format!(
            "{}<styleSheet xmlns=\"http://schemas.openxmlformats.org/spreadsheetml/2006/main\"><fonts count=\"1\"><font/></fonts><fills count=\"2\"><fill><patternFill patternType=\"none\"/></fill><fill><patternFill patternType=\"gray125\"/></fill></fills><borders count=\"1\"><border/></borders><cellStyleXfs count=\"1\"><xf/></cellStyleXfs><cellXfs count=\"0\"></cellXfs></styleSheet>",
            DECLARATION
        )
    );
}

#[test]
fn styles_part_lists_each_style_in_order() {
    let registry = styles(&[((255, 255, 255), (0, 0, 0)), ((1, 171, 16), (250, 9, 128))]);
    assert_eq!(
        styles_part(&registry),
        format!(
            "{}<styleSheet xmlns=\"http://schemas.openxmlformats.org/spreadsheetml/2006/main\"><fonts count=\"3\"><font/><font><color rgb=\"FFFFFFFF\"/></font><font><color rgb=\"FF01AB10\"/></font></fonts><fills count=\"4\"><fill><patternFill patternType=\"none\"/></fill><fill><patternFill patternType=\"gray125\"/></fill><fill><patternFill patternType=\"solid\"><fgColor rgb=\"FF000000\"/></patternFill></fill><fill><patternFill patternType=\"solid\"><fgColor rgb=\"FFFA0980\"/></patternFill></fill></fills><borders count=\"1\"><border/></borders><cellStyleXfs count=\"1\"><xf/></cellStyleXfs><cellXfs count=\"2\"><xf fontId=\"1\" fillId=\"2\" applyFont=\"1\" applyFill=\"1\"/><xf fontId=\"2\" fillId=\"3\" applyFont=\"1\" applyFill=\"1\"/></cellXfs></styleSheet>",
            DECLARATION
        )
    );
}

#[test]
fn styles_part_has_one_format_for_each_style() {
    for count in [0usize, 1, 2, 5, 12] {
        let colors: Vec<((u8, u8, u8), (u8, u8, u8))> =
            (0..count).map(|i| ((i as u8, 0, 0), (0, i as u8, 0))).collect();
        let xml = styles_part(&styles(&colors));
        let doc = roxmltree::Document::parse(&xml).unwrap();
        let formats = doc.descendants().find(|n| n.has_tag_name("cellXfs")).unwrap();
        assert_eq!(formats.attribute("count"), Some(count.to_string().as_str()));
        let entries: Vec<_> = formats.children().filter(|n| n.has_tag_name("xf")).collect();
        assert_eq!(entries.len(), count);
        let fonts: Vec<_> = doc.descendants().filter(|n| n.has_tag_name("font")).collect();
        let fills: Vec<_> = doc.descendants().filter(|n| n.has_tag_name("fill")).collect();
        for (id, entry) in entries.iter().enumerate() {
            let font: usize = entry.attribute("fontId").unwrap().parse().unwrap();
            let fill: usize = entry.attribute("fillId").unwrap().parse().unwrap();
            assert_eq!(font, id + 1);
            assert_eq!(fill, id + 2);
            let color = fonts[font].descendants().find(|n| n.has_tag_name("color")).unwrap();
            assert_eq!(color.attribute("rgb"), Some(format!("FF{:02X}0000", id).as_str()));
            let color = fills[fill].descendants().find(|n| n.has_tag_name("fgColor")).unwrap();
            assert_eq!(color.attribute("rgb"), Some(format!("FF00{:02X}00", id).as_str()));
        }
    }
}

#[test]
fn style_handle_keeps_its_colours() {
    let registry = styles(&[((255, 254, 253), (1, 2, 3))]);
    assert_eq!(registry[0].id(), 0);
    assert_eq!(registry[0].foreground(), (255, 254, 253));
    assert_eq!(registry[0].background(), (1, 2, 3));
}
