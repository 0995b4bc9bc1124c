use simple_xlsx_writer::archive::{archive_outcome, next_number, sink_outcome};
use simple_xlsx_writer::{Archive, CellValue, Phase, Row, WorkBook, WriteError};
use std::io::{Cursor, Read};

fn read_parts(sink: Vec<u8>) -> Vec<(String, Vec<u8>)> {
    let mut archive = zip::ZipArchive::new(Cursor::new(sink)).unwrap();
    let mut parts = Vec::new();
    for index in 0..archive.len() {
        let mut file = archive.by_index(index).unwrap();
        let mut bytes = Vec::new();
        file.read_to_end(&mut bytes).unwrap();
        parts.push((file.name().to_string(), bytes));
    }
    parts
}

#[test]
fn new_archive_is_open_and_empty() {
    let mut archive = Archive::new(Vec::new());
    assert_eq!(archive.phase(), Phase::Open);
    let sink = archive.close().unwrap();
    assert_eq!(archive.phase(), Phase::Finished);
    assert_eq!(read_parts(sink), Vec::new());
}

#[test]
fn parts_are_kept_in_the_order_started() {
    let mut archive = Archive::new(Vec::new());
    archive.start_part("first.xml").unwrap();
    archive.write("<a>").unwrap();
    archive.write("olá").unwrap();
    archive.write("</a>").unwrap();
    archive.start_part("empty.xml").unwrap();
    archive.add_part("dir/third.xml", "<c/>").unwrap();
    archive.write("<!-- more -->").unwrap();
    assert_eq!(archive.phase(), Phase::Open);
    let parts = read_parts(archive.close().unwrap());
    assert_eq!(
        parts,
        vec![
            ("first.xml".to_string(), "<a>olá</a>".as_bytes().to_vec()),
            ("empty.xml".to_string(), Vec::new()),
            ("dir/third.xml".to_string(), "<c/><!-- more -->".as_bytes().to_vec()),
        ]
    );
}

#[test]
fn writing_nothing_leaves_the_part_as_it_is() {
    let mut archive = Archive::new(Vec::new());
    archive.write("").unwrap();
    archive.start_part("a.xml").unwrap();
    archive.write("x").unwrap();
    archive.write("").unwrap();
    let parts = read_parts(archive.close().unwrap());
    assert_eq!(parts, vec![("a.xml".to_string(), b"x".to_vec())]);
}

#[test]
fn write_before_any_part_breaks_the_archive() {
    let mut archive = Archive::new(Vec::new());
    assert!(matches!(archive.write("x"), Err(WriteError::Sink(_))));
    assert_eq!(archive.phase(), Phase::Broken);
    assert!(matches!(archive.write("x"), Err(WriteError::Broken)));
    assert!(matches!(archive.start_part("a.xml"), Err(WriteError::Broken)));
    assert!(matches!(archive.add_part("a.xml", "x"), Err(WriteError::Broken)));
    assert!(matches!(archive.close(), Err(WriteError::Broken)));
    assert_eq!(archive.phase(), Phase::Broken);
}

#[test]
fn closed_archive_refuses_everything() {
    let mut archive = Archive::new(Vec::new());
    archive.add_part("a.xml", "x").unwrap();
    let sink = archive.close().unwrap();
    assert!(matches!(archive.write("y"), Err(WriteError::Finished)));
    assert!(matches!(archive.start_part("b.xml"), Err(WriteError::Finished)));
    assert!(matches!(archive.add_part("b.xml", "y"), Err(WriteError::Finished)));
    assert!(matches!(archive.close(), Err(WriteError::Finished)));
    assert_eq!(archive.phase(), Phase::Finished);
    assert_eq!(read_parts(sink), vec![("a.xml".to_string(), b"x".to_vec())]);
}

#[test]
fn archive_replaces_what_the_buffer_holds() {
    let mut archive = Archive::new(vec![7; 10000]);
    archive.add_part("a.xml", "x").unwrap();
    let sink = archive.close().unwrap();
    assert!(sink.len() < 1000);
    assert_eq!(read_parts(sink), vec![("a.xml".to_string(), b"x".to_vec())]);
    let mut workbook = WorkBook::new(vec![7; 10000]);
    let sink = workbook.finish().unwrap();
    assert_eq!(read_parts(sink).len(), 5);
}

#[test]
fn writer_of_an_open_workbook_takes_rows() {
    let workbook = WorkBook::new(Vec::new());
    let result = workbook.get_new_sheet().write_sheet(|sheet_writer| {
        let mut row = Row::new();
        row.add_cell(CellValue::number(1));
        sheet_writer.write_row(row)?;
        assert_eq!(sheet_writer.phase(), Phase::Open);
        Ok(sheet_writer.row_index())
    });
    assert_eq!(result.unwrap().1, 1);
}

#[test]
fn outcome_of_the_archive_writer_keeps_success_and_wraps_failure() {
    assert!(matches!(archive_outcome(Ok(5)), Ok(5)));
    let failure: Result<u8, zip::result::ZipError> = Err(zip::result::ZipError::FileNotFound);
    assert!(matches!(archive_outcome(failure), Err(WriteError::Archive(zip::result::ZipError::FileNotFound))));
}

#[test]
fn outcome_of_the_sink_keeps_success_and_wraps_failure() {
    assert!(matches!(sink_outcome(Ok(())), Ok(())));
    let failure = Err(std::io::Error::new(std::io::ErrorKind::WriteZero, "full"));
    match sink_outcome(failure) {
        Err(WriteError::Sink(error)) => assert_eq!(error.kind(), std::io::ErrorKind::WriteZero),
        _ => panic!("expected the error of the sink"),
    }
}

#[test]
fn counter_counts_up_to_the_limit_of_the_machine() {
    assert!(matches!(next_number(0), Ok(1)));
    assert!(matches!(next_number(41), Ok(42)));
    assert!(matches!(next_number(usize::MAX - 1), Ok(usize::MAX)));
    assert!(matches!(next_number(usize::MAX), Err(WriteError::Limit)));
}

#[test]
fn abandoned_archive_is_broken() {
    let mut archive = Archive::new(Vec::new());
    archive.add_part("a.xml", "x").unwrap();
    archive.abandon();
    assert_eq!(archive.phase(), Phase::Broken);
    assert!(matches!(archive.write("y"), Err(WriteError::Broken)));
    assert!(matches!(archive.close(), Err(WriteError::Broken)));
    let mut archive = Archive::new(Vec::new());
    let sink = archive.close().unwrap();
    archive.abandon();
    assert_eq!(archive.phase(), Phase::Finished);
    assert!(matches!(archive.close(), Err(WriteError::Finished)));
    assert_eq!(read_parts(sink), Vec::new());
}

#[test]
fn closing_hands_back_the_archive_that_was_written() {
    let mut archive = Archive::new(Vec::new());
    archive.add_part("a.xml", "<a/>").unwrap();
    archive.add_part("b.xml", "<b/>").unwrap();
    let sink = archive.close().unwrap();
    assert!(!sink.is_empty());
    assert_eq!(&sink[0..4], b"PK\x03\x04");
    assert_eq!(
        read_parts(sink),
        vec![("a.xml".to_string(), b"<a/>".to_vec()), ("b.xml".to_string(), b"<b/>".to_vec())]
    );
}

#[test]
fn parts_of_a_list_are_added_in_order() {
    let list = vec![
        ("a.xml".to_string(), "<a/>".to_string()),
        ("b.xml".to_string(), "olá".to_string()),
        ("c.xml".to_string(), String::new()),
    ];
    let mut archive = Archive::new(Vec::new());
    archive.add_part("first.xml", "1").unwrap();
    archive.add_parts(&list, 0).unwrap();
    assert_eq!(archive.phase(), Phase::Open);
    assert_eq!(
        read_parts(archive.close().unwrap()),
        vec![
            ("first.xml".to_string(), b"1".to_vec()),
            ("a.xml".to_string(), b"<a/>".to_vec()),
            ("b.xml".to_string(), "olá".as_bytes().to_vec()),
            ("c.xml".to_string(), Vec::new()),
        ]
    );
}

#[test]
fn parts_of_a_list_are_added_from_the_position_given() {
    let list = vec![
        ("a.xml".to_string(), "<a/>".to_string()),
        ("b.xml".to_string(), "<b/>".to_string()),
        ("c.xml".to_string(), "<c/>".to_string()),
    ];
    let mut archive = Archive::new(Vec::new());
    archive.add_parts(&list, 1).unwrap();
    archive.add_parts(&list, 3).unwrap();
    assert_eq!(
        read_parts(archive.close().unwrap()),
        vec![("b.xml".to_string(), b"<b/>".to_vec()), ("c.xml".to_string(), b"<c/>".to_vec())]
    );
}

#[test]
fn parts_of_a_list_are_refused_by_an_archive_that_is_not_open() {
    let list = vec![("a.xml".to_string(), "<a/>".to_string())];
    let mut archive = Archive::new(Vec::new());
    archive.close().unwrap();
    assert!(matches!(archive.add_parts(&list, 0), Err(WriteError::Finished)));
    assert!(matches!(archive.add_parts(&list, 1), Err(WriteError::Finished)));
    let mut archive = Archive::new(Vec::new());
    archive.abandon();
    assert!(matches!(archive.add_parts(&list, 0), Err(WriteError::Broken)));
}

#[test]
fn text_without_characters_is_always_written() {
    let mut archive = Archive::new(Vec::new());
    assert!(archive.write("").is_ok());
    assert_eq!(archive.phase(), Phase::Open);
    archive.start_part("a.xml").unwrap();
    assert!(archive.write("").is_ok());
    assert_eq!(read_parts(archive.close().unwrap()), vec![("a.xml".to_string(), Vec::new())]);
}
