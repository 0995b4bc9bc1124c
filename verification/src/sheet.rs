//! Sheets: the handle for a sheet that was requested from a workbook, and the
//! writer that streams rows into it.

use vstd::prelude::*;
use vstd::utf8::encode_utf8;
use crate::archive::{
    append_to_last, next_number, phase_after, refusal, Archive, Phase, WriteError,
};
use crate::package::{sheet_name, sheet_part_name};
use crate::row::{row_open, row_xml, CellView, Row};
use crate::text::{concat, lemma_utf8_concat};
use crate::workbook::{sheet_parts, BookView, WorkBook};

verus! {

/// The text with which every worksheet part begins: the XML declaration, the
/// root element with the two namespaces of the format, and the tag that
/// opens the container of the rows.
pub open spec fn sheet_header() -> Seq<char> {
    "<?xml version=\"1.0\" encoding=\"UTF-8\" standalone=\"yes\"?>\n<worksheet xmlns=\"http://schemas.openxmlformats.org/spreadsheetml/2006/main\" xmlns:r=\"http://schemas.openxmlformats.org/officeDocument/2006/relationships\">\n<sheetData>\n"@
}

/// The text with which every finished worksheet part ends: the tags that
/// close the container of the rows and the root element.
pub open spec fn sheet_footer() -> Seq<char> {
    "\n</sheetData>\n</worksheet>\n"@
}

/// The XML of each row of a sheet: the row at position `k` is written as the
/// row with number `k + 1`.
pub open spec fn row_entries(rows: Seq<Seq<CellView>>) -> Seq<Seq<char>> {
    Seq::new(rows.len(), |k: int| row_xml(rows[k], (k + 1) as nat))
}

/// What a worksheet part holds while the rows `rows` have been written and
/// the sheet is not finished: the header and the rows.
pub open spec fn sheet_body(rows: Seq<Seq<CellView>>) -> Seq<char> {
    sheet_header() + concat(row_entries(rows))
}

/// What the worksheet part of a finished sheet with the rows `rows` holds.
pub open spec fn sheet_xml(rows: Seq<Seq<CellView>>) -> Seq<char> {
    sheet_body(rows) + sheet_footer()
}

/// A sheet with one more row holds what it held and then that row, written
/// with the next row number.
pub proof fn lemma_sheet_body_push(rows: Seq<Seq<CellView>>, row: Seq<CellView>)
    ensures
        sheet_body(rows.push(row)) == sheet_body(rows) + row_xml(row, rows.len() + 1),
{
    let more = row_entries(rows.push(row));
    assert(more.drop_last() =~= row_entries(rows));
    assert(more.last() == row_xml(row, rows.len() + 1));
    assert(sheet_body(rows.push(row)) =~= sheet_body(rows) + row_xml(row, rows.len() + 1));
}

/// The row written as the `k`-th of a sheet carries the row number `k`,
/// whatever its cells are: its XML begins with the tag that opens row `k`.
pub proof fn lemma_row_numbers(rows: Seq<Seq<CellView>>, k: int)
    requires
        1 <= k <= rows.len(),
    ensures
        row_entries(rows).len() == rows.len(),
        row_entries(rows)[k - 1] == row_xml(rows[k - 1], k as nat),
        row_open(k as nat).is_prefix_of(row_entries(rows)[k - 1]),
{
    let xml = row_xml(rows[k - 1], k as nat);
    assert(xml.subrange(0, row_open(k as nat).len() as int) =~= row_open(k as nat));
}

/// The worksheet part of a finished sheet is closed: it begins with the
/// header, ends with the footer, and holds the rows between them.
pub proof fn lemma_finished_sheet_is_closed(rows: Seq<Seq<CellView>>)
    ensures
        sheet_xml(rows) == sheet_header() + concat(row_entries(rows)) + sheet_footer(),
        sheet_header().is_prefix_of(sheet_xml(rows)),
        sheet_footer().is_suffix_of(sheet_xml(rows)),
{
    let xml = sheet_xml(rows);
    assert(xml.subrange(0, sheet_header().len() as int) =~= sheet_header());
    assert(xml.subrange(xml.len() - sheet_footer().len(), xml.len() as int) =~= sheet_footer());
}

/// A sheet that was requested from a workbook and is not yet written. It
/// holds the workbook until a writer is made of it.
pub struct Sheet {
    id: usize,
    workbook: WorkBook,
}

/// A sheet that is being written: the workbook it belongs to and the rows
/// written so far.
pub struct SheetView {
    pub book: BookView,
    pub rows: Seq<Seq<CellView>>,
}

impl SheetView {
    /// Whether the worksheet part of this sheet is the open part of the
    /// archive: the workbook has requested one sheet more than it has
    /// finished, and an open archive holds the finished sheets and then the
    /// part of this one, with the header and the rows written so far.
    pub open spec fn streaming(self) -> bool {
        &&& self.book.requested == self.book.sheets.len() + 1
        &&& self.book.phase == Phase::Open ==> self.book.parts == sheet_parts(
            self.book.sheets,
        ).push((sheet_name(self.book.requested), encode_utf8(sheet_body(self.rows))))
    }
}

/// Writes the rows of one sheet into the archive of a workbook, one after
/// the other. It holds the workbook while the sheet is written; `finish`
/// hands the workbook back.
///
/// A writer is started when it is made: the header is written. It is active
/// while rows are written. It is finished when `finish` has written the
/// footer; `finish` takes the writer, so that a sheet is finished once and no
/// row follows its footer. A workbook comes back from `finish` only: every
/// sheet of a workbook that can be finished is closed.
pub struct SheetWriter {
    workbook: WorkBook,
    row_index: usize,
    rows: Ghost<Seq<Seq<CellView>>>,
}

impl View for SheetWriter {
    type V = SheetView;

    closed spec fn view(&self) -> SheetView {
        SheetView { book: self.workbook@, rows: self.rows@ }
    }
}

impl Sheet {
    /// The identifier of the sheet.
    pub closed spec fn spec_id(&self) -> usize {
        self.id
    }

    /// The workbook that the sheet belongs to.
    pub closed spec fn book(&self) -> BookView {
        self.workbook@
    }

    /// The archive of the workbook that the sheet belongs to.
    pub closed spec fn archive(&self) -> Archive {
        self.workbook.archive()
    }

    /// The invariant of the workbook that the sheet holds.
    pub closed spec fn inv(&self) -> bool {
        self.workbook.inv()
    }

    /// Whether the sheet is the one that its workbook requested last, and,
    /// where the workbook is open, every sheet before it is finished.
    pub open spec fn wf(&self) -> bool {
        &&& self.inv()
        &&& self.id() == self.book().requested
        &&& self.book().phase == Phase::Open ==> {
            &&& self.book().requested == self.book().sheets.len() + 1
            &&& self.book().parts == sheet_parts(self.book().sheets)
        }
    }

    /// Whether `r` is a way in which `sheet_writer` may end on this sheet.
    ///
    /// A workbook that is not open refuses. Otherwise the sheet is opened
    /// exactly when the archive writer starts the worksheet part and then
    /// takes the header. After success the writer has no rows yet, and its
    /// workbook is the one of the sheet with one part more: the worksheet
    /// part named after the identifier of the sheet, which holds the header.
    pub open spec fn opens(&self, r: Result<SheetWriter, WriteError>) -> bool {
        if self.book().phase != Phase::Open {
            r == Err::<SheetWriter, WriteError>(refusal(self.book().phase))
        } else {
            &&& exists|started: Archive|
                {
                    &&& #[trigger] self.archive().leads_to(sheet_name(self.id() as nat), started)
                    &&& (r is Ok) == self.archive().accepts(
                        sheet_name(self.id() as nat),
                        encode_utf8(sheet_header()),
                        started,
                    )
                }
            &&& match r {
                Ok(writer) => {
                    &&& writer.wf()
                    &&& writer@.rows == Seq::<Seq<CellView>>::empty()
                    &&& writer@.book == (BookView {
                        parts: self.book().parts.push(
                            (sheet_name(self.id() as nat), encode_utf8(sheet_header())),
                        ),
                        ..self.book()
                    })
                },
                Err(e) => e is Archive || e is Sink,
            }
        }
    }

    /// The sheet with identifier `id` of `workbook`.
    pub(crate) fn new(id: usize, workbook: WorkBook) -> (sheet: Sheet)
        ensures
            sheet.id() == id,
            sheet.book() == workbook@,
            sheet.archive() == workbook.archive(),
            sheet.inv() == workbook.inv(),
    {
        Sheet { id, workbook }
    }

    /// The identifier of the sheet: 1 for the first sheet of a workbook, 2
    /// for the second, and so on.
    #[verifier::when_used_as_spec(spec_id)]
    pub fn id(&self) -> (id: usize)
        ensures
            id == self.spec_id(),
    {
        self.id
    }

    /// Starts the worksheet part of this sheet and hands out the writer for
    /// its rows. The caller ends the sheet with `SheetWriter::finish`.
    pub fn sheet_writer(self) -> (r: Result<SheetWriter, WriteError>)
        requires
            self.wf(),
        ensures
            self.opens(r),
    {
        let mut workbook = self.workbook;
        let name = sheet_part_name(self.id);
        match workbook.start_part(name.as_str()) {
            Ok(()) => {
                let ghost started = workbook.archive();
                proof {
                    workbook.lemma_archive();
                    self.workbook.lemma_archive();
                    assert(self.archive().leads_to(sheet_name(self.id() as nat), started));
                }
                SheetWriter::start(workbook)
            },
            Err(e) => {
                proof {
                    if self.book().phase == Phase::Open {
                        assert(self.archive().leads_to(
                            sheet_name(self.id() as nat),
                            self.archive(),
                        ));
                    }
                }
                Err(e)
            },
        }
    }

    /// Writes this sheet with `function`: starts the worksheet part, calls
    /// `function` with the writer for its rows, and finishes the sheet when
    /// `function` has succeeded. Where `function` fails, its error is
    /// returned and the sheet is not finished: the document is given up.
    ///
    /// On an open workbook `function` is called exactly when the archive
    /// writer starts the worksheet part and takes the header, and the result
    /// is `Ok` exactly when `function` then succeeds and the archive writer
    /// takes the footer.
    ///
    /// `function` must accept the writer of a sheet that was just started,
    /// and where it succeeds it must leave a writer that is in order, as
    /// every method of the writer does.
    pub fn write_sheet<T, F: FnOnce(&mut SheetWriter) -> Result<T, WriteError>>(
        self,
        function: F,
    ) -> (r: Result<(WorkBook, T), WriteError>)
        requires
            self.wf(),
            forall|writer: &mut SheetWriter|
                self.opens(Ok(*writer)) ==> call_requires(function, (writer,)),
            forall|writer: &mut SheetWriter, out: Result<T, WriteError>|
                self.opens(Ok(*writer)) && call_ensures(function, (writer,), out) && out is Ok
                    ==> final(writer).wf(),
        ensures
            match r {
                Ok((workbook, value)) => exists|writer: &mut SheetWriter, out: Result<T, WriteError>|
                    #![trigger call_ensures(function, (writer,), out)]
                    {
                        &&& self.opens(Ok(*writer))
                        &&& call_ensures(function, (writer,), out)
                        &&& out == Ok::<T, WriteError>(value)
                        &&& final(writer).closes(Ok(workbook))
                    },
                Err(e) => {
                    ||| self.opens(Err(e))
                    ||| exists|writer: &mut SheetWriter, out: Result<T, WriteError>|
                        #![trigger call_ensures(function, (writer,), out)]
                        {
                            &&& self.opens(Ok(*writer))
                            &&& call_ensures(function, (writer,), out)
                            &&& (out == Err::<T, WriteError>(e) || (out is Ok
                                && final(writer).closes(Err(e))))
                        }
                },
            },
    {
        match self.sheet_writer() {
            Ok(writer) => {
                let mut writer = writer;
                let out = function(&mut writer);
                match out {
                    Ok(value) => {
                        let closed = writer.finish();
                        match closed {
                            Ok(workbook) => Ok((workbook, value)),
                            Err(e) => Err(e),
                        }
                    },
                    Err(e) => Err(e),
                }
            },
            Err(e) => Err(e),
        }
    }
}

impl SheetWriter {
    /// The invariant of the workbook that the writer holds, and that the row
    /// counter is the number of rows written.
    pub closed spec fn inv(&self) -> bool {
        &&& self.workbook.inv()
        &&& self.row_index == self.rows@.len()
    }

    /// The archive of the workbook that the writer holds.
    pub closed spec fn archive(&self) -> Archive {
        self.workbook.archive()
    }

    /// Whether the archive writer takes all of `bytes` for the worksheet part
    /// of this writer.
    pub open spec fn takes(&self, bytes: Seq<u8>) -> bool {
        self.archive().takes(bytes)
    }

    /// Whether the writer is in order: its sheet is the open part of the
    /// archive of its workbook, and the number of its rows is one that the
    /// machine can count.
    pub open spec fn wf(&self) -> bool {
        self.inv() && self@.streaming() && self@.rows.len() <= usize::MAX
    }

    /// Whether `r` is a way in which `finish` may end on this writer.
    ///
    /// A workbook that is not open refuses. Otherwise the sheet is finished
    /// exactly when the archive writer takes the footer. After success the
    /// workbook is handed back: the sheet with its rows is the last of its
    /// finished sheets, and the worksheet part ends with the footer.
    pub open spec fn closes(&self, r: Result<WorkBook, WriteError>) -> bool {
        if self@.book.phase != Phase::Open {
            r == Err::<WorkBook, WriteError>(refusal(self@.book.phase))
        } else {
            &&& (r is Ok) == self.takes(encode_utf8(sheet_footer()))
            &&& match r {
                Ok(workbook) => {
                    &&& workbook.wf()
                    &&& workbook@ == (BookView {
                        parts: append_to_last(self@.book.parts, encode_utf8(sheet_footer())),
                        sheets: self@.book.sheets.push(self@.rows),
                        ..self@.book
                    })
                },
                Err(e) => e is Sink,
            }
        }
    }

    /// The number of rows written so far, which is the number of the row
    /// written last.
    pub fn row_index(&self) -> (n: usize)
        requires
            self.wf(),
        ensures
            n == self@.rows.len(),
    {
        self.row_index
    }

    /// Whether the archive of the workbook can still be written to.
    pub fn phase(&self) -> (phase: Phase)
        ensures
            phase == self@.book.phase,
    {
        self.workbook.phase()
    }

    /// Writes `row` as the next row of the sheet: the first row written gets
    /// the number 1, the second the number 2, and so on.
    ///
    /// A workbook that is not open refuses, and the writer is left as it is.
    /// A sheet that has as many rows as the machine can count takes no more:
    /// the error is `WriteError::Limit`, and the writer is left as it is.
    /// Otherwise the row is written exactly when the archive writer takes its
    /// XML. After success the worksheet part ends with the XML of the row
    /// under its number, and every cell of the row is one that can be built;
    /// after failure the workbook is broken.
    pub fn write_row(&mut self, row: Row) -> (r: Result<(), WriteError>)
        requires
            old(self).wf(),
        ensures
            final(self).wf(),
            old(self)@.book.phase != Phase::Open ==> r == Err::<(), WriteError>(
                refusal(old(self)@.book.phase),
            ) && final(self)@ == old(self)@,
            old(self)@.book.phase == Phase::Open && old(self)@.rows.len() == usize::MAX ==> r
                == Err::<(), WriteError>(WriteError::Limit) && final(self)@ == old(self)@,
            old(self)@.book.phase == Phase::Open && old(self)@.rows.len() < usize::MAX ==> {
                &&& (r is Ok) == old(self).takes(
                    encode_utf8(row_xml(row@, old(self)@.rows.len() + 1)),
                )
                &&& r matches Err(e) ==> e is Sink
                &&& final(self)@ == (SheetView {
                    book: BookView {
                        phase: phase_after(r is Ok),
                        parts: final(self)@.book.parts,
                        ..old(self)@.book
                    },
                    rows: if r is Ok {
                        old(self)@.rows.push(row@)
                    } else {
                        old(self)@.rows
                    },
                })
            },
            r is Ok ==> final(self)@.book.parts == append_to_last(
                old(self)@.book.parts,
                encode_utf8(row_xml(row@, old(self)@.rows.len() + 1)),
            ),
            r is Ok ==> forall|i: int|
                0 <= i < row@.len() ==> (#[trigger] row@[i]).well_formed(),
    {
        match self.workbook.phase() {
            Phase::Open => {},
            Phase::Finished => {
                return Err(WriteError::Finished);
            },
            Phase::Broken => {
                return Err(WriteError::Broken);
            },
        }
        let number: usize = match next_number(self.row_index) {
            Ok(number) => number,
            Err(e) => {
                return Err(e);
            },
        };
        let xml = row.to_xml(number);
        let r = self.workbook.write(xml.as_str());
        if r.is_ok() {
            proof {
                let rows = self.rows@;
                let book = old(self)@.book;
                let name = sheet_name(book.requested);
                lemma_sheet_body_push(rows, row@);
                lemma_utf8_concat(sheet_body(rows), row_xml(row@, rows.len() + 1));
                assert(append_to_last(book.parts, encode_utf8(row_xml(row@, rows.len() + 1)))
                    =~= sheet_parts(book.sheets).push(
                    (name, encode_utf8(sheet_body(rows.push(row@)))),
                ));
            }
            self.row_index = number;
            self.rows = Ghost(self.rows@.push(row@));
        }
        r
    }

    /// Finishes the sheet: writes the footer of the worksheet part and hands
    /// the workbook back, with this sheet as the last of its finished sheets.
    pub fn finish(self) -> (r: Result<WorkBook, WriteError>)
        requires
            self.wf(),
        ensures
            self.closes(r),
    {
        let ghost rows = self.rows@;
        let ghost book = self@.book;
        let mut writer = self;
        match writer.write_footer() {
            Ok(()) => {
                let mut workbook = writer.workbook;
                proof {
                    let name = sheet_name(book.requested);
                    lemma_utf8_concat(sheet_body(rows), sheet_footer());
                    assert(append_to_last(book.parts, encode_utf8(sheet_footer())) =~= sheet_parts(
                        book.sheets.push(rows),
                    ));
                }
                workbook.record_sheet(Ghost(rows));
                Ok(workbook)
            },
            Err(e) => Err(e),
        }
    }

    /// A writer for the sheet whose worksheet part was started last in the
    /// archive of `workbook`, after the header was written to that part.
    pub(crate) fn start(workbook: WorkBook) -> (r: Result<SheetWriter, WriteError>)
        requires
            workbook.inv(),
            workbook@.requested == workbook@.sheets.len() + 1,
            workbook@.phase == Phase::Open,
            workbook@.parts == sheet_parts(workbook@.sheets).push(
                (sheet_name(workbook@.requested), Seq::<u8>::empty()),
            ),
        ensures
            (r is Ok) == workbook.archive().takes(encode_utf8(sheet_header())),
            match r {
                Ok(writer) => {
                    &&& writer.wf()
                    &&& writer@.rows == Seq::<Seq<CellView>>::empty()
                    &&& writer@.book == (BookView {
                        parts: sheet_parts(workbook@.sheets).push(
                            (sheet_name(workbook@.requested), encode_utf8(sheet_header())),
                        ),
                        ..workbook@
                    })
                },
                Err(e) => e is Sink,
            },
    {
        let mut writer = SheetWriter { workbook, row_index: 0, rows: Ghost(Seq::empty()) };
        match writer.write_header() {
            Ok(()) => {
                proof {
                    assert(row_entries(Seq::<Seq<CellView>>::empty()) =~= Seq::<Seq<char>>::empty());
                    assert(sheet_body(Seq::<Seq<CellView>>::empty()) =~= sheet_header());
                    let name = sheet_name(workbook@.requested);
                    let done = sheet_parts(workbook@.sheets);
                    assert(Seq::<u8>::empty() + encode_utf8(sheet_header()) =~= encode_utf8(
                        sheet_header(),
                    ));
                    assert(append_to_last(
                        done.push((name, Seq::<u8>::empty())),
                        encode_utf8(sheet_header()),
                    ) =~= done.push((name, encode_utf8(sheet_header()))));
                }
                Ok(writer)
            },
            Err(e) => Err(e),
        }
    }

    /// Writes the header of the worksheet part: adds it to the end of the part
    /// started last.
    fn write_header(&mut self) -> (r: Result<(), WriteError>)
        requires
            old(self).inv(),
        ensures
            final(self).inv(),
            old(self)@.book.phase != Phase::Open ==> r == Err::<(), WriteError>(
                refusal(old(self)@.book.phase),
            ) && final(self)@ == old(self)@,
            old(self)@.book.phase == Phase::Open ==> (r is Ok) == old(self).takes(
                encode_utf8(sheet_header()),
            ),
            old(self)@.book.phase == Phase::Open ==> (r matches Err(e) ==> e is Sink),
            old(self)@.book.phase == Phase::Open ==> final(self)@ == (SheetView {
                book: BookView {
                    phase: phase_after(r is Ok),
                    parts: final(self)@.book.parts,
                    ..old(self)@.book
                },
                rows: old(self)@.rows,
            }),
            old(self)@.book.phase == Phase::Open && r is Ok ==> final(self)@.book.parts
                == append_to_last(old(self)@.book.parts, encode_utf8(sheet_header())),
    {
        self.workbook.write(
            "<?xml version=\"1.0\" encoding=\"UTF-8\" standalone=\"yes\"?>\n<worksheet xmlns=\"http://schemas.openxmlformats.org/spreadsheetml/2006/main\" xmlns:r=\"http://schemas.openxmlformats.org/officeDocument/2006/relationships\">\n<sheetData>\n",
        )
    }

    /// Writes the footer of the worksheet part.
    fn write_footer(&mut self) -> (r: Result<(), WriteError>)
        requires
            old(self).inv(),
        ensures
            final(self).inv(),
            old(self)@.book.phase != Phase::Open ==> r == Err::<(), WriteError>(
                refusal(old(self)@.book.phase),
            ) && final(self)@ == old(self)@,
            old(self)@.book.phase == Phase::Open ==> (r is Ok) == old(self).takes(
                encode_utf8(sheet_footer()),
            ),
            old(self)@.book.phase == Phase::Open ==> (r matches Err(e) ==> e is Sink),
            old(self)@.book.phase == Phase::Open ==> final(self)@ == (SheetView {
                book: BookView {
                    phase: phase_after(r is Ok),
                    parts: final(self)@.book.parts,
                    ..old(self)@.book
                },
                rows: old(self)@.rows,
            }),
            old(self)@.book.phase == Phase::Open && r is Ok ==> final(self)@.book.parts
                == append_to_last(old(self)@.book.parts, encode_utf8(sheet_footer())),
    {
        self.workbook.write("\n</sheetData>\n</worksheet>\n")
    }
}

} // verus!
