//! The workbook: the archive of the package, the registry of styles, and the
//! count of sheets.

use vstd::prelude::*;
use vstd::utf8::encode_utf8;
use vstd::string::StringExecFns;
use crate::archive::{
    append_to_last, fills, given_up, next_number, part_views, phase_after, refusal, Archive,
    Phase, WriteError,
};
use crate::package::{
    content_types_name, content_types_part, content_types_xml, root_relationships_name,
    lemma_sheet_names_distinct, root_relationships_part, root_relationships_xml, sheet_name,
    styles_name, workbook_name,
    workbook_part, workbook_relationships_name, workbook_relationships_part,
    workbook_relationships_xml, workbook_xml,
};
use crate::row::CellView;
use crate::sheet::{row_entries, sheet_footer, sheet_header, sheet_xml, Sheet};
use crate::text::concat;
use crate::style::{
    ids_in_order, next_style_id, style_defs, styles_part, styles_xml, CellStyle, Color, StyleDef,
};

verus! {

/// A workbook as contracts see it.
pub struct BookView {
    /// The parts of the archive, each with its name and the bytes written to
    /// it so far.
    pub parts: Seq<(Seq<char>, Seq<u8>)>,
    /// Whether the archive can still be written to.
    pub phase: Phase,
    /// The styles registered, in order of registration.
    pub styles: Seq<StyleDef>,
    /// The rows of each finished sheet, in order of creation.
    pub sheets: Seq<Seq<Seq<CellView>>>,
    /// The number of sheets requested.
    pub requested: nat,
}

/// The worksheet part of the finished sheet with identifier `id` and the
/// rows `rows`.
pub open spec fn sheet_part(id: nat, rows: Seq<Seq<CellView>>) -> (Seq<char>, Seq<u8>) {
    (sheet_name(id), encode_utf8(sheet_xml(rows)))
}

/// The worksheet parts of the finished sheets `sheets`: the sheet at
/// position `i` has the identifier `i + 1`.
pub open spec fn sheet_parts(sheets: Seq<Seq<Seq<CellView>>>) -> Seq<(Seq<char>, Seq<u8>)> {
    Seq::new(sheets.len(), |i: int| sheet_part((i + 1) as nat, sheets[i]))
}

/// The parts that finishing adds to a package with `sheets` sheets and the
/// styles `styles`: the content types, the relationships of the root, the
/// workbook part, its relationships, and the shared styles.
pub open spec fn fixed_parts(sheets: nat, styles: Seq<StyleDef>) -> Seq<(Seq<char>, Seq<u8>)> {
    seq![
        (content_types_name(), encode_utf8(content_types_xml(sheets))),
        (root_relationships_name(), encode_utf8(root_relationships_xml())),
        (workbook_name(), encode_utf8(workbook_xml(sheets))),
        (workbook_relationships_name(), encode_utf8(workbook_relationships_xml(sheets))),
        (styles_name(), encode_utf8(styles_xml(styles))),
    ]
}

/// The parts of a finished package: one worksheet part for each sheet, in
/// order of creation, and then the fixed parts.
pub open spec fn package(sheets: Seq<Seq<Seq<CellView>>>, styles: Seq<StyleDef>) -> Seq<
    (Seq<char>, Seq<u8>),
> {
    sheet_parts(sheets) + fixed_parts(sheets.len(), styles)
}

/// The layout of a finished package. It holds one worksheet part for each
/// sheet and five fixed parts after them. The worksheet part at position `i`
/// is the one of the sheet with identifier `i + 1`: it is named after that
/// identifier and holds the finished sheet, from header to footer, with the
/// rows of that sheet.
pub proof fn lemma_package_layout(
    sheets: Seq<Seq<Seq<CellView>>>,
    styles: Seq<StyleDef>,
    i: int,
)
    requires
        0 <= i < sheets.len(),
    ensures
        package(sheets, styles).len() == sheets.len() + 5,
        package(sheets, styles)[i] == (
            sheet_name((i + 1) as nat),
            encode_utf8(sheet_header() + concat(row_entries(sheets[i])) + sheet_footer()),
        ),
        package(sheets, styles).skip(sheets.len() as int) == fixed_parts(
            sheets.len(),
            styles,
        ),
{
    assert(package(sheets, styles).skip(sheets.len() as int) =~= fixed_parts(
        sheets.len(),
        styles,
    ));
}

/// No two worksheet parts of a package have the same name.
pub proof fn lemma_sheet_parts_distinct(sheets: Seq<Seq<Seq<CellView>>>, i: int, j: int)
    requires
        0 <= i < sheets.len(),
        0 <= j < sheets.len(),
        sheet_parts(sheets)[i].0 == sheet_parts(sheets)[j].0,
    ensures
        i == j,
{
    lemma_sheet_names_distinct((i + 1) as nat, (j + 1) as nat);
}

/// The names and texts of the parts that finishing adds to a package with
/// `sheets` sheets and the styles `styles`, in the order in which they are
/// added.
pub fn fixed_part_list(sheets: usize, styles: &Vec<CellStyle>) -> (parts: Vec<(String, String)>)
    ensures
        part_views(parts@) == fixed_parts(sheets as nat, style_defs(styles@)),
{
    let mut parts: Vec<(String, String)> = Vec::new();
    parts.push((String::from_str("[Content_Types].xml"), content_types_part(sheets)));
    parts.push((String::from_str("_rels/.rels"), root_relationships_part()));
    parts.push((String::from_str("xl/workbook.xml"), workbook_part(sheets)));
    parts.push(
        (String::from_str("xl/_rels/workbook.xml.rels"), workbook_relationships_part(sheets)),
    );
    parts.push((String::from_str("xl/styles.xml"), styles_part(styles)));
    proof {
        assert(part_views(parts@) =~= fixed_parts(sheets as nat, style_defs(styles@)));
    }
    parts
}

impl BookView {
    /// Whether no sheet is being written: every sheet requested is finished,
    /// and an open archive holds the worksheet parts of the finished sheets
    /// and nothing else.
    pub open spec fn settled(self) -> bool {
        &&& self.requested == self.sheets.len()
        &&& self.phase == Phase::Open ==> self.parts == sheet_parts(self.sheets)
    }
}

/// A spreadsheet document under construction.
pub struct WorkBook {
    archive: Archive,
    styles: Vec<CellStyle>,
    sheet_count: usize,
    sheets: Ghost<Seq<Seq<Seq<CellView>>>>,
}

impl View for WorkBook {
    type V = BookView;

    closed spec fn view(&self) -> BookView {
        BookView {
            parts: self.archive.parts(),
            phase: self.archive.phase(),
            styles: style_defs(self.styles@),
            sheets: self.sheets@,
            requested: self.sheet_count as nat,
        }
    }
}

impl WorkBook {
    /// The archive of the workbook.
    pub closed spec fn archive(&self) -> Archive {
        self.archive
    }

    /// The parts and the phase of a workbook are those of its archive.
    pub proof fn lemma_archive(self)
        ensures
            self.archive().parts() == self@.parts,
            self.archive().phase() == self@.phase,
    {
    }

    /// The invariant of the registry: every style has its position as its
    /// identifier.
    pub closed spec fn inv(&self) -> bool {
        ids_in_order(self.styles@)
    }

    /// Whether the workbook is in order and no sheet of it is being written.
    /// The number of sheets requested is one that the machine can count.
    pub open spec fn wf(&self) -> bool {
        self.inv() && self@.settled() && self@.requested <= usize::MAX
    }

    /// A workbook without styles and sheets, whose archive will be written to
    /// the buffer `sink` in place of what the buffer holds.
    pub fn new(sink: Vec<u8>) -> (workbook: WorkBook)
        ensures
            workbook.wf(),
            workbook@ == (BookView {
                parts: Seq::empty(),
                phase: Phase::Open,
                styles: Seq::empty(),
                sheets: Seq::empty(),
                requested: 0,
            }),
    {
        let workbook = WorkBook {
            archive: Archive::new(sink),
            styles: Vec::new(),
            sheet_count: 0,
            sheets: Ghost(Seq::empty()),
        };
        proof {
            assert(workbook@.styles =~= Seq::<StyleDef>::empty());
            assert(sheet_parts(workbook@.sheets) =~= Seq::<(Seq<char>, Seq<u8>)>::empty());
        }
        workbook
    }

    /// Registers a style with the colours given and hands out its handle. The
    /// identifier of the style is the number of styles registered before it.
    /// Nothing is written: the styles are written when the workbook is
    /// finished.
    pub fn create_cell_style(&mut self, foreground: Color, background: Color) -> (style: CellStyle)
        requires
            old(self).wf(),
        ensures
            final(self).wf(),
            style.id() == next_style_id(old(self)@.styles),
            style@ == (StyleDef { foreground, background }),
            final(self)@ == (BookView {
                styles: old(self)@.styles.push(StyleDef { foreground, background }),
                ..old(self)@
            }),
    {
        let style = CellStyle::new(self.styles.len(), foreground, background);
        self.styles.push(style);
        proof {
            assert(final(self)@.styles =~= old(self)@.styles.push(
                StyleDef { foreground, background },
            ));
        }
        style
    }

    /// The styles registered so far, in order of registration. The style at
    /// position `i` has the identifier `i`.
    pub fn styles(&self) -> (styles: &Vec<CellStyle>)
        requires
            self.wf(),
        ensures
            style_defs(styles@) == self@.styles,
            ids_in_order(styles@),
    {
        &self.styles
    }

    /// The number of sheets requested so far.
    pub fn sheet_count(&self) -> (n: usize)
        ensures
            n == self@.requested,
    {
        self.sheet_count
    }

    /// The number of styles registered so far.
    pub fn style_count(&self) -> (n: usize)
        ensures
            n == self@.styles.len(),
    {
        self.styles.len()
    }

    /// Whether the archive of the workbook can still be written to.
    pub fn phase(&self) -> (phase: Phase)
        ensures
            phase == self@.phase,
    {
        self.archive.phase()
    }

    /// Requests the next sheet. The sheet gets the next identifier, counted
    /// from 1, and holds the workbook until it is written and finished.
    ///
    /// A workbook that has requested as many sheets as the machine can count
    /// has no identifier left: it is given up, and the sheet cannot be
    /// written.
    pub fn get_new_sheet(self) -> (sheet: Sheet)
        requires
            self.wf(),
        ensures
            sheet.wf(),
            self@.requested < usize::MAX ==> {
                &&& sheet.id() == self@.requested + 1
                &&& sheet.book() == (BookView { requested: self@.requested + 1, ..self@ })
            },
            self@.requested == usize::MAX ==> {
                &&& sheet.id() == usize::MAX
                &&& sheet.book() == (BookView { phase: given_up(self@.phase), ..self@ })
            },
    {
        let mut workbook = self;
        match next_number(workbook.sheet_count) {
            Ok(id) => {
                workbook.sheet_count = id;
            },
            Err(_) => {
                workbook.archive.abandon();
            },
        }
        Sheet::new(workbook.sheet_count, workbook)
    }

    /// Finishes the document: adds the fixed parts to the archive, closes the
    /// archive, and hands back the buffer that holds it.
    ///
    /// A workbook that is not open refuses and is left as it is: finishing a
    /// second time changes nothing and returns `WriteError::Finished`.
    /// Otherwise the document is finished exactly when the archive writer
    /// accepts each of the fixed parts in its turn and then closes the
    /// archive. After success the archive holds the whole package, and the
    /// buffer handed back holds the image of an open archive with exactly the
    /// parts of that package; after failure the workbook is broken.
    pub fn finish(&mut self) -> (r: Result<Vec<u8>, WriteError>)
        requires
            old(self).wf(),
        ensures
            final(self).wf(),
            old(self)@.phase != Phase::Open ==> r == Err::<Vec<u8>, WriteError>(
                refusal(old(self)@.phase),
            ) && *final(self) == *old(self),
            old(self)@.phase == Phase::Open ==> (r matches Err(e) ==> e is Archive || e is Sink),
            old(self)@.phase == Phase::Open ==> final(self)@ == (BookView {
                phase: if r is Ok {
                    Phase::Finished
                } else {
                    Phase::Broken
                },
                parts: final(self)@.parts,
                ..old(self)@
            }),
            old(self)@.phase == Phase::Open && r is Ok ==> final(self)@.parts == package(
                old(self)@.sheets,
                old(self)@.styles,
            ),
            r matches Ok(buffer) ==> exists|archive: Archive|
                #![trigger archive.image()]
                {
                    &&& archive.phase() == Phase::Open
                    &&& archive.parts() == package(old(self)@.sheets, old(self)@.styles)
                    &&& buffer@ == archive.image()
                },
            old(self)@.phase == Phase::Open ==> exists|
                trail: Seq<(Archive, Archive)>,
                accepted: bool,
                end: Archive,
            |
                #[trigger] fills(
                    old(self).archive(),
                    fixed_parts(old(self)@.sheets.len(), old(self)@.styles),
                    trail,
                    accepted,
                    end,
                ) && (r is Ok) == (accepted && end.closes()),
    {
        let parts = fixed_part_list(self.sheet_count, &self.styles);
        let ghost fixed = fixed_parts(old(self)@.sheets.len(), old(self)@.styles);
        proof {
            assert(part_views(parts@).skip(0) =~= fixed);
        }
        match self.archive.add_parts(&parts, 0) {
            Ok(()) => {},
            Err(e) => {
                proof {
                    if old(self)@.phase == Phase::Open {
                        let (trail, accepted) = choose|
                            trail: Seq<(Archive, Archive)>,
                            accepted: bool,
                        |
                            #[trigger] fills(
                                old(self).archive(),
                                fixed,
                                trail,
                                accepted,
                                self.archive,
                            ) && !accepted;
                        assert(fills(old(self).archive(), fixed, trail, accepted, self.archive));
                    }
                }
                return Err(e);
            },
        }
        let ghost complete = self.archive;
        proof {
            assert(complete.parts() =~= package(old(self)@.sheets, old(self)@.styles));
            let (trail, accepted) = choose|trail: Seq<(Archive, Archive)>, accepted: bool|
                #[trigger] fills(old(self).archive(), fixed, trail, accepted, complete)
                    && accepted;
            assert(fills(old(self).archive(), fixed, trail, accepted, complete));
        }
        let r = self.archive.close();
        proof {
            if r is Ok {
                assert(complete.phase() == Phase::Open);
                assert(complete.parts() == package(old(self)@.sheets, old(self)@.styles));
                assert(r->Ok_0@ == complete.image());
            }
        }
        r
    }

    /// Starts a part named `name` in the archive of the workbook.
    pub(crate) fn start_part(&mut self, name: &str) -> (r: Result<(), WriteError>)
        requires
            old(self).inv(),
        ensures
            final(self).inv(),
            old(self)@.phase != Phase::Open ==> r == Err::<(), WriteError>(
                refusal(old(self)@.phase),
            ) && final(self)@ == old(self)@,
            old(self)@.phase == Phase::Open ==> (r is Ok) == old(self).archive().starts(name@),
            old(self)@.phase == Phase::Open ==> (r matches Err(e) ==> e is Archive),
            old(self)@.phase == Phase::Open ==> final(self)@ == (BookView {
                phase: phase_after(r is Ok),
                parts: final(self)@.parts,
                ..old(self)@
            }),
            old(self)@.phase == Phase::Open && r is Ok ==> final(self)@.parts
                == old(self)@.parts.push((name@, Seq::<u8>::empty())),
    {
        self.archive.start_part(name)
    }

    /// Writes `text` to the part started last in the archive of the workbook.
    pub(crate) fn write(&mut self, text: &str) -> (r: Result<(), WriteError>)
        requires
            old(self).inv(),
        ensures
            final(self).inv(),
            old(self)@.phase != Phase::Open ==> r == Err::<(), WriteError>(
                refusal(old(self)@.phase),
            ) && final(self)@ == old(self)@,
            old(self)@.phase == Phase::Open ==> (r is Ok) == old(self).archive().takes(
                encode_utf8(text@),
            ),
            old(self)@.phase == Phase::Open ==> (r matches Err(e) ==> e is Sink),
            old(self)@.phase == Phase::Open ==> final(self)@ == (BookView {
                phase: phase_after(r is Ok),
                parts: final(self)@.parts,
                ..old(self)@
            }),
            old(self)@.phase == Phase::Open && r is Ok ==> final(self)@.parts == append_to_last(
                old(self)@.parts,
                encode_utf8(text@),
            ),
    {
        self.archive.write(text)
    }

    /// Records that the sheet being written is finished with the rows `rows`.
    pub(crate) fn record_sheet(&mut self, rows: Ghost<Seq<Seq<CellView>>>)
        requires
            old(self).inv(),
        ensures
            final(self).inv(),
            final(self)@ == (BookView { sheets: old(self)@.sheets.push(rows@), ..old(self)@ }),
            final(self)@.requested <= usize::MAX,
    {
        self.sheets = Ghost(self.sheets@.push(rows@));
    }
}

} // verus!
