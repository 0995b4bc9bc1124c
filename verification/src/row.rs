//! Cells and rows, and the XML that stands for them in a sheet.

use vstd::prelude::*;
use vstd::string::StringExecFns;
use crate::escape::{
    is_character_data, lemma_escape_is_character_data, lemma_escape_round_trip, push_escaped,
    xml_escape, xml_unescape,
};
use crate::number::{check_number_literal, is_number_literal, lemma_number_literal_chars};
use crate::reference::{
    cell_reference, column_letters, lemma_column_letters_are_letters, push_cell_reference,
};
use crate::style::CellStyle;
use crate::text::{
    concat, decimal, lemma_concat_ends, lemma_concat_take, lemma_decimal_is_digits, push_decimal,
    push_signed_decimal, signed_decimal,
};

verus! {

/// What a cell holds.
pub enum Content {
    /// A number, as its literal.
    Number(Seq<char>),
    /// A text.
    Text(Seq<char>),
    /// A truth value.
    Boolean(bool),
}

/// A cell: what it holds, and the identifier of its style if it has one.
pub struct CellView {
    pub content: Content,
    pub style: Option<nat>,
}

impl CellView {
    /// Whether the cell is one that can be built: a number cell holds a
    /// number literal.
    pub open spec fn well_formed(self) -> bool {
        self.content matches Content::Number(literal) ==> is_number_literal(literal)
    }
}

#[derive(Debug)]
enum Payload {
    Number(String),
    Text(String),
    Boolean(bool),
}

/// The content of one cell, with the style it refers to if it has one. A
/// value does not change once it is built.
#[derive(Debug)]
pub struct CellValue {
    payload: Payload,
    style: Option<usize>,
}

impl View for CellValue {
    type V = CellView;

    closed spec fn view(&self) -> CellView {
        CellView {
            content: match self.payload {
                Payload::Number(literal) => Content::Number(literal@),
                Payload::Text(text) => Content::Text(text@),
                Payload::Boolean(value) => Content::Boolean(value),
            },
            style: match self.style {
                Some(id) => Some(id as nat),
                None => None,
            },
        }
    }
}

impl CellValue {
    #[verifier::type_invariant]
    spec fn holds_number_literal(self) -> bool {
        self@.well_formed()
    }

    /// A cell that holds the integer `n`, without a style.
    pub fn number(n: i64) -> (cell: CellValue)
        ensures
            cell@ == (CellView { content: Content::Number(signed_decimal(n as int)), style: None }),
            cell@.well_formed(),
    {
        let mut literal = String::new();
        push_signed_decimal(&mut literal, n);
        proof {
            assert(literal@ =~= signed_decimal(n as int));
            lemma_signed_decimal_is_literal(n as int);
        }
        CellValue { payload: Payload::Number(literal), style: None }
    }

    /// A cell that holds the number with literal `literal`, without a style;
    /// `None` if `literal` is no number literal.
    pub fn number_from_literal(literal: &str) -> (cell: Option<CellValue>)
        ensures
            cell is Some <==> is_number_literal(literal@),
            cell matches Some(c) ==> c@ == (CellView {
                content: Content::Number(literal@),
                style: None,
            }),
    {
        if check_number_literal(literal) {
            Some(CellValue { payload: Payload::Number(String::from_str(literal)), style: None })
        } else {
            None
        }
    }

    /// A cell that holds the text `text`, without a style.
    pub fn text(text: &str) -> (cell: CellValue)
        ensures
            cell@ == (CellView { content: Content::Text(text@), style: None }),
    {
        CellValue { payload: Payload::Text(String::from_str(text)), style: None }
    }

    /// A cell that holds the truth value `value`, without a style.
    pub fn boolean(value: bool) -> (cell: CellValue)
        ensures
            cell@ == (CellView { content: Content::Boolean(value), style: None }),
    {
        CellValue { payload: Payload::Boolean(value), style: None }
    }

    /// The same content, referring to `style`.
    pub fn with_style(self, style: &CellStyle) -> (cell: CellValue)
        ensures
            cell@ == (CellView { content: self@.content, style: Some(style.id() as nat) }),
            cell@.well_formed(),
    {
        proof {
            use_type_invariant(&self);
        }
        CellValue { payload: self.payload, style: Some(style.id()) }
    }

    /// The identifier of the style that the cell refers to, if it has one.
    pub fn style_id(&self) -> (id: Option<usize>)
        ensures
            id is Some <==> self@.style is Some,
            id matches Some(i) ==> self@.style == Some(i as nat),
    {
        self.style
    }

    /// Appends the XML of this cell, placed in 0-based column `column` of the
    /// row with number `row`, to `out`.
    pub fn write(&self, column: usize, row: usize, out: &mut String)
        ensures
            final(out)@ == old(out)@ + cell_xml(self@, column as nat, row as nat),
            self@.well_formed(),
    {
        proof {
            use_type_invariant(self);
        }
        out.append("<c r=\"");
        push_cell_reference(out, column, row);
        out.append("\"");
        match self.style {
            Some(id) => {
                out.append(" s=\"");
                push_decimal(out, id as u64);
                out.append("\"");
            },
            None => {},
        }
        let ghost opened = out@;
        assert(opened =~= old(out)@ + "<c r=\""@ + cell_reference(column as nat, row as nat) + "\""@
            + style_attribute(self@.style));
        match &self.payload {
            Payload::Number(literal) => {
                out.append("><v>");
                out.append(literal.as_str());
                out.append("</v></c>");
            },
            Payload::Text(text) => {
                out.append(" t=\"inlineStr\"><is><t>");
                push_escaped(out, text.as_str());
                out.append("</t></is></c>");
            },
            Payload::Boolean(value) => {
                out.append(" t=\"b\"><v>");
                if *value {
                    out.append("1");
                } else {
                    out.append("0");
                }
                out.append("</v></c>");
            },
        }
        assert(final(out)@ =~= opened + cell_body(self@.content));
        assert(final(out)@ =~= old(out)@ + cell_xml(self@, column as nat, row as nat));
    }
}

/// The literal of a truth value.
pub open spec fn boolean_literal(value: bool) -> Seq<char> {
    if value {
        "1"@
    } else {
        "0"@
    }
}

/// The style attribute of a cell element: the identifier of the style where
/// the cell has one, and nothing at all where it has none.
pub open spec fn style_attribute(style: Option<nat>) -> Seq<char> {
    match style {
        Some(id) => " s=\""@ + decimal(id) + "\""@,
        None => Seq::empty(),
    }
}

/// The rest of a cell element after its attributes of position and style:
/// the kind of the content and the content itself. A number is written as
/// its literal, a text as escaped inline character data, a truth value as
/// `1` or `0`.
pub open spec fn cell_body(content: Content) -> Seq<char> {
    match content {
        Content::Number(literal) => "><v>"@ + literal + "</v></c>"@,
        Content::Text(text) => " t=\"inlineStr\"><is><t>"@ + xml_escape(text) + "</t></is></c>"@,
        Content::Boolean(value) => " t=\"b\"><v>"@ + boolean_literal(value) + "</v></c>"@,
    }
}

/// The XML of a cell placed in 0-based column `column` of the row with
/// 1-based number `row`.
pub open spec fn cell_xml(cell: CellView, column: nat, row: nat) -> Seq<char> {
    "<c r=\""@ + cell_reference(column, row) + "\""@ + style_attribute(cell.style) + cell_body(
        cell.content,
    )
}

/// The XML of each cell of a row with number `row`: the cell at position
/// `i` stands in column `i`.
pub open spec fn cell_entries(cells: Seq<CellView>, row: nat) -> Seq<Seq<char>> {
    Seq::new(cells.len(), |i: int| cell_xml(cells[i], i as nat, row))
}

/// The tag that opens the row with number `row`.
pub open spec fn row_open(row: nat) -> Seq<char> {
    "<row r=\""@ + decimal(row) + "\">\n"@
}

/// The XML of a row with 1-based number `row`.
pub open spec fn row_xml(cells: Seq<CellView>, row: nat) -> Seq<char> {
    row_open(row) + concat(cell_entries(cells, row)) + "\n</row>\n"@
}

/// The decimal numeral of an integer is a number literal.
pub proof fn lemma_signed_decimal_is_literal(n: int)
    ensures
        is_number_literal(signed_decimal(n)),
{
    if n < 0 {
        lemma_decimal_is_digits((-n) as nat);
        assert(signed_decimal(n).skip(1) =~= decimal((-n) as nat));
        assert(signed_decimal(n)[0] == '-');
    } else {
        lemma_decimal_is_digits(n as nat);
    }
}

/// A cell without a style has no style attribute: its element goes from the
/// position straight to the content. A cell with a style carries exactly the
/// identifier of that style.
pub proof fn lemma_style_attribute(cell: CellView, column: nat, row: nat)
    ensures
        cell.style is None ==> cell_xml(cell, column, row) == "<c r=\""@ + cell_reference(
            column,
            row,
        ) + "\""@ + cell_body(cell.content),
        cell.style matches Some(id) ==> cell_xml(cell, column, row) == "<c r=\""@ + cell_reference(
            column,
            row,
        ) + "\" s=\""@ + decimal(id) + "\""@ + cell_body(cell.content),
{
    if cell.style is None {
        assert(cell_xml(cell, column, row) =~= "<c r=\""@ + cell_reference(column, row) + "\""@
            + cell_body(cell.content));
    } else {
        let id = cell.style->0;
        reveal_strlit("\"");
        reveal_strlit(" s=\"");
        reveal_strlit("\" s=\"");
        assert("\" s=\""@ =~= "\""@ + " s=\""@);
        assert(cell_xml(cell, column, row) =~= "<c r=\""@ + cell_reference(column, row)
            + "\" s=\""@ + decimal(id) + "\""@ + cell_body(cell.content));
    }
}

/// Whether `pattern` stands in `text` at position `i`.
pub open spec fn occurs_at(text: Seq<char>, pattern: Seq<char>, i: int) -> bool {
    &&& 0 <= i
    &&& i + pattern.len() <= text.len()
    &&& text.subrange(i, i + pattern.len()) == pattern
}

/// The text with which a style attribute begins inside a tag.
pub open spec fn style_marker() -> Seq<char> {
    seq![' ', 's', '=', '"']
}

/// Whether the XML of a cell holds a style attribute.
pub open spec fn has_style_attribute(xml: Seq<char>) -> bool {
    exists|i: int| occurs_at(xml, style_marker(), i)
}

/// The content of a cell, as it is written, holds no quotation mark.
proof fn lemma_payload_has_no_quote(content: Content, payload: Seq<char>, k: int)
    requires
        (CellView { content, style: None }).well_formed(),
        payload == match content {
            Content::Number(literal) => literal,
            Content::Text(text) => xml_escape(text),
            Content::Boolean(value) => boolean_literal(value),
        },
        0 <= k < payload.len(),
    ensures
        payload[k] != '"',
{
    match content {
        Content::Number(literal) => {
            lemma_number_literal_chars(literal, k);
        },
        Content::Text(text) => {
            lemma_escape_is_character_data(text);
        },
        Content::Boolean(value) => {
            reveal_strlit("1");
            reveal_strlit("0");
        },
    }
}

/// The XML of a cell that can be built holds a style attribute exactly when
/// the cell has a style: a cell without a style omits the attribute
/// entirely, whatever the cell holds.
pub proof fn lemma_style_attribute_iff_styled(cell: CellView, column: nat, row: nat)
    requires
        cell.well_formed(),
    ensures
        has_style_attribute(cell_xml(cell, column, row)) <==> cell.style is Some,
{
    let xml = cell_xml(cell, column, row);
    let open = "<c r=\""@;
    let quote = "\""@;
    let letters = column_letters(column);
    let digits = decimal(row);
    let reference = cell_reference(column, row);
    reveal_strlit("<c r=\"");
    reveal_strlit("\"");
    lemma_column_letters_are_letters(column);
    lemma_decimal_is_digits(row);
    assert(reference.len() == letters.len() + digits.len());
    assert(reference.last() == digits.last());
    match cell.style {
        Some(id) => {
            reveal_strlit(" s=\"");
            let at = (open.len() + reference.len() + 1) as int;
            assert(" s=\""@ =~= style_marker());
            assert(xml.subrange(at, at + 4) =~= style_marker());
            assert(occurs_at(xml, style_marker(), at));
        },
        None => {
            let payload = match cell.content {
                Content::Number(literal) => literal,
                Content::Text(text) => xml_escape(text),
                Content::Boolean(value) => boolean_literal(value),
            };
            let (before, after) = match cell.content {
                Content::Number(literal) => ("><v>"@, "</v></c>"@),
                Content::Text(text) => (" t=\"inlineStr\"><is><t>"@, "</t></is></c>"@),
                Content::Boolean(value) => (" t=\"b\"><v>"@, "</v></c>"@),
            };
            reveal_strlit("><v>");
            reveal_strlit("</v></c>");
            reveal_strlit(" t=\"inlineStr\"><is><t>");
            reveal_strlit("</t></is></c>");
            reveal_strlit(" t=\"b\"><v>");
            let body = cell_body(cell.content);
            assert(body == before + payload + after);
            let start = (open.len() + reference.len() + 1) as int;
            assert(xml =~= open + reference + quote + body);
            assert(xml.len() == start + body.len());
            assert forall|i: int| !occurs_at(xml, style_marker(), i) by {
                if occurs_at(xml, style_marker(), i) {
                    let found = xml.subrange(i, i + 4);
                    assert(found[0] == xml[i] && found[1] == xml[i + 1] && found[2] == xml[i + 2]
                        && found[3] == xml[i + 3]);
                    let j = i + 3;
                    assert(xml[j] == '"' && xml[j - 1] == '=' && xml[j - 2] == 's');
                    if j < open.len() {
                        assert(xml[j] == open[j]);
                        assert(xml[j - 2] == open[j - 2]);
                    } else if j < open.len() + reference.len() {
                        let k = j - open.len();
                        assert(xml[j] == reference[k]);
                        if k < letters.len() {
                            assert(reference[k] == letters[k]);
                        } else {
                            assert(reference[k] == digits[k - letters.len()]);
                        }
                    } else if j == open.len() + reference.len() {
                        assert(xml[j - 1] == reference.last());
                    } else {
                        let m = j - start;
                        assert(xml[j] == body[m]);
                        if m < before.len() {
                            assert(body[m] == before[m]);
                            if m >= 2 {
                                assert(xml[j - 1] == before[m - 1]);
                                assert(xml[j - 2] == before[m - 2]);
                            }
                        } else if m < before.len() + payload.len() {
                            assert(body[m] == payload[m - before.len()]);
                            lemma_payload_has_no_quote(cell.content, payload, m - before.len());
                        } else {
                            assert(body[m] == after[m - before.len() - payload.len()]);
                        }
                    }
                }
            }
        },
    }
}

/// The XML of a row is one row element that holds one cell element for each
/// cell and nothing else: the tag that opens the row under its number, the
/// cells in the order of their columns, and the tag that closes the row. The
/// cell at position `i` is written for column `i` of that row.
pub proof fn lemma_row_layout(cells: Seq<CellView>, row: nat, i: int)
    requires
        0 <= i < cells.len(),
    ensures
        row_xml(cells, row) == row_open(row) + concat(cell_entries(cells, row)) + "\n</row>\n"@,
        cell_entries(cells, row).len() == cells.len(),
        cell_entries(cells, row)[i] == cell_xml(cells[i], i as nat, row),
{
}

/// The text of a text cell is written escaped between the tags of inline
/// text: what is written holds no raw markup, so that it can neither open nor
/// close an element, and decoding its entity references gives the text of
/// the cell. The decoding is that of the five predefined entities only: a
/// carriage return or a control character in the text is written as it is,
/// and an XML parser changes or refuses it.
pub proof fn lemma_text_cell_reads_back(text: Seq<char>)
    ensures
        cell_body(Content::Text(text)) == " t=\"inlineStr\"><is><t>"@ + xml_escape(text)
            + "</t></is></c>"@,
        is_character_data(xml_escape(text)),
        xml_unescape(xml_escape(text)) == text,
{
    lemma_escape_is_character_data(text);
    lemma_escape_round_trip(text);
}

/// One row of a sheet: its cells in the order of their columns.
#[derive(Debug)]
pub struct Row {
    cells: Vec<CellValue>,
}

impl View for Row {
    type V = Seq<CellView>;

    closed spec fn view(&self) -> Seq<CellView> {
        Seq::new(self.cells@.len(), |i: int| self.cells@[i]@)
    }
}

impl Row {
    /// A row without cells.
    pub fn new() -> (row: Row)
        ensures
            row@ == Seq::<CellView>::empty(),
    {
        let row = Row { cells: Vec::new() };
        assert(row@ =~= Seq::<CellView>::empty());
        row
    }

    /// Adds `cell` as the last cell of the row.
    pub fn add_cell(&mut self, cell: CellValue)
        ensures
            final(self)@ == old(self)@.push(cell@),
    {
        self.cells.push(cell);
        assert(final(self)@ =~= old(self)@.push(cell@));
    }

    /// The number of cells in the row.
    pub fn len(&self) -> (n: usize)
        ensures
            n == self@.len(),
    {
        self.cells.len()
    }

    /// The cells of the row, in the order of their columns.
    pub fn cells(&self) -> (cells: &Vec<CellValue>)
        ensures
            cells@.len() == self@.len(),
            forall|i: int| 0 <= i < cells@.len() ==> (#[trigger] cells@[i])@ == self@[i],
    {
        &self.cells
    }

    /// The XML of this row as the row with 1-based number `row`. Every cell
    /// of a row is one that can be built.
    pub fn to_xml(&self, row: usize) -> (xml: String)
        ensures
            xml@ == row_xml(self@, row as nat),
            forall|i: int| 0 <= i < self@.len() ==> (#[trigger] self@[i]).well_formed(),
    {
        let ghost entries = cell_entries(self@, row as nat);
        let mut out = String::new();
        out.append("<row r=\"");
        push_decimal(&mut out, row as u64);
        out.append("\">\n");
        let ghost head = out@;
        proof {
            assert(head =~= row_open(row as nat));
            lemma_concat_ends(entries);
            assert(out@ =~= head + concat(entries.take(0)));
        }
        let n: usize = self.cells.len();
        let mut i: usize = 0;
        while i < n
            invariant
                n == self.cells@.len(),
                entries == cell_entries(self@, row as nat),
                0 <= i <= n,
                out@ == head + concat(entries.take(i as int)),
                forall|j: int| 0 <= j < i ==> (#[trigger] self@[j]).well_formed(),
            decreases n - i,
        {
            proof {
                lemma_concat_take(entries, i as int);
            }
            self.cells[i].write(i, row, &mut out);
            i = i + 1;
            assert(out@ =~= head + concat(entries.take(i as int)));
        }
        out.append("\n</row>\n");
        proof {
            lemma_concat_ends(entries);
            assert(out@ =~= row_xml(self@, row as nat));
        }
        out
    }
}

} // verus!
