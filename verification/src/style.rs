//! Cell styles and the shared-styles part that defines them.

use vstd::prelude::*;
use vstd::string::StringExecFns;
use crate::text::{
    concat, decimal, hex_byte, lemma_concat_ends, lemma_concat_take, push_decimal,
    push_decimal_wide, push_hex_byte,
};

verus! {

/// A colour as red, green and blue.
pub type Color = (u8, u8, u8);

/// What a style defines: the colour of the text and the colour behind it.
pub struct StyleDef {
    pub foreground: Color,
    pub background: Color,
}

/// A handle to a style registered with a workbook. It carries the identifier
/// by which cells refer to the style; only a workbook makes one.
#[derive(Clone, Copy, Debug)]
pub struct CellStyle {
    id: usize,
    foreground: Color,
    background: Color,
}

impl View for CellStyle {
    type V = StyleDef;

    closed spec fn view(&self) -> StyleDef {
        StyleDef { foreground: self.foreground, background: self.background }
    }
}

impl CellStyle {
    /// The identifier of the style.
    pub closed spec fn spec_id(&self) -> usize {
        self.id
    }

    /// The handle of the style with identifier `id` and the colours given.
    pub(crate) fn new(id: usize, foreground: Color, background: Color) -> (style: CellStyle)
        ensures
            style.spec_id() == id,
            style@ == (StyleDef { foreground, background }),
    {
        CellStyle { id, foreground, background }
    }

    /// The identifier of the style.
    #[verifier::when_used_as_spec(spec_id)]
    pub fn id(&self) -> (id: usize)
        ensures
            id == self.spec_id(),
    {
        self.id
    }

    /// The colour of the text.
    pub fn foreground(&self) -> (color: Color)
        ensures
            color == self@.foreground,
    {
        self.foreground
    }

    /// The colour behind the text.
    pub fn background(&self) -> (color: Color)
        ensures
            color == self@.background,
    {
        self.background
    }
}

/// What each style of a registry defines, in order of registration.
pub open spec fn style_defs(styles: Seq<CellStyle>) -> Seq<StyleDef> {
    Seq::new(styles.len(), |i: int| styles[i]@)
}

/// Whether each style of a registry has its position as its identifier.
pub open spec fn ids_in_order(styles: Seq<CellStyle>) -> bool {
    forall|i: int| 0 <= i < styles.len() ==> (#[trigger] styles[i]).spec_id() == i
}

/// The identifier that the next style registered with `registry` gets: the
/// number of styles registered before it.
pub open spec fn next_style_id(registry: Seq<StyleDef>) -> nat {
    registry.len()
}

/// The identifiers handed out when the definitions `defs` are registered one
/// after the other with a registry that holds `registry` already.
pub open spec fn registered_ids(registry: Seq<StyleDef>, defs: Seq<StyleDef>) -> Seq<nat>
    decreases defs.len(),
{
    if defs.len() == 0 {
        Seq::empty()
    } else {
        seq![next_style_id(registry)] + registered_ids(registry.push(defs[0]), defs.drop_first())
    }
}

/// The colour as opaque ARGB in eight hexadecimal digits.
pub open spec fn color_hex(color: Color) -> Seq<char> {
    "FF"@ + hex_byte(color.0) + hex_byte(color.1) + hex_byte(color.2)
}

/// The font definition for a text colour.
pub open spec fn font_xml(color: Color) -> Seq<char> {
    "<font><color rgb=\""@ + color_hex(color) + "\"/></font>"@
}

/// The fill definition for a background colour.
pub open spec fn fill_xml(color: Color) -> Seq<char> {
    "<fill><patternFill patternType=\"solid\"><fgColor rgb=\""@ + color_hex(color)
        + "\"/></patternFill></fill>"@
}

/// The cell format with identifier `id`: it selects the font and the fill
/// that were defined for the style with that identifier.
pub open spec fn format_xml(id: nat) -> Seq<char> {
    "<xf fontId=\""@ + decimal(id + 1) + "\" fillId=\""@ + decimal(id + 2)
        + "\" applyFont=\"1\" applyFill=\"1\"/>"@
}

/// The font definitions of the styles, one for each, in order.
pub open spec fn font_entries(defs: Seq<StyleDef>) -> Seq<Seq<char>> {
    Seq::new(defs.len(), |i: int| font_xml(defs[i].foreground))
}

/// The fill definitions of the styles, one for each, in order.
pub open spec fn fill_entries(defs: Seq<StyleDef>) -> Seq<Seq<char>> {
    Seq::new(defs.len(), |i: int| fill_xml(defs[i].background))
}

/// The cell formats of `count` styles, one for each, in order of identifier.
pub open spec fn format_entries(count: nat) -> Seq<Seq<char>> {
    Seq::new(count, |i: int| format_xml(i as nat))
}

/// The shared-styles part for the styles `defs`. The list of cell formats
/// holds one entry for each style, at the position that is the style's
/// identifier. The list of fonts holds the default font and then one for
/// each style; the list of fills holds the two fills that the format
/// reserves and then one for each style.
pub open spec fn styles_xml(defs: Seq<StyleDef>) -> Seq<char> {
    "<?xml version=\"1.0\" encoding=\"UTF-8\" standalone=\"yes\"?>\n<styleSheet xmlns=\"http://schemas.openxmlformats.org/spreadsheetml/2006/main\"><fonts count=\""@
        + decimal(defs.len() + 1) + "\"><font/>"@ + concat(font_entries(defs))
        + "</fonts><fills count=\""@ + decimal(defs.len() + 2)
        + "\"><fill><patternFill patternType=\"none\"/></fill><fill><patternFill patternType=\"gray125\"/></fill>"@
        + concat(fill_entries(defs))
        + "</fills><borders count=\"1\"><border/></borders><cellStyleXfs count=\"1\"><xf/></cellStyleXfs><cellXfs count=\""@
        + decimal(defs.len()) + "\">"@ + concat(format_entries(defs.len()))
        + "</cellXfs></styleSheet>"@
}

/// Registering definitions one after the other hands out consecutive
/// identifiers: the definition at position `k` gets the number of styles that
/// were registered before it. From an empty registry, the first style gets 0
/// and the `n`-th gets `n - 1`.
pub proof fn lemma_registered_ids(registry: Seq<StyleDef>, defs: Seq<StyleDef>, k: int)
    requires
        0 <= k < defs.len(),
    ensures
        registered_ids(registry, defs).len() == defs.len(),
        registered_ids(registry, defs)[k] == registry.len() + k,
    decreases defs.len(),
{
    lemma_registered_ids_len(registry, defs);
    lemma_registered_ids_len(registry.push(defs[0]), defs.drop_first());
    if k > 0 {
        lemma_registered_ids(registry.push(defs[0]), defs.drop_first(), k - 1);
    }
}

/// As many identifiers are handed out as definitions are registered.
pub proof fn lemma_registered_ids_len(registry: Seq<StyleDef>, defs: Seq<StyleDef>)
    ensures
        registered_ids(registry, defs).len() == defs.len(),
    decreases defs.len(),
{
    if defs.len() > 0 {
        lemma_registered_ids_len(registry.push(defs[0]), defs.drop_first());
    }
}

/// The shared-styles part lists exactly one cell format, one font and one
/// fill for each style, and the entries at position `k` are those of the
/// style with identifier `k`.
pub proof fn lemma_styles_listed_in_order(defs: Seq<StyleDef>, k: int)
    requires
        0 <= k < defs.len(),
    ensures
        format_entries(defs.len()).len() == defs.len(),
        font_entries(defs).len() == defs.len(),
        fill_entries(defs).len() == defs.len(),
        format_entries(defs.len())[k] == format_xml(k as nat),
        font_entries(defs)[k] == font_xml(defs[k].foreground),
        fill_entries(defs)[k] == fill_xml(defs[k].background),
{
}

/// Appends the eight hexadecimal digits of `color` to `out`.
fn push_color_hex(out: &mut String, color: Color)
    ensures
        final(out)@ == old(out)@ + color_hex(color),
{
    out.append("FF");
    push_hex_byte(out, color.0);
    push_hex_byte(out, color.1);
    push_hex_byte(out, color.2);
    assert(final(out)@ =~= old(out)@ + color_hex(color));
}

/// Appends the font definition for `color` to `out`.
fn push_font(out: &mut String, color: Color)
    ensures
        final(out)@ == old(out)@ + font_xml(color),
{
    out.append("<font><color rgb=\"");
    push_color_hex(out, color);
    out.append("\"/></font>");
    assert(final(out)@ =~= old(out)@ + font_xml(color));
}

/// Appends the fill definition for `color` to `out`.
fn push_fill(out: &mut String, color: Color)
    ensures
        final(out)@ == old(out)@ + fill_xml(color),
{
    out.append("<fill><patternFill patternType=\"solid\"><fgColor rgb=\"");
    push_color_hex(out, color);
    out.append("\"/></patternFill></fill>");
    assert(final(out)@ =~= old(out)@ + fill_xml(color));
}

/// Appends the cell format with identifier `id` to `out`.
fn push_format(out: &mut String, id: usize)
    ensures
        final(out)@ == old(out)@ + format_xml(id as nat),
{
    out.append("<xf fontId=\"");
    push_decimal_wide(out, (id as u128) + 1);
    out.append("\" fillId=\"");
    push_decimal_wide(out, (id as u128) + 2);
    out.append("\" applyFont=\"1\" applyFill=\"1\"/>");
    assert(final(out)@ =~= old(out)@ + format_xml(id as nat));
}

/// The shared-styles part for the styles of a registry.
pub fn styles_part(styles: &Vec<CellStyle>) -> (part: String)
    ensures
        part@ == styles_xml(style_defs(styles@)),
{
    let ghost defs = style_defs(styles@);
    let n: usize = styles.len();
    let mut out = String::new();
    out.append(
        "<?xml version=\"1.0\" encoding=\"UTF-8\" standalone=\"yes\"?>\n<styleSheet xmlns=\"http://schemas.openxmlformats.org/spreadsheetml/2006/main\"><fonts count=\"",
    );
    push_decimal_wide(&mut out, (n as u128) + 1);
    out.append("\"><font/>");
    let ghost head = out@;
    proof {
        lemma_concat_ends(font_entries(defs));
        assert(out@ =~= head + concat(font_entries(defs).take(0)));
    }
    let mut i: usize = 0;
    while i < n
        invariant
            n == styles.len(),
            defs == style_defs(styles@),
            0 <= i <= n,
            out@ == head + concat(font_entries(defs).take(i as int)),
        decreases n - i,
    {
        proof {
            lemma_concat_take(font_entries(defs), i as int);
        }
        push_font(&mut out, styles[i].foreground());
        i = i + 1;
        assert(out@ =~= head + concat(font_entries(defs).take(i as int)));
    }
    out.append("</fonts><fills count=\"");
    push_decimal_wide(&mut out, (n as u128) + 2);
    out.append(
        "\"><fill><patternFill patternType=\"none\"/></fill><fill><patternFill patternType=\"gray125\"/></fill>",
    );
    let ghost head2 = out@;
    proof {
        lemma_concat_ends(fill_entries(defs));
        assert(out@ =~= head2 + concat(fill_entries(defs).take(0)));
    }
    let mut j: usize = 0;
    while j < n
        invariant
            n == styles.len(),
            defs == style_defs(styles@),
            0 <= j <= n,
            out@ == head2 + concat(fill_entries(defs).take(j as int)),
        decreases n - j,
    {
        proof {
            lemma_concat_take(fill_entries(defs), j as int);
        }
        push_fill(&mut out, styles[j].background());
        j = j + 1;
        assert(out@ =~= head2 + concat(fill_entries(defs).take(j as int)));
    }
    out.append(
        "</fills><borders count=\"1\"><border/></borders><cellStyleXfs count=\"1\"><xf/></cellStyleXfs><cellXfs count=\"",
    );
    push_decimal(&mut out, n as u64);
    out.append("\">");
    let ghost head3 = out@;
    proof {
        lemma_concat_ends(format_entries(n as nat));
        assert(out@ =~= head3 + concat(format_entries(n as nat).take(0)));
    }
    let mut k: usize = 0;
    while k < n
        invariant
            0 <= k <= n,
            out@ == head3 + concat(format_entries(n as nat).take(k as int)),
        decreases n - k,
    {
        proof {
            lemma_concat_take(format_entries(n as nat), k as int);
        }
        push_format(&mut out, k);
        k = k + 1;
        assert(out@ =~= head3 + concat(format_entries(n as nat).take(k as int)));
    }
    out.append("</cellXfs></styleSheet>");
    proof {
        lemma_concat_ends(font_entries(defs));
        lemma_concat_ends(fill_entries(defs));
        lemma_concat_ends(format_entries(n as nat));
        assert(out@ =~= styles_xml(defs));
    }
    out
}

} // verus!
