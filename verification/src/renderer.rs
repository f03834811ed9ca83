//! Rendering of one display row into its printable parts: the zero-padded
//! hexadecimal offset column, one three-character cell per byte in the
//! hexadecimal column, and one glyph per byte in the decoded-text column,
//! each cell carrying the flag that says whether it is to be printed in the
//! highlighted style.  Non-printable bytes appear as `.` in the decoded
//! column only; the hexadecimal column always shows the raw value.
use crate::numerals::{dec_numeral, hex_digit, hex_digit_char, hex_numeral, u64_dec_numeral,
    u64_hex_padded8, zero_pad8};
use crate::text_highlighter::{index_in_ranges, is_highlighted, HighLightLocation, HighlightIndex};
use vstd::prelude::*;
use vstd::slice::slice_index_get;

verus! {

/// One printable cell and whether it is highlighted.
pub struct RenderedCell {
    pub text: Vec<u8>,
    pub highlighted: bool,
}

/// One printable row: offset column, hexadecimal byte cells, decoded-text
/// glyphs.  In hex-only mode the decoded column is empty.
pub struct RenderedRow {
    pub offset_text: Vec<u8>,
    pub hex_cells: Vec<RenderedCell>,
    pub text_cells: Vec<RenderedCell>,
}

/// The mathematical content of a rendered cell.
#[verifier::ext_equal]
pub struct CellModel {
    pub text: Seq<u8>,
    pub highlighted: bool,
}

/// The mathematical content of a rendered row.
#[verifier::ext_equal]
pub struct RowModel {
    pub offset_text: Seq<u8>,
    pub hex_cells: Seq<CellModel>,
    pub text_cells: Seq<CellModel>,
}

impl View for RenderedCell {
    type V = CellModel;

    open spec fn view(&self) -> CellModel {
        CellModel { text: self.text@, highlighted: self.highlighted }
    }
}

impl View for RenderedRow {
    type V = RowModel;

    open spec fn view(&self) -> RowModel {
        RowModel {
            offset_text: self.offset_text@,
            hex_cells: self.hex_cells@.map_values(|c: RenderedCell| c@),
            text_cells: self.text_cells@.map_values(|c: RenderedCell| c@),
        }
    }
}

/// The location marks the hexadecimal byte column.
pub open spec fn highlights_data(loc: HighLightLocation) -> bool {
    loc is Data || loc is DataAndText
}

/// The location marks the decoded-text column.
pub open spec fn highlights_text(loc: HighLightLocation) -> bool {
    loc is Text || loc is DataAndText
}

/// The glyph shown for a byte in the decoded-text column: the byte itself
/// when printable, `.` for anything below `0x20` or above `0x7e`.
pub open spec fn decoded_byte(b: u8) -> u8 {
    if b < 0x20 || b > 0x7e {
        0x2e
    } else {
        b
    }
}

/// The three characters of a hexadecimal byte cell: two lowercase digits and
/// a space.
pub open spec fn hex_cell_text(b: u8) -> Seq<u8> {
    seq![hex_digit(b as int / 16), hex_digit(b as int % 16), 0x20u8]
}

/// The offset column: the offset in lowercase hexadecimal, zero-padded to
/// eight digits, followed by three spaces.
pub open spec fn offset_column_text(offset: int) -> Seq<u8> {
    zero_pad8(hex_numeral(offset)) + seq![0x20u8, 0x20u8, 0x20u8]
}

/// Cell `i` of the hexadecimal column of a row that starts at absolute
/// offset `offset`.
pub open spec fn hex_cell_model(
    row: Seq<u8>,
    offset: int,
    ranges: Seq<HighlightIndex>,
    loc: HighLightLocation,
    i: int,
) -> CellModel {
    CellModel {
        text: hex_cell_text(row[i]),
        highlighted: highlights_data(loc) && is_highlighted(offset + i, ranges),
    }
}

/// Glyph `i` of the decoded-text column of a row that starts at absolute
/// offset `offset`.
pub open spec fn text_cell_model(
    row: Seq<u8>,
    offset: int,
    ranges: Seq<HighlightIndex>,
    loc: HighLightLocation,
    i: int,
) -> CellModel {
    CellModel {
        text: seq![decoded_byte(row[i])],
        highlighted: highlights_text(loc) && is_highlighted(offset + i, ranges),
    }
}

/// The full content of one rendered row.  In hex-only mode (`utf8`) the
/// decoded-text column is skipped entirely.
pub open spec fn row_model(
    offset: int,
    row: Seq<u8>,
    ranges: Seq<HighlightIndex>,
    loc: HighLightLocation,
    utf8: bool,
) -> RowModel {
    RowModel {
        offset_text: offset_column_text(offset),
        hex_cells: Seq::new(row.len(), |i: int| hex_cell_model(row, offset, ranges, loc, i)),
        text_cells: if utf8 {
            Seq::<CellModel>::empty()
        } else {
            Seq::new(row.len(), |i: int| text_cell_model(row, offset, ranges, loc, i))
        },
    }
}

/// A row rendered without any matcher: no cell is highlighted.
pub open spec fn plain_row_model(offset: int, row: Seq<u8>, utf8: bool) -> RowModel {
    row_model(offset, row, Seq::<HighlightIndex>::empty(), HighLightLocation::Text, utf8)
}

fn render_row_core(
    offset: u64,
    slice: &[u8],
    ranges: &[HighlightIndex],
    location: HighLightLocation,
    utf8: bool,
) -> (r: RenderedRow)
    requires
        offset + slice@.len() <= usize::MAX,
    ensures
        r@ == row_model(offset as int, slice@, ranges@, location, utf8),
{
    let mut offset_text = u64_hex_padded8(offset);
    offset_text.push(0x20);
    offset_text.push(0x20);
    offset_text.push(0x20);
    proof {
        assert(offset_text@ =~= offset_column_text(offset as int));
    }
    let hl_data = match location {
        HighLightLocation::Data => true,
        HighLightLocation::DataAndText => true,
        HighLightLocation::Text => false,
    };
    let hl_text = match location {
        HighLightLocation::Text => true,
        HighLightLocation::DataAndText => true,
        HighLightLocation::Data => false,
    };
    let n = slice.len();
    let mut hex_cells: Vec<RenderedCell> = Vec::new();
    let mut text_cells: Vec<RenderedCell> = Vec::new();
    let mut i: usize = 0;
    while i < n
        invariant
            i <= n,
            n == slice@.len(),
            offset + n <= usize::MAX,
            hl_data == highlights_data(location),
            hl_text == highlights_text(location),
            hex_cells@.len() == i as int,
            forall|k: int|
                0 <= k < i ==> (#[trigger] hex_cells@[k])@ == hex_cell_model(
                    slice@,
                    offset as int,
                    ranges@,
                    location,
                    k,
                ),
            text_cells@.len() == if utf8 {
                0
            } else {
                i as int
            },
            forall|k: int|
                0 <= k < text_cells@.len() ==> (#[trigger] text_cells@[k])@ == text_cell_model(
                    slice@,
                    offset as int,
                    ranges@,
                    location,
                    k,
                ),
        decreases n - i,
    {
        let b = *slice_index_get(slice, i);
        let mut t: Vec<u8> = Vec::new();
        t.push(hex_digit_char(b / 16));
        t.push(hex_digit_char(b % 16));
        t.push(0x20);
        proof {
            assert(t@ =~= hex_cell_text(b));
        }
        let idx = offset as usize + i;
        let hit = index_in_ranges(idx, ranges);
        hex_cells.push(RenderedCell { text: t, highlighted: hl_data && hit });
        if !utf8 {
            let d = if b < 0x20 || b > 0x7e {
                0x2e
            } else {
                b
            };
            let mut dt: Vec<u8> = Vec::new();
            dt.push(d);
            proof {
                assert(dt@ =~= seq![decoded_byte(b)]);
            }
            text_cells.push(RenderedCell { text: dt, highlighted: hl_text && hit });
        }
        i += 1;
    }
    let r = RenderedRow { offset_text, hex_cells, text_cells };
    proof {
        let m = row_model(offset as int, slice@, ranges@, location, utf8);
        assert(r@.hex_cells =~= m.hex_cells);
        assert(r@.text_cells =~= m.text_cells);
        assert(r@ =~= m);
    }
    r
}

/// Render one row of the plain view: offset column and hexadecimal cells,
/// plus the decoded-text column unless hex-only output was requested; no
/// cell is highlighted.
pub fn format_row(offset: u64, slice: &[u8], is_utf8: bool) -> (r: RenderedRow)
    requires
        offset + slice@.len() <= usize::MAX,
    ensures
        r@ == plain_row_model(offset as int, slice@, is_utf8),
{
    let none: Vec<HighlightIndex> = Vec::new();
    render_row_core(offset, slice, none.as_slice(), HighLightLocation::Text, is_utf8)
}

/// Render one row of a search result: every byte whose absolute index falls
/// inside one of the ranges is flagged, in the column(s) the matcher's
/// highlight location names.
pub fn format_row_with_find_results(
    offset: u64,
    slice: &[u8],
    highlight_indexes: &[HighlightIndex],
    location: HighLightLocation,
) -> (r: RenderedRow)
    requires
        offset + slice@.len() <= usize::MAX,
    ensures
        r@ == row_model(offset as int, slice@, highlight_indexes@, location, false),
{
    render_row_core(offset, slice, highlight_indexes, location, false)
}

/// The label that opens the header line.
pub open spec fn offset_label() -> Seq<u8> {
    seq![0x4fu8, 0x66u8, 0x66u8, 0x73u8, 0x65u8, 0x74u8, 0x20u8, 0x28u8, 0x64u8, 0x29u8, 0x20u8]
}

/// The label of the decoded-text column.
pub open spec fn decoded_label() -> Seq<u8> {
    seq![0x44u8, 0x65u8, 0x63u8, 0x6fu8, 0x64u8, 0x65u8, 0x64u8, 0x20u8, 0x74u8, 0x65u8, 0x78u8,
        0x74u8]
}

/// Column index `i`, right-aligned to two characters.
pub open spec fn col_label(i: int) -> Seq<u8> {
    if i < 10 {
        seq![0x20u8] + dec_numeral(i)
    } else {
        dec_numeral(i)
    }
}

/// The column indices `0 .. w`, each followed by a space.
pub open spec fn col_labels(w: int) -> Seq<u8>
    decreases w,
{
    if w <= 0 {
        Seq::<u8>::empty()
    } else {
        col_labels(w - 1) + col_label(w - 1) + seq![0x20u8]
    }
}

/// The header line: the offset label, one right-aligned index per byte
/// column, and the decoded-text label.
pub open spec fn header_text(w: int) -> Seq<u8> {
    offset_label() + col_labels(w) + decoded_label()
}

/// Render the header line printed once before any rows.
pub fn format_header(width: u16) -> (r: Vec<u8>)
    ensures
        r@ == header_text(width as int),
{
    let mut v: Vec<u8> = Vec::new();
    v.push(0x4f);
    v.push(0x66);
    v.push(0x66);
    v.push(0x73);
    v.push(0x65);
    v.push(0x74);
    v.push(0x20);
    v.push(0x28);
    v.push(0x64);
    v.push(0x29);
    v.push(0x20);
    proof {
        assert(v@ =~= offset_label());
    }
    let mut i: u16 = 0;
    while i < width
        invariant
            i <= width,
            v@ == offset_label() + col_labels(i as int),
        decreases width - i,
    {
        if i < 10 {
            v.push(0x20);
        }
        let mut d = u64_dec_numeral(i as u64);
        v.append(&mut d);
        v.push(0x20);
        i += 1;
        proof {
            assert(v@ =~= offset_label() + col_labels(i as int));
        }
    }
    v.push(0x44);
    v.push(0x65);
    v.push(0x63);
    v.push(0x6f);
    v.push(0x64);
    v.push(0x65);
    v.push(0x64);
    v.push(0x20);
    v.push(0x74);
    v.push(0x65);
    v.push(0x78);
    v.push(0x74);
    proof {
        assert(v@ =~= header_text(width as int));
    }
    v
}

} // verus!
