//! The document pipeline: configuration validation, matcher selection, and
//! the two rendering paths.  With a matcher, every match is expanded into
//! `height` rows of context and rendered with highlights; without one, the
//! buffer from the configured offset on is rendered as consecutive windows.
//! Everything here computes values; printing them is the caller's concern.
use crate::renderer::{format_header, format_row, format_row_with_find_results, header_text,
    plain_row_model, row_model, RenderedRow, RowModel};
use crate::row_mapper::{plain_windows, row_bytes, row_count, rows_for_match, window_count};
use crate::text_highlighter::{matcher_location, matcher_ranges_ok, ranges_within,
    FindOnHexValues, FindOnText, HighLightLocation, HighlightIndex, Highlighter};
use vstd::prelude::*;
use vstd::slice::{slice_index_get, slice_subrange};
use vstd::utf8::encode_utf8;

verus! {

/// The view configuration: bytes per row, rows per page (or of context per
/// match), pagination and output-mode switches, the starting byte offset,
/// and the two mutually exclusive search inputs.
pub struct Config {
    pub width: u16,
    pub height: u16,
    pub no_limit: bool,
    pub utf8: bool,
    pub offset: usize,
    pub find_text: String,
    pub find_hex_values: String,
}

/// A rejected configuration: the requested offset and the buffer's actual
/// length.
pub struct ValidationError {
    pub offset: usize,
    pub buffer_len: usize,
}

/// "The file offset: ".
pub open spec fn offset_message_label() -> Seq<u8> {
    seq![0x54u8, 0x68u8, 0x65u8, 0x20u8, 0x66u8, 0x69u8, 0x6cu8, 0x65u8, 0x20u8, 0x6fu8, 0x66u8,
        0x66u8, 0x73u8, 0x65u8, 0x74u8, 0x3au8, 0x20u8]
}

/// ", is to large, max size is: ".
pub open spec fn size_message_label() -> Seq<u8> {
    seq![0x2cu8, 0x20u8, 0x69u8, 0x73u8, 0x20u8, 0x74u8, 0x6fu8, 0x20u8, 0x6cu8, 0x61u8, 0x72u8,
        0x67u8, 0x65u8, 0x2cu8, 0x20u8, 0x6du8, 0x61u8, 0x78u8, 0x20u8, 0x73u8, 0x69u8, 0x7au8,
        0x65u8, 0x20u8, 0x69u8, 0x73u8, 0x3au8, 0x20u8]
}

/// The message printed for a rejected offset: the offending value and the
/// buffer's actual length, both in decimal.
pub open spec fn validation_message(offset: int, buffer_len: int) -> Seq<u8> {
    offset_message_label() + crate::numerals::dec_numeral(offset) + size_message_label()
        + crate::numerals::dec_numeral(buffer_len)
}

impl ValidationError {
    /// The printable message for this error.
    pub fn message(&self) -> (r: Vec<u8>)
        ensures
            r@ == validation_message(self.offset as int, self.buffer_len as int),
    {
        let mut v: Vec<u8> = Vec::new();
        v.push(0x54);
        v.push(0x68);
        v.push(0x65);
        v.push(0x20);
        v.push(0x66);
        v.push(0x69);
        v.push(0x6c);
        v.push(0x65);
        v.push(0x20);
        v.push(0x6f);
        v.push(0x66);
        v.push(0x66);
        v.push(0x73);
        v.push(0x65);
        v.push(0x74);
        v.push(0x3a);
        v.push(0x20);
        proof {
            assert(v@ =~= offset_message_label());
        }
        let mut d1 = crate::numerals::u64_dec_numeral(self.offset as u64);
        v.append(&mut d1);
        v.push(0x2c);
        v.push(0x20);
        v.push(0x69);
        v.push(0x73);
        v.push(0x20);
        v.push(0x74);
        v.push(0x6f);
        v.push(0x20);
        v.push(0x6c);
        v.push(0x61);
        v.push(0x72);
        v.push(0x67);
        v.push(0x65);
        v.push(0x2c);
        v.push(0x20);
        v.push(0x6d);
        v.push(0x61);
        v.push(0x78);
        v.push(0x20);
        v.push(0x73);
        v.push(0x69);
        v.push(0x7a);
        v.push(0x65);
        v.push(0x20);
        v.push(0x69);
        v.push(0x73);
        v.push(0x3a);
        v.push(0x20);
        let mut d2 = crate::numerals::u64_dec_numeral(self.buffer_len as u64);
        v.append(&mut d2);
        proof {
            assert(v@ =~= validation_message(self.offset as int, self.buffer_len as int));
        }
        v
    }
}

/// The offset lies inside the buffer; an offset at or past the end is
/// rejected with the offending value and the buffer's length, before any
/// rendering happens.
pub fn validate_input(config: &Config, buffer: &Vec<u8>) -> (r: Result<(), ValidationError>)
    ensures
        r is Ok <==> config.offset < buffer@.len(),
        r matches Err(e) ==> e.offset == config.offset && e.buffer_len == buffer@.len(),
{
    if config.offset >= buffer.len() {
        Err(ValidationError { offset: config.offset, buffer_len: buffer.len() })
    } else {
        Ok(())
    }
}

/// The matcher a configuration selects: text search when a search string is
/// given, hex search when hex pairs are given (text search wins when both
/// are), none otherwise.  The hex input is split into consecutive
/// two-character pairs; input with an odd number of characters yields no
/// pairs.
pub fn get_highlighter(config: &Config) -> (r: Option<Highlighter>)
    ensures
        config.find_text@.len() > 0 ==> (r matches Some(h) && h matches Highlighter::Text(f)
            && f.text_to_find@ == config.find_text@),
        config.find_text@.len() == 0 && config.find_hex_values@.len() > 0 ==> (r matches Some(h)
            && h matches Highlighter::HexValues(f) && hex_pairs_ok(
            f.hex_values@,
            encode_utf8(config.find_hex_values@),
        )),
        config.find_text@.len() == 0 && config.find_hex_values@.len() == 0 ==> r is None,
{
    if !config.find_text.as_str().is_empty() {
        return Some(Highlighter::Text(FindOnText { text_to_find: config.find_text.clone() }));
    }
    if !config.find_hex_values.as_str().is_empty() {
        let bs: &[u8] = config.find_hex_values.as_str().as_bytes();
        let n = bs.len();
        let mut pairs: Vec<[u8; 2]> = Vec::new();
        if n % 2 == 0 {
            let half = n / 2;
            let mut k: usize = 0;
            while k < half
                invariant
                    k <= half,
                    n == bs@.len(),
                    half == bs@.len() / 2,
                    bs@.len() % 2 == 0,
                    pairs@.len() == k as int,
                    forall|k2: int|
                        0 <= k2 < k ==> (#[trigger] pairs@[k2])@[0] == bs@[2 * k2]
                            && pairs@[k2]@[1] == bs@[2 * k2 + 1],
                decreases half - k,
            {
                proof {
                    vstd::arithmetic::div_mod::lemma_fundamental_div_mod(n as int, 2);
                    assert(2 * (k as int) + 1 < n as int);
                }
                let a = *slice_index_get(bs, 2 * k);
                let b = *slice_index_get(bs, 2 * k + 1);
                pairs.push([a, b]);
                k += 1;
            }
        }
        return Some(Highlighter::HexValues(FindOnHexValues { hex_values: pairs }));
    }
    None
}

/// `pairs` is the input `bs` split into consecutive two-character pairs; an
/// input of odd length yields no pairs.
pub open spec fn hex_pairs_ok(pairs: Seq<[u8; 2]>, bs: Seq<u8>) -> bool {
    if bs.len() % 2 == 0 {
        &&& pairs.len() == bs.len() / 2
        &&& forall|k: int|
            0 <= k < pairs.len() ==> (#[trigger] pairs[k])@[0] == bs[2 * k] && pairs[k]@[1] == bs[2
                * k + 1]
    } else {
        pairs.len() == 0
    }
}

/// A rendered document: the header line and the rendered rows, in print
/// order.
pub struct Document {
    pub header: Vec<u8>,
    pub rows: Vec<RenderedRow>,
}

/// The models of a sequence of rendered rows.
pub open spec fn rows_view(rows: Seq<RenderedRow>) -> Seq<RowModel> {
    rows.map_values(|r: RenderedRow| r@)
}

/// A match is skipped when a non-zero display offset is configured and the
/// match ends before it.
pub open spec fn skip_match(m: HighlightIndex, offset: int) -> bool {
    offset != 0 && m.offset + m.length < offset
}

/// The rendered rows of match `i` alone: `height` rows of context from the
/// match's offset on, highlighted against the matches from `i` onward.
pub open spec fn match_rows_models(
    b: Seq<u8>,
    ms: Seq<HighlightIndex>,
    i: int,
    w: int,
    h: int,
    loc: HighLightLocation,
) -> Seq<RowModel> {
    Seq::new(
        row_count(b.len() as int, ms[i].offset as int, w, h) as nat,
        |y: int|
            row_model(
                ms[i].offset + y * w,
                row_bytes(b, ms[i].offset + y * w, w),
                ms.subrange(i, ms.len() as int),
                loc,
                false,
            ),
    )
}

/// The rendered rows of matches `i ..`: skipped matches contribute nothing,
/// every other match contributes its context rows, in match order.
pub open spec fn find_rows_models(
    b: Seq<u8>,
    ms: Seq<HighlightIndex>,
    i: int,
    w: int,
    h: int,
    off: int,
    loc: HighLightLocation,
) -> Seq<RowModel>
    decreases ms.len() - i,
{
    if i < 0 || i >= ms.len() {
        Seq::<RowModel>::empty()
    } else {
        (if skip_match(ms[i], off) {
            Seq::<RowModel>::empty()
        } else {
            match_rows_models(b, ms, i, w, h, loc)
        }) + find_rows_models(b, ms, i + 1, w, h, off, loc)
    }
}

/// Render the context rows of every reported match, in match order.
#[verifier::loop_isolation(false)]
pub fn render_match_rows(
    buffer: &Vec<u8>,
    matches: &Vec<HighlightIndex>,
    width: u16,
    height: u16,
    offset: usize,
    location: HighLightLocation,
) -> (r: Vec<RenderedRow>)
    requires
        width >= 1,
        ranges_within(matches@, buffer@.len() as int),
    ensures
        rows_view(r@) == find_rows_models(
            buffer@,
            matches@,
            0,
            width as int,
            height as int,
            offset as int,
            location,
        ),
{
    let ghost wi = width as int;
    let ghost hi = height as int;
    let ghost offi = offset as int;
    let mut out: Vec<RenderedRow> = Vec::new();
    let blen = buffer.len();
    let n = matches.len();
    let mut i: usize = 0;
    while i < n
        invariant
            i <= n,
            find_rows_models(buffer@, matches@, 0, wi, hi, offi, location) =~= rows_view(out@)
                + find_rows_models(buffer@, matches@, i as int, wi, hi, offi, location),
        decreases n - i,
    {
        let m = *slice_index_get(matches.as_slice(), i);
        proof {
            assert(matches@[i as int].offset + matches@[i as int].length <= blen);
        }
        let skip = offset != 0 && m.offset + m.length < offset;
        let ghost out_pre = out@;
        if !skip {
            let rows = rows_for_match(buffer, m.offset, width, height);
            let ranges_suffix = slice_subrange(matches.as_slice(), i, n);
            let ghost block = match_rows_models(buffer@, matches@, i as int, wi, hi, location);
            let nr = rows.len();
            let mut y: usize = 0;
            while y < nr
                invariant
                    y <= nr,
                    out@.len() == out_pre.len() + y as int,
                    out@.subrange(0, out_pre.len() as int) =~= out_pre,
                    forall|k: int|
                        0 <= k < y ==> (#[trigger] out@[out_pre.len() + k])@ == block[k],
                decreases nr - y,
            {
                let row = &rows[y];
                proof {
                    assert(rows@[y as int].start_offset + rows@[y as int].bytes@.len() <= blen);
                }
                let rendered = format_row_with_find_results(
                    row.start_offset,
                    row.bytes.as_slice(),
                    ranges_suffix,
                    location,
                );
                out.push(rendered);
                y += 1;
            }
            proof {
                assert(nr as int == block.len());
                assert forall|j: int| 0 <= j < out@.len() implies rows_view(out@)[j] == (rows_view(
                    out_pre,
                ) + block)[j] by {
                    if j < out_pre.len() {
                        assert(out@.subrange(0, out_pre.len() as int)[j] == out@[j]);
                    } else {
                        let k = j - out_pre.len();
                        assert(out@[out_pre.len() + k]@ == block[k]);
                    }
                };
                assert(rows_view(out@) =~= rows_view(out_pre) + block);
                assert(find_rows_models(buffer@, matches@, i as int, wi, hi, offi, location)
                    =~= block + find_rows_models(
                    buffer@,
                    matches@,
                    i as int + 1,
                    wi,
                    hi,
                    offi,
                    location,
                ));
            }
        } else {
            proof {
                assert(find_rows_models(buffer@, matches@, i as int, wi, hi, offi, location)
                    =~= find_rows_models(buffer@, matches@, i as int + 1, wi, hi, offi, location));
            }
        }
        i += 1;
    }
    proof {
        assert(rows_view(out@) =~= find_rows_models(buffer@, matches@, 0, wi, hi, offi, location));
    }
    out
}

/// Every display row of the search view lies inside the buffer: row `y` of
/// match `i` starts at `ms[i].offset + y * w`, its bytes are the clamped
/// `row_bytes`, and its end stays at or before the buffer's end even where
/// the start plus a full row width would overrun.  This is the bound
/// `rows_for_match` ensures, restated for the rows `print_find_results`
/// renders.
pub proof fn lemma_find_rows_within_buffer(
    b: Seq<u8>,
    ms: Seq<HighlightIndex>,
    i: int,
    w: int,
    h: int,
    loc: HighLightLocation,
    y: int,
)
    requires
        w >= 1,
        0 <= i < ms.len(),
        0 <= y < match_rows_models(b, ms, i, w, h, loc).len(),
    ensures
        match_rows_models(b, ms, i, w, h, loc)[y] == row_model(
            ms[i].offset + y * w,
            row_bytes(b, ms[i].offset + y * w, w),
            ms.subrange(i, ms.len() as int),
            loc,
            false,
        ),
        ms[i].offset + y * w + row_bytes(b, ms[i].offset + y * w, w).len() <= b.len(),
{
    crate::row_mapper::lemma_row_count_nonneg(b.len() as int, ms[i].offset as int, w, h);
    crate::row_mapper::lemma_row_starts_in_buffer(b.len() as int, ms[i].offset as int, w, h, y);
    let start = ms[i].offset + y * w;
    assert(row_bytes(b, start, w).len() == (if start + w <= b.len() {
        start + w
    } else {
        b.len() as int
    }) - start);
}

/// Render a search: the header line, then the context rows of every match
/// the highlighter reports.  The matcher's contract pins its result down
/// uniquely, so the rows are a function of buffer and configuration alone.
pub fn print_find_results(config: &Config, buffer: &Vec<u8>, highlighter: &Highlighter) -> (r:
    Document)
    requires
        config.width >= 1,
    ensures
        r.header@ == header_text(config.width as int),
        exists|ms: Seq<HighlightIndex>|
            matcher_ranges_ok(*highlighter, buffer@, ms) && rows_view(r.rows@)
                == #[trigger] find_rows_models(
                buffer@,
                ms,
                0,
                config.width as int,
                config.height as int,
                config.offset as int,
                matcher_location(*highlighter),
            ),
{
    let header = format_header(config.width);
    let matches = highlighter.match_pattern(buffer);
    let location = highlighter.get_highlight_location();
    let rows = render_match_rows(
        buffer,
        &matches,
        config.width,
        config.height,
        config.offset,
        location,
    );
    proof {
        let ms = matches@;
        assert(matcher_ranges_ok(*highlighter, buffer@, ms) && rows_view(rows@)
            == find_rows_models(
            buffer@,
            ms,
            0,
            config.width as int,
            config.height as int,
            config.offset as int,
            matcher_location(*highlighter),
        ));
    }
    Document { header, rows }
}

/// The rows of the plain view: consecutive windows from `start` on, none
/// highlighted, the decoded column omitted in hex-only mode.
pub open spec fn plain_rows_models(b: Seq<u8>, start: int, w: int, utf8: bool) -> Seq<RowModel> {
    Seq::new(
        window_count(b.len() as int, start, w) as nat,
        |y: int| plain_row_model(start + y * w, row_bytes(b, start + y * w, w), utf8),
    )
}

/// Render the plain view: the header line, then every window of the buffer
/// from the configured offset on.  How many of these rows are shown before
/// each pagination pause is the pager's decision.
#[verifier::loop_isolation(false)]
pub fn print_document_normal(config: &Config, buffer: &Vec<u8>) -> (r: Document)
    requires
        config.width >= 1,
    ensures
        r.header@ == header_text(config.width as int),
        rows_view(r.rows@) == plain_rows_models(
            buffer@,
            config.offset as int,
            config.width as int,
            config.utf8,
        ),
{
    let header = format_header(config.width);
    let windows = plain_windows(buffer, config.offset, config.width);
    let ghost models = plain_rows_models(
        buffer@,
        config.offset as int,
        config.width as int,
        config.utf8,
    );
    let blen = buffer.len();
    let mut rows: Vec<RenderedRow> = Vec::new();
    let nw = windows.len();
    let mut y: usize = 0;
    while y < nw
        invariant
            y <= nw,
            rows@.len() == y as int,
            forall|k: int| 0 <= k < y ==> (#[trigger] rows@[k])@ == models[k],
        decreases nw - y,
    {
        let w = &windows[y];
        proof {
            assert(windows@[y as int].start_offset + windows@[y as int].bytes@.len() <= blen);
        }
        let rendered = format_row(w.start_offset, w.bytes.as_slice(), config.utf8);
        rows.push(rendered);
        y += 1;
    }
    proof {
        assert(rows_view(rows@) =~= models);
    }
    Document { header, rows }
}

/// Render the whole document: the search view when a matcher is present,
/// the plain view otherwise.
pub fn print_document(config: &Config, buffer: &Vec<u8>, highlighter: &Option<Highlighter>) -> (r:
    Document)
    requires
        config.width >= 1,
    ensures
        r.header@ == header_text(config.width as int),
        match highlighter {
            Some(h) => exists|ms: Seq<HighlightIndex>|
                matcher_ranges_ok(*h, buffer@, ms) && rows_view(r.rows@)
                    == #[trigger] find_rows_models(
                    buffer@,
                    ms,
                    0,
                    config.width as int,
                    config.height as int,
                    config.offset as int,
                    matcher_location(*h),
                ),
            None => rows_view(r.rows@) == plain_rows_models(
                buffer@,
                config.offset as int,
                config.width as int,
                config.utf8,
            ),
        },
{
    match highlighter {
        Some(h) => print_find_results(config, buffer, h),
        None => print_document_normal(config, buffer),
    }
}

} // verus!

verus! {

/// Rendering is deterministic: any two match reports that meet the
/// matcher's contract over the same buffer are equal, so two documents
/// rendered from the same buffer and configuration hold identical rows.
pub proof fn lemma_render_deterministic(
    b: Seq<u8>,
    h: Highlighter,
    w: int,
    hgt: int,
    off: int,
    ms1: Seq<HighlightIndex>,
    ms2: Seq<HighlightIndex>,
)
    requires
        matcher_ranges_ok(h, b, ms1),
        matcher_ranges_ok(h, b, ms2),
    ensures
        ms1 == ms2,
        find_rows_models(b, ms1, 0, w, hgt, off, matcher_location(h)) == find_rows_models(
            b,
            ms2,
            0,
            w,
            hgt,
            off,
            matcher_location(h),
        ),
{
    match h {
        Highlighter::Text(f) => crate::text_highlighter::lemma_match_ranges_unique(
            b,
            encode_utf8(f.text_to_find@),
            ms1,
            ms2,
        ),
        Highlighter::HexValues(f) => {
            if crate::text_highlighter::pairs_valid(f.hex_values@) && f.hex_values@.len() > 0 {
                crate::text_highlighter::lemma_match_ranges_unique(
                    b,
                    crate::text_highlighter::hex_needle(f.hex_values@),
                    ms1,
                    ms2,
                );
            } else {
                assert(ms1 =~= ms2);
            }
        },
    }
}

} // verus!
