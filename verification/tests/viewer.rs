use winhex::document::{get_highlighter, print_document, print_document_normal, print_find_results,
    validate_input, Config};
use winhex::numerals::{u64_dec_numeral, u64_hex_padded8};
use winhex::pager::{continue_from_response, pager_after_row, pager_on_response, PagerState};
use winhex::renderer::{format_header, format_row, format_row_with_find_results, RenderedCell};
use winhex::row_mapper::{plain_windows, rows_for_match};
use winhex::text_highlighter::{find_all, index_in_ranges, FindOnHexValues, FindOnText,
    HighLightLocation, HighlightIndex, Highlighter, TextHighligher};

fn config(width: u16, height: u16, offset: usize) -> Config {
    Config {
        width,
        height,
        no_limit: false,
        utf8: false,
        offset,
        find_text: String::new(),
        find_hex_values: String::new(),
    }
}

fn join(cells: &[RenderedCell]) -> Vec<u8> {
    let mut out = Vec::new();
    for c in cells {
        out.extend_from_slice(&c.text);
    }
    out
}

#[test]
fn text_matcher_finds_single_occurrence() {
    let buffer = b"01234findme rest".to_vec();
    let m = FindOnText { text_to_find: "findme".to_string() };
    let r = m.find_matches(&buffer);
    assert_eq!(r.len(), 1);
    assert_eq!(r[0], HighlightIndex { offset: 5, length: 6 });
}

#[test]
fn text_matcher_reports_overlapping_occurrences() {
    let buffer = b"aaa".to_vec();
    let m = FindOnText { text_to_find: "aa".to_string() };
    let r = m.find_matches(&buffer);
    assert_eq!(r.len(), 2);
    assert_eq!(r[0], HighlightIndex { offset: 0, length: 2 });
    assert_eq!(r[1], HighlightIndex { offset: 1, length: 2 });
}

#[test]
fn text_matcher_misses_cleanly() {
    let buffer = b"abc".to_vec();
    let m = FindOnText { text_to_find: "zzzz".to_string() };
    assert_eq!(m.find_matches(&buffer).len(), 0);
}

#[test]
fn find_all_positions_ascend() {
    let positions = find_all(b"xaxaxa", b"xa");
    assert_eq!(positions, vec![0, 2, 4]);
}

#[test]
fn hex_matcher_finds_byte_values() {
    let buffer = vec![0x00u8, 0x41, 0x42, 0x41, 0x42];
    let m = FindOnHexValues { hex_values: vec![[b'4', b'1'], [b'4', b'2']] };
    let r = m.find_matches(&buffer);
    assert_eq!(r.len(), 2);
    assert_eq!(r[0], HighlightIndex { offset: 1, length: 2 });
    assert_eq!(r[1], HighlightIndex { offset: 3, length: 2 });
}

#[test]
fn hex_matcher_rejects_non_digits() {
    let buffer = vec![0x41u8];
    let m = FindOnHexValues { hex_values: vec![[b'4', b'z']] };
    assert_eq!(m.find_matches(&buffer).len(), 0);
}

#[test]
fn highlight_locations_per_matcher() {
    let t = FindOnText { text_to_find: "x".to_string() };
    let h = FindOnHexValues { hex_values: Vec::new() };
    assert_eq!(t.get_highlight_location(), HighLightLocation::Text);
    assert_eq!(h.get_highlight_location(), HighLightLocation::Data);
}

#[test]
fn containment_is_inclusive_at_both_ends() {
    let ranges = [HighlightIndex { offset: 10, length: 3 }];
    assert!(!index_in_ranges(9, &ranges));
    assert!(index_in_ranges(10, &ranges));
    assert!(index_in_ranges(11, &ranges));
    assert!(index_in_ranges(12, &ranges));
    assert!(index_in_ranges(13, &ranges));
    assert!(!index_in_ranges(14, &ranges));
}

#[test]
fn trait_predicate_agrees_with_free_function() {
    let m = FindOnText { text_to_find: "x".to_string() };
    let ranges = [HighlightIndex { offset: 2, length: 1 }];
    assert!(m.index_matches_highlight_index(3, &ranges));
    assert!(!m.index_matches_highlight_index(4, &ranges));
}

#[test]
fn non_printable_bytes_decode_to_dot() {
    let row = format_row(0, &[0x00, 0x7f, 0x41], false);
    assert_eq!(join(&row.hex_cells), b"00 7f 41 ".to_vec());
    assert_eq!(join(&row.text_cells), b"..A".to_vec());
    assert!(row.hex_cells.iter().all(|c| !c.highlighted));
    assert!(row.text_cells.iter().all(|c| !c.highlighted));
}

#[test]
fn hex_only_mode_skips_decoded_column() {
    let row = format_row(0, &[0x00, 0x41], true);
    assert_eq!(join(&row.hex_cells), b"00 41 ".to_vec());
    assert!(row.text_cells.is_empty());
}

#[test]
fn offset_column_is_zero_padded_lowercase() {
    assert_eq!(u64_hex_padded8(0x2a), b"0000002a".to_vec());
    assert_eq!(u64_hex_padded8(0), b"00000000".to_vec());
    assert_eq!(u64_hex_padded8(0x1_0000_00ff), b"1000000ff".to_vec());
    let row = format_row(0x2a, &[0x41], false);
    assert_eq!(row.offset_text, b"0000002a   ".to_vec());
}

#[test]
fn decimal_numerals() {
    assert_eq!(u64_dec_numeral(0), b"0".to_vec());
    assert_eq!(u64_dec_numeral(12345), b"12345".to_vec());
}

#[test]
fn header_lists_column_indices() {
    let h = format_header(4);
    assert_eq!(h, b"Offset (d)  0  1  2  3 Decoded text".to_vec());
    let h12 = format_header(12);
    assert_eq!(
        h12,
        b"Offset (d)  0  1  2  3  4  5  6  7  8  9 10 11 Decoded text".to_vec()
    );
}

#[test]
fn rows_never_pass_the_buffer_end() {
    let buffer: Vec<u8> = (0..20u8).collect();
    let rows = rows_for_match(&buffer, 15, 16, 3);
    assert_eq!(rows.len(), 1);
    assert_eq!(rows[0].start_offset, 15);
    assert_eq!(rows[0].bytes, (15..20u8).collect::<Vec<u8>>());
    for r in &rows {
        assert!(r.start_offset as usize + r.bytes.len() <= buffer.len());
    }
}

#[test]
fn match_rows_are_height_windows() {
    let buffer: Vec<u8> = (0..64u8).collect();
    let rows = rows_for_match(&buffer, 4, 8, 3);
    assert_eq!(rows.len(), 3);
    assert_eq!(rows[0].start_offset, 4);
    assert_eq!(rows[1].start_offset, 12);
    assert_eq!(rows[2].start_offset, 20);
    assert!(rows.iter().all(|r| r.bytes.len() == 8));
}

#[test]
fn plain_windows_clamp_final_row() {
    let buffer: Vec<u8> = (0..13u8).collect();
    let rows = plain_windows(&buffer, 0, 5);
    assert_eq!(rows.len(), 3);
    assert_eq!(rows[2].start_offset, 10);
    assert_eq!(rows[2].bytes.len(), 3);
}

#[test]
fn hello_world_renders_as_one_row() {
    let buffer = b"Hello, World!".to_vec();
    let cfg = config(16, 16, 0);
    let doc = print_document(&cfg, &buffer, &None);
    assert_eq!(doc.rows.len(), 1);
    let row = &doc.rows[0];
    assert_eq!(row.offset_text, b"00000000   ".to_vec());
    assert_eq!(
        join(&row.hex_cells),
        b"48 65 6c 6c 6f 2c 20 57 6f 72 6c 64 21 ".to_vec()
    );
    assert_eq!(join(&row.text_cells), b"Hello, World!".to_vec());
}

#[test]
fn findme_highlights_text_column_only() {
    let buffer = b"01234findme rest".to_vec();
    let m = FindOnText { text_to_find: "findme".to_string() };
    let ranges = m.find_matches(&buffer);
    assert_eq!(ranges.len(), 1);
    assert_eq!(ranges[0], HighlightIndex { offset: 5, length: 6 });
    let row = format_row_with_find_results(0, &buffer, &ranges, HighLightLocation::Text);
    for (i, c) in row.text_cells.iter().enumerate() {
        assert_eq!(c.highlighted, (5..=11).contains(&i), "text cell {}", i);
    }
    assert!(row.hex_cells.iter().all(|c| !c.highlighted));
}

#[test]
fn hex_search_highlights_data_column_only() {
    let buffer = vec![0x00u8, 0x41, 0x00];
    let ranges = vec![HighlightIndex { offset: 1, length: 1 }];
    let row = format_row_with_find_results(0, &buffer, &ranges, HighLightLocation::Data);
    for (i, c) in row.hex_cells.iter().enumerate() {
        assert_eq!(c.highlighted, (1..=2).contains(&i), "hex cell {}", i);
    }
    assert!(row.text_cells.iter().all(|c| !c.highlighted));
}

#[test]
fn find_results_render_context_rows() {
    let buffer = b"01234findme rest of the buffer padding".to_vec();
    let cfg = config(8, 2, 0);
    let h = Highlighter::Text(FindOnText { text_to_find: "findme".to_string() });
    let doc = print_find_results(&cfg, &buffer, &h);
    assert_eq!(doc.rows.len(), 2);
    assert_eq!(doc.rows[0].offset_text, b"00000005   ".to_vec());
    assert_eq!(doc.rows[1].offset_text, b"0000000d   ".to_vec());
}

#[test]
fn offset_filter_skips_matches_that_end_before_it() {
    let buffer = b"ab ab ab".to_vec();
    let mut cfg = config(8, 1, 7);
    cfg.find_text = "ab".to_string();
    let h = Highlighter::Text(FindOnText { text_to_find: "ab".to_string() });
    // matches at 0, 3 and 6; with offset 7 the first two end before it
    // (0 + 2 < 7 and 3 + 2 < 7) and are skipped, the last is kept
    let doc = print_find_results(&cfg, &buffer, &h);
    assert_eq!(doc.rows.len(), 1);
    assert_eq!(doc.rows[0].offset_text, b"00000006   ".to_vec());
}

#[test]
fn rendering_twice_is_byte_identical() {
    let buffer = b"abc abc abc".to_vec();
    let cfg = config(4, 2, 0);
    let h = Some(Highlighter::Text(FindOnText { text_to_find: "abc".to_string() }));
    let d1 = print_document(&cfg, &buffer, &h);
    let d2 = print_document(&cfg, &buffer, &h);
    assert_eq!(d1.header, d2.header);
    assert_eq!(d1.rows.len(), d2.rows.len());
    for (r1, r2) in d1.rows.iter().zip(d2.rows.iter()) {
        assert_eq!(r1.offset_text, r2.offset_text);
        assert_eq!(join(&r1.hex_cells), join(&r2.hex_cells));
        assert_eq!(join(&r1.text_cells), join(&r2.text_cells));
        for (c1, c2) in r1.hex_cells.iter().zip(r2.hex_cells.iter()) {
            assert_eq!(c1.highlighted, c2.highlighted);
        }
        for (c1, c2) in r1.text_cells.iter().zip(r2.text_cells.iter()) {
            assert_eq!(c1.highlighted, c2.highlighted);
        }
    }
}

#[test]
fn validation_rejects_offset_past_the_end() {
    let buffer = b"12345".to_vec();
    let cfg = config(16, 16, 100);
    let err = validate_input(&cfg, &buffer).unwrap_err();
    assert_eq!(err.offset, 100);
    assert_eq!(err.buffer_len, 5);
    assert_eq!(
        err.message(),
        b"The file offset: 100, is to large, max size is: 5".to_vec()
    );
}

#[test]
fn validation_accepts_offset_inside_the_buffer() {
    let buffer = b"12345".to_vec();
    assert!(validate_input(&config(16, 16, 4), &buffer).is_ok());
    assert!(validate_input(&config(16, 16, 5), &buffer).is_err());
}

#[test]
fn highlighter_selection_follows_the_inputs() {
    let mut cfg = config(16, 16, 0);
    assert!(get_highlighter(&cfg).is_none());
    cfg.find_text = "abc".to_string();
    match get_highlighter(&cfg) {
        Some(Highlighter::Text(f)) => assert_eq!(f.text_to_find, "abc"),
        _ => panic!("expected a text highlighter"),
    }
    cfg.find_text = String::new();
    cfg.find_hex_values = "4142".to_string();
    match get_highlighter(&cfg) {
        Some(Highlighter::HexValues(f)) => {
            assert_eq!(f.hex_values, vec![[b'4', b'1'], [b'4', b'2']]);
        },
        _ => panic!("expected a hex highlighter"),
    }
}

#[test]
fn odd_hex_input_yields_no_pairs() {
    let mut cfg = config(16, 16, 0);
    cfg.find_hex_values = "414".to_string();
    match get_highlighter(&cfg) {
        Some(Highlighter::HexValues(f)) => assert!(f.hex_values.is_empty()),
        _ => panic!("expected a hex highlighter"),
    }
}

#[test]
fn plain_document_from_an_offset() {
    let buffer: Vec<u8> = (0..12u8).collect();
    let cfg = config(4, 16, 4);
    let doc = print_document_normal(&cfg, &buffer);
    assert_eq!(doc.rows.len(), 2);
    assert_eq!(doc.rows[0].offset_text, b"00000004   ".to_vec());
    assert_eq!(doc.rows[1].offset_text, b"00000008   ".to_vec());
}

#[test]
fn pager_pauses_after_each_full_page() {
    // a pause follows every height-th row: after rows 15, 31, ... for
    // height 16 (0-based indices)
    assert_eq!(pager_after_row(0, 16, false), PagerState::Rendering);
    assert_eq!(pager_after_row(5, 16, false), PagerState::Rendering);
    assert_eq!(pager_after_row(15, 16, false), PagerState::AwaitingContinue);
    assert_eq!(pager_after_row(16, 16, false), PagerState::Rendering);
    assert_eq!(pager_after_row(31, 16, false), PagerState::AwaitingContinue);
    assert_eq!(pager_after_row(15, 16, true), PagerState::Rendering);
    // a page height of one pauses after every row
    assert_eq!(pager_after_row(0, 1, false), PagerState::AwaitingContinue);
    assert_eq!(pager_after_row(1, 1, false), PagerState::AwaitingContinue);
}

#[test]
fn pager_resumes_only_on_yes() {
    assert!(continue_from_response(b"y"));
    assert!(continue_from_response(b"yes"));
    assert!(continue_from_response(b"  YES \n"));
    assert!(continue_from_response(b"Y\n"));
    assert!(!continue_from_response(b"no"));
    assert!(!continue_from_response(b""));
    assert!(!continue_from_response(b"yess"));
    assert_eq!(pager_on_response(b"y\n"), PagerState::Rendering);
    assert_eq!(pager_on_response(b"n\n"), PagerState::Stopped);
}

#[test]
fn empty_needle_matches_everywhere() {
    let positions = find_all(b"ab", b"");
    assert_eq!(positions, vec![0, 1, 2]);
}

#[test]
fn data_and_text_location_highlights_both_columns() {
    let buffer = vec![0x41u8, 0x42, 0x43];
    let ranges = vec![HighlightIndex { offset: 0, length: 1 }];
    let row = format_row_with_find_results(0, &buffer, &ranges, HighLightLocation::DataAndText);
    assert!(row.hex_cells[0].highlighted && row.hex_cells[1].highlighted);
    assert!(!row.hex_cells[2].highlighted);
    assert!(row.text_cells[0].highlighted && row.text_cells[1].highlighted);
    assert!(!row.text_cells[2].highlighted);
}

#[test]
fn hex_search_end_to_end() {
    let buffer = vec![0x00u8, 0x41, 0x00, 0x41];
    let mut cfg = config(4, 1, 0);
    cfg.find_hex_values = "41".to_string();
    let h = get_highlighter(&cfg).expect("a hex highlighter");
    let doc = print_document(&cfg, &buffer, &Some(h));
    assert_eq!(doc.rows.len(), 2);
    assert_eq!(doc.rows[0].offset_text, b"00000001   ".to_vec());
    assert_eq!(doc.rows[1].offset_text, b"00000003   ".to_vec());
    // the hex column is highlighted, the decoded column is not
    assert!(doc.rows[0].hex_cells[0].highlighted);
    assert!(doc.rows[0].text_cells.iter().all(|c| !c.highlighted));
}

#[test]
fn empty_hex_pattern_matches_nothing() {
    let buffer = vec![0x41u8, 0x42];
    let m = FindOnHexValues { hex_values: Vec::new() };
    assert_eq!(m.find_matches(&buffer).len(), 0);
    let mut cfg = config(4, 1, 0);
    cfg.find_hex_values = "414".to_string();
    let h = get_highlighter(&cfg).expect("a hex highlighter");
    let doc = print_document(&cfg, &buffer, &Some(h));
    assert_eq!(doc.rows.len(), 0);
}
