use adf_utils::hex_editor::find_window;
use adf_utils::hex_editor::diff_bytes;
use adf_utils::hex_editor::HexEditorTab;
use adf_utils::hex_text::display_char;
use adf_utils::hex_text::hex_pair;
use adf_utils::hex_text::parse_hex_byte;
use adf_utils::hex_text::search_bytes;
use adf_utils::hex_text::text_cell_byte;
use adf_utils::hex_text::white_space;

fn loaded(len: usize) -> HexEditorTab {
    let data: Vec<u8> = (0..len).map(|i| (i % 251) as u8).collect();
    let mut tab = HexEditorTab::default();
    tab.open_loaded("/tmp/some.bin".to_string(), data);
    tab
}

#[test]
fn search_query_example_reads_four_bytes() {
    assert_eq!(search_bytes("4A 6F 68 6E"), vec![0x4a, 0x6f, 0x68, 0x6e]);
}

#[test]
fn search_query_skips_words_that_are_not_bytes() {
    assert_eq!(search_bytes("  zz 0ff\t+1 100 - + ab\u{3000}C "), vec![0xff, 0x01, 0xab, 0x0c]);
    assert_eq!(search_bytes(""), Vec::<u8>::new());
    assert_eq!(search_bytes("   "), Vec::<u8>::new());
}

#[test]
fn hex_byte_follows_from_str_radix() {
    for text in ["", "0", "ff", "FF", "+7f", "+", "-1", "100", "000000A", "1g", "é"] {
        assert_eq!(parse_hex_byte(text), u8::from_str_radix(text, 16).ok(), "text {:?}", text);
    }
}

#[test]
fn hex_pair_is_two_upper_case_digits_and_reads_back() {
    for b in 0..=255u8 {
        let s = hex_pair(b);
        assert_eq!(s, format!("{:02X}", b));
        assert_eq!(parse_hex_byte(&s), Some(b));
    }
}

#[test]
fn text_column_shows_printable_bytes_and_reads_them_back() {
    assert_eq!(display_char(b'A'), 'A');
    assert_eq!(display_char(b' '), ' ');
    assert_eq!(display_char(0x0a), '.');
    assert_eq!(display_char(0x7f), '.');
    assert_eq!(display_char(0xe9), '.');
    for b in 0x20..=0x7eu8 {
        assert_eq!(text_cell_byte(&display_char(b).to_string()), Some(b));
    }
    assert_eq!(text_cell_byte(""), None);
    assert_eq!(text_cell_byte("\u{141}x"), Some(0x41));
}

#[test]
fn find_window_returns_first_match() {
    let hay = vec![1u8, 2, 3, 1, 2, 3];
    assert_eq!(find_window(&hay, &vec![2, 3]), Some(1));
    assert_eq!(find_window(&hay, &vec![3, 1, 2]), Some(2));
    assert_eq!(find_window(&hay, &vec![4]), None);
    assert_eq!(find_window(&hay, &vec![1, 2, 3, 1, 2, 3, 1]), None);
}

#[test]
fn find_turns_to_page_of_match() {
    let mut tab = loaded(1000);
    tab.set_search_query("F5 F6".to_string());
    tab.find();
    // byte i holds i % 251: 0xF5 = 245 first occurs at offset 245
    assert_eq!(tab.selected_index(), Some(245));
    assert_eq!(tab.page_offset(), 0);
    tab.set_search_query("00 01 02 03 04".to_string());
    tab.next_page();
    tab.next_page();
    tab.find();
    assert_eq!(tab.selected_index(), Some(0));
    assert_eq!(tab.page_offset(), 0);
    tab.set_search_query("FA 00 01".to_string());
    tab.find();
    assert_eq!(tab.selected_index(), Some(250));
    tab.set_search_query("FF".to_string());
    tab.next_page();
    tab.find();
    assert_eq!(tab.selected_index(), None);
    assert_eq!(tab.page_offset(), 256);
    tab.set_search_query("xyz".to_string());
    tab.find();
    assert_eq!(tab.selected_index(), None);
}

#[test]
fn found_match_beyond_first_page() {
    let mut data = vec![0u8; 700];
    data[600] = 0xde;
    data[601] = 0xad;
    let mut tab = HexEditorTab::default();
    tab.open_loaded("x".to_string(), data);
    tab.set_search_query("de ad".to_string());
    tab.find();
    assert_eq!(tab.selected_index(), Some(600));
    assert_eq!(tab.page_offset(), 512);
}

#[test]
fn paging_moves_by_256_within_the_buffer() {
    let mut tab = loaded(600);
    assert_eq!(tab.page_bounds(), (0, 256));
    tab.next_page();
    assert_eq!(tab.page_bounds(), (256, 512));
    tab.next_page();
    assert_eq!(tab.page_bounds(), (512, 600));
    tab.next_page();
    assert_eq!(tab.page_offset(), 512);
    tab.prev_page();
    assert_eq!(tab.page_offset(), 256);
    tab.prev_page();
    tab.prev_page();
    assert_eq!(tab.page_offset(), 0);
    let mut exact = loaded(512);
    exact.next_page();
    exact.next_page();
    assert_eq!(exact.page_offset(), 256);
}

#[test]
fn page_rows_are_sixteen_bytes() {
    let mut tab = loaded(600);
    tab.next_page();
    tab.next_page();
    let rows = tab.page_rows();
    assert_eq!(rows.len(), 6);
    assert_eq!(rows[0], (512, 528));
    assert_eq!(rows[5], (592, 600));
    let empty = HexEditorTab::default();
    assert!(empty.page_rows().is_empty());
    assert_eq!(empty.page_bounds(), (0, 0));
}

#[test]
fn edits_and_diff() {
    let mut tab = loaded(20);
    tab.edit_hex(3, "7F");
    tab.edit_hex(4, "zz");
    tab.edit_text(5, "A");
    tab.edit_text(6, "");
    assert_eq!(tab.bytes()[3], 0x7f);
    assert_eq!(tab.bytes()[4], 4);
    assert_eq!(tab.bytes()[5], b'A');
    assert_eq!(tab.bytes()[6], 6);
    tab.show_diff();
    assert_eq!(tab.diffs(), Some(&vec![(3, 3, 0x7f), (5, 5, b'A')]));
    tab.clear_diff();
    assert_eq!(tab.diffs(), None);
    tab.show_diff();
    tab.mark_saved();
    assert_eq!(tab.diffs(), None);
    tab.show_diff();
    assert_eq!(tab.diffs(), Some(&vec![]));
}

#[test]
fn diff_compares_the_shared_length() {
    assert_eq!(diff_bytes(&vec![1, 2, 3], &vec![1, 9]), vec![(1, 9, 2)]);
    assert_eq!(diff_bytes(&vec![], &vec![1]), vec![]);
}

#[test]
fn failed_open_clears_buffer_but_keeps_page() {
    let mut tab = loaded(600);
    tab.next_page();
    tab.set_search_query("01".to_string());
    tab.find();
    tab.next_page();
    tab.show_diff();
    tab.open_failed();
    assert!(tab.bytes().is_empty());
    assert!(tab.original_bytes().is_empty());
    assert_eq!(tab.file_path(), None);
    assert_eq!(tab.diffs(), None);
    assert_eq!(tab.page_offset(), 256);
    assert_eq!(tab.selected_index(), Some(1));
    assert_eq!(tab.search_query(), "01");
}

#[test]
fn open_resets_view() {
    let mut tab = loaded(600);
    tab.next_page();
    tab.set_search_query("02".to_string());
    tab.find();
    tab.open_loaded("b.bin".to_string(), vec![9, 8, 7]);
    assert_eq!(tab.page_offset(), 0);
    assert_eq!(tab.selected_index(), None);
    assert_eq!(tab.file_path(), Some(&"b.bin".to_string()));
    assert_eq!(tab.bytes(), &vec![9, 8, 7]);
    assert_eq!(tab.original_bytes(), &vec![9, 8, 7]);
    assert_eq!(tab.search_query(), "02");
}

#[test]
fn white_space_matches_char_is_whitespace() {
    for code in 0..=0x10ffffu32 {
        if let Some(c) = char::from_u32(code) {
            assert_eq!(white_space(c), c.is_whitespace(), "code point {:#x}", code);
        }
    }
}

#[test]
fn search_bytes_matches_split_whitespace_filter_map() {
    for q in ["4A 6F 68 6E", "\u{a0}41\u{2003}42\u{180e}43", "a\r\nb\u{85}c", "+ + +0 ++1 -2"] {
        let expected: Vec<u8> = q.split_whitespace().filter_map(|b| u8::from_str_radix(b, 16).ok()).collect();
        assert_eq!(search_bytes(q), expected, "query {:?}", q);
    }
}
