use ferroni::oniguruma::{OnigMetaCharTableType, OnigSyntaxType, ONIG_OPTION_NONE};
use ferroni::regcomp::onig_reg_init;
use ferroni::regenc::OnigEncoding;
use ferroni::regint::{
    OptimizeType, RegexType, ANCR_BEGIN_BUF, ANCR_BEGIN_LINE, ANCR_BEGIN_POSITION, ANCR_END_BUF,
    ANCR_SEMI_END_BUF, INFINITE_LEN,
};
use ferroni::search::{
    backward_search, enc_is_singlebyte, enclen, forward_search, is_mbc_newline, left_adjust_char_head,
    map_search, map_search_backward, onigenc_get_prev_char_head, onigenc_get_right_adjust_char_head,
    slow_search, slow_search_backward, sunday_quick_search, sunday_quick_search_step_forward,
    forward_scan_reach, forward_search_window,
};

fn syntax() -> OnigSyntaxType {
    OnigSyntaxType {
        op: 0,
        op2: 0,
        behavior: 0,
        options: ONIG_OPTION_NONE,
        meta_char_table: OnigMetaCharTableType {
            esc: 0x5c,
            anychar: 0,
            anytime: 0,
            zero_or_one_time: 0,
            one_or_more_time: 0,
            anychar_anytime: 0,
        },
    }
}

/// A pattern optimized for the literal `exact`, with the quick-search skip
/// table of that literal.
fn literal(enc: OnigEncoding, exact: &[u8], optimize: OptimizeType) -> RegexType {
    let mut reg = onig_reg_init(ONIG_OPTION_NONE, enc, &syntax()).unwrap();
    reg.exact = exact.to_vec();
    let len = exact.len();
    reg.map = [(len + 1) as u8; 256];
    for (i, &b) in exact.iter().enumerate() {
        reg.map[b as usize] = (len - i) as u8;
    }
    reg.map_offset = 1;
    reg.optimize = optimize;
    reg
}

fn byte_map(bytes: &[u8]) -> [u8; 256] {
    let mut map = [0u8; 256];
    for &b in bytes {
        map[b as usize] = 1;
    }
    map
}

#[test]
fn character_lengths() {
    let text = "aé".as_bytes();
    assert_eq!(enclen(OnigEncoding::Utf8, text, 0), 1);
    assert_eq!(enclen(OnigEncoding::Utf8, text, 1), 2);
    assert_eq!(enclen(OnigEncoding::Utf8, text, 3), 1);
    assert_eq!(enclen(OnigEncoding::Ascii, text, 1), 1);
    assert!(enc_is_singlebyte(OnigEncoding::Ascii));
    assert!(!enc_is_singlebyte(OnigEncoding::Utf8));
}

#[test]
fn newlines() {
    assert!(is_mbc_newline(OnigEncoding::Utf8, b"a\nb", 1, 3));
    assert!(!is_mbc_newline(OnigEncoding::Utf8, b"a\nb", 0, 3));
    assert!(!is_mbc_newline(OnigEncoding::Utf8, b"a\nb", 1, 1));
}

#[test]
fn character_heads() {
    let text = "aéb".as_bytes();
    assert_eq!(left_adjust_char_head(OnigEncoding::Utf8, text, 0, 2), 1);
    assert_eq!(left_adjust_char_head(OnigEncoding::Utf8, text, 2, 2), 2);
    assert_eq!(left_adjust_char_head(OnigEncoding::Utf8, text, 3, 1), 3);
    assert_eq!(onigenc_get_prev_char_head(OnigEncoding::Utf8, text, 0, 3), 1);
    assert_eq!(onigenc_get_prev_char_head(OnigEncoding::Utf8, text, 0, 1), 0);
    assert_eq!(onigenc_get_prev_char_head(OnigEncoding::Utf8, text, 0, 0), 0);
    assert_eq!(onigenc_get_right_adjust_char_head(OnigEncoding::Utf8, text, 0, 2), 3);
    assert_eq!(onigenc_get_right_adjust_char_head(OnigEncoding::Utf8, text, 0, 1), 1);
}

#[test]
fn map_search_finds_marked_bytes() {
    let map = byte_map(b"c");
    assert_eq!(map_search(OnigEncoding::Ascii, &map, b"abcabc", 0, 6), Some(2));
    assert_eq!(map_search(OnigEncoding::Ascii, &map, b"abcabc", 3, 6), Some(5));
    assert_eq!(map_search(OnigEncoding::Ascii, &map, b"abcabc", 0, 2), None);
}

#[test]
fn naive_search_finds_the_literal() {
    let enc = OnigEncoding::Ascii;
    assert_eq!(slow_search(enc, b"bc", b"abcabc", 0, 6, 6), Some(1));
    assert_eq!(slow_search(enc, b"bc", b"abcabc", 2, 6, 6), Some(4));
    assert_eq!(slow_search(enc, b"bc", b"abcabc", 2, 6, 4), None);
    assert_eq!(slow_search(enc, b"bc", b"abcabc", 0, 5, 6), Some(1));
    assert_eq!(slow_search(enc, b"bc", b"abcab", 2, 5, 5), None);
    assert_eq!(slow_search(enc, b"", b"abc", 2, 3, 3), Some(2));
}

#[test]
fn naive_search_keeps_to_character_starts() {
    let text = [0xc3u8, 0xa9, 0xa9];
    assert_eq!(slow_search(OnigEncoding::Utf8, &[0xa9], &text, 0, 3, 3), Some(2));
    assert_eq!(slow_search(OnigEncoding::Ascii, &[0xa9], &text, 0, 3, 3), Some(1));
}

#[test]
fn quick_search_finds_the_literal() {
    let reg = literal(OnigEncoding::Ascii, b"abc", OptimizeType::StrFast);
    assert_eq!(sunday_quick_search(&reg, b"abc", b"xxabcxxabc", 0, 10, 10), Some(2));
    assert_eq!(sunday_quick_search(&reg, b"abc", b"xxabcxxabc", 3, 10, 10), Some(7));
    assert_eq!(sunday_quick_search(&reg, b"abc", b"xxabxxabxx", 0, 10, 10), None);
    assert_eq!(sunday_quick_search(&reg, b"abc", b"ab", 0, 2, 2), None);
    assert_eq!(sunday_quick_search(&reg, b"", b"ab", 1, 2, 2), Some(1));
}

#[test]
fn quick_search_by_characters() {
    let reg = literal(OnigEncoding::Utf8, "é".as_bytes(), OptimizeType::StrFastStepForward);
    let text = "aébé".as_bytes();
    assert_eq!(sunday_quick_search_step_forward(&reg, "é".as_bytes(), text, 0, 6, 6), Some(1));
    assert_eq!(sunday_quick_search_step_forward(&reg, "é".as_bytes(), text, 3, 6, 6), Some(4));
    assert_eq!(sunday_quick_search_step_forward(&reg, "é".as_bytes(), text, 0, 6, 1), None);
}

#[test]
fn backward_scans() {
    let text = b"xxabxxabxx";
    assert_eq!(slow_search_backward(OnigEncoding::Ascii, b"ab", text, 0, 0, 10, 9), Some(6));
    assert_eq!(slow_search_backward(OnigEncoding::Ascii, b"ab", text, 0, 0, 10, 5), Some(2));
    assert_eq!(slow_search_backward(OnigEncoding::Ascii, b"ab", text, 3, 0, 10, 5), None);
    assert_eq!(slow_search_backward(OnigEncoding::Ascii, b"", text, 0, 0, 10, 5), Some(5));
    let map = byte_map(b"a");
    assert_eq!(map_search_backward(OnigEncoding::Ascii, &map, text, 0, 0, 9), Some(6));
    assert_eq!(map_search_backward(OnigEncoding::Ascii, &map, text, 0, 0, 5), Some(2));
    assert_eq!(map_search_backward(OnigEncoding::Ascii, &map, text, 3, 0, 5), None);
}

#[test]
fn forward_search_gives_the_window_of_a_candidate() {
    let mut reg = literal(OnigEncoding::Ascii, b"ab", OptimizeType::Str);
    reg.dist_min = 0;
    reg.dist_max = 0;
    assert_eq!(forward_search(&reg, b"xxabxxabxx", 10, 0, 10), Some((2, 2)));
    assert_eq!(forward_search(&reg, b"xxabxxabxx", 10, 3, 10), Some((6, 6)));
    assert_eq!(forward_search(&reg, b"xxabxxabxx", 10, 7, 10), None);
    reg.dist_min = 1;
    reg.dist_max = 3;
    assert_eq!(forward_search(&reg, b"xxabxxabxx", 10, 0, 10), Some((0, 1)));
    reg.dist_max = INFINITE_LEN;
    assert_eq!(forward_search(&reg, b"xxabxxabxx", 10, 0, 10), Some((0, 1)));
    reg.optimize = OptimizeType::NoOptimize;
    assert_eq!(forward_search(&reg, b"xxabxxabxx", 10, 0, 10), None);
}

#[test]
fn forward_search_checks_line_anchors() {
    let mut reg = literal(OnigEncoding::Ascii, b"ab", OptimizeType::StrFast);
    reg.dist_min = 0;
    reg.dist_max = 0;
    reg.sub_anchor = ANCR_BEGIN_LINE;
    assert_eq!(forward_search(&reg, b"xab\nab", 6, 0, 6), Some((4, 4)));
    assert_eq!(forward_search(&reg, b"xab\nxb", 6, 0, 6), None);
}

#[test]
fn backward_search_gives_the_window_of_a_candidate() {
    let mut reg = literal(OnigEncoding::Ascii, b"ab", OptimizeType::Str);
    reg.dist_min = 0;
    reg.dist_max = 0;
    assert_eq!(backward_search(&reg, b"xxabxxabxx", 10, 9, 0, 0), Some((6, 6)));
    assert_eq!(backward_search(&reg, b"xxabxxabxx", 10, 5, 0, 0), Some((2, 2)));
    reg.dist_max = INFINITE_LEN;
    assert_eq!(backward_search(&reg, b"xxabxxabxx", 10, 5, 0, 0), Some((0, 2)));
    reg.optimize = OptimizeType::ByteMap;
    reg.map = byte_map(b"b");
    assert_eq!(backward_search(&reg, b"xxabxxabxx", 10, 9, 0, 0), Some((0, 7)));
}

fn anchored(anchor: i32, dist_min: u32, dist_max: u32) -> RegexType {
    let mut reg = onig_reg_init(ONIG_OPTION_NONE, OnigEncoding::Utf8, &syntax()).unwrap();
    reg.anchor = anchor;
    reg.anc_dist_min = dist_min;
    reg.anc_dist_max = dist_max;
    reg
}

#[test]
fn anchors_narrow_the_forward_window() {
    let text = b"abcdefghij";
    // No anchor: the window stays.
    assert_eq!(forward_search_window(&anchored(0, 0, 0), text, 10, 2, 8), Some((2, 8)));
    // \G: only the search position.
    assert_eq!(forward_search_window(&anchored(ANCR_BEGIN_POSITION, 0, 0), text, 10, 2, 8), Some((2, 3)));
    // \A: only the text's start.
    assert_eq!(forward_search_window(&anchored(ANCR_BEGIN_BUF, 0, 0), text, 10, 0, 8), Some((0, 1)));
    assert_eq!(forward_search_window(&anchored(ANCR_BEGIN_BUF, 0, 0), text, 10, 2, 8), None);
    // \z with a match of exactly 3 bytes: it must start at 7.
    assert_eq!(forward_search_window(&anchored(ANCR_END_BUF, 3, 3), text, 10, 0, 10), Some((7, 8)));
    // ... and a text shorter than the anchor's distance matches nowhere.
    assert_eq!(forward_search_window(&anchored(ANCR_END_BUF, 11, 11), text, 10, 0, 10), None);
    // \Z before a final newline: the end may be one byte earlier.
    assert_eq!(forward_search_window(&anchored(ANCR_SEMI_END_BUF, 3, 3), b"abcdefghi\n", 10, 0, 10), Some((6, 8)));
    // Fewer bytes than the pattern's least length leave no window.
    let mut long = anchored(0, 0, 0);
    long.threshold_len = 9;
    assert_eq!(forward_search_window(&long, text, 10, 2, 8), None);
    assert_eq!(forward_search_window(&long, text, 10, 1, 8), Some((1, 8)));
}

#[test]
fn scan_reach_follows_the_pattern_distance() {
    let mut reg = anchored(0, 0, 0);
    reg.dist_max = 0;
    assert_eq!(forward_scan_reach(&reg, 10, 4), 4);
    reg.dist_max = 3;
    assert_eq!(forward_scan_reach(&reg, 10, 4), 7);
    assert_eq!(forward_scan_reach(&reg, 10, 8), 10);
    reg.dist_max = INFINITE_LEN;
    assert_eq!(forward_scan_reach(&reg, 10, 4), 10);
}
