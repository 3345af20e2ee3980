use ferroni::literal_trie::{CaseFolds, LiteralTrie};

#[test]
fn test_basic_match() {
    let literals: Vec<&[u8]> = vec![b"foo", b"bar", b"baz"];
    let trie = LiteralTrie::build(&literals, false);

    assert_eq!(trie.find_match(b"foobar", 0, 6), Some(3));
    assert_eq!(trie.find_match(b"foobar", 3, 6), Some(3));
    assert_eq!(trie.find_match(b"bazqux", 0, 6), Some(3));
    assert_eq!(trie.find_match(b"qux", 0, 3), None);
}

#[test]
fn test_prefix_overlap() {
    let literals: Vec<&[u8]> = vec![b"ab", b"abc", b"abcd"];
    let trie = LiteralTrie::build(&literals, false);

    // Should return longest match
    assert_eq!(trie.find_match(b"abcde", 0, 5), Some(4));
    assert_eq!(trie.find_match(b"abce", 0, 4), Some(3));
    assert_eq!(trie.find_match(b"abx", 0, 3), Some(2));
    assert_eq!(trie.find_match(b"axx", 0, 3), None);
}

#[test]
fn test_case_insensitive() {
    let literals: Vec<&[u8]> = vec![b"foo", b"BAR"];
    let trie = LiteralTrie::build(&literals, true);

    assert_eq!(trie.find_match(b"FOO", 0, 3), Some(3));
    assert_eq!(trie.find_match(b"foo", 0, 3), Some(3));
    assert_eq!(trie.find_match(b"Bar", 0, 3), Some(3));
    assert_eq!(trie.find_match(b"bar", 0, 3), Some(3));
}

#[test]
fn test_no_match() {
    let literals: Vec<&[u8]> = vec![b"abc"];
    let trie = LiteralTrie::build(&literals, false);

    assert_eq!(trie.find_match(b"abd", 0, 3), None);
    assert_eq!(trie.find_match(b"", 0, 0), None);
}

#[test]
fn test_offset() {
    let literals: Vec<&[u8]> = vec![b"world"];
    let trie = LiteralTrie::build(&literals, false);

    assert_eq!(trie.find_match(b"hello world", 6, 11), Some(5));
    assert_eq!(trie.find_match(b"hello world", 0, 11), None);
}

#[test]
fn test_many_literals() {
    // A CSS property-like alternation.
    let literals: Vec<&[u8]> = vec![
        b"color",
        b"content",
        b"cursor",
        b"display",
        b"direction",
        b"float",
        b"font",
        b"font-size",
        b"font-weight",
        b"height",
        b"left",
        b"margin",
        b"margin-top",
        b"padding",
        b"position",
        b"right",
        b"top",
        b"width",
        b"z-index",
    ];
    let trie = LiteralTrie::build(&literals, false);

    assert_eq!(trie.find_match(b"z-index", 0, 7), Some(7));
    assert_eq!(trie.find_match(b"font-weight:", 0, 12), Some(11));
    assert_eq!(trie.find_match(b"font-size:", 0, 10), Some(9));
    assert_eq!(trie.find_match(b"font:", 0, 5), Some(4));
    assert_eq!(trie.find_match(b"margin-top;", 0, 11), Some(10));
    assert_eq!(trie.find_match(b"margin;", 0, 7), Some(6));
}

#[test]
fn keeps_literals_and_case_mode() {
    let literals: Vec<&[u8]> = vec![b"Foo", b"bar"];
    let trie = LiteralTrie::build(&literals, true);
    assert!(trie.is_case_insensitive());
    let kept = trie.literals();
    assert_eq!(kept.len(), 2);
    assert_eq!(kept[0], b"Foo".to_vec());
    assert_eq!(kept[1], b"bar".to_vec());
    let exact = LiteralTrie::build(&literals, false);
    assert!(!exact.is_case_insensitive());
    assert_eq!(exact.find_match(b"foo", 0, 3), None);
    assert_eq!(exact.find_match(b"Foo", 0, 3), Some(3));
}

#[test]
fn first_match_prefers_earlier_literal() {
    // The longer literal comes first in the alternation.
    let literals: Vec<&[u8]> = vec![b"abcd", b"ab", b"abc"];
    let trie = LiteralTrie::build(&literals, false);
    assert_eq!(trie.first_match(b"abcde", 0, 5), Some((4, true)));
    assert_eq!(trie.first_match(b"abx", 0, 3), Some((2, false)));
    assert_eq!(trie.first_match(b"xyz", 0, 3), None);
    // The search window stops before the longest literal.
    assert_eq!(trie.first_match(b"abcde", 0, 3), Some((2, true)));
}

#[test]
fn matches_in_alternation_order() {
    let literals: Vec<&[u8]> = vec![b"abcd", b"ab", b"abc", b"x"];
    let trie = LiteralTrie::build(&literals, false);
    assert_eq!(trie.matches_in_order(b"abcde", 0, 5), vec![(0, 4), (1, 2), (2, 3)]);
    assert_eq!(trie.matches_in_order(b"zzz", 0, 3), Vec::<(u32, usize)>::new());
}

#[test]
fn repeated_literal_keeps_first_position() {
    let literals: Vec<&[u8]> = vec![b"cat", b"dog", b"CAT"];
    let trie = LiteralTrie::build(&literals, true);
    assert_eq!(trie.matches_in_order(b"Cat", 0, 3), vec![(0, 3)]);
    assert_eq!(trie.first_match(b"cAt", 0, 3), Some((3, false)));
}

#[test]
fn empty_literal_matches_everywhere() {
    let literals: Vec<&[u8]> = vec![b"", b"a"];
    let trie = LiteralTrie::build(&literals, false);
    assert_eq!(trie.find_match(b"b", 0, 1), Some(0));
    assert_eq!(trie.find_match(b"a", 0, 1), Some(1));
    assert_eq!(trie.find_match(b"a", 1, 0), Some(0));
    assert_eq!(trie.matches_in_order(b"a", 0, 1), vec![(0, 0), (1, 1)]);
}

#[test]
fn matches_depend_only_on_the_window_as_compared() {
    let literals: Vec<&[u8]> = vec![b"ab", b"abc", b"b"];
    let ci = LiteralTrie::build(&literals, true);
    assert_eq!(ci.matches_in_order(b"xABCx", 1, 4), ci.matches_in_order(b"yabcy", 1, 4));
    assert_eq!(ci.matches_in_order(b"xAbC", 1, 4), vec![(0, 2), (1, 3)]);
    let exact = LiteralTrie::build(&literals, false);
    // Bytes outside the window do not count.
    assert_eq!(exact.matches_in_order(b"zabcz", 1, 4), exact.matches_in_order(b"qabcq", 1, 4));
    assert_eq!(exact.matches_in_order(b"zABC", 1, 4), vec![]);
}

fn strasse_folds() -> CaseFolds {
    CaseFolds {
        // U+017F LATIN SMALL LETTER LONG S reads as `s`.
        class_members: vec![(0x17f, b's')],
        // U+00DF LATIN SMALL LETTER SHARP S stands for `ss`.
        ligatures: vec![(vec![0xc3, 0x9f], b"ss".to_vec())],
        segments: vec![vec![(4, 2, 0)]],
        accepted: vec![vec![
            b"ss".to_vec(),
            b"sS".to_vec(),
            b"Ss".to_vec(),
            b"SS".to_vec(),
            vec![0xc3, 0x9f],
        ]],
    }
}

#[test]
fn folded_trie_accepts_a_ligature() {
    let literals: Vec<&[u8]> = vec![b"strasse"];
    let trie = LiteralTrie::build_folded(&literals, strasse_folds());
    assert!(trie.is_case_insensitive());
    assert_eq!(trie.find_match(b"stra\xc3\x9fe", 0, 7), Some(7));
    assert_eq!(trie.find_match(b"STRA\xc3\x9fE", 0, 7), Some(7));
    assert_eq!(trie.find_match(b"strasse", 0, 7), Some(7));
    assert_eq!(trie.first_match(b"stra\xc3\x9fe!", 0, 8), Some((7, false)));
    assert_eq!(trie.matches_in_order(b"stra\xc3\x9fe", 0, 7), vec![(0, 7)]);
}

#[test]
fn folded_trie_accepts_a_class_member() {
    let literals: Vec<&[u8]> = vec![b"strasse"];
    let trie = LiteralTrie::build_folded(&literals, strasse_folds());
    // A long s in place of the first `s`, outside the segment.
    assert_eq!(trie.find_match(b"\xc5\xbftrasse", 0, 8), Some(8));
    // Two long s inside the segment: its accepted inputs do not hold them.
    assert_eq!(trie.find_match(b"stra\xc5\xbf\xc5\xbfe", 0, 9), None);
}

#[test]
fn folded_walk_stops_at_a_cut_character() {
    let literals: Vec<&[u8]> = vec![b"strasse", b"stra"];
    let mut folds = strasse_folds();
    folds.segments.push(vec![]);
    let trie = LiteralTrie::build_folded(&literals, folds);
    // The sharp s does not fit before `end`: only the ASCII match remains.
    assert_eq!(trie.find_match(b"stra\xc3\x9fe", 0, 5), Some(4));
    // An unknown character ends the walk.
    assert_eq!(trie.find_match(b"stra\xc3\xa9e", 0, 7), Some(4));
    assert_eq!(trie.matches_in_order(b"stra\xc3\x9fe", 0, 7), vec![(0, 7), (1, 4)]);
}

#[test]
fn folded_segments_compare_raw_bytes() {
    let literals: Vec<&[u8]> = vec![b"kss"];
    let folds = CaseFolds {
        // U+212A KELVIN SIGN reads as `k`.
        class_members: vec![(0x212a, b'k')],
        ligatures: vec![],
        segments: vec![vec![(1, 2, 0)]],
        accepted: vec![vec![b"ss".to_vec()]],
    };
    let trie = LiteralTrie::build_folded(&literals, folds);
    assert_eq!(trie.find_match(b"\xe2\x84\xaass", 0, 5), Some(5));
    assert_eq!(trie.find_match(b"\xe2\x84\xaaSS", 0, 5), None);
    // All ASCII: case is ignored as in any case-insensitive trie.
    assert_eq!(trie.find_match(b"KSS", 0, 3), Some(3));
}
