use ferroni::api::{Captures, FindIter, FindStep, Match, Regex, RegexBuilder};
use ferroni::oniguruma::{
    OnigMetaCharTableType, OnigSyntaxType, ONIG_OPTION_EXTEND, ONIG_OPTION_FIND_LONGEST,
    ONIG_OPTION_IGNORECASE, ONIG_OPTION_MULTILINE, ONIG_OPTION_NONE, ONIG_OPTION_SINGLELINE,
};
use ferroni::regcomp::onig_reg_init;
use ferroni::regenc::OnigEncoding;
use ferroni::regexec::onig_region_new;
use ferroni::regint::{NameEntry, NameTable};

fn syntax() -> OnigSyntaxType {
    OnigSyntaxType {
        op: 0,
        op2: 0,
        behavior: 0,
        options: ONIG_OPTION_NONE,
        meta_char_table: OnigMetaCharTableType {
            esc: 0x5c,
            anychar: 0,
            anytime: 0,
            zero_or_one_time: 0,
            one_or_more_time: 0,
            anychar_anytime: 0,
        },
    }
}

fn regex(num_mem: i32) -> Regex {
    let mut reg = onig_reg_init(ONIG_OPTION_NONE, OnigEncoding::Utf8, &syntax()).unwrap();
    reg.num_mem = num_mem;
    reg.name_table = Some(NameTable {
        entries: vec![
            NameEntry { name: b"year".to_vec(), back_refs: vec![1] },
            NameEntry { name: b"month".to_vec(), back_refs: vec![2] },
        ],
    });
    Regex::from_raw(reg)
}

#[test]
fn match_reports_its_range() {
    let text = b"hello 42 world";
    let m = Match::new(text, 6, 8);
    assert_eq!(m.as_str(), "42");
    assert_eq!(m.start(), 6);
    assert_eq!(m.end(), 8);
    assert_eq!(m.range(), 6..8);
    assert_eq!(m.len(), 2);
    assert!(!m.is_empty());
    assert_eq!(m.as_bytes(), b"42");
    let empty = Match::new(text, 3, 3);
    assert!(empty.is_empty());
    assert_eq!(empty.len(), 0);
    assert_eq!(empty.as_bytes(), b"");
}

#[test]
fn regex_reports_its_groups() {
    let re = regex(3);
    assert_eq!(re.captures_len(), 3);
    assert_eq!(re.as_raw().num_mem, 3);
}

#[test]
fn builder_sets_and_clears_options() {
    let b = RegexBuilder::new("hello").case_insensitive(true);
    assert_eq!(b.options(), ONIG_OPTION_IGNORECASE);
    assert_eq!(b.pattern(), b"hello");
    let b = b.dot_matches_newline(true).multi_line_anchors(false).extended(true);
    assert_eq!(
        b.options(),
        ONIG_OPTION_IGNORECASE | ONIG_OPTION_MULTILINE | ONIG_OPTION_SINGLELINE | ONIG_OPTION_EXTEND
    );
    let b = b.case_insensitive(false).extended(false).option(ONIG_OPTION_FIND_LONGEST);
    assert_eq!(
        b.options(),
        ONIG_OPTION_MULTILINE | ONIG_OPTION_SINGLELINE | ONIG_OPTION_FIND_LONGEST
    );
    // Line anchors clear the single-line option.
    let b = b.dot_matches_newline(false).multi_line_anchors(true).syntax(&syntax());
    assert_eq!(b.options(), ONIG_OPTION_FIND_LONGEST);
}

#[test]
fn captures_give_groups_and_names() {
    let re = regex(3);
    let text = b"date: 2026-02-14";
    let mut region = onig_region_new();
    ferroni::regexec::onig_region_resize(&mut region, 4);
    region.beg = vec![6, 6, 11, -1];
    region.end = vec![13, 10, 13, -1];
    let caps = Captures::new(text, region, &re);
    assert_eq!(caps.len(), 4);
    assert!(!caps.is_empty());
    assert_eq!(caps.get(0).unwrap().as_bytes(), b"2026-02");
    assert_eq!(caps.get(1).unwrap().as_bytes(), b"2026");
    assert!(caps.get(3).is_none());
    assert!(caps.get(4).is_none());
    assert_eq!(caps.name("year").unwrap().as_str(), "2026");
    assert_eq!(caps.name("month").unwrap().as_str(), "02");
    assert!(caps.name("day").is_none());
}

#[test]
fn find_iteration_steps_past_empty_matches() {
    // Matches of an empty pattern in "ab": at 0, 1 and 2.
    let re = regex(0);
    let text = b"ab";
    let mut it = FindIter::new(&re, text);
    let mut starts = Vec::new();
    let mut guard = 0;
    while let Some(from) = it.search_start() {
        guard += 1;
        assert!(guard < 20);
        // The empty pattern matches where the search starts.
        match it.step(Some((from, from))) {
            FindStep::Found(m) => starts.push(m.start()),
            FindStep::Again => {}
            FindStep::Done => break,
        }
    }
    assert_eq!(starts, vec![0, 1, 2]);
}

#[test]
fn find_iteration_yields_non_empty_matches_and_stops() {
    let re = regex(0);
    let text = b"1 + 22 = 333";
    let mut it = FindIter::new(&re, text);
    let found = [(0usize, 1usize), (4, 6), (9, 12)];
    let mut got = Vec::new();
    for &(s, e) in &found {
        assert!(it.search_start().is_some());
        match it.step(Some((s, e))) {
            FindStep::Found(m) => got.push(m.as_bytes().to_vec()),
            _ => panic!("expected a match"),
        }
    }
    assert!(matches!(it.step(None), FindStep::Done));
    assert_eq!(got, vec![b"1".to_vec(), b"22".to_vec(), b"333".to_vec()]);
}

#[test]
fn regex_builder_starts_plain() {
    let b = Regex::builder("a+b");
    assert_eq!(b.pattern(), b"a+b");
    assert_eq!(b.options(), 0);
}

#[test]
fn captures_iterate_over_every_group() {
    let re = regex(2);
    let text = b"ab-cd";
    let mut region = onig_region_new();
    ferroni::regexec::onig_region_resize(&mut region, 3);
    region.beg = vec![0, -1, 3];
    region.end = vec![5, -1, 5];
    let caps = Captures::new(text, region, &re);
    let mut it = caps.iter();
    assert_eq!(it.size_hint(), (3, Some(3)));
    assert_eq!(it.next().unwrap().map(|m| m.range()), Some(0..5));
    assert!(it.next().unwrap().is_none());
    assert_eq!(it.size_hint(), (1, Some(1)));
    assert_eq!(it.next().unwrap().map(|m| m.as_bytes()), Some(&b"cd"[..]));
    assert!(it.next().is_none());
    assert_eq!(it.size_hint(), (0, Some(0)));
}

#[test]
fn try_as_str_refuses_bytes_that_are_not_utf8() {
    let text: &[u8] = b"ok \xff\xfe end";
    assert_eq!(Match::new(text, 0, 2).try_as_str(), Some("ok"));
    assert_eq!(Match::new(text, 3, 5).try_as_str(), None);
    assert_eq!(Match::new(text, 6, 9).try_as_str(), Some("end"));
}

#[test]
fn name_gives_the_first_named_group_that_took_part() {
    let mut reg = onig_reg_init(ONIG_OPTION_NONE, OnigEncoding::Utf8, &syntax()).unwrap();
    reg.num_mem = 3;
    reg.name_table = Some(NameTable {
        entries: vec![NameEntry { name: b"part".to_vec(), back_refs: vec![1, 2, 3] }],
    });
    let re = Regex::from_raw(reg);
    let text = b"date: 2026-02-14";
    let mut region = onig_region_new();
    ferroni::regexec::onig_region_resize(&mut region, 4);
    // Group 1 did not take part; groups 2 and 3 did.
    region.beg = vec![6, -1, 11, 14];
    region.end = vec![16, -1, 13, 16];
    let caps = Captures::new(text, region, &re);
    assert_eq!(caps.name("part").unwrap().as_bytes(), b"02");
    assert_eq!(caps.name("part").unwrap().range(), 11..13);
}
