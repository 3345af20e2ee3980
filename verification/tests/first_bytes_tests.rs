use ferroni::first_bytes::{derive_start_byte_map, guard_byte_map, guard_skipped_retries, GuardWalk};
use ferroni::literal_trie::LiteralTrie;
use ferroni::oniguruma::{OnigMetaCharTableType, OnigSyntaxType, ONIG_OPTION_NONE};
use ferroni::regcomp::onig_reg_init;
use ferroni::regenc::OnigEncoding;
use ferroni::regint::{bitset_at, BitSet, OpCode, Operation, OperationPayload, RegexType};

fn syntax() -> OnigSyntaxType {
    OnigSyntaxType {
        op: 0,
        op2: 0,
        behavior: 0,
        options: ONIG_OPTION_NONE,
        meta_char_table: OnigMetaCharTableType {
            esc: 0x5c,
            anychar: 0,
            anytime: 0,
            zero_or_one_time: 0,
            one_or_more_time: 0,
            anychar_anytime: 0,
        },
    }
}

fn pattern(ops: Vec<(OpCode, OperationPayload)>) -> RegexType {
    let mut reg = onig_reg_init(ONIG_OPTION_NONE, OnigEncoding::Utf8, &syntax()).unwrap();
    for (opcode, payload) in ops {
        reg.ops.push(Operation { opcode, payload });
    }
    reg
}

fn exact(b: u8) -> OperationPayload {
    let mut s = [0u8; 16];
    s[0] = b;
    OperationPayload::Exact { s }
}

fn members(map: &[u8; 256]) -> Vec<u8> {
    (0..256).filter(|&b| map[b] == 1).map(|b| b as u8).collect()
}

#[test]
fn a_literal_fixes_its_first_byte() {
    let reg = pattern(vec![(OpCode::Str1, exact(b'a')), (OpCode::End, OperationPayload::Empty)]);
    let map = derive_start_byte_map(&reg).unwrap();
    assert_eq!(members(&map), vec![b'a']);
}

#[test]
fn alternatives_contribute_their_first_bytes() {
    let reg = pattern(vec![
        (OpCode::Push, OperationPayload::Push { addr: 3 }),
        (OpCode::Str1, exact(b'a')),
        (OpCode::Jump, OperationPayload::Jump { addr: 2 }),
        (OpCode::Str1, exact(b'b')),
        (OpCode::End, OperationPayload::Empty),
    ]);
    let map = derive_start_byte_map(&reg).unwrap();
    assert_eq!(members(&map), vec![b'a', b'b']);
}

#[test]
fn a_path_that_consumes_nothing_fixes_no_byte() {
    let reg = pattern(vec![
        (OpCode::Push, OperationPayload::Push { addr: 2 }),
        (OpCode::Str1, exact(b'a')),
        (OpCode::End, OperationPayload::Empty),
    ]);
    assert!(derive_start_byte_map(&reg).is_none());
}

#[test]
fn captures_and_anchors_are_passed() {
    let reg = pattern(vec![
        (OpCode::BeginLine, OperationPayload::Empty),
        (OpCode::MemStart, OperationPayload::MemoryStart { num: 1 }),
        (OpCode::CClassMb, OperationPayload::CClassMb { mb: vec![] }),
        (OpCode::End, OperationPayload::Empty),
    ]);
    let map = derive_start_byte_map(&reg).unwrap();
    assert_eq!(members(&map), (0x80..=0xff).collect::<Vec<u8>>());
}

#[test]
fn a_star_falls_through_to_what_follows() {
    let mut digits = [0u32; 8];
    digits[1] = 0x03ff_0000; // '0'..='9'
    let reg = pattern(vec![
        (OpCode::CClassStar, OperationPayload::CClass { bsp: Box::new(digits) }),
        (OpCode::Str1, exact(b'x')),
        (OpCode::End, OperationPayload::Empty),
    ]);
    let map = derive_start_byte_map(&reg).unwrap();
    let mut expected: Vec<u8> = (b'0'..=b'9').collect();
    expected.push(b'x');
    assert_eq!(members(&map), expected);
}

#[test]
fn literal_alternations_use_their_trie() {
    let literals: Vec<&[u8]> = vec![b"Foo", b"bar"];
    let mut reg = pattern(vec![
        (OpCode::AltLiterals, OperationPayload::AltLiterals { trie_idx: 0 }),
        (OpCode::End, OperationPayload::Empty),
    ]);
    reg.literal_tries.push(LiteralTrie::build(&literals, false));
    let map = derive_start_byte_map(&reg).unwrap();
    assert_eq!(members(&map), vec![b'F', b'b']);

    let mut folded = pattern(vec![
        (OpCode::AltLiterals, OperationPayload::AltLiterals { trie_idx: 0 }),
        (OpCode::End, OperationPayload::Empty),
    ]);
    folded.literal_tries.push(LiteralTrie::build(&literals, true));
    let map = derive_start_byte_map(&folded).unwrap();
    let mut expected = vec![b'B', b'F', b'b', b'f'];
    expected.extend(0x80..=0xffu8);
    assert_eq!(members(&map), expected);

    // A missing trie gives up.
    let broken = pattern(vec![
        (OpCode::AltLiterals, OperationPayload::AltLiterals { trie_idx: 3 }),
        (OpCode::End, OperationPayload::Empty),
    ]);
    assert!(derive_start_byte_map(&broken).is_none());
}

#[test]
fn a_look_ahead_body_bounds_the_first_byte() {
    // (?=a)[a-z]: the body's bytes are derived and stand for the path.
    let mut lower = [0u32; 8];
    lower[3] = 0x07ff_fffe; // 'a'..='z'
    let reg = pattern(vec![
        (OpCode::Mark, OperationPayload::Mark { id: 0, save_pos: true }),
        (OpCode::Str1, exact(b'a')),
        (OpCode::CutToMark, OperationPayload::CutToMark { id: 0, restore_pos: true }),
        (OpCode::CClass, OperationPayload::CClass { bsp: Box::new(lower) }),
        (OpCode::End, OperationPayload::Empty),
    ]);
    let map = derive_start_byte_map(&reg).unwrap();
    assert_eq!(members(&map), vec![b'a']);
}

fn bits(map: &BitSet) -> Vec<u8> {
    (0..256usize).filter(|&b| bitset_at(map, b)).map(|b| b as u8).collect()
}

fn map_of(bytes: &[u8]) -> BitSet {
    let mut map = [0u32; 8];
    for &b in bytes {
        map[(b >> 5) as usize] |= 1 << (b & 31);
    }
    map
}

#[test]
fn guard_map_of_a_literal() {
    let reg = pattern(vec![(OpCode::Str1, exact(b'a')), (OpCode::End, OperationPayload::Empty)]);
    let mut walk = GuardWalk::new();
    let map = guard_byte_map(&reg, 0, &mut walk).unwrap();
    assert_eq!(bits(&map), vec![b'a']);
}

#[test]
fn guard_map_gathers_both_paths_of_a_push() {
    let reg = pattern(vec![
        (OpCode::Push, OperationPayload::Push { addr: 3 }),
        (OpCode::Str1, exact(b'a')),
        (OpCode::Jump, OperationPayload::Jump { addr: 2 }),
        (OpCode::Str1, exact(b'b')),
        (OpCode::End, OperationPayload::Empty),
    ]);
    let mut walk = GuardWalk::new();
    let map = guard_byte_map(&reg, 0, &mut walk).unwrap();
    assert_eq!(bits(&map), vec![b'a', b'b']);
    // The buffers are reused for another entry.
    let map = guard_byte_map(&reg, 3, &mut walk).unwrap();
    assert_eq!(bits(&map), vec![b'b']);
}

#[test]
fn guard_walk_gives_up_at_the_end_of_the_pattern() {
    let reg = pattern(vec![
        (OpCode::Push, OperationPayload::Push { addr: 2 }),
        (OpCode::Str1, exact(b'a')),
        (OpCode::End, OperationPayload::Empty),
    ]);
    let mut walk = GuardWalk::new();
    assert!(guard_byte_map(&reg, 0, &mut walk).is_none());
    assert!(guard_byte_map(&reg, 7, &mut walk).is_none());
}

#[test]
fn guard_walk_needs_the_mark_of_a_cut_on_its_path() {
    let reg = pattern(vec![
        (OpCode::Mark, OperationPayload::Mark { id: 0, save_pos: false }),
        (OpCode::CutToMark, OperationPayload::CutToMark { id: 0, restore_pos: false }),
        (OpCode::Str1, exact(b'x')),
    ]);
    let mut walk = GuardWalk::new();
    let map = guard_byte_map(&reg, 0, &mut walk).unwrap();
    assert_eq!(bits(&map), vec![b'x']);
    assert!(guard_byte_map(&reg, 1, &mut walk).is_none());
}

#[test]
fn guard_walk_stays_local() {
    let mut ops = Vec::new();
    for _ in 0..70 {
        ops.push((OpCode::Jump, OperationPayload::Jump { addr: 1 }));
    }
    ops.push((OpCode::Str1, exact(b'z')));
    let reg = pattern(ops);
    let mut walk = GuardWalk::new();
    assert!(guard_byte_map(&reg, 0, &mut walk).is_none());
    let map = guard_byte_map(&reg, 10, &mut walk).unwrap();
    assert_eq!(bits(&map), vec![b'z']);
}

#[test]
fn skipped_retries_of_a_literal() {
    let reg = pattern(vec![(OpCode::Str1, exact(b'a')), (OpCode::End, OperationPayload::Empty)]);
    assert_eq!(guard_skipped_retries(&reg, 0, &map_of(b"a")), Some(1));
}

#[test]
fn skipped_retries_count_each_alternative() {
    let reg = pattern(vec![
        (OpCode::Push, OperationPayload::Push { addr: 3 }),
        (OpCode::Str1, exact(b'a')),
        (OpCode::Jump, OperationPayload::Jump { addr: 2 }),
        (OpCode::Str1, exact(b'b')),
        (OpCode::End, OperationPayload::Empty),
    ]);
    assert_eq!(guard_skipped_retries(&reg, 0, &map_of(b"ab")), Some(2));
}

#[test]
fn skipped_retries_agree_over_check_outcomes() {
    let reg = pattern(vec![
        (OpCode::BeginLine, OperationPayload::Empty),
        (OpCode::Str1, exact(b'a')),
    ]);
    assert_eq!(guard_skipped_retries(&reg, 0, &map_of(b"a")), Some(1));
}

#[test]
fn skipped_retries_that_depend_on_a_check_are_not_counted() {
    let reg = pattern(vec![
        (OpCode::BeginLine, OperationPayload::Empty),
        (OpCode::Push, OperationPayload::Push { addr: 2 }),
        (OpCode::Str1, exact(b'a')),
        (OpCode::Str1, exact(b'b')),
    ]);
    assert_eq!(guard_skipped_retries(&reg, 0, &map_of(b"ab")), None);
}

#[test]
fn skipped_retries_follow_an_exact_guard_outside_the_map() {
    let reg = pattern(vec![
        (OpCode::PushOrJumpExact1, OperationPayload::PushOrJumpExact1 { addr: 2, c: b'q' }),
        (OpCode::Str1, exact(b'q')),
        (OpCode::Str1, exact(b'r')),
    ]);
    assert_eq!(guard_skipped_retries(&reg, 0, &map_of(b"qr")), Some(1));
    assert_eq!(guard_skipped_retries(&reg, 0, &map_of(b"r")), None);
}
