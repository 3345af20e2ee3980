use ferroni::oniguruma::{OnigMetaCharTableType, OnigSyntaxType, ONIG_OPTION_NONE};
use ferroni::regcomp::onig_reg_init;
use ferroni::regenc::OnigEncoding;
use ferroni::regint::{RegexType, SaveType, StackPopLevel};
use ferroni::stack::{
    backref_check_at_nested_level, backref_match_at_nested_level, get_mem_end, get_mem_start, stack_empty_check,
    stack_empty_check_mem, stack_get_mem_start_for_rec, stack_get_repeat_count,
    stack_get_save_val_last, stack_get_save_val_type_last, stack_pop, stack_pop_to_mark,
    stack_void_to_mark, MemPtr, StackEntry,
};

fn reg() -> RegexType {
    let syntax = OnigSyntaxType {
        op: 0,
        op2: 0,
        behavior: 0,
        options: ONIG_OPTION_NONE,
        meta_char_table: OnigMetaCharTableType {
            esc: 0x5c,
            anychar: 0,
            anytime: 0,
            zero_or_one_time: 0,
            one_or_more_time: 0,
            anychar_anytime: 0,
        },
    };
    onig_reg_init(ONIG_OPTION_NONE, OnigEncoding::Utf8, &syntax).unwrap()
}

fn alt(pcode: usize, pstr: usize) -> StackEntry {
    StackEntry::Alt { pcode, pstr, zid: -1, is_super: false }
}

#[test]
fn entry_kinds() {
    assert!(alt(0, 0).is_alt());
    assert!(!StackEntry::Void.is_alt());
    assert!(StackEntry::Return.is_pop_handled());
    assert!(StackEntry::RepeatInc { zid: 0, count: 1 }.is_pop_handled());
    assert!(!StackEntry::Void.is_pop_handled());
    assert!(!alt(0, 0).is_pop_handled());
}

#[test]
fn look_ups_find_the_most_recent_entry() {
    let stack = vec![
        StackEntry::RepeatInc { zid: 1, count: 2 },
        StackEntry::EmptyCheckStart { zid: 0, pstr: 3 },
        StackEntry::SaveVal { zid: 0, save_type: SaveType::S, v: 10 },
        StackEntry::RepeatInc { zid: 1, count: 5 },
        StackEntry::SaveVal { zid: 1, save_type: SaveType::S, v: 11 },
        StackEntry::EmptyCheckStart { zid: 0, pstr: 7 },
    ];
    assert_eq!(stack_get_repeat_count(&stack, 1), 5);
    assert_eq!(stack_get_repeat_count(&stack, 2), 0);
    assert!(stack_empty_check(&stack, 0, 7));
    assert!(!stack_empty_check(&stack, 0, 3));
    assert!(!stack_empty_check(&stack, 1, 7));
    assert_eq!(stack_get_save_val_type_last(&stack, SaveType::S), Some(11));
    assert_eq!(stack_get_save_val_type_last(&stack, SaveType::Keep), None);
    assert_eq!(stack_get_save_val_last(&stack, SaveType::S, 0), Some(10));
    assert_eq!(stack_get_save_val_last(&stack, SaveType::S, 2), None);
}

#[test]
fn pop_restores_groups_down_to_the_choice_point() {
    let r = reg();
    let mut stack = vec![
        alt(9, 1),
        StackEntry::MemStart { zid: 1, pstr: 2, prev_start: MemPtr::Invalid, prev_end: MemPtr::Invalid },
        StackEntry::Callout { num: 1, id: 3 },
        StackEntry::MemEnd { zid: 1, pstr: 4, prev_start: MemPtr::Pos(2), prev_end: MemPtr::Pos(3) },
    ];
    let mut starts = vec![MemPtr::Pos(2); 2];
    let mut ends = vec![MemPtr::Pos(4); 2];
    assert_eq!(get_mem_start(&r, &stack, &starts, 1), Some(2));
    assert_eq!(get_mem_end(&r, &stack, &ends, 1), Some(4));
    let (target, retract) = stack_pop(&mut stack, StackPopLevel::All, &mut starts, &mut ends);
    assert_eq!(target, Some((9, 1, -1)));
    assert_eq!(retract, vec![(1, 3)]);
    assert!(stack.is_empty());
    assert_eq!(starts[1], MemPtr::Invalid);
    assert_eq!(ends[1], MemPtr::Invalid);
    assert_eq!(get_mem_start(&r, &stack, &starts, 1), None);
}

#[test]
fn pop_at_the_lowest_level_restores_nothing() {
    let mut stack = vec![
        StackEntry::MemStart { zid: 0, pstr: 2, prev_start: MemPtr::Invalid, prev_end: MemPtr::Invalid },
        StackEntry::Callout { num: 1, id: 3 },
    ];
    let mut starts = vec![MemPtr::Pos(2)];
    let mut ends = vec![MemPtr::Pos(4)];
    let (target, retract) = stack_pop(&mut stack, StackPopLevel::Free, &mut starts, &mut ends);
    assert_eq!(target, None);
    assert!(retract.is_empty());
    assert!(stack.is_empty());
    assert_eq!(starts[0], MemPtr::Pos(2));
}

#[test]
fn group_pointers_into_the_stack() {
    let r = reg();
    let stack = vec![
        StackEntry::MemStart { zid: 0, pstr: 5, prev_start: MemPtr::Invalid, prev_end: MemPtr::Invalid },
        StackEntry::MemEnd { zid: 0, pstr: 8, prev_start: MemPtr::Invalid, prev_end: MemPtr::Invalid },
    ];
    let starts = vec![MemPtr::StackIdx(0)];
    let ends = vec![MemPtr::StackIdx(1)];
    assert_eq!(get_mem_start(&r, &stack, &starts, 0), Some(5));
    assert_eq!(get_mem_end(&r, &stack, &ends, 0), Some(8));
    assert_eq!(get_mem_start(&r, &stack, &ends, 0), None);
}

#[test]
fn pop_to_a_mark_and_cut_to_a_mark() {
    let mut stack = vec![
        alt(1, 0),
        StackEntry::Mark { zid: 2, pos: Some(4) },
        alt(2, 5),
        StackEntry::Alt { pcode: 3, pstr: 6, zid: -1, is_super: true },
        StackEntry::EmptyCheckStart { zid: 0, pstr: 6 },
        StackEntry::Mark { zid: 1, pos: None },
        StackEntry::MemStart { zid: 0, pstr: 6, prev_start: MemPtr::Pos(1), prev_end: MemPtr::Pos(2) },
    ];
    let mut cut = stack.clone();
    assert_eq!(stack_void_to_mark(&mut cut, 2), Some(4));
    assert_eq!(cut[0], alt(1, 0));
    assert_eq!(cut[1], StackEntry::Void);
    assert_eq!(cut[2], StackEntry::Void);
    assert_eq!(cut[3], stack[3]);
    assert_eq!(cut[4], StackEntry::Void);
    assert_eq!(cut[5], stack[5]);
    assert_eq!(cut[6], stack[6]);
    let mut starts = vec![MemPtr::Invalid];
    let mut ends = vec![MemPtr::Invalid];
    assert_eq!(stack_pop_to_mark(&mut stack, 2, &mut starts, &mut ends), Some(4));
    assert_eq!(stack, vec![alt(1, 0)]);
    assert_eq!(starts[0], MemPtr::Pos(1));
    assert_eq!(ends[0], MemPtr::Pos(2));
    assert_eq!(stack_pop_to_mark(&mut stack, 7, &mut starts, &mut ends), None);
    assert!(stack.is_empty());
}

#[test]
fn recursive_group_starts_skip_closed_instances() {
    let stack = vec![
        StackEntry::MemStart { zid: 1, pstr: 0, prev_start: MemPtr::Invalid, prev_end: MemPtr::Invalid },
        StackEntry::MemStart { zid: 1, pstr: 2, prev_start: MemPtr::Invalid, prev_end: MemPtr::Invalid },
        StackEntry::MemEndMark { zid: 1 },
    ];
    assert_eq!(stack_get_mem_start_for_rec(&stack, 1, 0), (MemPtr::Pos(0), 0));
    assert_eq!(stack_get_mem_start_for_rec(&stack, 1, 1 << 1), (MemPtr::StackIdx(0), 0));
    assert_eq!(stack_get_mem_start_for_rec(&stack[..2], 1, 0), (MemPtr::Pos(2), 2));
    assert_eq!(stack_get_mem_start_for_rec(&stack, 3, 0), (MemPtr::Invalid, 0));
}

#[test]
fn back_references_at_a_call_level() {
    let stack = vec![
        StackEntry::MemStart { zid: 1, pstr: 0, prev_start: MemPtr::Invalid, prev_end: MemPtr::Invalid },
        StackEntry::CallFrame { ret_addr: 4 },
        StackEntry::MemStart { zid: 2, pstr: 1, prev_start: MemPtr::Invalid, prev_end: MemPtr::Invalid },
    ];
    assert!(backref_check_at_nested_level(&stack, 0, 1, &[2]));
    assert!(!backref_check_at_nested_level(&stack, 0, 1, &[1]));
    assert!(backref_check_at_nested_level(&stack, -1, 1, &[1]));
    assert!(!backref_check_at_nested_level(&stack, -1, 0, &[1]));
}

#[test]
fn empty_checks_with_captures() {
    let r = reg();
    let same = vec![
        StackEntry::EmptyCheckStart { zid: 0, pstr: 3 },
        StackEntry::MemStart { zid: 1, pstr: 3, prev_start: MemPtr::Pos(3), prev_end: MemPtr::Pos(3) },
        StackEntry::MemEnd { zid: 1, pstr: 3, prev_start: MemPtr::Pos(3), prev_end: MemPtr::Pos(3) },
    ];
    assert!(stack_empty_check_mem(&same, 0, 3, 1 << 1, &r, &[], &[]));
    assert!(!stack_empty_check_mem(&same, 0, 4, 1 << 1, &r, &[], &[]));
    assert!(!stack_empty_check_mem(&same, 1, 3, 1 << 1, &r, &[], &[]));
    let changed = vec![
        StackEntry::EmptyCheckStart { zid: 0, pstr: 3 },
        StackEntry::MemStart { zid: 1, pstr: 3, prev_start: MemPtr::Invalid, prev_end: MemPtr::Invalid },
        StackEntry::MemEnd { zid: 1, pstr: 3, prev_start: MemPtr::Invalid, prev_end: MemPtr::Invalid },
    ];
    assert!(!stack_empty_check_mem(&changed, 0, 3, 1 << 1, &r, &[], &[]));
    assert!(stack_empty_check_mem(&changed, 0, 3, 0, &r, &[], &[]));
}

#[test]
fn back_references_repeat_the_capture_at_a_level() {
    let r = reg();
    let text = b"abABab";
    let stack = vec![
        StackEntry::MemStart { zid: 1, pstr: 0, prev_start: MemPtr::Invalid, prev_end: MemPtr::Invalid },
        StackEntry::MemEnd { zid: 1, pstr: 2, prev_start: MemPtr::Invalid, prev_end: MemPtr::Invalid },
    ];
    let mut s = 4;
    assert!(backref_match_at_nested_level(&r, &stack, false, 0, 0, 1, &[1], &mut s, text, 6));
    assert_eq!(s, 6);
    let mut s = 2;
    assert!(!backref_match_at_nested_level(&r, &stack, false, 0, 0, 1, &[1], &mut s, text, 6));
    assert_eq!(s, 2);
    let mut s = 2;
    assert!(backref_match_at_nested_level(&r, &stack, true, 0, 0, 1, &[1], &mut s, text, 6));
    assert_eq!(s, 4);
    let mut s = 5;
    assert!(!backref_match_at_nested_level(&r, &stack, false, 0, 0, 1, &[1], &mut s, text, 6));
    assert_eq!(s, 5);
    let mut s = 4;
    assert!(!backref_match_at_nested_level(&r, &stack, false, 0, 1, 1, &[1], &mut s, text, 6));
    assert!(!backref_match_at_nested_level(&r, &stack, false, 0, 0, 1, &[2], &mut s, text, 6));
}
