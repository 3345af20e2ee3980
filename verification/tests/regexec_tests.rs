use ferroni::regexec::{
    onig_initialize_match_param, onig_set_match_stack_limit_size_of_match_param,
    onig_set_retry_limit_in_match_of_match_param, onig_set_retry_limit_in_search_of_match_param,
    onig_set_time_limit_of_match_param, OnigMatchParam,
};
use ferroni::oniguruma::{
    OnigCalloutIn, OnigCalloutOf, OnigCalloutType, OnigMetaCharTableType, OnigSyntaxType,
    OnigType, OnigValue, ONIGERR_INVALID_ARGUMENT, ONIGERR_INVALID_CALLOUT_TAG_NAME,
    ONIGERR_PARSER_BUG, ONIGERR_UNDEFINED_NAME_REFERENCE, ONIG_NORMAL, ONIG_OPTION_CAPTURE_GROUP,
    ONIG_OPTION_DONT_CAPTURE_GROUP, ONIG_OPTION_IGNORECASE, ONIG_OPTION_NONE,
    ONIG_SYN_CAPTURE_ONLY_NAMED_GROUP,
};
use ferroni::regcomp::onig_reg_init;
use ferroni::regenc::OnigEncoding;
use ferroni::regexec::{
    onig_callout_tag_is_exist_at_callout_num, onig_copyright, onig_end, onig_foreach_name,
    onig_get_arg_by_callout_args, onig_get_args_num_by_callout_args, onig_get_callout_data,
    onig_get_callout_data_by_callout_args, onig_get_callout_data_by_tag,
    onig_get_callout_data_by_tag_dont_clear_old, onig_get_callout_data_dont_clear_old,
    onig_get_callout_in_by_callout_args, onig_get_callout_num_by_callout_args,
    onig_get_callout_num_by_tag, onig_get_callout_tag, onig_get_case_fold_flag,
    onig_get_contents_by_callout_args, onig_get_current_by_callout_args, onig_get_encoding,
    onig_get_name_id_by_callout_args, onig_get_options, onig_get_passed_args_num_by_callout_args,
    onig_get_regex_by_callout_args, onig_get_retry_counter_by_callout_args,
    onig_get_right_range_by_callout_args, onig_get_start_by_callout_args,
    onig_get_string_by_callout_args, onig_get_string_end_by_callout_args, onig_get_syntax,
    onig_init, onig_initialize, onig_name_to_backref_number, onig_name_to_group_numbers,
    onig_noname_group_capture_is_active, onig_number_of_capture_histories,
    onig_number_of_captures, onig_number_of_names, onig_region_clear, onig_region_init,
    onig_region_new, onig_region_resize, onig_set_callout_data,
    onig_set_callout_data_by_callout_args, onig_set_callout_data_by_tag, onig_version,
    OnigCalloutArgs,
};
use ferroni::regexec::{
    is_in_code_range, is_word_begin, is_word_boundary, is_word_char_ascii_mode, is_word_char_at,
    is_word_end, mem_is_in_mems, onig_get_callout_data_by_callout_args_self,
    onig_get_callout_data_by_callout_args_self_dont_clear_old, onig_get_capture_range_in_callout,
    onig_get_used_stack_size_in_callout, onig_set_callout_data_by_callout_args_self,
    prev_char_head,
};
use ferroni::oniguruma::{ONIGERR_MATCH_STACK_LIMIT_OVER, ONIG_REGION_NOTPOS};
use ferroni::oniguruma::{OnigCaptureTreeNode, OnigRegion};
use ferroni::regexec::{check_stack_limit, onig_get_capture_tree, parse_cmp_op, string_cmp_ic};
use ferroni::regint::{
    CalloutContent, CalloutListEntry, CalloutTag, NameEntry, NameTable, RegexExt, RegexType,
};

fn syntax(behavior: u32) -> OnigSyntaxType {
    OnigSyntaxType {
        op: 0,
        op2: 0,
        behavior,
        options: ONIG_OPTION_NONE,
        meta_char_table: OnigMetaCharTableType {
            esc: 0x5c,
            anychar: 0,
            anytime: 0,
            zero_or_one_time: 0,
            one_or_more_time: 0,
            anychar_anytime: 0,
        },
    }
}

fn named() -> RegexType {
    let mut reg = onig_reg_init(ONIG_OPTION_IGNORECASE, OnigEncoding::Utf8, &syntax(ONIG_SYN_CAPTURE_ONLY_NAMED_GROUP)).unwrap();
    reg.num_mem = 3;
    reg.name_table = Some(NameTable {
        entries: vec![
            NameEntry { name: b"year".to_vec(), back_refs: vec![1] },
            NameEntry { name: b"part".to_vec(), back_refs: vec![2, 3] },
            NameEntry { name: b"odd".to_vec(), back_refs: vec![] },
        ],
    });
    reg
}

fn with_callouts() -> RegexType {
    let mut reg = onig_reg_init(ONIG_OPTION_NONE, OnigEncoding::Utf8, &syntax(0)).unwrap();
    reg.extp = Some(RegexExt {
        pattern: b"(*FAIL[x])(*COUNT)".to_vec(),
        tag_table: Some(vec![CalloutTag { tag: b"x".to_vec(), num: 1 }]),
        callout_num: 2,
        callout_list: vec![
            CalloutListEntry {
                flag: 0,
                of: OnigCalloutOf::Name,
                callout_in: 1,
                name_id: 4,
                tag_start: b"x".to_vec(),
                tag_end: vec![],
                callout_type: OnigCalloutType::Single,
                content: CalloutContent::Args {
                    num: 1,
                    passed_num: 0,
                    types: [OnigType::Char, OnigType::Void, OnigType::Void, OnigType::Void],
                    vals: [OnigValue::Char(0x3e), OnigValue::Void, OnigValue::Void, OnigValue::Void],
                },
            },
            CalloutListEntry {
                flag: 0,
                of: OnigCalloutOf::Contents,
                callout_in: 1,
                name_id: -1,
                tag_start: vec![],
                tag_end: vec![],
                callout_type: OnigCalloutType::Single,
                content: CalloutContent::Contents { start: b"x".to_vec() },
            },
        ],
    });
    reg
}

#[test]
fn accessors_report_the_pattern() {
    let reg = named();
    assert_eq!(onig_get_encoding(&reg), OnigEncoding::Utf8);
    assert_eq!(onig_get_options(&reg), ONIG_OPTION_IGNORECASE);
    assert_eq!(onig_get_case_fold_flag(&reg), reg.case_fold_flag);
    assert_eq!(onig_get_syntax(&reg).behavior, ONIG_SYN_CAPTURE_ONLY_NAMED_GROUP);
    assert_eq!(onig_number_of_captures(&reg), 3);
    let mut hist = named();
    hist.capture_history = 0b1010;
    assert_eq!(onig_number_of_capture_histories(&hist), 2);
    hist.capture_history = 1;
    // Bit 0 stands for the groups from 32 on, and for group 0 itself.
    assert_eq!(onig_number_of_capture_histories(&hist), 1);
}

#[test]
fn names_resolve_to_groups() {
    let reg = named();
    assert_eq!(onig_name_to_group_numbers(&reg, b"part").unwrap(), &[2, 3]);
    assert_eq!(onig_name_to_group_numbers(&reg, b"day").err(), Some(ONIGERR_UNDEFINED_NAME_REFERENCE));
    assert_eq!(onig_number_of_names(&reg), 3);
    assert_eq!(onig_name_to_backref_number(&reg, b"year", None), Ok(1));
    assert_eq!(onig_name_to_backref_number(&reg, b"part", None), Ok(3));
    assert_eq!(onig_name_to_backref_number(&reg, b"odd", None), Err(ONIGERR_PARSER_BUG));
    assert_eq!(onig_name_to_backref_number(&reg, b"none", None), Err(ONIGERR_UNDEFINED_NAME_REFERENCE));
    let mut region = onig_region_new();
    assert_eq!(onig_region_resize(&mut region, 4), ONIG_NORMAL);
    region.beg[2] = 5;
    region.end[2] = 7;
    // Group 3 did not take part: the last named group that did is 2.
    assert_eq!(onig_name_to_backref_number(&reg, b"part", Some(&region)), Ok(2));
}

#[test]
fn foreach_name_visits_in_order_and_stops_early() {
    let reg = named();
    let mut seen: Vec<Vec<u8>> = Vec::new();
    let r = onig_foreach_name(&reg, |name: &[u8], _refs: &[i32]| {
        seen.push(name.to_vec());
        0
    });
    assert_eq!(r, ONIG_NORMAL);
    assert_eq!(seen, vec![b"year".to_vec(), b"part".to_vec(), b"odd".to_vec()]);
    let stop = onig_foreach_name(&reg, |name: &[u8], _refs: &[i32]| if name == b"part" { 7 } else { 0 });
    assert_eq!(stop, 7);
    let plain = onig_reg_init(ONIG_OPTION_NONE, OnigEncoding::Utf8, &syntax(0)).unwrap();
    assert_eq!(onig_foreach_name(&plain, |_: &[u8], _: &[i32]| 9), ONIG_NORMAL);
    assert_eq!(onig_number_of_names(&plain), 0);
}

#[test]
fn unnamed_groups_capture_unless_only_names_do() {
    let mut reg = named();
    assert!(!onig_noname_group_capture_is_active(&reg));
    reg.options |= ONIG_OPTION_CAPTURE_GROUP;
    assert!(onig_noname_group_capture_is_active(&reg));
    reg.options = ONIG_OPTION_DONT_CAPTURE_GROUP;
    assert!(!onig_noname_group_capture_is_active(&reg));
    let plain = onig_reg_init(ONIG_OPTION_NONE, OnigEncoding::Utf8, &syntax(ONIG_SYN_CAPTURE_ONLY_NAMED_GROUP)).unwrap();
    assert!(onig_noname_group_capture_is_active(&plain));
}

#[test]
fn library_state_and_version() {
    assert_eq!(onig_version(), "6.9.10");
    assert!(onig_copyright().starts_with("Oniguruma 6.9.10"));
    assert_eq!(onig_init(), ONIG_NORMAL);
    assert_eq!(onig_initialize(), ONIG_NORMAL);
    assert_eq!(onig_end(), ONIG_NORMAL);
}

#[test]
fn regions_grow_and_clear() {
    let mut region = onig_region_new();
    assert_eq!(region.num_regs, 0);
    onig_region_resize(&mut region, 2);
    assert_eq!(region.beg, vec![-1, -1]);
    region.beg[0] = 0;
    region.end[0] = 3;
    onig_region_resize(&mut region, 3);
    assert_eq!(region.beg, vec![0, -1, -1]);
    onig_region_clear(&mut region);
    assert_eq!(region.beg, vec![-1, -1, -1]);
    assert_eq!(region.end, vec![-1, -1, -1]);
    onig_region_init(&mut region);
    assert_eq!(region.num_regs, 0);
    assert!(region.beg.is_empty());
}

#[test]
fn callout_data_slots() {
    let reg = with_callouts();
    let mut data = vec![[0i64; 5]; 2];
    assert_eq!(onig_set_callout_data(&mut data, 2, 4, 42), ONIG_NORMAL);
    assert_eq!(onig_get_callout_data(&reg, &data, 2, 4), Some(42));
    assert_eq!(onig_get_callout_data_dont_clear_old(&reg, &data, 2, 4), Some(42));
    assert_eq!(onig_get_callout_data(&reg, &data, 3, 0), None);
    assert_eq!(onig_get_callout_data(&reg, &data, 0, 0), None);
    assert_eq!(onig_get_callout_data(&reg, &data, 1, 5), None);
    assert_eq!(onig_set_callout_data(&mut data, 1, -1, 1), ONIGERR_INVALID_ARGUMENT);
    assert_eq!(data, vec![[0, 0, 0, 0, 0], [0, 0, 0, 0, 42]]);
}

#[test]
fn callout_tags() {
    let reg = with_callouts();
    let mut data = vec![[0i64; 5]; 2];
    assert_eq!(onig_get_callout_num_by_tag(&reg, b"x"), 1);
    assert_eq!(onig_get_callout_num_by_tag(&reg, b"y"), ONIGERR_INVALID_ARGUMENT);
    assert!(onig_callout_tag_is_exist_at_callout_num(&reg, 1));
    assert!(!onig_callout_tag_is_exist_at_callout_num(&reg, 2));
    assert!(!onig_callout_tag_is_exist_at_callout_num(&reg, 0));
    assert_eq!(onig_get_callout_tag(&reg, 1), Some(&b"x"[..]));
    assert_eq!(onig_get_callout_tag(&reg, 2), None);
    assert_eq!(onig_set_callout_data_by_tag(&reg, &mut data, b"x", 1, 5), ONIG_NORMAL);
    assert_eq!(onig_get_callout_data_by_tag(&reg, &data, b"x", 1), Some(5));
    assert_eq!(onig_get_callout_data_by_tag_dont_clear_old(&reg, &data, b"x", 1), Some(5));
    assert_eq!(onig_set_callout_data_by_tag(&reg, &mut data, b"y", 1, 5), ONIGERR_INVALID_CALLOUT_TAG_NAME);
    assert_eq!(onig_get_callout_data_by_tag(&reg, &data, b"y", 1), None);
}

#[test]
fn callout_arguments() {
    let reg = with_callouts();
    let text = b"hello";
    let mut args = OnigCalloutArgs::new(OnigCalloutIn::Retraction, 4, 1, &reg, text, 5, 1, 5, 3, 17);
    assert_eq!(onig_get_callout_num_by_callout_args(&args), 1);
    assert_eq!(onig_get_callout_in_by_callout_args(&args), OnigCalloutIn::Retraction);
    assert_eq!(onig_get_name_id_by_callout_args(&args), 4);
    assert!(onig_get_contents_by_callout_args(&args).is_none());
    assert_eq!(onig_get_string_by_callout_args(&args), b"hello");
    assert_eq!(onig_get_string_end_by_callout_args(&args), 5);
    assert_eq!(onig_get_start_by_callout_args(&args), 1);
    assert_eq!(onig_get_right_range_by_callout_args(&args), 5);
    assert_eq!(onig_get_current_by_callout_args(&args), 3);
    assert_eq!(onig_get_retry_counter_by_callout_args(&args), 17);
    assert_eq!(onig_get_regex_by_callout_args(&args).extp.as_ref().unwrap().callout_num, 2);
    assert_eq!(onig_get_args_num_by_callout_args(&args), 1);
    assert_eq!(onig_get_passed_args_num_by_callout_args(&args), 0);
    match onig_get_arg_by_callout_args(&args, 0) {
        Some((OnigType::Char, OnigValue::Char(c))) => assert_eq!(*c, 0x3e),
        _ => panic!("expected a character argument"),
    }
    assert!(onig_get_arg_by_callout_args(&args, 1).is_none());
    assert_eq!(onig_get_callout_data_by_callout_args(&args, 1, 0), None);
    assert_eq!(onig_set_callout_data_by_callout_args(&mut args, 1, 0, 3), ONIGERR_INVALID_ARGUMENT);
    args.callout_data = Some(vec![[0i64; 5]; 2]);
    assert_eq!(onig_set_callout_data_by_callout_args(&mut args, 1, 0, 3), ONIG_NORMAL);
    assert_eq!(onig_get_callout_data_by_callout_args(&args, 1, 0), Some(3));
}

#[test]
fn callout_data_of_the_running_callout() {
    let reg = with_callouts();
    let text = b"hello";
    let mut args = OnigCalloutArgs::new(OnigCalloutIn::Progress, 4, 2, &reg, text, 5, 0, 5, 0, 0);
    assert_eq!(onig_set_callout_data_by_callout_args_self(&mut args, 0, 9), ONIGERR_INVALID_ARGUMENT);
    assert_eq!(onig_get_callout_data_by_callout_args_self(&args, 0), None);
    args.callout_data = Some(vec![[0i64; 5]; 2]);
    assert_eq!(onig_set_callout_data_by_callout_args_self(&mut args, 4, 9), ONIG_NORMAL);
    assert_eq!(onig_get_callout_data_by_callout_args_self(&args, 4), Some(9));
    assert_eq!(onig_get_callout_data_by_callout_args_self_dont_clear_old(&args, 4), Some(9));
    assert_eq!(onig_get_callout_data_by_callout_args(&args, 2, 4), Some(9));
    assert_eq!(onig_get_callout_data_by_callout_args(&args, 1, 4), Some(0));
    assert_eq!(onig_set_callout_data_by_callout_args_self(&mut args, 5, 9), ONIGERR_INVALID_ARGUMENT);
}

#[test]
fn capture_range_and_stack_in_a_callout() {
    let reg = with_callouts();
    let text = b"hello";
    let args = OnigCalloutArgs::new(OnigCalloutIn::Progress, 4, 1, &reg, text, 5, 0, 5, 0, 0);
    assert_eq!(onig_get_capture_range_in_callout(&args, 0), Err(ONIGERR_INVALID_ARGUMENT));
    assert_eq!(onig_get_capture_range_in_callout(&args, 1), Ok((ONIG_REGION_NOTPOS, ONIG_REGION_NOTPOS)));
    assert_eq!(onig_get_used_stack_size_in_callout(&args), (0, 0));
}

#[test]
fn word_characters_and_boundaries() {
    let text = b"ab cd";
    let enc = OnigEncoding::Ascii;
    assert!(is_word_char_at(enc, text, 0, 5));
    assert!(!is_word_char_at(enc, text, 2, 5));
    assert!(!is_word_char_at(enc, text, 5, 5));
    assert!(is_word_boundary(enc, text, 0, 5, 0));
    assert!(!is_word_boundary(enc, text, 1, 5, 0));
    assert!(is_word_boundary(enc, text, 2, 5, 0));
    assert!(is_word_boundary(enc, text, 3, 5, 0));
    assert!(is_word_boundary(enc, text, 5, 5, 0));
    assert!(!is_word_boundary(enc, b"", 0, 0, 0));
    assert!(is_word_begin(enc, text, 0, 5, 0));
    assert!(!is_word_begin(enc, text, 1, 5, 0));
    assert!(is_word_begin(enc, text, 3, 5, 0));
    assert!(is_word_end(enc, text, 2, 5, 0));
    assert!(!is_word_end(enc, text, 3, 5, 0));
    assert!(is_word_end(enc, text, 5, 5, 0));
    assert!(!is_word_end(enc, text, 0, 5, 0));
}

#[test]
fn ascii_word_mode_refuses_other_characters() {
    let text = "é_".as_bytes();
    let enc = OnigEncoding::Utf8;
    assert!(!is_word_char_ascii_mode(enc, text, 0, 3, 1));
    assert!(is_word_char_ascii_mode(enc, text, 2, 3, 1));
    // The character before the underscore starts two bytes back.
    assert_eq!(prev_char_head(enc, 0, 2, text), 0);
    assert_eq!(prev_char_head(enc, 0, 0, text), 0);
    assert!(is_word_begin(enc, text, 2, 3, 1));
}

#[test]
fn code_ranges_are_searched() {
    let table = [2u32, 10, 20, 30, 40];
    assert!(is_in_code_range(&table, 10));
    assert!(is_in_code_range(&table, 15));
    assert!(is_in_code_range(&table, 40));
    assert!(!is_in_code_range(&table, 25));
    assert!(!is_in_code_range(&table, 5));
    assert!(!is_in_code_range(&table, 41));
    assert!(!is_in_code_range(&[], 1));
    assert!(!is_in_code_range(&[0], 1));
}

#[test]
fn groups_in_a_list() {
    let mems = [1, 3, 5];
    assert!(mem_is_in_mems(3, 2, &mems));
    assert!(!mem_is_in_mems(5, 2, &mems));
    assert!(mem_is_in_mems(5, 3, &mems));
    assert!(mem_is_in_mems(5, -1, &mems));
    assert!(!mem_is_in_mems(1, 0, &mems));
}

#[test]
fn stack_limit_checks() {
    assert_eq!(check_stack_limit(100, 0), Ok(()));
    assert_eq!(check_stack_limit(9, 10), Ok(()));
    assert_eq!(check_stack_limit(10, 10), Err(ONIGERR_MATCH_STACK_LIMIT_OVER));
}

#[test]
fn comparison_operators() {
    assert_eq!(parse_cmp_op(b"=="), 0);
    assert_eq!(parse_cmp_op(b"!="), 1);
    assert_eq!(parse_cmp_op(b"<"), 2);
    assert_eq!(parse_cmp_op(b">"), 3);
    assert_eq!(parse_cmp_op(b"<="), 4);
    assert_eq!(parse_cmp_op(b">="), 5);
    assert_eq!(parse_cmp_op(b"="), -1);
    assert_eq!(parse_cmp_op(b"=>"), -1);
    assert_eq!(parse_cmp_op(b""), -1);
    assert_eq!(parse_cmp_op(b"<=="), -1);
}

#[test]
fn case_insensitive_comparison() {
    let text = "abcABCé".as_bytes();
    let mut s2 = 3;
    assert!(string_cmp_ic(OnigEncoding::Utf8, 0, text, 0, &mut s2, 3));
    assert_eq!(s2, 6);
    let mut s2 = 4;
    assert!(!string_cmp_ic(OnigEncoding::Utf8, 0, text, 0, &mut s2, 3));
    assert_eq!(s2, 4);
    let mut s2 = 6;
    assert!(string_cmp_ic(OnigEncoding::Utf8, 0, text, 6, &mut s2, 2));
    assert_eq!(s2, 8);
    let mut s2 = 1;
    assert!(string_cmp_ic(OnigEncoding::Ascii, 0, text, 0, &mut s2, 0));
    assert_eq!(s2, 1);
}

#[test]
fn capture_tree_of_a_region() {
    let mut region = OnigRegion::new();
    assert!(onig_get_capture_tree(&region).is_none());
    region.history_root = Some(Box::new(OnigCaptureTreeNode { group: 0, beg: 1, end: 4, childs: Vec::new() }));
    let tree = onig_get_capture_tree(&region).unwrap();
    assert_eq!((tree.group, tree.beg, tree.end), (0, 1, 4));
}

#[test]
fn match_param_setters_change_one_limit_each() {
    let mut mp = OnigMatchParam { match_stack_limit: 0, retry_limit_in_match: 0, retry_limit_in_search: 0, time_limit: 0 };
    assert_eq!(onig_initialize_match_param(&mut mp, 1, 2, 3, 4), ONIG_NORMAL);
    assert_eq!(mp, OnigMatchParam { match_stack_limit: 1, retry_limit_in_match: 2, retry_limit_in_search: 3, time_limit: 4 });
    assert_eq!(onig_set_match_stack_limit_size_of_match_param(&mut mp, 10), ONIG_NORMAL);
    assert_eq!(onig_set_retry_limit_in_match_of_match_param(&mut mp, 20), ONIG_NORMAL);
    assert_eq!(onig_set_retry_limit_in_search_of_match_param(&mut mp, 30), ONIG_NORMAL);
    assert_eq!(onig_set_time_limit_of_match_param(&mut mp, 40), ONIG_NORMAL);
    assert_eq!(mp, OnigMatchParam { match_stack_limit: 10, retry_limit_in_match: 20, retry_limit_in_search: 30, time_limit: 40 });
}
