use ferroni::oniguruma::{
    OnigMetaCharTableType, OnigSyntaxType, INTERNAL_ONIGENC_CASE_FOLD_MULTI_CHAR,
    ONIGENC_CASE_FOLD_ASCII_ONLY, ONIGERR_INVALID_COMBINATION_OF_OPTIONS,
    ONIG_OPTION_CAPTURE_GROUP, ONIG_OPTION_DONT_CAPTURE_GROUP, ONIG_OPTION_IGNORECASE,
    ONIG_OPTION_IGNORECASE_IS_ASCII, ONIG_OPTION_NEGATE_SINGLELINE, ONIG_OPTION_NONE,
    ONIG_OPTION_SINGLELINE,
};
use ferroni::regcomp::{
    add_compile_string, add_compile_string_length, add_op, bitset_is_empty, distance_add,
    distance_multiply, entry_repeat_range, len_multiply_cmp, mem_status_is_all_on,
    onig_reg_init, ops_curr_offset, select_str_opcode,
};
use ferroni::regenc::OnigEncoding;
use ferroni::regint::{OpCode, OperationPayload, INFINITE_LEN};

fn syntax(options: u32) -> OnigSyntaxType {
    OnigSyntaxType {
        op: 0,
        op2: 0,
        behavior: 0,
        options,
        meta_char_table: OnigMetaCharTableType {
            esc: 0x5c,
            anychar: 0,
            anytime: 0,
            zero_or_one_time: 0,
            one_or_more_time: 0,
            anychar_anytime: 0,
        },
    }
}

#[test]
fn reg_init_combines_options() {
    let reg = onig_reg_init(ONIG_OPTION_IGNORECASE, OnigEncoding::Utf8, &syntax(ONIG_OPTION_SINGLELINE)).unwrap();
    assert_eq!(reg.options, ONIG_OPTION_IGNORECASE | ONIG_OPTION_SINGLELINE);
    assert!(reg.ops.is_empty());
    assert_eq!(reg.num_mem, 0);
    assert_eq!(reg.case_fold_flag, INTERNAL_ONIGENC_CASE_FOLD_MULTI_CHAR);
    let negated = onig_reg_init(ONIG_OPTION_NEGATE_SINGLELINE, OnigEncoding::Utf8, &syntax(ONIG_OPTION_SINGLELINE)).unwrap();
    assert_eq!(negated.options, ONIG_OPTION_NEGATE_SINGLELINE);
    let ascii = onig_reg_init(ONIG_OPTION_IGNORECASE_IS_ASCII, OnigEncoding::Ascii, &syntax(0)).unwrap();
    assert_eq!(ascii.case_fold_flag, ONIGENC_CASE_FOLD_ASCII_ONLY);
}

#[test]
fn reg_init_refuses_both_capture_options() {
    let r = onig_reg_init(ONIG_OPTION_CAPTURE_GROUP | ONIG_OPTION_DONT_CAPTURE_GROUP, OnigEncoding::Utf8, &syntax(0));
    assert_eq!(r.err(), Some(ONIGERR_INVALID_COMBINATION_OF_OPTIONS));
}

#[test]
fn distances_saturate() {
    assert_eq!(distance_add(3, 4), 7);
    assert_eq!(distance_add(INFINITE_LEN, 1), INFINITE_LEN);
    assert_eq!(distance_add(INFINITE_LEN - 1, 1), INFINITE_LEN);
    assert_eq!(distance_add(INFINITE_LEN - 2, 1), INFINITE_LEN - 1);
    assert_eq!(distance_multiply(5, 0), 0);
    assert_eq!(distance_multiply(5, 3), 15);
    assert_eq!(distance_multiply(INFINITE_LEN / 2, 2), INFINITE_LEN);
    assert!(len_multiply_cmp(10, 10, 99));
    assert!(!len_multiply_cmp(10, 10, 100));
    assert!(!len_multiply_cmp(0, 10, 0));
    assert!(len_multiply_cmp(u32::MAX, 2, u32::MAX));
}

#[test]
fn string_opcodes_follow_width_and_count() {
    assert_eq!(select_str_opcode(1, 1), OpCode::Str1);
    assert_eq!(select_str_opcode(1, 5), OpCode::Str5);
    assert_eq!(select_str_opcode(1, 6), OpCode::StrN);
    assert_eq!(select_str_opcode(2, 3), OpCode::StrMb2n3);
    assert_eq!(select_str_opcode(2, 4), OpCode::StrMb2n);
    assert_eq!(select_str_opcode(3, 1), OpCode::StrMb3n);
    assert_eq!(select_str_opcode(4, 1), OpCode::StrMbn);
    assert_eq!(add_compile_string_length(b"abc", 1, 3), 1);
}

#[test]
fn compiled_strings_carry_their_bytes() {
    let mut reg = onig_reg_init(ONIG_OPTION_NONE, OnigEncoding::Utf8, &syntax(0)).unwrap();
    assert_eq!(ops_curr_offset(&reg), -1);
    assert_eq!(add_compile_string(&mut reg, b"abcdef", 1, 3), 0);
    assert_eq!(add_compile_string(&mut reg, b"abcdefg", 1, 7), 0);
    assert_eq!(add_compile_string(&mut reg, "éè".as_bytes(), 2, 2), 0);
    assert_eq!(reg.ops.len(), 3);
    assert_eq!(ops_curr_offset(&reg), 2);
    assert_eq!(reg.ops[0].opcode, OpCode::Str3);
    match &reg.ops[0].payload {
        OperationPayload::Exact { s } => {
            assert_eq!(&s[..3], b"abc");
            assert!(s[3..].iter().all(|&b| b == 0));
        }
        _ => panic!("expected an inline string"),
    }
    match &reg.ops[1].payload {
        OperationPayload::ExactN { s, n } => {
            assert_eq!(s.as_slice(), b"abcdefg");
            assert_eq!(*n, 7);
        }
        _ => panic!("expected a counted string"),
    }
    assert_eq!(reg.ops[2].opcode, OpCode::StrMb2n2);
    match &reg.ops[2].payload {
        OperationPayload::ExactLenN { s, n, len } => {
            assert_eq!(s.as_slice(), "éè".as_bytes());
            assert_eq!(*n, 4);
            assert_eq!(*len, 2);
        }
        _ => panic!("expected a multibyte string"),
    }
    assert_eq!(add_op(&mut reg, OpCode::End, OperationPayload::Empty), 3);
}

#[test]
fn repeat_ranges_are_numbered() {
    let mut reg = onig_reg_init(ONIG_OPTION_NONE, OnigEncoding::Utf8, &syntax(0)).unwrap();
    assert_eq!(entry_repeat_range(&mut reg, 2, 5), Ok(0));
    assert_eq!(entry_repeat_range(&mut reg, 0, -1), Ok(1));
    assert_eq!(reg.num_repeat, 2);
    assert_eq!(reg.repeat_range[1].lower, 0);
    assert_eq!(reg.repeat_range[1].upper, -1);
}

#[test]
fn small_bit_helpers() {
    assert!(bitset_is_empty(&[0; 8]));
    assert!(!bitset_is_empty(&[0, 0, 0, 0, 0, 0, 0, 1]));
    assert!(mem_status_is_all_on(1));
    assert!(!mem_status_is_all_on(6));
}
