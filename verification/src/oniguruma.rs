//! Public types, option flags, error codes and syntax flags of the engine.
use vstd::prelude::*;

verus! {

// === Version ===
pub const ONIGURUMA_VERSION_MAJOR: i32 = 6;
pub const ONIGURUMA_VERSION_MINOR: i32 = 9;
pub const ONIGURUMA_VERSION_TEENY: i32 = 10;
pub const ONIGURUMA_VERSION_INT: i32 = 60910;

// === Basic types ===
pub type OnigCodePoint = u32;
pub type OnigUChar = u8;
pub type OnigCtype = u32;
pub type OnigLen = u32;
pub type OnigCaseFoldType = u32;
pub type OnigOptionType = u32;

pub const ONIG_INFINITE_DISTANCE: OnigLen = 0xffff_ffff;

// === Case fold flags ===
pub const ONIGENC_CASE_FOLD_ASCII_ONLY: OnigCaseFoldType = 1;
pub const ONIGENC_CASE_FOLD_TURKISH_AZERI: OnigCaseFoldType = 0x0010_0000;
pub const INTERNAL_ONIGENC_CASE_FOLD_MULTI_CHAR: OnigCaseFoldType = 0x4000_0000;
pub const ONIGENC_CASE_FOLD_MIN: OnigCaseFoldType = INTERNAL_ONIGENC_CASE_FOLD_MULTI_CHAR;

// === Work sizes ===
pub const ONIGENC_MAX_COMP_CASE_FOLD_CODE_LEN: usize = 3;
pub const ONIGENC_GET_CASE_FOLD_CODES_MAX_NUM: usize = 13;
pub const ONIGENC_CODE_TO_MBC_MAXLEN: usize = 7;
pub const ONIGENC_MBC_CASE_FOLD_MAXLEN: usize = 18;

// === Character types ===
pub const ONIGENC_CTYPE_NEWLINE: u32 = 0;
pub const ONIGENC_CTYPE_ALPHA: u32 = 1;
pub const ONIGENC_CTYPE_BLANK: u32 = 2;
pub const ONIGENC_CTYPE_CNTRL: u32 = 3;
pub const ONIGENC_CTYPE_DIGIT: u32 = 4;
pub const ONIGENC_CTYPE_GRAPH: u32 = 5;
pub const ONIGENC_CTYPE_LOWER: u32 = 6;
pub const ONIGENC_CTYPE_PRINT: u32 = 7;
pub const ONIGENC_CTYPE_PUNCT: u32 = 8;
pub const ONIGENC_CTYPE_SPACE: u32 = 9;
pub const ONIGENC_CTYPE_UPPER: u32 = 10;
pub const ONIGENC_CTYPE_XDIGIT: u32 = 11;
pub const ONIGENC_CTYPE_WORD: u32 = 12;
pub const ONIGENC_CTYPE_ALNUM: u32 = 13;
pub const ONIGENC_CTYPE_ASCII: u32 = 14;
pub const ONIGENC_MAX_STD_CTYPE: u32 = ONIGENC_CTYPE_ASCII;

/// One alternative spelling of a case-folded character.
#[derive(Clone, Debug)]
pub struct OnigCaseFoldCodeItem {
    pub byte_len: i32,
    pub code_len: i32,
    pub code: [OnigCodePoint; 3],
}

/// The meta characters of a syntax whose meaning can be reassigned.
#[derive(Clone, Copy, Debug)]
pub struct OnigMetaCharTableType {
    pub esc: OnigCodePoint,
    pub anychar: OnigCodePoint,
    pub anytime: OnigCodePoint,
    pub zero_or_one_time: OnigCodePoint,
    pub one_or_more_time: OnigCodePoint,
    pub anychar_anytime: OnigCodePoint,
}

// === Config parameters ===
pub const ONIG_NREGION: usize = 10;
pub const ONIG_MAX_CAPTURE_NUM: i32 = 2147483647;
pub const ONIG_MAX_BACKREF_NUM: i32 = 1000;
pub const ONIG_MAX_REPEAT_NUM: i32 = 100000;
pub const ONIG_MAX_MULTI_BYTE_RANGES_NUM: i32 = 10000;
pub const ONIG_MAX_ERROR_MESSAGE_LEN: usize = 90;

// === Option flags ===
pub const ONIG_OPTION_NONE: OnigOptionType = 0;
pub const ONIG_OPTION_DEFAULT: OnigOptionType = ONIG_OPTION_NONE;
// compile time
pub const ONIG_OPTION_IGNORECASE: OnigOptionType = 0x1;
pub const ONIG_OPTION_EXTEND: OnigOptionType = 0x2;
pub const ONIG_OPTION_MULTILINE: OnigOptionType = 0x4;
pub const ONIG_OPTION_SINGLELINE: OnigOptionType = 0x8;
pub const ONIG_OPTION_FIND_LONGEST: OnigOptionType = 0x10;
pub const ONIG_OPTION_FIND_NOT_EMPTY: OnigOptionType = 0x20;
pub const ONIG_OPTION_NEGATE_SINGLELINE: OnigOptionType = 0x40;
pub const ONIG_OPTION_DONT_CAPTURE_GROUP: OnigOptionType = 0x80;
pub const ONIG_OPTION_CAPTURE_GROUP: OnigOptionType = 0x100;
// search time
pub const ONIG_OPTION_NOTBOL: OnigOptionType = 0x200;
pub const ONIG_OPTION_NOTEOL: OnigOptionType = 0x400;
pub const ONIG_OPTION_POSIX_REGION: OnigOptionType = 0x800;
pub const ONIG_OPTION_CHECK_VALIDITY_OF_STRING: OnigOptionType = 0x1000;
// compile time (continued, after a gap of three bits)
pub const ONIG_OPTION_IGNORECASE_IS_ASCII: OnigOptionType = 0x8000;
pub const ONIG_OPTION_WORD_IS_ASCII: OnigOptionType = 0x1_0000;
pub const ONIG_OPTION_DIGIT_IS_ASCII: OnigOptionType = 0x2_0000;
pub const ONIG_OPTION_SPACE_IS_ASCII: OnigOptionType = 0x4_0000;
pub const ONIG_OPTION_POSIX_IS_ASCII: OnigOptionType = 0x8_0000;
pub const ONIG_OPTION_TEXT_SEGMENT_EXTENDED_GRAPHEME_CLUSTER: OnigOptionType = 0x10_0000;
pub const ONIG_OPTION_TEXT_SEGMENT_WORD: OnigOptionType = 0x20_0000;
// search time (continued)
pub const ONIG_OPTION_NOT_BEGIN_STRING: OnigOptionType = 0x40_0000;
pub const ONIG_OPTION_NOT_END_STRING: OnigOptionType = 0x80_0000;
pub const ONIG_OPTION_NOT_BEGIN_POSITION: OnigOptionType = 0x100_0000;
pub const ONIG_OPTION_CALLBACK_EACH_MATCH: OnigOptionType = 0x200_0000;
pub const ONIG_OPTION_MATCH_WHOLE_STRING: OnigOptionType = 0x400_0000;

pub const ONIG_OPTION_MAXBIT: OnigOptionType = ONIG_OPTION_MATCH_WHOLE_STRING;

/// Turns the flags `regopt` on in `options`, leaving the others as they were.
pub fn onig_option_on(options: &mut OnigOptionType, regopt: OnigOptionType)
    ensures
        *final(options) == *old(options) | regopt,
{
    *options = *options | regopt;
}

/// Turns the flags `regopt` off in `options`, leaving the others as they were.
pub fn onig_option_off(options: &mut OnigOptionType, regopt: OnigOptionType)
    ensures
        *final(options) == *old(options) & !regopt,
{
    *options = *options & !regopt;
}

/// Whether any flag of `option` is on in `options`.
pub fn onig_is_option_on(options: OnigOptionType, option: OnigOptionType) -> (r: bool)
    ensures
        r == (options & option != 0),
{
    (options & option) != 0
}

/// The operators, behaviours and meta characters that a pattern syntax accepts.
#[derive(Clone, Copy, Debug)]
pub struct OnigSyntaxType {
    pub op: u32,
    pub op2: u32,
    pub behavior: u32,
    pub options: OnigOptionType,
    pub meta_char_table: OnigMetaCharTableType,
}

// === Syntax operator flags (op) ===
pub const ONIG_SYN_OP_VARIABLE_META_CHARACTERS: u32 = 0x1;
pub const ONIG_SYN_OP_DOT_ANYCHAR: u32 = 0x2;
pub const ONIG_SYN_OP_ASTERISK_ZERO_INF: u32 = 0x4;
pub const ONIG_SYN_OP_ESC_ASTERISK_ZERO_INF: u32 = 0x8;
pub const ONIG_SYN_OP_PLUS_ONE_INF: u32 = 0x10;
pub const ONIG_SYN_OP_ESC_PLUS_ONE_INF: u32 = 0x20;
pub const ONIG_SYN_OP_QMARK_ZERO_ONE: u32 = 0x40;
pub const ONIG_SYN_OP_ESC_QMARK_ZERO_ONE: u32 = 0x80;
pub const ONIG_SYN_OP_BRACE_INTERVAL: u32 = 0x100;
pub const ONIG_SYN_OP_ESC_BRACE_INTERVAL: u32 = 0x200;
pub const ONIG_SYN_OP_VBAR_ALT: u32 = 0x400;
pub const ONIG_SYN_OP_ESC_VBAR_ALT: u32 = 0x800;
pub const ONIG_SYN_OP_LPAREN_SUBEXP: u32 = 0x1000;
pub const ONIG_SYN_OP_ESC_LPAREN_SUBEXP: u32 = 0x2000;
pub const ONIG_SYN_OP_ESC_AZ_BUF_ANCHOR: u32 = 0x4000;
pub const ONIG_SYN_OP_ESC_CAPITAL_G_BEGIN_ANCHOR: u32 = 0x8000;
pub const ONIG_SYN_OP_DECIMAL_BACKREF: u32 = 0x1_0000;
pub const ONIG_SYN_OP_BRACKET_CC: u32 = 0x2_0000;
pub const ONIG_SYN_OP_ESC_W_WORD: u32 = 0x4_0000;
pub const ONIG_SYN_OP_ESC_LTGT_WORD_BEGIN_END: u32 = 0x8_0000;
pub const ONIG_SYN_OP_ESC_B_WORD_BOUND: u32 = 0x10_0000;
pub const ONIG_SYN_OP_ESC_S_WHITE_SPACE: u32 = 0x20_0000;
pub const ONIG_SYN_OP_ESC_D_DIGIT: u32 = 0x40_0000;
pub const ONIG_SYN_OP_LINE_ANCHOR: u32 = 0x80_0000;
pub const ONIG_SYN_OP_POSIX_BRACKET: u32 = 0x100_0000;
pub const ONIG_SYN_OP_QMARK_NON_GREEDY: u32 = 0x200_0000;
pub const ONIG_SYN_OP_ESC_CONTROL_CHARS: u32 = 0x400_0000;
pub const ONIG_SYN_OP_ESC_C_CONTROL: u32 = 0x800_0000;
pub const ONIG_SYN_OP_ESC_OCTAL3: u32 = 0x1000_0000;
pub const ONIG_SYN_OP_ESC_X_HEX2: u32 = 0x2000_0000;
pub const ONIG_SYN_OP_ESC_X_BRACE_HEX8: u32 = 0x4000_0000;
pub const ONIG_SYN_OP_ESC_O_BRACE_OCTAL: u32 = 0x8000_0000;

// === Syntax operator flags (op2) ===
pub const ONIG_SYN_OP2_ESC_CAPITAL_Q_QUOTE: u32 = 0x1;
pub const ONIG_SYN_OP2_QMARK_GROUP_EFFECT: u32 = 0x2;
pub const ONIG_SYN_OP2_OPTION_PERL: u32 = 0x4;
pub const ONIG_SYN_OP2_OPTION_RUBY: u32 = 0x8;
pub const ONIG_SYN_OP2_PLUS_POSSESSIVE_REPEAT: u32 = 0x10;
pub const ONIG_SYN_OP2_PLUS_POSSESSIVE_INTERVAL: u32 = 0x20;
pub const ONIG_SYN_OP2_CCLASS_SET_OP: u32 = 0x40;
pub const ONIG_SYN_OP2_QMARK_LT_NAMED_GROUP: u32 = 0x80;
pub const ONIG_SYN_OP2_ESC_K_NAMED_BACKREF: u32 = 0x100;
pub const ONIG_SYN_OP2_ESC_G_SUBEXP_CALL: u32 = 0x200;
pub const ONIG_SYN_OP2_ATMARK_CAPTURE_HISTORY: u32 = 0x400;
pub const ONIG_SYN_OP2_ESC_CAPITAL_C_BAR_CONTROL: u32 = 0x800;
pub const ONIG_SYN_OP2_ESC_CAPITAL_M_BAR_META: u32 = 0x1000;
pub const ONIG_SYN_OP2_ESC_V_VTAB: u32 = 0x2000;
pub const ONIG_SYN_OP2_ESC_U_HEX4: u32 = 0x4000;
pub const ONIG_SYN_OP2_ESC_GNU_BUF_ANCHOR: u32 = 0x8000;
pub const ONIG_SYN_OP2_ESC_P_BRACE_CHAR_PROPERTY: u32 = 0x1_0000;
pub const ONIG_SYN_OP2_ESC_P_BRACE_CIRCUMFLEX_NOT: u32 = 0x2_0000;
pub const ONIG_SYN_OP2_ESC_H_XDIGIT: u32 = 0x8_0000;
pub const ONIG_SYN_OP2_INEFFECTIVE_ESCAPE: u32 = 0x10_0000;
pub const ONIG_SYN_OP2_QMARK_LPAREN_IF_ELSE: u32 = 0x20_0000;
pub const ONIG_SYN_OP2_ESC_CAPITAL_K_KEEP: u32 = 0x40_0000;
pub const ONIG_SYN_OP2_ESC_CAPITAL_R_GENERAL_NEWLINE: u32 = 0x80_0000;
pub const ONIG_SYN_OP2_ESC_CAPITAL_N_O_SUPER_DOT: u32 = 0x100_0000;
pub const ONIG_SYN_OP2_QMARK_TILDE_ABSENT_GROUP: u32 = 0x200_0000;
pub const ONIG_SYN_OP2_ESC_X_Y_TEXT_SEGMENT: u32 = 0x400_0000;
pub const ONIG_SYN_OP2_QMARK_PERL_SUBEXP_CALL: u32 = 0x800_0000;
pub const ONIG_SYN_OP2_QMARK_BRACE_CALLOUT_CONTENTS: u32 = 0x1000_0000;
pub const ONIG_SYN_OP2_ASTERISK_CALLOUT_NAME: u32 = 0x2000_0000;
pub const ONIG_SYN_OP2_OPTION_ONIGURUMA: u32 = 0x4000_0000;
pub const ONIG_SYN_OP2_QMARK_CAPITAL_P_NAME: u32 = 0x8000_0000;

// === Syntax behaviour flags ===
pub const ONIG_SYN_CONTEXT_INDEP_REPEAT_OPS: u32 = 0x1;
pub const ONIG_SYN_CONTEXT_INVALID_REPEAT_OPS: u32 = 0x2;
pub const ONIG_SYN_ALLOW_UNMATCHED_CLOSE_SUBEXP: u32 = 0x4;
pub const ONIG_SYN_ALLOW_INVALID_INTERVAL: u32 = 0x8;
pub const ONIG_SYN_ALLOW_INTERVAL_LOW_ABBREV: u32 = 0x10;
pub const ONIG_SYN_STRICT_CHECK_BACKREF: u32 = 0x20;
pub const ONIG_SYN_DIFFERENT_LEN_ALT_LOOK_BEHIND: u32 = 0x40;
pub const ONIG_SYN_CAPTURE_ONLY_NAMED_GROUP: u32 = 0x80;
pub const ONIG_SYN_ALLOW_MULTIPLEX_DEFINITION_NAME: u32 = 0x100;
pub const ONIG_SYN_FIXED_INTERVAL_IS_GREEDY_ONLY: u32 = 0x200;
pub const ONIG_SYN_ISOLATED_OPTION_CONTINUE_BRANCH: u32 = 0x400;
pub const ONIG_SYN_VARIABLE_LEN_LOOK_BEHIND: u32 = 0x800;
pub const ONIG_SYN_PYTHON: u32 = 0x1000;
pub const ONIG_SYN_WHOLE_OPTIONS: u32 = 0x2000;
pub const ONIG_SYN_BRE_ANCHOR_AT_EDGE_OF_SUBEXP: u32 = 0x4000;
pub const ONIG_SYN_ESC_P_WITH_ONE_CHAR_PROP: u32 = 0x8000;
// in a character class [...]
pub const ONIG_SYN_NOT_NEWLINE_IN_NEGATIVE_CC: u32 = 0x10_0000;
pub const ONIG_SYN_BACKSLASH_ESCAPE_IN_CC: u32 = 0x20_0000;
pub const ONIG_SYN_ALLOW_EMPTY_RANGE_IN_CC: u32 = 0x40_0000;
pub const ONIG_SYN_ALLOW_DOUBLE_RANGE_OP_IN_CC: u32 = 0x80_0000;
pub const ONIG_SYN_WARN_CC_OP_NOT_ESCAPED: u32 = 0x100_0000;
pub const ONIG_SYN_WARN_REDUNDANT_NESTED_REPEAT: u32 = 0x200_0000;
pub const ONIG_SYN_ALLOW_INVALID_CODE_END_OF_RANGE_IN_CC: u32 = 0x400_0000;
pub const ONIG_SYN_ALLOW_CHAR_TYPE_FOLLOWED_BY_MINUS_IN_CC: u32 = 0x800_0000;
pub const ONIG_SYN_CONTEXT_INDEP_ANCHORS: u32 = 0x8000_0000;

// === Meta character specifiers ===
pub const ONIG_META_CHAR_ESCAPE: u32 = 0;
pub const ONIG_META_CHAR_ANYCHAR: u32 = 1;
pub const ONIG_META_CHAR_ANYTIME: u32 = 2;
pub const ONIG_META_CHAR_ZERO_OR_ONE_TIME: u32 = 3;
pub const ONIG_META_CHAR_ONE_OR_MORE_TIME: u32 = 4;
pub const ONIG_META_CHAR_ANYCHAR_ANYTIME: u32 = 5;
pub const ONIG_INEFFECTIVE_META_CHAR: OnigCodePoint = 0;

// === Result and error codes ===
pub const ONIG_NORMAL: i32 = 0;
pub const ONIG_VALUE_IS_NOT_SET: i32 = 1;
pub const ONIG_MISMATCH: i32 = -1;
pub const ONIG_NO_SUPPORT_CONFIG: i32 = -2;
pub const ONIG_ABORT: i32 = -3;

// internal errors
pub const ONIGERR_MEMORY: i32 = -5;
pub const ONIGERR_TYPE_BUG: i32 = -6;
pub const ONIGERR_PARSER_BUG: i32 = -11;
pub const ONIGERR_STACK_BUG: i32 = -12;
pub const ONIGERR_UNDEFINED_BYTECODE: i32 = -13;
pub const ONIGERR_UNEXPECTED_BYTECODE: i32 = -14;
pub const ONIGERR_MATCH_STACK_LIMIT_OVER: i32 = -15;
pub const ONIGERR_PARSE_DEPTH_LIMIT_OVER: i32 = -16;
pub const ONIGERR_RETRY_LIMIT_IN_MATCH_OVER: i32 = -17;
pub const ONIGERR_RETRY_LIMIT_IN_SEARCH_OVER: i32 = -18;
pub const ONIGERR_SUBEXP_CALL_LIMIT_IN_SEARCH_OVER: i32 = -19;
pub const ONIGERR_TIME_LIMIT_OVER: i32 = -20;
pub const ONIGERR_DEFAULT_ENCODING_IS_NOT_SET: i32 = -21;
pub const ONIGERR_SPECIFIED_ENCODING_CANT_CONVERT_TO_WIDE_CHAR: i32 = -22;
pub const ONIGERR_FAIL_TO_INITIALIZE: i32 = -23;

// general errors
pub const ONIGERR_INVALID_ARGUMENT: i32 = -30;

// syntax errors
pub const ONIGERR_END_PATTERN_AT_LEFT_BRACE: i32 = -100;
pub const ONIGERR_END_PATTERN_AT_LEFT_BRACKET: i32 = -101;
pub const ONIGERR_EMPTY_CHAR_CLASS: i32 = -102;
pub const ONIGERR_PREMATURE_END_OF_CHAR_CLASS: i32 = -103;
pub const ONIGERR_END_PATTERN_AT_ESCAPE: i32 = -104;
pub const ONIGERR_END_PATTERN_AT_META: i32 = -105;
pub const ONIGERR_END_PATTERN_AT_CONTROL: i32 = -106;
pub const ONIGERR_META_CODE_SYNTAX: i32 = -108;
pub const ONIGERR_CONTROL_CODE_SYNTAX: i32 = -109;
pub const ONIGERR_CHAR_CLASS_VALUE_AT_END_OF_RANGE: i32 = -110;
pub const ONIGERR_CHAR_CLASS_VALUE_AT_START_OF_RANGE: i32 = -111;
pub const ONIGERR_UNMATCHED_RANGE_SPECIFIER_IN_CHAR_CLASS: i32 = -112;
pub const ONIGERR_TARGET_OF_REPEAT_OPERATOR_NOT_SPECIFIED: i32 = -113;
pub const ONIGERR_TARGET_OF_REPEAT_OPERATOR_INVALID: i32 = -114;
pub const ONIGERR_NESTED_REPEAT_OPERATOR: i32 = -115;
pub const ONIGERR_UNMATCHED_CLOSE_PARENTHESIS: i32 = -116;
pub const ONIGERR_END_PATTERN_WITH_UNMATCHED_PARENTHESIS: i32 = -117;
pub const ONIGERR_END_PATTERN_IN_GROUP: i32 = -118;
pub const ONIGERR_UNDEFINED_GROUP_OPTION: i32 = -119;
pub const ONIGERR_INVALID_GROUP_OPTION: i32 = -120;
pub const ONIGERR_INVALID_POSIX_BRACKET_TYPE: i32 = -121;
pub const ONIGERR_INVALID_LOOK_BEHIND_PATTERN: i32 = -122;
pub const ONIGERR_INVALID_REPEAT_RANGE_PATTERN: i32 = -123;

// value errors (syntax errors)
pub const ONIGERR_TOO_BIG_NUMBER: i32 = -200;
pub const ONIGERR_TOO_BIG_NUMBER_FOR_REPEAT_RANGE: i32 = -201;
pub const ONIGERR_UPPER_SMALLER_THAN_LOWER_IN_REPEAT_RANGE: i32 = -202;
pub const ONIGERR_EMPTY_RANGE_IN_CHAR_CLASS: i32 = -203;
pub const ONIGERR_MISMATCH_CODE_LENGTH_IN_CLASS_RANGE: i32 = -204;
pub const ONIGERR_TOO_MANY_MULTI_BYTE_RANGES: i32 = -205;
pub const ONIGERR_TOO_SHORT_MULTI_BYTE_STRING: i32 = -206;
pub const ONIGERR_TOO_BIG_BACKREF_NUMBER: i32 = -207;
pub const ONIGERR_INVALID_BACKREF: i32 = -208;
pub const ONIGERR_NUMBERED_BACKREF_OR_CALL_NOT_ALLOWED: i32 = -209;
pub const ONIGERR_TOO_MANY_CAPTURES: i32 = -210;
pub const ONIGERR_TOO_LONG_WIDE_CHAR_VALUE: i32 = -212;
pub const ONIGERR_UNDEFINED_OPERATOR: i32 = -213;
pub const ONIGERR_EMPTY_GROUP_NAME: i32 = -214;
pub const ONIGERR_INVALID_GROUP_NAME: i32 = -215;
pub const ONIGERR_INVALID_CHAR_IN_GROUP_NAME: i32 = -216;
pub const ONIGERR_UNDEFINED_NAME_REFERENCE: i32 = -217;
pub const ONIGERR_UNDEFINED_GROUP_REFERENCE: i32 = -218;
pub const ONIGERR_MULTIPLEX_DEFINED_NAME: i32 = -219;
pub const ONIGERR_MULTIPLEX_DEFINITION_NAME_CALL: i32 = -220;
pub const ONIGERR_NEVER_ENDING_RECURSION: i32 = -221;
pub const ONIGERR_GROUP_NUMBER_OVER_FOR_CAPTURE_HISTORY: i32 = -222;
pub const ONIGERR_INVALID_CHAR_PROPERTY_NAME: i32 = -223;
pub const ONIGERR_INVALID_IF_ELSE_SYNTAX: i32 = -224;
pub const ONIGERR_INVALID_ABSENT_GROUP_PATTERN: i32 = -225;
pub const ONIGERR_INVALID_ABSENT_GROUP_GENERATOR_PATTERN: i32 = -226;
pub const ONIGERR_INVALID_CALLOUT_PATTERN: i32 = -227;
pub const ONIGERR_INVALID_CALLOUT_NAME: i32 = -228;
pub const ONIGERR_UNDEFINED_CALLOUT_NAME: i32 = -229;
pub const ONIGERR_INVALID_CALLOUT_BODY: i32 = -230;
pub const ONIGERR_INVALID_CALLOUT_TAG_NAME: i32 = -231;
pub const ONIGERR_INVALID_CALLOUT_ARG: i32 = -232;
pub const ONIGERR_INVALID_CODE_POINT_VALUE: i32 = -400;
pub const ONIGERR_INVALID_WIDE_CHAR_VALUE: i32 = -400;
pub const ONIGERR_TOO_BIG_WIDE_CHAR_VALUE: i32 = -401;
pub const ONIGERR_NOT_SUPPORTED_ENCODING_COMBINATION: i32 = -402;
pub const ONIGERR_INVALID_COMBINATION_OF_OPTIONS: i32 = -403;
pub const ONIGERR_TOO_MANY_USER_DEFINED_OBJECTS: i32 = -404;
pub const ONIGERR_TOO_LONG_PROPERTY_NAME: i32 = -405;
pub const ONIGERR_VERY_INEFFICIENT_PATTERN: i32 = -406;
pub const ONIGERR_LIBRARY_IS_NOT_INITIALIZED: i32 = -500;

/// Whether `ecode` lies in the band of codes that report a fault in the pattern.
pub open spec fn is_pattern_error_code(ecode: i32) -> bool {
    -1000 < ecode <= -100
}

/// Whether `ecode` reports a fault in the pattern (codes -100 down to -999).
pub fn onig_is_pattern_error(ecode: i32) -> (r: bool)
    ensures
        r == is_pattern_error_code(ecode),
{
    ecode <= -100 && ecode > -1000
}

// === Capture history ===
pub const ONIG_MAX_CAPTURE_HISTORY_GROUP: usize = 31;

/// A node of the tree of captures recorded by capture history.
pub struct OnigCaptureTreeNode {
    pub group: i32,
    pub beg: i32,
    pub end: i32,
    pub childs: Vec<Box<OnigCaptureTreeNode>>,
}

pub const ONIG_REGION_NOTPOS: i32 = -1;

/// The positions a match gives each capture group, group 0 being the whole match.
pub struct OnigRegion {
    pub allocated: i32,
    pub num_regs: i32,
    pub beg: Vec<i32>,
    pub end: Vec<i32>,
    pub history_root: Option<Box<OnigCaptureTreeNode>>,
}

impl OnigRegion {
    /// A region is well formed when both position vectors hold `num_regs` entries.
    pub open spec fn wf(&self) -> bool {
        &&& self.num_regs >= 0
        &&& self.beg@.len() == self.num_regs as nat
        &&& self.end@.len() == self.num_regs as nat
    }

    /// An empty region: no groups, nothing allocated.
    pub fn new() -> (r: Self)
        ensures
            r.wf(),
            r.allocated == 0,
            r.num_regs == 0,
            r.beg@.len() == 0,
            r.end@.len() == 0,
            r.history_root is None,
    {
        OnigRegion { allocated: 0, num_regs: 0, beg: Vec::new(), end: Vec::new(), history_root: None }
    }

    /// Empties the region as `new` builds it.
    pub fn init(&mut self)
        ensures
            final(self).wf(),
            final(self).allocated == 0,
            final(self).num_regs == 0,
            final(self).beg@.len() == 0,
            final(self).end@.len() == 0,
            final(self).history_root is None,
    {
        self.allocated = 0;
        self.num_regs = 0;
        self.beg.clear();
        self.end.clear();
        self.history_root = None;
    }

    /// Marks every group as unmatched and drops the capture history.
    pub fn clear(&mut self)
        requires
            old(self).wf(),
        ensures
            final(self).wf(),
            final(self).allocated == old(self).allocated,
            final(self).num_regs == old(self).num_regs,
            forall|i: int| 0 <= i < old(self).num_regs ==> final(self).beg@[i] == ONIG_REGION_NOTPOS,
            forall|i: int| 0 <= i < old(self).num_regs ==> final(self).end@[i] == ONIG_REGION_NOTPOS,
            final(self).history_root is None,
    {
        let n = self.num_regs as usize;
        let mut i: usize = 0;
        while i < n
            invariant
                n == self.num_regs as usize,
                self.wf(),
                i <= n,
                self.allocated == old(self).allocated,
                self.num_regs == old(self).num_regs,
                forall|j: int| 0 <= j < i ==> self.beg@[j] == ONIG_REGION_NOTPOS,
                forall|j: int| 0 <= j < i ==> self.end@[j] == ONIG_REGION_NOTPOS,
            decreases n - i,
        {
            self.beg.set(i, ONIG_REGION_NOTPOS);
            self.end.set(i, ONIG_REGION_NOTPOS);
            i = i + 1;
        }
        self.history_root = None;
    }

    /// Sets the number of groups to `n`; kept entries stay, new ones are unmatched.
    pub fn resize(&mut self, n: i32)
        requires
            old(self).wf(),
            n >= 0,
        ensures
            final(self).wf(),
            final(self).allocated == n,
            final(self).num_regs == n,
            forall|i: int| 0 <= i < n && i < old(self).num_regs ==> final(self).beg@[i] == old(self).beg@[i],
            forall|i: int| 0 <= i < n && i < old(self).num_regs ==> final(self).end@[i] == old(self).end@[i],
            forall|i: int| old(self).num_regs <= i < n ==> final(self).beg@[i] == ONIG_REGION_NOTPOS,
            forall|i: int| old(self).num_regs <= i < n ==> final(self).end@[i] == ONIG_REGION_NOTPOS,
            final(self).history_root == old(self).history_root,
    {
        let target = n as usize;
        resize_positions(&mut self.beg, target);
        resize_positions(&mut self.end, target);
        self.allocated = n;
        self.num_regs = n;
    }
}

/// Truncates `v` to `n` entries or pads it with `ONIG_REGION_NOTPOS` up to `n`.
fn resize_positions(v: &mut Vec<i32>, n: usize)
    ensures
        final(v)@.len() == n,
        forall|i: int| 0 <= i < n && i < old(v)@.len() ==> final(v)@[i] == old(v)@[i],
        forall|i: int| old(v)@.len() <= i < n ==> final(v)@[i] == ONIG_REGION_NOTPOS,
{
    if v.len() > n {
        v.truncate(n);
    } else {
        while v.len() < n
            invariant
                old(v)@.len() <= v@.len() <= n,
                forall|i: int| 0 <= i < old(v)@.len() ==> v@[i] == old(v)@[i],
                forall|i: int| old(v)@.len() <= i < v@.len() ==> v@[i] == ONIG_REGION_NOTPOS,
            decreases n - v.len(),
        {
            v.push(ONIG_REGION_NOTPOS);
        }
    }
}

// === Capture traverse constants ===
pub const ONIG_TRAVERSE_CALLBACK_AT_FIRST: i32 = 1;
pub const ONIG_TRAVERSE_CALLBACK_AT_LAST: i32 = 2;
pub const ONIG_TRAVERSE_CALLBACK_AT_BOTH: i32 = 3;

/// The parameter text that an error message names (a group or property name).
pub struct OnigErrorInfo {
    pub par: Vec<u8>,
}

/// A repeat range `{lower,upper}` as written in a pattern.
#[derive(Clone, Debug)]
pub struct OnigRepeatRange {
    pub lower: i32,
    pub upper: i32,
}

pub const ONIG_CHAR_TABLE_SIZE: usize = 256;

/// Which match of a set of patterns wins: the leftmost, or the first pattern.
#[derive(Clone, Copy, Debug, PartialEq, Eq)]
pub enum OnigRegSetLead {
    PositionLead,
    RegexLead,
    PriorityToRegexOrder,
}

/// The settings every pattern of a set is compiled with.
pub struct OnigCompileInfo {
    pub num_of_elements: i32,
    pub syntax: OnigSyntaxType,
    pub option: OnigOptionType,
    pub case_fold_flag: OnigCaseFoldType,
}

/// Whether a callout runs on the way forward or when the match backtracks over it.
#[derive(Clone, Copy, Debug, PartialEq, Eq)]
pub enum OnigCalloutIn {
    Progress,
    Retraction,
}

impl OnigCalloutIn {
    /// The flag value of the direction: 1 for progress, 2 for retraction.
    pub fn code(&self) -> (r: i32)
        ensures
            r == (match self {
                OnigCalloutIn::Progress => 1i32,
                OnigCalloutIn::Retraction => 2i32,
            }),
    {
        match self {
            OnigCalloutIn::Progress => 1,
            OnigCalloutIn::Retraction => 2,
        }
    }
}

pub const ONIG_CALLOUT_IN_BOTH: i32 = 3;

/// Whether a callout is written with contents `(?{...})` or with a name `(*NAME)`.
#[derive(Clone, Copy, Debug, PartialEq, Eq)]
pub enum OnigCalloutOf {
    Contents,
    Name,
}

/// When a callout is called around its group.
#[derive(Clone, Copy, Debug, PartialEq, Eq)]
pub enum OnigCalloutType {
    Single,
    StartCall,
    BothCall,
    StartMarkEndCall,
}

pub const ONIG_NON_NAME_ID: i32 = -1;
pub const ONIG_NON_CALLOUT_NUM: i32 = 0;
pub const ONIG_CALLOUT_MAX_ARGS_NUM: usize = 4;
pub const ONIG_CALLOUT_DATA_SLOT_NUM: usize = 5;

/// What a callout tells the matcher: go on, or fail here.
#[derive(Clone, Copy, Debug, PartialEq, Eq)]
pub enum OnigCalloutResult {
    Fail,
    Success,
}

/// The type of a callout argument.
#[derive(Clone, Copy, Debug, PartialEq, Eq)]
pub enum OnigType {
    Void,
    Long,
    Char,
    String,
    Pointer,
    Tag,
}

impl OnigType {
    /// The flag value of the type: 0 for void, then one bit each.
    pub fn code(&self) -> (r: u32)
        ensures
            r == (match self {
                OnigType::Void => 0u32,
                OnigType::Long => 1u32,
                OnigType::Char => 2u32,
                OnigType::String => 4u32,
                OnigType::Pointer => 8u32,
                OnigType::Tag => 16u32,
            }),
    {
        match self {
            OnigType::Void => 0,
            OnigType::Long => 1,
            OnigType::Char => 2,
            OnigType::String => 4,
            OnigType::Pointer => 8,
            OnigType::Tag => 16,
        }
    }
}

/// A callout argument value.
#[derive(Clone, Debug)]
pub enum OnigValue {
    Long(i64),
    Char(OnigCodePoint),
    String { start: Vec<u8> },
    Tag(i32),
    Void,
}

/// A pair of code points that fold to each other.
#[derive(Clone, Copy, Debug)]
pub struct OnigPairCaseFoldCodes {
    pub from: OnigCodePoint,
    pub to: OnigCodePoint,
}

/// An inclusive range of code points.
#[derive(Clone, Debug)]
pub struct OnigCodeRange {
    pub from: OnigCodePoint,
    pub to: OnigCodePoint,
}

/// Whether the syntax accepts any of the operators `opm`.
pub fn is_syntax_op(syntax: &OnigSyntaxType, opm: u32) -> (r: bool)
    ensures
        r == (syntax.op & opm != 0),
{
    (syntax.op & opm) != 0
}

/// Whether the syntax accepts any of the operators `opm` of the second set.
pub fn is_syntax_op2(syntax: &OnigSyntaxType, opm: u32) -> (r: bool)
    ensures
        r == (syntax.op2 & opm != 0),
{
    (syntax.op2 & opm) != 0
}

/// Whether the syntax has any of the behaviours `bvm`.
pub fn is_syntax_bv(syntax: &OnigSyntaxType, bvm: u32) -> (r: bool)
    ensures
        r == (syntax.behavior & bvm != 0),
{
    (syntax.behavior & bvm) != 0
}

/// Setting options on and then the same options off leaves exactly the other flags.
pub proof fn lemma_option_on_off(options: OnigOptionType, regopt: OnigOptionType)
    ensures
        (options | regopt) & !regopt == options & !regopt,
        (options | regopt) & regopt == regopt,
{
    assert((options | regopt) & !regopt == options & !regopt) by (bit_vector);
    assert((options | regopt) & regopt == regopt) by (bit_vector);
}

} // verus!
