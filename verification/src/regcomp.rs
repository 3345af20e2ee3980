//! The parts of the compiler that stand apart from the pattern tree: setting
//! up a pattern for compilation, emitting instructions, choosing string
//! instructions and the saturating length arithmetic of the optimizer.
use vstd::prelude::*;

use crate::oniguruma::{
    OnigLen, OnigOptionType, OnigSyntaxType, INTERNAL_ONIGENC_CASE_FOLD_MULTI_CHAR,
    ONIGENC_CASE_FOLD_ASCII_ONLY, ONIGENC_CASE_FOLD_MIN, ONIGENC_CASE_FOLD_TURKISH_AZERI,
    ONIGERR_INVALID_COMBINATION_OF_OPTIONS, ONIG_OPTION_CAPTURE_GROUP,
    ONIG_OPTION_DONT_CAPTURE_GROUP, ONIG_OPTION_IGNORECASE_IS_ASCII,
    ONIG_OPTION_NEGATE_SINGLELINE, ONIG_OPTION_SINGLELINE,
};
use crate::regenc::OnigEncoding;
use crate::regint::{
    BitSet, MemStatusType, OpCode, Operation, OperationPayload, OptimizeType, RegexType,
    RepeatRange, StackPopLevel, INFINITE_LEN, BITSET_REAL_SIZE, CHAR_MAP_SIZE,
};

verus! {

/// The options a pattern compiles with: the caller's and the syntax's, less
/// single-line when the caller negates it.
pub open spec fn effective_options(option: OnigOptionType, syntax_options: OnigOptionType) -> OnigOptionType {
    if option & ONIG_OPTION_NEGATE_SINGLELINE != 0 {
        (option | syntax_options) & !ONIG_OPTION_SINGLELINE
    } else {
        option | syntax_options
    }
}

/// The case-fold flags of a pattern: the default ones, or ASCII only.
pub open spec fn initial_case_fold(options: OnigOptionType) -> u32 {
    if options & ONIG_OPTION_IGNORECASE_IS_ASCII != 0 {
        (ONIGENC_CASE_FOLD_MIN & !(INTERNAL_ONIGENC_CASE_FOLD_MULTI_CHAR
            | ONIGENC_CASE_FOLD_TURKISH_AZERI)) | ONIGENC_CASE_FOLD_ASCII_ONLY
    } else {
        ONIGENC_CASE_FOLD_MIN
    }
}

/// A pattern before compilation: no instructions, no groups, no search
/// strategy.
pub open spec fn is_blank(reg: RegexType) -> bool {
    &&& reg.ops@.len() == 0
    &&& reg.string_pool@.len() == 0
    &&& reg.literal_tries@.len() == 0
    &&& reg.num_mem == 0
    &&& reg.num_repeat == 0
    &&& reg.num_empty_check == 0
    &&& reg.num_call == 0
    &&& reg.capture_history == 0
    &&& reg.push_mem_start == 0
    &&& reg.push_mem_end == 0
    &&& reg.stack_pop_level == StackPopLevel::Free
    &&& reg.repeat_range@.len() == 0
    &&& reg.name_table is None
    &&& reg.optimize == OptimizeType::NoOptimize
    &&& reg.threshold_len == 0
    &&& reg.anchor == 0
    &&& reg.exact@.len() == 0
    &&& reg.extp is None
    &&& reg.match_cache is None
}

/// Sets a pattern up for compilation, as the compiler's entry point does
/// before it parses: the options are checked and combined with the syntax's,
/// and the case-fold flags derived from them. Asking for both capturing and
/// not capturing groups is an error.
pub fn onig_reg_init(option: OnigOptionType, enc: OnigEncoding, syntax: &OnigSyntaxType) -> (r: Result<RegexType, i32>)
    ensures
        r is Err <==> (option & ONIG_OPTION_DONT_CAPTURE_GROUP != 0 && option & ONIG_OPTION_CAPTURE_GROUP != 0),
        r matches Err(e) ==> e == ONIGERR_INVALID_COMBINATION_OF_OPTIONS,
        r matches Ok(reg) ==> {
            &&& is_blank(reg)
            &&& reg.enc == enc
            &&& reg.syntax == *syntax
            &&& reg.options == effective_options(option, syntax.options)
            &&& reg.case_fold_flag == initial_case_fold(effective_options(option, syntax.options))
        },
{
    if (option & ONIG_OPTION_DONT_CAPTURE_GROUP) != 0 && (option & ONIG_OPTION_CAPTURE_GROUP) != 0 {
        return Err(ONIGERR_INVALID_COMBINATION_OF_OPTIONS);
    }
    let mut effective_option = option;
    if (option & ONIG_OPTION_NEGATE_SINGLELINE) != 0 {
        effective_option = effective_option | syntax.options;
        effective_option = effective_option & !ONIG_OPTION_SINGLELINE;
    } else {
        effective_option = effective_option | syntax.options;
    }
    let mut case_fold_flag = ONIGENC_CASE_FOLD_MIN;
    if (effective_option & ONIG_OPTION_IGNORECASE_IS_ASCII) != 0 {
        case_fold_flag = case_fold_flag & !(INTERNAL_ONIGENC_CASE_FOLD_MULTI_CHAR
            | ONIGENC_CASE_FOLD_TURKISH_AZERI);
        case_fold_flag = case_fold_flag | ONIGENC_CASE_FOLD_ASCII_ONLY;
    }
    Ok(RegexType {
        ops: Vec::new(),
        string_pool: Vec::new(),
        literal_tries: Vec::new(),
        num_mem: 0,
        num_repeat: 0,
        num_empty_check: 0,
        num_call: 0,
        capture_history: 0,
        push_mem_start: 0,
        push_mem_end: 0,
        stack_pop_level: StackPopLevel::Free,
        repeat_range: Vec::new(),
        enc,
        options: effective_option,
        syntax: *syntax,
        case_fold_flag,
        name_table: None,
        optimize: OptimizeType::NoOptimize,
        threshold_len: 0,
        anchor: 0,
        anc_dist_min: 0,
        anc_dist_max: 0,
        sub_anchor: 0,
        exact: Vec::new(),
        map: [0u8; CHAR_MAP_SIZE],
        map_offset: 0,
        dist_min: 0,
        dist_max: 0,
        extp: None,
        match_cache: None,
    })
}

/// Appends an instruction and returns its index.
pub fn add_op(reg: &mut RegexType, opcode: OpCode, payload: OperationPayload) -> (r: i32)
    requires
        old(reg).ops@.len() < i32::MAX,
    ensures
        r == old(reg).ops@.len(),
        final(reg).ops@ == old(reg).ops@.push(Operation { opcode, payload }),
        final(reg).repeat_range@ == old(reg).repeat_range@,
        final(reg).num_repeat == old(reg).num_repeat,
{
    let idx = reg.ops.len();
    reg.ops.push(Operation { opcode, payload });
    idx as i32
}

/// The index of the last instruction (`-1` when there is none).
pub fn ops_curr_offset(reg: &RegexType) -> (r: i32)
    requires
        reg.ops@.len() <= i32::MAX,
    ensures
        r == reg.ops@.len() - 1,
{
    (reg.ops.len() as i32) - 1
}

/// A non-negative count as a length.
fn count_to_len(b: i32) -> (r: OnigLen)
    requires
        b >= 0,
    ensures
        r == b,
{
    b as OnigLen
}

/// Whether `a * b` exceeds `limit`, without overflowing.
pub fn len_multiply_cmp(a: OnigLen, b: i32, limit: OnigLen) -> (r: bool)
    requires
        b >= 0,
    ensures
        r == (a * b > limit),
{
    if a == 0 || b == 0 {
        return false;
    }
    let bl = count_to_len(b);
    if a > limit / bl {
        proof {
            assert(a * bl > limit) by (nonlinear_arith)
                requires
                    bl > 0,
                    a > limit / bl,
            ;
        }
        return true;
    }
    proof {
        assert(a * bl <= u32::MAX) by (nonlinear_arith)
            requires
                bl > 0,
                a <= limit / bl,
        ;
    }
    a * bl > limit
}

/// The sum of two lengths, where `INFINITE_LEN` absorbs and the sum
/// saturates at it.
pub open spec fn dist_sum(d1: OnigLen, d2: OnigLen) -> OnigLen {
    if d1 == INFINITE_LEN || d2 == INFINITE_LEN || d1 + d2 >= INFINITE_LEN {
        INFINITE_LEN
    } else {
        (d1 + d2) as OnigLen
    }
}

/// Adds two lengths, saturating at `INFINITE_LEN`.
pub fn distance_add(d1: OnigLen, d2: OnigLen) -> (r: OnigLen)
    ensures
        r == dist_sum(d1, d2),
{
    if d1 == INFINITE_LEN || d2 == INFINITE_LEN {
        INFINITE_LEN
    } else if d1 <= INFINITE_LEN - d2 {
        d1 + d2
    } else {
        INFINITE_LEN
    }
}

/// The product of a length and a count, saturating at `INFINITE_LEN`.
pub open spec fn dist_product(d: OnigLen, m: i32) -> OnigLen {
    if m == 0 {
        0
    } else if d >= INFINITE_LEN / (m as u32) {
        INFINITE_LEN
    } else {
        (d * m) as OnigLen
    }
}

/// Multiplies a length by a positive count, saturating at `INFINITE_LEN`.
pub fn distance_multiply(d: OnigLen, m: i32) -> (r: OnigLen)
    requires
        m >= 0,
    ensures
        r == dist_product(d, m),
        m > 0 ==> (r == INFINITE_LEN || r == d * m),
{
    if m == 0 {
        return 0;
    }
    let mu = m as OnigLen;
    if d >= INFINITE_LEN / mu {
        return INFINITE_LEN;
    }
    proof {
        assert(d * mu < INFINITE_LEN) by (nonlinear_arith)
            requires
                mu > 0,
                d < INFINITE_LEN / mu,
        ;
    }
    d * mu
}

/// Whether the byte set is empty.
pub fn bitset_is_empty(bs: &BitSet) -> (r: bool)
    ensures
        r == forall|i: int| 0 <= i < 8 ==> bs@[i] == 0,
{
    let mut i: usize = 0;
    while i < BITSET_REAL_SIZE
        invariant
            i <= 8,
            forall|j: int| 0 <= j < i ==> bs@[j] == 0,
        decreases 8 - i,
    {
        if bs[i] != 0 {
            return false;
        }
        i = i + 1;
    }
    true
}

/// The string instruction for `str_len` characters of `mb_len` bytes each.
pub open spec fn str_opcode(mb_len: i32, str_len: i32) -> OpCode {
    if mb_len == 1 {
        if str_len == 1 {
            OpCode::Str1
        } else if str_len == 2 {
            OpCode::Str2
        } else if str_len == 3 {
            OpCode::Str3
        } else if str_len == 4 {
            OpCode::Str4
        } else if str_len == 5 {
            OpCode::Str5
        } else {
            OpCode::StrN
        }
    } else if mb_len == 2 {
        if str_len == 1 {
            OpCode::StrMb2n1
        } else if str_len == 2 {
            OpCode::StrMb2n2
        } else if str_len == 3 {
            OpCode::StrMb2n3
        } else {
            OpCode::StrMb2n
        }
    } else if mb_len == 3 {
        OpCode::StrMb3n
    } else {
        OpCode::StrMbn
    }
}

/// Chooses the string instruction for `str_len` characters of `mb_len` bytes.
pub fn select_str_opcode(mb_len: i32, str_len: i32) -> (r: OpCode)
    ensures
        r == str_opcode(mb_len, str_len),
{
    if mb_len == 1 {
        match str_len {
            1 => OpCode::Str1,
            2 => OpCode::Str2,
            3 => OpCode::Str3,
            4 => OpCode::Str4,
            5 => OpCode::Str5,
            _ => OpCode::StrN,
        }
    } else if mb_len == 2 {
        match str_len {
            1 => OpCode::StrMb2n1,
            2 => OpCode::StrMb2n2,
            3 => OpCode::StrMb2n3,
            _ => OpCode::StrMb2n,
        }
    } else if mb_len == 3 {
        OpCode::StrMb3n
    } else {
        OpCode::StrMbn
    }
}

/// The number of instructions a string segment compiles to: one.
pub fn add_compile_string_length(_s: &[u8], mb_len: i32, str_len: i32) -> (r: i32)
    ensures
        r == 1,
{
    1
}

/// Emits the string instruction for the first `mb_len * str_len` bytes of
/// `s`: up to five single-byte characters inline, more single-byte ones with
/// their count, multibyte ones with their byte count and character width.
pub fn add_compile_string(reg: &mut RegexType, s: &[u8], mb_len: i32, str_len: i32) -> (r: i32)
    requires
        old(reg).ops@.len() < i32::MAX,
        mb_len >= 1,
        str_len >= 1,
        mb_len * str_len <= s@.len(),
        mb_len * str_len <= i32::MAX,
    ensures
        r == 0,
        final(reg).ops@.len() == old(reg).ops@.len() + 1,
        final(reg).ops@.drop_last() == old(reg).ops@,
        final(reg).ops@.last().opcode == str_opcode(mb_len, str_len),
        ({
            let n = mb_len * str_len;
            let payload = final(reg).ops@.last().payload;
            if mb_len == 1 && str_len <= 5 {
                payload matches OperationPayload::Exact { s: buf } && forall|i: int|
                    0 <= i < 16 ==> #[trigger] buf@[i] == if i < n { s@[i] } else { 0u8 }
            } else if mb_len == 1 {
                payload matches OperationPayload::ExactN { s: bytes, n: count } && bytes@ == s@.take(n)
                    && count == str_len
            } else {
                payload matches OperationPayload::ExactLenN { s: bytes, n: count, len } && bytes@ == s@.take(n)
                    && count == n && len == mb_len
            }
        }),
{
    let op = select_str_opcode(mb_len, str_len);
    let byte_len = mb_len * str_len;
    let n = byte_len as usize;
    let payload = if mb_len == 1 && str_len <= 5 {
        let mut buf = [0u8; 16];
        let mut i: usize = 0;
        while i < n
            invariant
                n <= 5,
                n <= s@.len(),
                i <= n,
                forall|j: int| 0 <= j < i ==> buf@[j] == s@[j],
                forall|j: int| i <= j < 16 ==> buf@[j] == 0u8,
            decreases n - i,
        {
            buf[i] = s[i];
            i = i + 1;
        }
        OperationPayload::Exact { s: buf }
    } else {
        let mut bytes: Vec<u8> = Vec::new();
        let mut i: usize = 0;
        while i < n
            invariant
                n <= s@.len(),
                i <= n,
                bytes@ == s@.take(i as int),
            decreases n - i,
        {
            bytes.push(s[i]);
            i = i + 1;
            proof {
                assert(bytes@ =~= s@.take(i as int));
            }
        }
        if mb_len == 1 {
            OperationPayload::ExactN { s: bytes, n: str_len }
        } else {
            OperationPayload::ExactLenN { s: bytes, n: byte_len, len: mb_len }
        }
    };
    add_op(reg, op, payload);
    proof {
        assert(reg.ops@.drop_last() =~= old(reg).ops@);
    }
    0
}

/// Registers the bounds of a counted repeat and returns its number.
pub fn entry_repeat_range(reg: &mut RegexType, lower: i32, upper: i32) -> (r: Result<i32, i32>)
    requires
        old(reg).num_repeat < i32::MAX,
    ensures
        r == Ok::<i32, i32>(old(reg).num_repeat),
        final(reg).num_repeat == old(reg).num_repeat + 1,
        final(reg).repeat_range@.len() == old(reg).repeat_range@.len() + 1,
        final(reg).repeat_range@.drop_last() == old(reg).repeat_range@,
        final(reg).repeat_range@.last() == (RepeatRange { lower, upper, u_offset: 0 }),
        final(reg).ops@ == old(reg).ops@,
{
    let id = reg.num_repeat;
    reg.num_repeat = reg.num_repeat + 1;
    reg.repeat_range.push(RepeatRange { lower, upper, u_offset: 0 });
    proof {
        assert(reg.repeat_range@.drop_last() =~= old(reg).repeat_range@);
    }
    Ok(id)
}

/// Whether bit 0 of a capture status is set, which stands for all groups.
pub fn mem_status_is_all_on(stats: MemStatusType) -> (r: bool)
    ensures
        r == (stats & 1 != 0),
{
    (stats & 1) != 0
}

} // verus!
