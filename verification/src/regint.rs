//! Internal types of the engine: capture status bits, byte bit sets, anchors,
//! opcodes, instructions, the compiled pattern and the option and syntax queries.
use vstd::prelude::*;

use crate::oniguruma::{
    is_syntax_op2, OnigCalloutOf, OnigCalloutType, OnigCaseFoldType, OnigCodePoint, OnigLen,
    OnigOptionType, OnigSyntaxType, OnigType, OnigValue, ONIG_INFINITE_DISTANCE,
    ONIG_OPTION_CALLBACK_EACH_MATCH, ONIG_OPTION_CAPTURE_GROUP,
    ONIG_OPTION_CHECK_VALIDITY_OF_STRING, ONIG_OPTION_DONT_CAPTURE_GROUP, ONIG_OPTION_EXTEND,
    ONIG_OPTION_FIND_LONGEST, ONIG_OPTION_FIND_NOT_EMPTY, ONIG_OPTION_IGNORECASE,
    ONIG_OPTION_MATCH_WHOLE_STRING, ONIG_OPTION_MULTILINE, ONIG_OPTION_NEGATE_SINGLELINE,
    ONIG_OPTION_NOTBOL, ONIG_OPTION_NOTEOL, ONIG_OPTION_NOT_BEGIN_POSITION,
    ONIG_OPTION_NOT_BEGIN_STRING, ONIG_OPTION_NOT_END_STRING, ONIG_OPTION_POSIX_REGION,
    ONIG_OPTION_SINGLELINE, ONIG_SYN_OP2_INEFFECTIVE_ESCAPE,
};
use crate::regenc::OnigEncoding;
use crate::match_cache::Plan;
use crate::literal_trie::LiteralTrie;

verus! {

// === Feature flags ===
pub const USE_CALL: bool = true;
pub const USE_CALLOUT: bool = true;
pub const USE_BACKREF_WITH_LEVEL: bool = true;
pub const USE_CAPTURE_HISTORY: bool = true;

// === Configuration ===
pub const DEFAULT_PARSE_DEPTH_LIMIT: u32 = 4096;
pub const INIT_MATCH_STACK_SIZE: usize = 160;
pub const DEFAULT_MATCH_STACK_LIMIT_SIZE: u32 = 0;
pub const DEFAULT_RETRY_LIMIT_IN_MATCH: u64 = 10_000_000;
pub const DEFAULT_RETRY_LIMIT_IN_SEARCH: u64 = 0;
pub const DEFAULT_TIME_LIMIT_MSEC: u64 = 0;
pub const DEFAULT_SUBEXP_CALL_LIMIT_IN_SEARCH: u64 = 0;
pub const DEFAULT_SUBEXP_CALL_MAX_NEST_LEVEL: i32 = 20;

pub const CHAR_MAP_SIZE: usize = 256;
pub const INFINITE_LEN: OnigLen = ONIG_INFINITE_DISTANCE;
pub const STEP_BACK_MAX_CHAR_LEN: i32 = 65535;
pub const LOOK_BEHIND_MAX_CHAR_LEN: i32 = STEP_BACK_MAX_CHAR_LEN;
pub const INFINITE_REPEAT: i32 = -1;

/// Whether a repeat bound stands for "no upper limit".
pub fn is_infinite_repeat(n: i32) -> (r: bool)
    ensures
        r == (n == INFINITE_REPEAT),
{
    n == INFINITE_REPEAT
}

// === Bytecode operand types ===
pub type RelAddrType = i32;
pub type AbsAddrType = i32;
pub type LengthType = i32;
pub type RelPositionType = i32;
pub type RepeatNumType = i32;
pub type MemNumType = i32;
pub type ModeType = i32;

// === Capture status bits ===
pub type MemStatusType = u32;

pub const MEM_STATUS_BITS_NUM: usize = 32;

/// Bit `i` (0 <= i < 32) of a status word.
pub open spec fn status_bit(stats: u32, i: int) -> bool {
    stats & (1u32 << (i as u32)) != 0
}

/// Whether group `n` counts as on: its own bit for groups below 32, bit 0
/// (the "all groups" bit) for the others.
pub open spec fn mem_status_at_spec(stats: u32, n: int) -> bool {
    if n < 32 { status_bit(stats, n) } else { status_bit(stats, 0) }
}

proof fn lemma_bit_zero(stats: u32)
    ensures
        status_bit(stats, 0) == (stats & 1 != 0),
{
    assert(1u32 << 0u32 == 1u32) by (bit_vector);
}

proof fn lemma_or_bit(stats: u32, k: u32, j: u32)
    requires
        k < 32,
        j < 32,
    ensures
        (stats | (1u32 << k)) & (1u32 << j) != 0 <==> (stats & (1u32 << j) != 0 || j == k),
{
    assert((stats | (1u32 << k)) & (1u32 << j) != 0 <==> (stats & (1u32 << j) != 0 || j == k))
        by (bit_vector)
        requires
            k < 32,
            j < 32,
    ;
}

proof fn lemma_and_not_bit(stats: u32, k: u32, j: u32)
    requires
        k < 32,
        j < 32,
    ensures
        (stats & !(1u32 << k)) & (1u32 << j) != 0 <==> (stats & (1u32 << j) != 0 && j != k),
{
    assert((stats & !(1u32 << k)) & (1u32 << j) != 0 <==> (stats & (1u32 << j) != 0 && j != k))
        by (bit_vector)
        requires
            k < 32,
            j < 32,
    ;
}

proof fn lemma_xor_bit(stats: u32, k: u32, j: u32)
    requires
        k < 32,
        j < 32,
    ensures
        (stats ^ (1u32 << k)) & (1u32 << j) != 0 <==> (if j == k {
            stats & (1u32 << j) == 0
        } else {
            stats & (1u32 << j) != 0
        }),
{
    assert((stats ^ (1u32 << k)) & (1u32 << j) != 0 <==> (if j == k {
        stats & (1u32 << j) == 0
    } else {
        stats & (1u32 << j) != 0
    })) by (bit_vector)
        requires
            k < 32,
            j < 32,
    ;
}

/// Clears every status bit.
pub fn mem_status_clear(stats: &mut MemStatusType)
    ensures
        *final(stats) == 0,
{
    *stats = 0;
}

/// Sets every status bit.
pub fn mem_status_on_all(stats: &mut MemStatusType)
    ensures
        *final(stats) == 0xffff_ffffu32,
        forall|i: int| 0 <= i < 32 ==> status_bit(*final(stats), i),
{
    *stats = !0u32;
    assert(!0u32 == 0xffff_ffffu32) by (bit_vector);
    proof {
        assert forall|i: int| 0 <= i < 32 implies status_bit(*stats, i) by {
            let k = i as u32;
            assert(0xffff_ffffu32 & (1u32 << k) != 0) by (bit_vector)
                requires
                    k < 32,
            ;
        }
    }
}

/// Whether group `n` is on (groups from 32 on share bit 0).
pub fn mem_status_at(stats: MemStatusType, n: usize) -> (r: bool)
    ensures
        r == mem_status_at_spec(stats, n as int),
{
    proof {
        lemma_bit_zero(stats);
    }
    if n < MEM_STATUS_BITS_NUM {
        (stats & (1u32 << (n as u32))) != 0
    } else {
        (stats & 1) != 0
    }
}

/// Like `mem_status_at`, but group 0 also reads bit 0.
pub fn mem_status_at0(stats: MemStatusType, n: usize) -> (r: bool)
    ensures
        r == (if 0 < n < 32 { status_bit(stats, n as int) } else { status_bit(stats, 0) }),
{
    proof {
        lemma_bit_zero(stats);
    }
    if n > 0 && n < MEM_STATUS_BITS_NUM {
        (stats & (1u32 << (n as u32))) != 0
    } else {
        (stats & 1) != 0
    }
}

/// Whether the "all groups" bit is on.
pub fn mem_status_is_all_on(stats: MemStatusType) -> (r: bool)
    ensures
        r == status_bit(stats, 0),
{
    proof {
        lemma_bit_zero(stats);
    }
    (stats & 1) != 0
}

/// Turns group `n` on: its own bit below 32 (nothing for group 0), bit 0 from 32 on.
pub fn mem_status_on(stats: &mut MemStatusType, n: usize)
    ensures
        forall|j: int|
            0 <= j < 32 ==> #[trigger] status_bit(*final(stats), j) == (status_bit(*old(stats), j) || (
            j == n && n != 0) || (j == 0 && n >= 32)),
{
    let ghost s0 = *stats;
    if n < MEM_STATUS_BITS_NUM {
        if n != 0 {
            *stats = *stats | (1u32 << (n as u32));
            proof {
                assert forall|j: int| 0 <= j < 32 implies #[trigger] status_bit(*stats, j) == (
                status_bit(s0, j) || j == n) by {
                    lemma_or_bit(s0, n as u32, j as u32);
                }
            }
        }
    } else {
        *stats = *stats | 1;
        proof {
            assert(1u32 << 0u32 == 1u32) by (bit_vector);
            assert forall|j: int| 0 <= j < 32 implies #[trigger] status_bit(*stats, j) == (
            status_bit(s0, j) || j == 0) by {
                lemma_or_bit(s0, 0, j as u32);
            }
        }
    }
}

/// Turns the bit of group `n` on when `n` is below 32, else leaves the status as it is.
pub fn mem_status_on_simple(stats: &mut MemStatusType, n: usize)
    ensures
        forall|j: int|
            0 <= j < 32 ==> #[trigger] status_bit(*final(stats), j) == (status_bit(*old(stats), j) || j
                == n),
{
    let ghost s0 = *stats;
    if n < MEM_STATUS_BITS_NUM {
        *stats = *stats | (1u32 << (n as u32));
        proof {
            assert forall|j: int| 0 <= j < 32 implies #[trigger] status_bit(*stats, j) == (status_bit(
                s0,
                j,
            ) || j == n) by {
                lemma_or_bit(s0, n as u32, j as u32);
            }
        }
    }
}

/// Whether the bit of group `n` is on; false for groups from 32 on.
pub fn mem_status_limit_at(stats: MemStatusType, n: usize) -> (r: bool)
    ensures
        r == (n < 32 && status_bit(stats, n as int)),
{
    if n < MEM_STATUS_BITS_NUM {
        (stats & (1u32 << (n as u32))) != 0
    } else {
        false
    }
}

/// Turns the bit of group `n` on for 0 < n < 32, else leaves the status as it is.
pub fn mem_status_limit_on(stats: &mut MemStatusType, n: usize)
    ensures
        forall|j: int|
            0 <= j < 32 ==> #[trigger] status_bit(*final(stats), j) == (status_bit(*old(stats), j) || (
            j == n && n != 0)),
{
    let ghost s0 = *stats;
    if n < MEM_STATUS_BITS_NUM && n != 0 {
        *stats = *stats | (1u32 << (n as u32));
        proof {
            assert forall|j: int| 0 <= j < 32 implies #[trigger] status_bit(*stats, j) == (status_bit(
                s0,
                j,
            ) || j == n) by {
                lemma_or_bit(s0, n as u32, j as u32);
            }
        }
    }
}

/// Turning a group on and then asking for it answers yes, for every group
/// but group 0 (which `mem_status_on` leaves alone).
pub proof fn lemma_mem_status_on_then_at(before: u32, after: u32, n: int)
    requires
        n > 0,
        forall|j: int|
            0 <= j < 32 ==> #[trigger] status_bit(after, j) == (status_bit(before, j) || (j == n
                && n != 0) || (j == 0 && n >= 32)),
    ensures
        mem_status_at_spec(after, n),
{
    if n < 32 {
        assert(status_bit(after, n));
    } else {
        assert(status_bit(after, 0));
    }
}

// === Byte bit sets (256 bits) ===
pub const BITS_PER_BYTE: usize = 8;
pub const SINGLE_BYTE_SIZE: usize = 256;
pub const BITS_IN_ROOM: usize = 32;
pub const BITSET_REAL_SIZE: usize = 8;
pub type Bits = u32;
pub type BitSet = [Bits; 8];

pub const SIZE_BITSET: usize = 32;

/// Whether byte `pos` is in the set: bit `pos % 32` of word `pos / 32`.
pub open spec fn bitset_has(bs: Seq<u32>, pos: int) -> bool {
    status_bit(bs[pos / 32], pos % 32)
}

/// Empties the set.
pub fn bitset_clear(bs: &mut BitSet)
    ensures
        forall|i: int| 0 <= i < 8 ==> final(bs)@[i] == 0,
        forall|p: int| 0 <= p < 256 ==> !bitset_has(final(bs)@, p),
{
    let mut i: usize = 0;
    while i < BITSET_REAL_SIZE
        invariant
            i <= 8,
            forall|j: int| 0 <= j < i ==> bs@[j] == 0,
        decreases 8 - i,
    {
        bs[i] = 0;
        i = i + 1;
    }
    proof {
        assert forall|p: int| 0 <= p < 256 implies !bitset_has(bs@, p) by {
            let k = (p % 32) as u32;
            assert(0u32 & (1u32 << k) == 0) by (bit_vector);
        }
    }
}

/// The word of the set that holds byte `pos`.
pub fn bs_room(pos: usize) -> (r: usize)
    ensures
        r == pos / 32,
{
    assert(pos >> 5usize == pos / 32) by (bit_vector);
    pos >> 5
}

/// The bit of its word that stands for byte `pos`.
pub fn bs_bit(pos: usize) -> (r: u32)
    ensures
        r == 1u32 << ((pos % 32) as u32),
{
    assert(pos & 0x1fusize == pos % 32) by (bit_vector);
    1u32 << ((pos & 0x1f) as u32)
}

/// Whether byte `pos` is in the set.
pub fn bitset_at(bs: &BitSet, pos: usize) -> (r: bool)
    requires
        pos < 256,
    ensures
        r == bitset_has(bs@, pos as int),
{
    (bs[bs_room(pos)] & bs_bit(pos)) != 0
}

/// Adds byte `pos` to the set; every other byte keeps its membership.
pub fn bitset_set_bit(bs: &mut BitSet, pos: usize)
    requires
        pos < 256,
    ensures
        forall|p: int| 0 <= p < 256 ==> bitset_has(final(bs)@, p) == (bitset_has(old(bs)@, p) || p == pos),
{
    let room = bs_room(pos);
    let bit = bs_bit(pos);
    let ghost old_bs = bs@;
    bs[room] = bs[room] | bit;
    proof {
        assert forall|p: int| 0 <= p < 256 implies bitset_has(bs@, p) == (bitset_has(old_bs, p) || p
            == pos) by {
            lemma_or_bit(old_bs[p / 32], (pos % 32) as u32, (p % 32) as u32);
        }
    }
}

/// Removes byte `pos` from the set; every other byte keeps its membership.
pub fn bitset_clear_bit(bs: &mut BitSet, pos: usize)
    requires
        pos < 256,
    ensures
        forall|p: int| 0 <= p < 256 ==> bitset_has(final(bs)@, p) == (bitset_has(old(bs)@, p) && p != pos),
{
    let room = bs_room(pos);
    let bit = bs_bit(pos);
    let ghost old_bs = bs@;
    bs[room] = bs[room] & !bit;
    proof {
        assert forall|p: int| 0 <= p < 256 implies bitset_has(bs@, p) == (bitset_has(old_bs, p) && p
            != pos) by {
            lemma_and_not_bit(old_bs[p / 32], (pos % 32) as u32, (p % 32) as u32);
        }
    }
}

/// Flips the membership of byte `pos`; every other byte keeps its membership.
pub fn bitset_invert_bit(bs: &mut BitSet, pos: usize)
    requires
        pos < 256,
    ensures
        forall|p: int|
            0 <= p < 256 ==> bitset_has(final(bs)@, p) == (if p == pos {
                !bitset_has(old(bs)@, p)
            } else {
                bitset_has(old(bs)@, p)
            }),
{
    let room = bs_room(pos);
    let bit = bs_bit(pos);
    let ghost old_bs = bs@;
    bs[room] = bs[room] ^ bit;
    proof {
        assert forall|p: int| 0 <= p < 256 implies bitset_has(bs@, p) == (if p == pos {
            !bitset_has(old_bs, p)
        } else {
            bitset_has(old_bs, p)
        }) by {
            lemma_xor_bit(old_bs[p / 32], (pos % 32) as u32, (p % 32) as u32);
        }
    }
}

// === Anchor flags ===
pub const ANCR_PREC_READ: i32 = 0x1;
pub const ANCR_PREC_READ_NOT: i32 = 0x2;
pub const ANCR_LOOK_BEHIND: i32 = 0x4;
pub const ANCR_LOOK_BEHIND_NOT: i32 = 0x8;
pub const ANCR_BEGIN_BUF: i32 = 0x10;
pub const ANCR_BEGIN_LINE: i32 = 0x20;
pub const ANCR_BEGIN_POSITION: i32 = 0x40;
pub const ANCR_END_BUF: i32 = 0x80;
pub const ANCR_SEMI_END_BUF: i32 = 0x100;
pub const ANCR_END_LINE: i32 = 0x200;
pub const ANCR_WORD_BOUNDARY: i32 = 0x400;
pub const ANCR_NO_WORD_BOUNDARY: i32 = 0x800;
pub const ANCR_WORD_BEGIN: i32 = 0x1000;
pub const ANCR_WORD_END: i32 = 0x2000;
pub const ANCR_ANYCHAR_INF: i32 = 0x4000;
pub const ANCR_ANYCHAR_INF_ML: i32 = 0x8000;
pub const ANCR_TEXT_SEGMENT_BOUNDARY: i32 = 0x1_0000;
pub const ANCR_NO_TEXT_SEGMENT_BOUNDARY: i32 = 0x2_0000;

/// Whether an anchor of this type has a body: the look-ahead and look-behind kinds.
pub fn anchor_has_body(anchor_type: i32) -> (r: bool)
    ensures
        r == (anchor_type < ANCR_BEGIN_BUF),
{
    anchor_type < ANCR_BEGIN_BUF
}

/// Whether the anchor tests a word boundary, a word's begin or a word's end.
pub fn is_word_anchor_type(anchor_type: i32) -> (r: bool)
    ensures
        r == (anchor_type == ANCR_WORD_BOUNDARY || anchor_type == ANCR_NO_WORD_BOUNDARY
            || anchor_type == ANCR_WORD_BEGIN || anchor_type == ANCR_WORD_END),
{
    anchor_type == ANCR_WORD_BOUNDARY || anchor_type == ANCR_NO_WORD_BOUNDARY || anchor_type
        == ANCR_WORD_BEGIN || anchor_type == ANCR_WORD_END
}

/// The instructions of the matching machine.
#[derive(Clone, Copy, Debug, PartialEq, Eq, Structural)]
pub enum OpCode {
    Finish,
    End,
    Str1,
    Str2,
    Str3,
    Str4,
    Str5,
    StrN,
    StrMb2n1,
    StrMb2n2,
    StrMb2n3,
    StrMb2n,
    StrMb3n,
    StrMbn,
    CClass,
    CClassMb,
    CClassMix,
    CClassNot,
    CClassMbNot,
    CClassMixNot,
    CClassRun,
    CClassStar,
    CClassMixStar,
    CClassMbStar,
    CClassNotStar,
    CClassMbNotStar,
    CClassMixNotStar,
    CClassStarPeekNext,
    AnyChar,
    AnyCharMl,
    AnyCharStar,
    AnyCharMlStar,
    AnyCharStarPeekNext,
    AnyCharMlStarPeekNext,
    Word,
    WordAscii,
    NoWord,
    NoWordAscii,
    WordStar,
    WordAsciiStar,
    WordAsciiStarPeekNext,
    WordBoundary,
    NoWordBoundary,
    WordBegin,
    WordEnd,
    TextSegmentBoundary,
    BeginBuf,
    EndBuf,
    BeginLine,
    EndLine,
    SemiEndBuf,
    CheckPosition,
    BackRef1,
    BackRef2,
    BackRefN,
    BackRefNIc,
    BackRefMulti,
    BackRefMultiIc,
    BackRefWithLevel,
    BackRefWithLevelIc,
    BackRefCheck,
    BackRefCheckWithLevel,
    MemStart,
    MemStartPush,
    MemEndPush,
    MemEndPushRec,
    MemEnd,
    MemEndRec,
    Fail,
    Jump,
    Push,
    PushSuper,
    Pop,
    PopToMark,
    PushOrJumpExact1,
    PushIfPeekNext,
    PushOrJumpByteSet,
    AltLiterals,
    Repeat,
    RepeatNg,
    RepeatInc,
    RepeatIncNg,
    EmptyCheckStart,
    EmptyCheckEnd,
    EmptyCheckEndMemst,
    EmptyCheckEndMemstPush,
    Move,
    StepBackStart,
    StepBackNext,
    LookBehindOp,
    CutToMark,
    Mark,
    SaveVal,
    UpdateVar,
    Call,
    Return,
    CalloutContents,
    CalloutName,
}

/// What a `SaveVal` instruction saves.
#[derive(Clone, Copy, Debug, PartialEq, Eq, Structural)]
pub enum SaveType {
    Keep,
    S,
    RightRange,
}

/// What an `UpdateVar` instruction updates.
#[derive(Clone, Copy, Debug, PartialEq, Eq)]
pub enum UpdateVarType {
    KeepFromStackLast,
    SFromStack,
    RightRangeFromStack,
    RightRangeFromSStack,
    RightRangeToS,
    RightRangeInit,
}

/// What a `CheckPosition` instruction compares the position with.
#[derive(Clone, Copy, Debug, PartialEq, Eq)]
pub enum CheckPositionType {
    SearchStart,
    CurrentRightRange,
}

/// The kind of text segment a boundary instruction tests.
#[derive(Clone, Copy, Debug, PartialEq, Eq)]
pub enum TextSegmentBoundaryType {
    ExtendedGraphemeCluster,
    Word,
}

/// How much a failing match must unwind from the stack.
#[derive(Clone, Copy, Debug, PartialEq, Eq, Structural)]
pub enum StackPopLevel {
    Free,
    MemStart,
    All,
}

/// The search strategy chosen for a compiled pattern.
#[derive(Clone, Copy, Debug, PartialEq, Eq)]
pub enum OptimizeType {
    NoOptimize,
    Str,
    StrFast,
    StrFastStepForward,
    ByteMap,
}

pub const FLAG_NCCLASS_NOT: u32 = 0x1;
pub const FLAG_NCCLASS_SHARE: u32 = 0x2;

/// One instruction: its opcode and its operands.
pub struct Operation {
    pub opcode: OpCode,
    pub payload: OperationPayload,
}

/// The operands of an instruction.
pub enum OperationPayload {
    Empty,
    Exact { s: [u8; 16] },
    ExactN { s: Vec<u8>, n: LengthType },
    ExactLenN { s: Vec<u8>, n: LengthType, len: LengthType },
    CClass { bsp: Box<BitSet> },
    CClassMb { mb: Vec<u8> },
    CClassMix { mb: Vec<u8>, bsp: Box<BitSet> },
    CClassStarPeekNext { bsp: Box<BitSet>, c: u8 },
    AnyCharStarPeekNext { c: u8 },
    WordBoundary { mode: ModeType },
    TextSegmentBoundary { boundary_type: TextSegmentBoundaryType, not: bool },
    CheckPosition { check_type: CheckPositionType },
    BackRefN { n1: MemNumType },
    BackRefGeneral { num: i32, ns: Vec<MemNumType>, nest_level: i32 },
    MemoryStart { num: MemNumType },
    MemoryEnd { num: MemNumType },
    Jump { addr: RelAddrType },
    Push { addr: RelAddrType },
    PushOrJumpExact1 { addr: RelAddrType, c: u8 },
    PushIfPeekNext { addr: RelAddrType, c: u8 },
    PushOrJumpByteSet { addr: RelAddrType, bsp: Box<BitSet> },
    AltLiterals { trie_idx: u32 },
    PopToMark { id: MemNumType },
    Repeat { id: MemNumType, addr: RelAddrType },
    RepeatInc { id: MemNumType },
    EmptyCheckStart { mem: MemNumType },
    EmptyCheckEnd { mem: MemNumType, empty_status_mem: MemStatusType },
    Move { n: RelPositionType },
    StepBackStart { initial: LengthType, remaining: LengthType, addr: RelAddrType },
    CutToMark { id: MemNumType, restore_pos: bool },
    Mark { id: MemNumType, save_pos: bool },
    SaveVal { save_type: SaveType, id: MemNumType },
    UpdateVar { var_type: UpdateVarType, id: MemNumType, clear: bool },
    Call { addr: AbsAddrType },
    Return,
    CalloutContents { num: MemNumType },
    CalloutName { num: MemNumType, id: MemNumType },
}

/// One callout of a pattern, as the compiler records it.
pub struct CalloutListEntry {
    pub flag: i32,
    pub of: OnigCalloutOf,
    pub callout_in: i32,
    pub name_id: i32,
    pub tag_start: Vec<u8>,
    pub tag_end: Vec<u8>,
    pub callout_type: OnigCalloutType,
    pub content: CalloutContent,
}

/// The contents of a callout: its text, or its arguments.
pub enum CalloutContent {
    Contents { start: Vec<u8> },
    Args {
        num: i32,
        passed_num: i32,
        types: [OnigType; 4],
        vals: [OnigValue; 4],
    },
}

/// The bounds of one counted repeat.
#[derive(Clone, Debug)]
pub struct RepeatRange {
    pub lower: i32,
    pub upper: i32,
    pub u_offset: i32,
}

/// A tag of a callout and the callout number it names.
pub struct CalloutTag {
    pub tag: Vec<u8>,
    pub num: i32,
}

/// Callout data of a pattern: its text, its tags and its callouts.
pub struct RegexExt {
    pub pattern: Vec<u8>,
    pub tag_table: Option<Vec<CalloutTag>>,
    pub callout_num: i32,
    pub callout_list: Vec<CalloutListEntry>,
}

/// A group name and the numbers of the groups it names, in order.
pub struct NameEntry {
    pub name: Vec<u8>,
    pub back_refs: Vec<i32>,
}

/// The named groups of a pattern.
pub struct NameTable {
    pub entries: Vec<NameEntry>,
}

/// A compiled pattern.
pub struct RegexType {
    // bytecode
    pub ops: Vec<Operation>,
    pub string_pool: Vec<u8>,
    /// The tries of the literal alternations, by `AltLiterals` index.
    pub literal_tries: Vec<LiteralTrie>,
    // captures
    pub num_mem: i32,
    pub num_repeat: i32,
    pub num_empty_check: i32,
    pub num_call: i32,
    pub capture_history: MemStatusType,
    pub push_mem_start: MemStatusType,
    pub push_mem_end: MemStatusType,
    pub stack_pop_level: StackPopLevel,
    pub repeat_range: Vec<RepeatRange>,
    // settings
    pub enc: OnigEncoding,
    pub options: OnigOptionType,
    pub syntax: OnigSyntaxType,
    pub case_fold_flag: OnigCaseFoldType,
    pub name_table: Option<NameTable>,
    // search strategy
    pub optimize: OptimizeType,
    pub threshold_len: i32,
    pub anchor: i32,
    pub anc_dist_min: OnigLen,
    pub anc_dist_max: OnigLen,
    pub sub_anchor: i32,
    pub exact: Vec<u8>,
    pub map: [u8; 256],
    pub map_offset: i32,
    pub dist_min: OnigLen,
    pub dist_max: OnigLen,
    // callouts
    pub extp: Option<RegexExt>,
    // memoization plan, when enabled
    pub match_cache: Option<Plan>,
}

// === Option queries ===
/// Whether case is ignored.
pub fn opton_ignorecase(option: OnigOptionType) -> (r: bool)
    ensures
        r == (option & ONIG_OPTION_IGNORECASE != 0),
{
    (option & ONIG_OPTION_IGNORECASE) != 0
}

/// Whether extended syntax (spaces and comments ignored) is on.
pub fn opton_extend(option: OnigOptionType) -> (r: bool)
    ensures
        r == (option & ONIG_OPTION_EXTEND != 0),
{
    (option & ONIG_OPTION_EXTEND) != 0
}

/// Whether `.` matches a newline.
pub fn opton_multiline(option: OnigOptionType) -> (r: bool)
    ensures
        r == (option & ONIG_OPTION_MULTILINE != 0),
{
    (option & ONIG_OPTION_MULTILINE) != 0
}

/// Whether `^` and `$` anchor at the buffer edges only.
pub fn opton_singleline(option: OnigOptionType) -> (r: bool)
    ensures
        r == (option & ONIG_OPTION_SINGLELINE != 0),
{
    (option & ONIG_OPTION_SINGLELINE) != 0
}

/// Whether the longest match is searched for.
pub fn opton_find_longest(option: OnigOptionType) -> (r: bool)
    ensures
        r == (option & ONIG_OPTION_FIND_LONGEST != 0),
{
    (option & ONIG_OPTION_FIND_LONGEST) != 0
}

/// Whether empty matches are ignored.
pub fn opton_find_not_empty(option: OnigOptionType) -> (r: bool)
    ensures
        r == (option & ONIG_OPTION_FIND_NOT_EMPTY != 0),
{
    (option & ONIG_OPTION_FIND_NOT_EMPTY) != 0
}

/// Whether the syntax's single-line default is negated.
pub fn opton_negate_singleline(option: OnigOptionType) -> (r: bool)
    ensures
        r == (option & ONIG_OPTION_NEGATE_SINGLELINE != 0),
{
    (option & ONIG_OPTION_NEGATE_SINGLELINE) != 0
}

/// Whether plain groups do not capture.
pub fn opton_dont_capture_group(option: OnigOptionType) -> (r: bool)
    ensures
        r == (option & ONIG_OPTION_DONT_CAPTURE_GROUP != 0),
{
    (option & ONIG_OPTION_DONT_CAPTURE_GROUP) != 0
}

/// Whether plain groups capture next to named ones.
pub fn opton_capture_group(option: OnigOptionType) -> (r: bool)
    ensures
        r == (option & ONIG_OPTION_CAPTURE_GROUP != 0),
{
    (option & ONIG_OPTION_CAPTURE_GROUP) != 0
}

/// Whether the subject's start is not a line start.
pub fn opton_notbol(option: OnigOptionType) -> (r: bool)
    ensures
        r == (option & ONIG_OPTION_NOTBOL != 0),
{
    (option & ONIG_OPTION_NOTBOL) != 0
}

/// Whether the subject's end is not a line end.
pub fn opton_noteol(option: OnigOptionType) -> (r: bool)
    ensures
        r == (option & ONIG_OPTION_NOTEOL != 0),
{
    (option & ONIG_OPTION_NOTEOL) != 0
}

/// Whether the region is filled in POSIX form.
pub fn opton_posix_region(option: OnigOptionType) -> (r: bool)
    ensures
        r == (option & ONIG_OPTION_POSIX_REGION != 0),
{
    (option & ONIG_OPTION_POSIX_REGION) != 0
}

/// Whether the subject is checked for valid encoding first.
pub fn opton_check_validity_of_string(option: OnigOptionType) -> (r: bool)
    ensures
        r == (option & ONIG_OPTION_CHECK_VALIDITY_OF_STRING != 0),
{
    (option & ONIG_OPTION_CHECK_VALIDITY_OF_STRING) != 0
}

/// Whether the match callback runs for each match.
pub fn opton_callback_each_match(option: OnigOptionType) -> (r: bool)
    ensures
        r == (option & ONIG_OPTION_CALLBACK_EACH_MATCH != 0),
{
    (option & ONIG_OPTION_CALLBACK_EACH_MATCH) != 0
}

/// Whether the subject's start is not the string's start.
pub fn opton_not_begin_string(option: OnigOptionType) -> (r: bool)
    ensures
        r == (option & ONIG_OPTION_NOT_BEGIN_STRING != 0),
{
    (option & ONIG_OPTION_NOT_BEGIN_STRING) != 0
}

/// Whether the subject's end is not the string's end.
pub fn opton_not_end_string(option: OnigOptionType) -> (r: bool)
    ensures
        r == (option & ONIG_OPTION_NOT_END_STRING != 0),
{
    (option & ONIG_OPTION_NOT_END_STRING) != 0
}

/// Whether the search start is not the `\G` position.
pub fn opton_not_begin_position(option: OnigOptionType) -> (r: bool)
    ensures
        r == (option & ONIG_OPTION_NOT_BEGIN_POSITION != 0),
{
    (option & ONIG_OPTION_NOT_BEGIN_POSITION) != 0
}

/// Whether only a match of the whole subject counts.
pub fn opton_match_whole_string(option: OnigOptionType) -> (r: bool)
    ensures
        r == (option & ONIG_OPTION_MATCH_WHOLE_STRING != 0),
{
    (option & ONIG_OPTION_MATCH_WHOLE_STRING) != 0
}

// === Meta characters of a syntax ===
/// The escape character of the syntax.
pub fn mc_esc(syn: &OnigSyntaxType) -> (r: OnigCodePoint)
    ensures
        r == syn.meta_char_table.esc,
{
    syn.meta_char_table.esc
}

/// The any-character meta character of the syntax.
pub fn mc_anychar(syn: &OnigSyntaxType) -> (r: OnigCodePoint)
    ensures
        r == syn.meta_char_table.anychar,
{
    syn.meta_char_table.anychar
}

/// The zero-or-more meta character of the syntax.
pub fn mc_anytime(syn: &OnigSyntaxType) -> (r: OnigCodePoint)
    ensures
        r == syn.meta_char_table.anytime,
{
    syn.meta_char_table.anytime
}

/// The zero-or-one meta character of the syntax.
pub fn mc_zero_or_one_time(syn: &OnigSyntaxType) -> (r: OnigCodePoint)
    ensures
        r == syn.meta_char_table.zero_or_one_time,
{
    syn.meta_char_table.zero_or_one_time
}

/// The one-or-more meta character of the syntax.
pub fn mc_one_or_more_time(syn: &OnigSyntaxType) -> (r: OnigCodePoint)
    ensures
        r == syn.meta_char_table.one_or_more_time,
{
    syn.meta_char_table.one_or_more_time
}

/// The any-character-any-times meta character of the syntax.
pub fn mc_anychar_anytime(syn: &OnigSyntaxType) -> (r: OnigCodePoint)
    ensures
        r == syn.meta_char_table.anychar_anytime,
{
    syn.meta_char_table.anychar_anytime
}

/// Whether `code` is the syntax's escape character and escapes are effective.
pub fn is_mc_esc_code(code: OnigCodePoint, syn: &OnigSyntaxType) -> (r: bool)
    ensures
        r == (code == syn.meta_char_table.esc && syn.op2 & ONIG_SYN_OP2_INEFFECTIVE_ESCAPE == 0),
{
    code == mc_esc(syn) && !is_syntax_op2(syn, ONIG_SYN_OP2_INEFFECTIVE_ESCAPE)
}

// === Digit values ===
/// The value of a decimal digit character.
pub fn digitval(code: OnigCodePoint) -> (r: u32)
    requires
        code >= 0x30,
    ensures
        r == code - 0x30,
{
    code - 0x30
}

/// The value of an octal digit character.
pub fn odigitval(code: OnigCodePoint) -> (r: u32)
    requires
        code >= 0x30,
    ensures
        r == code - 0x30,
{
    digitval(code)
}

/// Whether `code` is below 128 (the test the engine uses for ASCII word characters).
pub fn is_code_word_ascii(code: OnigCodePoint) -> (r: bool)
    ensures
        r == (code < 128),
{
    code < 128
}

/// Whether `code` is an ASCII decimal digit.
pub fn is_code_digit_ascii(code: OnigCodePoint) -> (r: bool)
    ensures
        r == (0x30 <= code <= 0x39),
{
    code < 128 && (code >= 0x30 && code <= 0x39)
}

} // verus!
