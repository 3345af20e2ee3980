//! Opt-in memoization of failed matcher states: its configuration, which
//! compiled patterns it applies to, and the bookkeeping of one search.
use vstd::prelude::*;

use crate::oniguruma::{OnigOptionType, ONIG_OPTION_FIND_LONGEST, ONIG_OPTION_FIND_NOT_EMPTY};
use crate::encodings::utf8::std_from_utf8;
use vstd::utf8::valid_utf8;
use crate::regenc::OnigEncoding;
use crate::regint::{OpCode, Operation, OperationPayload, RegexType};

verus! {

/// Resource policy for an explicitly enabled match cache.
#[derive(Clone, Copy, Debug, PartialEq, Eq)]
pub struct MatchCacheConfig {
    pub memory_budget: usize,
    pub activation_threshold: Option<usize>,
}

pub const DEFAULT_MEMORY_BUDGET: usize = 16777216;

impl Default for MatchCacheConfig {
    fn default() -> (r: Self)
        ensures
            r.memory_budget == DEFAULT_MEMORY_BUDGET,
            r.activation_threshold is None,
    {
        MatchCacheConfig { memory_budget: DEFAULT_MEMORY_BUDGET, activation_threshold: None }
    }
}

impl MatchCacheConfig {
    /// The default 16 MiB budget and the adaptive activation threshold.
    pub fn new() -> (r: Self)
        ensures
            r.memory_budget == DEFAULT_MEMORY_BUDGET,
            r.activation_threshold is None,
    {
        MatchCacheConfig { memory_budget: DEFAULT_MEMORY_BUDGET, activation_threshold: None }
    }

    /// Sets the total cache allocation budget in bytes; zero disables the cache.
    pub fn memory_budget(self, bytes: usize) -> (r: Self)
        ensures
            r.memory_budget == bytes,
            r.activation_threshold == self.activation_threshold,
    {
        let mut c = self;
        c.memory_budget = bytes;
        c
    }

    /// Activates after this much matcher work instead of the adaptive threshold.
    pub fn activation_threshold(self, work: usize) -> (r: Self)
        ensures
            r.memory_budget == self.memory_budget,
            r.activation_threshold == Some(work),
    {
        let mut c = self;
        c.activation_threshold = Some(work);
        c
    }
}

/// Whether the options allow the cache: neither longest nor non-empty search.
pub fn allowed_options(options: OnigOptionType) -> (r: bool)
    ensures
        r == (options & (ONIG_OPTION_FIND_LONGEST | ONIG_OPTION_FIND_NOT_EMPTY) == 0),
{
    (options & (ONIG_OPTION_FIND_LONGEST | ONIG_OPTION_FIND_NOT_EMPTY)) == 0
}

/// The instructions that repeat a character test in one step.
pub open spec fn is_star_op(opcode: OpCode) -> bool {
    match opcode {
        OpCode::AnyCharStar | OpCode::AnyCharMlStar | OpCode::AnyCharStarPeekNext
        | OpCode::AnyCharMlStarPeekNext | OpCode::CClassStar | OpCode::CClassMixStar
        | OpCode::CClassMbStar | OpCode::WordStar | OpCode::WordAsciiStar
        | OpCode::CClassStarPeekNext | OpCode::WordAsciiStarPeekNext | OpCode::CClassNotStar
        | OpCode::CClassMbNotStar | OpCode::CClassMixNotStar => true,
        _ => false,
    }
}

/// Whether `opcode` repeats a character test in one step.
pub fn is_star(opcode: OpCode) -> (r: bool)
    ensures
        r == is_star_op(opcode),
{
    match opcode {
        OpCode::AnyCharStar | OpCode::AnyCharMlStar | OpCode::AnyCharStarPeekNext
        | OpCode::AnyCharMlStarPeekNext | OpCode::CClassStar | OpCode::CClassMixStar
        | OpCode::CClassMbStar | OpCode::WordStar | OpCode::WordAsciiStar
        | OpCode::CClassStarPeekNext | OpCode::WordAsciiStarPeekNext | OpCode::CClassNotStar
        | OpCode::CClassMbNotStar | OpCode::CClassMixNotStar => true,
        _ => false,
    }
}

/// Straight-line instructions: they consume or fail and leave no state behind.
/// Only these may stand between an atomic region's mark and its star.
pub open spec fn is_straight_op(opcode: OpCode) -> bool {
    match opcode {
        OpCode::Str1 | OpCode::Str2 | OpCode::Str3 | OpCode::Str4 | OpCode::Str5 | OpCode::StrN
        | OpCode::StrMb2n1 | OpCode::StrMb2n2 | OpCode::StrMb2n3 | OpCode::StrMb2n
        | OpCode::StrMb3n | OpCode::StrMbn | OpCode::CClass | OpCode::CClassRun | OpCode::CClassMb
        | OpCode::CClassMix | OpCode::CClassNot | OpCode::CClassMbNot | OpCode::CClassMixNot
        | OpCode::AnyChar | OpCode::AnyCharMl | OpCode::Word | OpCode::WordAscii | OpCode::NoWord
        | OpCode::NoWordAscii => true,
        _ => false,
    }
}

/// Instructions that open a choice: pushes, literal alternations and stars.
pub open spec fn is_branch_op(opcode: OpCode) -> bool {
    match opcode {
        OpCode::Push | OpCode::PushOrJumpExact1 | OpCode::PushIfPeekNext
        | OpCode::PushOrJumpByteSet | OpCode::AltLiterals => true,
        _ => is_star_op(opcode),
    }
}

/// Instructions whose continuation can read capture, repeat, assertion or call
/// state, which a cache keyed by instruction and position cannot see.
pub open spec fn is_stateful_op(opcode: OpCode) -> bool {
    match opcode {
        OpCode::TextSegmentBoundary | OpCode::CheckPosition | OpCode::BackRef1 | OpCode::BackRef2
        | OpCode::BackRefN | OpCode::BackRefNIc | OpCode::BackRefMulti | OpCode::BackRefMultiIc
        | OpCode::BackRefWithLevel | OpCode::BackRefWithLevelIc | OpCode::BackRefCheck
        | OpCode::BackRefCheckWithLevel | OpCode::MemEndPushRec | OpCode::MemEndRec
        | OpCode::PushSuper | OpCode::Pop | OpCode::PopToMark | OpCode::Repeat | OpCode::RepeatNg
        | OpCode::RepeatInc | OpCode::RepeatIncNg | OpCode::EmptyCheckStart | OpCode::EmptyCheckEnd
        | OpCode::EmptyCheckEndMemst | OpCode::EmptyCheckEndMemstPush | OpCode::Move
        | OpCode::StepBackStart | OpCode::StepBackNext | OpCode::SaveVal | OpCode::UpdateVar
        | OpCode::Call | OpCode::Return | OpCode::CalloutContents | OpCode::CalloutName
        | OpCode::LookBehindOp => true,
        _ => false,
    }
}

/// The first `CutToMark` at or after `from`.
pub open spec fn first_cut(ops: Seq<Operation>, from: int) -> Option<int>
    decreases ops.len() - from,
{
    if from >= ops.len() {
        None
    } else if ops[from].opcode == OpCode::CutToMark {
        Some(from)
    } else {
        first_cut(ops, from + 1)
    }
}

/// The mark at `pc` opens an admitted atomic region: the first cut after it
/// closes the same mark without restoring the position, a star stands right
/// before that cut, and only straight-line instructions come between.
pub open spec fn atomic_region_ok(ops: Seq<Operation>, pc: int) -> bool {
    match ops[pc].payload {
        OperationPayload::Mark { id, .. } => match first_cut(ops, pc + 1) {
            Some(cut) => {
                &&& (match ops[cut].payload {
                    OperationPayload::CutToMark { id: other, restore_pos } => other == id && !restore_pos,
                    _ => false,
                })
                &&& cut >= pc + 2
                &&& is_star_op(ops[cut - 1].opcode)
                &&& forall|k: int| pc + 1 <= k < cut - 1 ==> #[trigger] is_straight_op(ops[k].opcode)
            },
            None => false,
        },
        _ => false,
    }
}

/// Every mark opens an admitted atomic region.
pub open spec fn marks_ok(ops: Seq<Operation>) -> bool {
    forall|pc: int| 0 <= pc < ops.len() && #[trigger] ops[pc].opcode == OpCode::Mark ==> atomic_region_ok(ops, pc)
}

/// The mark at `m` bounds an atomic region at `i`: `i` is the mark or its cut.
pub open spec fn bounds_at(ops: Seq<Operation>, m: int, i: int) -> bool {
    ops[m].opcode == OpCode::Mark && (i == m || first_cut(ops, m + 1) == Some(i))
}

/// The mark at `m` is closed by the cut at `i`.
pub open spec fn closes_at(ops: Seq<Operation>, m: int, i: int) -> bool {
    ops[m].opcode == OpCode::Mark && first_cut(ops, m + 1) == Some(i)
}

/// `i` is a mark, or the cut of a mark, among the first `lim` instructions.
pub open spec fn boundary_upto(ops: Seq<Operation>, lim: int, i: int) -> bool {
    exists|m: int| 0 <= m < lim && #[trigger] bounds_at(ops, m, i)
}

/// `i` is the star right before the cut of a mark among the first `lim` instructions.
pub open spec fn star_upto(ops: Seq<Operation>, lim: int, i: int) -> bool {
    exists|m: int| 0 <= m < lim && #[trigger] closes_at(ops, m, i + 1)
}

/// `i` is the star that ends an atomic region.
pub open spec fn is_atomic_star(ops: Seq<Operation>, i: int) -> bool {
    star_upto(ops, ops.len() as int, i)
}

/// The instruction at `pc` is admitted: it reads no state the cache cannot see,
/// and a mark or cut is one of an admitted atomic region.
pub open spec fn op_admitted(ops: Seq<Operation>, pc: int) -> bool {
    &&& !is_stateful_op(ops[pc].opcode)
    &&& (ops[pc].opcode == OpCode::Mark || ops[pc].opcode == OpCode::CutToMark) ==> boundary_upto(
        ops,
        ops.len() as int,
        pc,
    )
}

/// Whether the cache applies to a compiled pattern: options that allow it,
/// UTF-8, no capture history, and only admitted instructions.
pub open spec fn cache_eligible(reg: &RegexType) -> bool {
    &&& reg.options & (ONIG_OPTION_FIND_LONGEST | ONIG_OPTION_FIND_NOT_EMPTY) == 0
    &&& reg.enc == OnigEncoding::Utf8
    &&& reg.capture_history == 0
    &&& marks_ok(reg.ops@)
    &&& forall|pc: int| 0 <= pc < reg.ops@.len() ==> #[trigger] op_admitted(reg.ops@, pc)
}

/// The instruction at `pc` is a cache point: a branch, or the entry.
pub open spec fn is_point(ops: Seq<Operation>, pc: int) -> bool {
    is_branch_op(ops[pc].opcode) || pc == 0
}

/// The number of cache points among the first `n` instructions.
pub open spec fn point_count(ops: Seq<Operation>, n: int) -> nat
    decreases n,
{
    if n <= 0 {
        0
    } else {
        point_count(ops, n - 1) + if is_point(ops, n - 1) { 1nat } else { 0nat }
    }
}

/// The cache points of `ops` numbered in order, their number, and the
/// stars that end atomic regions.
pub open spec fn is_plan_of(ops: Seq<Operation>, points: Seq<Option<usize>>, count: usize, stars: Seq<bool>) -> bool {
    &&& points.len() == ops.len()
    &&& forall|pc: int|
        0 <= pc < points.len() ==> #[trigger] points[pc] == (if is_point(ops, pc) {
            Some(point_count(ops, pc) as usize)
        } else {
            None
        })
    &&& count == point_count(ops, ops.len() as int)
    &&& stars.len() == ops.len()
    &&& forall|i: int| 0 <= i < stars.len() ==> #[trigger] stars[i] == is_atomic_star(ops, i)
}

proof fn lemma_point_count_le(ops: Seq<Operation>, n: int)
    requires
        0 <= n,
    ensures
        point_count(ops, n) <= n,
    decreases n,
{
    if n > 0 {
        lemma_point_count_le(ops, n - 1);
    }
}

proof fn lemma_first_cut(ops: Seq<Operation>, from: int, i: int)
    requires
        0 <= from <= i <= ops.len(),
        forall|k: int| from <= k < i ==> #[trigger] ops[k].opcode != OpCode::CutToMark,
        i < ops.len() ==> ops[i].opcode == OpCode::CutToMark,
    ensures
        first_cut(ops, from) == (if i < ops.len() { Some(i) } else { None::<int> }),
    decreases i - from,
{
    if from < i {
        lemma_first_cut(ops, from + 1, i);
    }
}

/// The cache points of a compiled pattern, their number, and the stars that
/// end atomic regions; `None` when the cache does not apply to it. A cache
/// key is only an instruction and a position, so every instruction whose
/// continuation reads capture, repeat, assertion or call state is refused;
/// atomic regions are admitted only as a straight-line prefix, one star and
/// the cut of the same mark, which has one successful exit.
pub fn points(reg: &RegexType) -> (r: Option<(Vec<Option<usize>>, usize, Vec<bool>)>)
    ensures
        r is Some <==> cache_eligible(reg),
        r matches Some((pts, count, stars)) ==> is_plan_of(reg.ops@, pts@, count, stars@),
{
    let ghost ops = reg.ops@;
    let n = reg.ops.len();
    let utf8 = match reg.enc {
        OnigEncoding::Utf8 => true,
        _ => false,
    };
    if !allowed_options(reg.options) || !utf8 || reg.capture_history != 0 {
        return None;
    }
    let mut atomic_stars: Vec<bool> = Vec::new();
    let mut atomic_boundaries: Vec<bool> = Vec::new();
    let mut k: usize = 0;
    while k < n
        invariant
            k <= n,
            n == ops.len(),
            atomic_stars@.len() == k,
            atomic_boundaries@.len() == k,
            forall|i: int| 0 <= i < k ==> !(#[trigger] atomic_stars@[i]),
            forall|i: int| 0 <= i < k ==> !(#[trigger] atomic_boundaries@[i]),
        decreases n - k,
    {
        atomic_stars.push(false);
        atomic_boundaries.push(false);
        k = k + 1;
    }
    let mut pc: usize = 0;
    while pc < n
        invariant
            pc <= n,
            n == ops.len(),
            ops == reg.ops@,
            atomic_stars@.len() == n,
            atomic_boundaries@.len() == n,
            forall|m: int| 0 <= m < pc && #[trigger] ops[m].opcode == OpCode::Mark ==> atomic_region_ok(ops, m),
            forall|i: int| 0 <= i < n ==> #[trigger] atomic_boundaries@[i] == boundary_upto(ops, pc as int, i),
            forall|i: int| 0 <= i < n ==> #[trigger] atomic_stars@[i] == star_upto(ops, pc as int, i),
        decreases n - pc,
    {
        if reg.ops[pc].opcode == OpCode::Mark {
            let id = match &reg.ops[pc].payload {
                OperationPayload::Mark { id, .. } => *id,
                _ => {
                    proof {
                        assert(!atomic_region_ok(ops, pc as int));
                    }
                    return None;
                },
            };
            let mut cut: usize = pc + 1;
            while cut < n && reg.ops[cut].opcode != OpCode::CutToMark
                invariant
                    pc + 1 <= cut <= n,
                    n == ops.len(),
                    ops == reg.ops@,
                    forall|k: int| pc + 1 <= k < cut ==> #[trigger] ops[k].opcode != OpCode::CutToMark,
                decreases n - cut,
            {
                cut = cut + 1;
            }
            proof {
                lemma_first_cut(ops, pc + 1, cut as int);
            }
            if cut == n {
                return None;
            }
            let closes = match &reg.ops[cut].payload {
                OperationPayload::CutToMark { id: other, restore_pos } => *other == id && !*restore_pos,
                _ => false,
            };
            if !closes || cut < pc + 2 || !is_star(reg.ops[cut - 1].opcode) {
                return None;
            }
            let mut inner: usize = pc + 1;
            while inner < cut - 1
                invariant
                    pc + 1 <= inner <= cut - 1,
                    cut < n,
                    pc < n,
                    first_cut(ops, pc + 1) == Some(cut as int),
                    ops[pc as int].payload matches OperationPayload::Mark { .. },
                    ops[pc as int].opcode == OpCode::Mark,
                    n == ops.len(),
                    ops == reg.ops@,
                    forall|k: int| pc + 1 <= k < inner ==> #[trigger] is_straight_op(ops[k].opcode),
                decreases cut - 1 - inner,
            {
                if !is_straight(reg.ops[inner].opcode) {
                    proof {
                        assert(!atomic_region_ok(ops, pc as int));
                    }
                    return None;
                }
                inner = inner + 1;
            }
            proof {
                assert(atomic_region_ok(ops, pc as int));
            }
            let ghost old_b = atomic_boundaries@;
            let ghost old_s = atomic_stars@;
            atomic_boundaries.set(pc, true);
            atomic_boundaries.set(cut, true);
            atomic_stars.set(cut - 1, true);
            proof {
                assert forall|i: int| 0 <= i < n implies #[trigger] atomic_boundaries@[i] == boundary_upto(ops, pc + 1, i) by {
                    if boundary_upto(ops, pc as int, i) {
                        let m = choose|m: int| 0 <= m < pc && #[trigger] bounds_at(ops, m, i);
                        assert(bounds_at(ops, m, i));
                    }
                    if i == pc || i == cut {
                        assert(bounds_at(ops, pc as int, i));
                    }
                    if boundary_upto(ops, pc + 1, i) {
                        let m = choose|m: int| 0 <= m < pc + 1 && #[trigger] bounds_at(ops, m, i);
                        if m < pc {
                            assert(boundary_upto(ops, pc as int, i));
                        }
                    }
                }
                assert forall|i: int| 0 <= i < n implies #[trigger] atomic_stars@[i] == star_upto(ops, pc + 1, i) by {
                    if star_upto(ops, pc as int, i) {
                        let m = choose|m: int| 0 <= m < pc && #[trigger] closes_at(ops, m, i + 1);
                        assert(closes_at(ops, m, i + 1));
                    }
                    if i == cut - 1 {
                        assert(closes_at(ops, pc as int, i + 1));
                    }
                    if star_upto(ops, pc + 1, i) {
                        let m = choose|m: int| 0 <= m < pc + 1 && #[trigger] closes_at(ops, m, i + 1);
                        if m < pc {
                            assert(star_upto(ops, pc as int, i));
                        }
                    }
                }
            }
        } else {
            proof {
                assert forall|i: int| 0 <= i < n implies #[trigger] atomic_boundaries@[i] == boundary_upto(ops, pc + 1, i) by {
                    if boundary_upto(ops, pc + 1, i) {
                        let m = choose|m: int| 0 <= m < pc + 1 && #[trigger] bounds_at(ops, m, i);
                        if m < pc {
                            assert(boundary_upto(ops, pc as int, i));
                        }
                    }
                    if boundary_upto(ops, pc as int, i) {
                        let m = choose|m: int| 0 <= m < pc && #[trigger] bounds_at(ops, m, i);
                        assert(bounds_at(ops, m, i));
                    }
                }
                assert forall|i: int| 0 <= i < n implies #[trigger] atomic_stars@[i] == star_upto(ops, pc + 1, i) by {
                    if star_upto(ops, pc + 1, i) {
                        let m = choose|m: int| 0 <= m < pc + 1 && #[trigger] closes_at(ops, m, i + 1);
                        if m < pc {
                            assert(star_upto(ops, pc as int, i));
                        }
                    }
                    if star_upto(ops, pc as int, i) {
                        let m = choose|m: int| 0 <= m < pc && #[trigger] closes_at(ops, m, i + 1);
                        assert(closes_at(ops, m, i + 1));
                    }
                }
            }
        }
        pc = pc + 1;
    }
    let mut count: usize = 0;
    let mut points: Vec<Option<usize>> = Vec::new();
    let mut pc: usize = 0;
    while pc < n
        invariant
            pc <= n,
            n == ops.len(),
            ops == reg.ops@,
            atomic_boundaries@.len() == n,
            forall|i: int| 0 <= i < n ==> #[trigger] atomic_boundaries@[i] == boundary_upto(ops, n as int, i),
            points@.len() == pc,
            count == point_count(ops, pc as int),
            forall|q: int|
                0 <= q < pc ==> #[trigger] points@[q] == (if is_point(ops, q) {
                    Some(point_count(ops, q) as usize)
                } else {
                    None
                }),
            forall|q: int| 0 <= q < pc ==> #[trigger] op_admitted(ops, q),
        decreases n - pc,
    {
        let opcode = reg.ops[pc].opcode;
        let branch = match opcode {
            OpCode::Push | OpCode::PushOrJumpExact1 | OpCode::PushIfPeekNext
            | OpCode::PushOrJumpByteSet | OpCode::AltLiterals | OpCode::AnyCharStar
            | OpCode::AnyCharMlStar | OpCode::AnyCharStarPeekNext | OpCode::AnyCharMlStarPeekNext
            | OpCode::CClassStar | OpCode::CClassMixStar | OpCode::CClassMbStar | OpCode::WordStar
            | OpCode::WordAsciiStar | OpCode::CClassStarPeekNext | OpCode::WordAsciiStarPeekNext
            | OpCode::CClassNotStar | OpCode::CClassMbNotStar | OpCode::CClassMixNotStar => true,
            OpCode::Finish | OpCode::End | OpCode::Str1 | OpCode::Str2 | OpCode::Str3 | OpCode::Str4
            | OpCode::Str5 | OpCode::StrN | OpCode::StrMb2n1 | OpCode::StrMb2n2 | OpCode::StrMb2n3
            | OpCode::StrMb2n | OpCode::StrMb3n | OpCode::StrMbn | OpCode::CClass | OpCode::CClassRun
            | OpCode::CClassMb | OpCode::CClassMix | OpCode::CClassNot | OpCode::CClassMbNot
            | OpCode::CClassMixNot | OpCode::AnyChar | OpCode::AnyCharMl | OpCode::Word
            | OpCode::WordAscii | OpCode::NoWord | OpCode::NoWordAscii | OpCode::WordBoundary
            | OpCode::NoWordBoundary | OpCode::WordBegin | OpCode::WordEnd | OpCode::BeginBuf
            | OpCode::EndBuf | OpCode::BeginLine | OpCode::EndLine | OpCode::SemiEndBuf
            | OpCode::MemStart | OpCode::MemStartPush | OpCode::MemEndPush | OpCode::MemEnd
            | OpCode::Fail | OpCode::Jump => false,
            OpCode::Mark | OpCode::CutToMark => {
                if !atomic_boundaries[pc] {
                    proof {
                        assert(!op_admitted(ops, pc as int));
                    }
                    return None;
                }
                false
            },
            OpCode::TextSegmentBoundary | OpCode::CheckPosition | OpCode::BackRef1
            | OpCode::BackRef2 | OpCode::BackRefN | OpCode::BackRefNIc | OpCode::BackRefMulti
            | OpCode::BackRefMultiIc | OpCode::BackRefWithLevel | OpCode::BackRefWithLevelIc
            | OpCode::BackRefCheck | OpCode::BackRefCheckWithLevel | OpCode::MemEndPushRec
            | OpCode::MemEndRec | OpCode::PushSuper | OpCode::Pop | OpCode::PopToMark
            | OpCode::Repeat | OpCode::RepeatNg | OpCode::RepeatInc | OpCode::RepeatIncNg
            | OpCode::EmptyCheckStart | OpCode::EmptyCheckEnd | OpCode::EmptyCheckEndMemst
            | OpCode::EmptyCheckEndMemstPush | OpCode::Move | OpCode::StepBackStart
            | OpCode::StepBackNext | OpCode::SaveVal | OpCode::UpdateVar | OpCode::Call
            | OpCode::Return | OpCode::CalloutContents | OpCode::CalloutName
            | OpCode::LookBehindOp => {
                proof {
                    assert(!op_admitted(ops, pc as int));
                }
                return None;
            },
        };
        proof {
            assert(branch == is_branch_op(opcode));
            assert(op_admitted(ops, pc as int));
            lemma_point_count_le(ops, pc as int);
        }
        if branch || pc == 0 {
            points.push(Some(count));
            count = count + 1;
        } else {
            points.push(None);
        }
        pc = pc + 1;
    }
    proof {
        assert(is_plan_of(ops, points@, count, atomic_stars@));
    }
    Some((points, count, atomic_stars))
}

/// Whether `opcode` may stand between an atomic region's mark and its star.
fn is_straight(opcode: OpCode) -> (r: bool)
    ensures
        r == is_straight_op(opcode),
{
    match opcode {
        OpCode::Str1 | OpCode::Str2 | OpCode::Str3 | OpCode::Str4 | OpCode::Str5 | OpCode::StrN
        | OpCode::StrMb2n1 | OpCode::StrMb2n2 | OpCode::StrMb2n3 | OpCode::StrMb2n
        | OpCode::StrMb3n | OpCode::StrMbn | OpCode::CClass | OpCode::CClassRun | OpCode::CClassMb
        | OpCode::CClassMix | OpCode::CClassNot | OpCode::CClassMbNot | OpCode::CClassMixNot
        | OpCode::AnyChar | OpCode::AnyCharMl | OpCode::Word | OpCode::WordAscii | OpCode::NoWord
        | OpCode::NoWordAscii => true,
        _ => false,
    }
}

/// The instruction repeats (a star) or jumps backwards.
pub open spec fn loops_back(op: Operation) -> bool {
    is_star_op(op.opcode) || (match op.payload {
        OperationPayload::Jump { addr } => addr < 0,
        _ => false,
    })
}

/// Some instruction of `ops` repeats or jumps backwards.
pub open spec fn has_loop(ops: Seq<Operation>) -> bool {
    exists|i: int| 0 <= i < ops.len() && #[trigger] loops_back(ops[i])
}

/// Where the cache records failures in a compiled pattern.
pub struct Plan {
    pub points: Vec<Option<usize>>,
    pub count: usize,
    pub atomic_stars: Vec<bool>,
    pub config: MatchCacheConfig,
}

impl Plan {
    /// The plan of a compiled pattern the cache applies to. Acyclic bytecode
    /// already does bounded work per position, so a pattern without a star or
    /// a backward jump gets no plan either.
    pub fn new(reg: &RegexType, config: MatchCacheConfig) -> (r: Option<Self>)
        ensures
            r is Some <==> cache_eligible(reg) && has_loop(reg.ops@),
            r matches Some(plan) ==> plan.config == config && is_plan_of(
                reg.ops@,
                plan.points@,
                plan.count,
                plan.atomic_stars@,
            ),
    {
        let (points, count, atomic_stars) = match points(reg) {
            Some(p) => p,
            None => return None,
        };
        let mut i: usize = 0;
        let mut looping = false;
        while i < reg.ops.len()
            invariant
                i <= reg.ops@.len(),
                looping <==> exists|j: int| 0 <= j < i && #[trigger] loops_back(reg.ops@[j]),
            decreases reg.ops@.len() - i,
        {
            let back = match &reg.ops[i].payload {
                OperationPayload::Jump { addr } => *addr < 0,
                _ => false,
            };
            if is_star(reg.ops[i].opcode) || back {
                proof {
                    assert(loops_back(reg.ops@[i as int]));
                }
                looping = true;
            }
            i = i + 1;
        }
        if !looping {
            return None;
        }
        Some(Plan { points, count, atomic_stars, config })
    }
}


/// Calls `Vec::try_reserve_exact`; on success the vector can hold `additional`
/// more items without reallocating. Its items are unchanged either way.
#[verifier::external_body]
fn try_reserve_exact<T>(vec: &mut Vec<T>, additional: usize) -> (r: bool)
    ensures
        final(vec)@ == old(vec)@,
{
    vec.try_reserve_exact(additional).is_ok()
}

/// Calls `Vec::capacity`: the number of items the vector holds room for, at
/// least its length. What the allocator granted beyond that is not stated.
#[verifier::external_body]
fn capacity_of<T>(vec: &Vec<T>) -> (r: usize)
    ensures
        r >= vec@.len(),
{
    vec.capacity()
}

/// The allocation budget the caches of one scan share, in bytes.
pub struct Budget {
    limit: usize,
    used: usize,
}

impl Budget {
    /// The most bytes the caches may hold.
    pub closed spec fn limit_bytes(&self) -> nat {
        self.limit as nat
    }

    /// The bytes the caches hold now.
    pub closed spec fn used_bytes(&self) -> nat {
        self.used as nat
    }

    /// A budget never holds more than its limit.
    pub closed spec fn wf(&self) -> bool {
        self.used <= self.limit
    }

    /// An unused budget of `limit` bytes.
    pub fn new(limit: usize) -> (r: Budget)
        ensures
            r.wf(),
            r.limit_bytes() == limit,
            r.used_bytes() == 0,
    {
        Budget { limit, used: 0 }
    }

    /// Charges `bytes` when that stays within the limit, and says whether it did.
    pub fn reserve(&mut self, bytes: usize) -> (r: bool)
        requires
            old(self).wf(),
        ensures
            final(self).wf(),
            final(self).limit_bytes() == old(self).limit_bytes(),
            r == (old(self).used_bytes() + bytes <= old(self).limit_bytes()),
            final(self).used_bytes() == if r {
                old(self).used_bytes() + bytes
            } else {
                old(self).used_bytes() as int
            },
    {
        match self.used.checked_add(bytes) {
            Some(next) => {
                if next <= self.limit {
                    self.used = next;
                    true
                } else {
                    false
                }
            },
            None => false,
        }
    }

    /// Gives back `bytes` that were charged.
    pub fn release(&mut self, bytes: usize)
        requires
            old(self).wf(),
            bytes <= old(self).used_bytes(),
        ensures
            final(self).wf(),
            final(self).limit_bytes() == old(self).limit_bytes(),
            final(self).used_bytes() == old(self).used_bytes() - bytes,
    {
        self.used = self.used - bytes;
    }

    /// The bytes the caches hold now.
    pub fn used(&self) -> (r: usize)
        ensures
            r == self.used_bytes(),
    {
        self.used
    }
}

/// A state whose failure is recorded once every alternative of it has failed.
#[derive(Clone, Copy)]
struct Pending {
    bit: usize,
    stack_depth: usize,
}

/// Whether bit `b` of `bits` is set.
pub open spec fn bit_of(bits: Seq<u64>, b: int) -> bool {
    0 <= b < bits.len() * 64 && (bits[b / 64] >> ((b % 64) as u64)) & 1 == 1
}

/// The length of the prefix of `p` that stays pending when backtracking
/// reaches `depth`: every record above it was entered deeper.
pub open spec fn kept_len(p: Seq<(nat, nat)>, depth: nat) -> nat
    decreases p.len(),
{
    if p.len() == 0 {
        0
    } else if p.last().1 > depth {
        kept_len(p.drop_last(), depth)
    } else {
        p.len()
    }
}

/// The adaptive activation threshold: eight units of work per position and
/// cache point, at least 4096, saturating.
pub open spec fn adaptive_threshold(end: usize, points: usize) -> usize {
    let product: int = if end * points > usize::MAX { usize::MAX as int } else { end * points };
    let scaled: int = if product * 8 > usize::MAX { usize::MAX as int } else { product * 8 };
    if scaled < 4096 { 4096 } else { scaled as usize }
}

/// The failure memo of one search: a bit per (cache point, position) pair
/// that is known to fail, and the records still waiting for their state to
/// fail. Its allocations are charged to a [`Budget`] passed to the calls
/// that allocate or free.
pub struct MatchCache {
    config: Option<MatchCacheConfig>,
    dimensions: Option<(usize, usize, usize)>,
    work: usize,
    threshold: usize,
    disabled: bool,
    bits: Vec<u64>,
    pending: Vec<Pending>,
    bits_cap: usize,
    pending_cap: usize,
    bits_bytes: usize,
    pending_bytes: usize,
}

impl MatchCache {
    /// The bytes of the budget this cache holds.
    pub closed spec fn charged(&self) -> nat {
        (self.bits_bytes + self.pending_bytes) as nat
    }

    /// Whether failures are being recorded.
    pub closed spec fn is_active(&self) -> bool {
        self.bits@.len() > 0
    }

    /// Whether memoization is off for the current subject.
    pub closed spec fn is_disabled(&self) -> bool {
        self.disabled
    }

    /// The subject length, right end and number of cache points prepared for.
    pub closed spec fn dims(&self) -> Option<(usize, usize, usize)> {
        self.dimensions
    }

    /// The subject length prepared for (zero before any).
    pub closed spec fn subject_end(&self) -> int {
        match self.dimensions {
            Some((e, _, _)) => e as int,
            None => 0,
        }
    }

    /// The configuration.
    pub closed spec fn config_of(&self) -> Option<MatchCacheConfig> {
        self.config
    }

    /// The work counted for the current subject.
    pub closed spec fn work_done(&self) -> nat {
        self.work as nat
    }

    /// The work after which recording starts.
    pub closed spec fn threshold_of(&self) -> nat {
        self.threshold as nat
    }

    /// Whether bit `b` (a cache point and position) is known to fail.
    pub closed spec fn failed(&self, b: int) -> bool {
        bit_of(self.bits@, b)
    }

    /// The words of recorded bits held.
    pub closed spec fn bit_words(&self) -> nat {
        self.bits@.len()
    }

    /// The words of bits there is room for without growing.
    pub closed spec fn bits_capacity(&self) -> nat {
        self.bits_cap as nat
    }

    /// The words of bits recording needs: one bit per cache point and
    /// position (`end + 1` positions), 64 to a word; `None` when the count
    /// does not fit in `usize` (or nothing is prepared).
    pub closed spec fn activation_words(&self) -> Option<nat> {
        match self.dimensions {
            Some((end, _, points)) => {
                let n = (end + 1) * points + 63;
                if end + 1 > usize::MAX || (end + 1) * points > usize::MAX || n > usize::MAX {
                    None
                } else {
                    Some((n / 64) as nat)
                }
            },
            None => None,
        }
    }

    /// Starting to record is refused without asking the allocator: the word
    /// count does not fit in `usize`, or the bytes it adds do not fit in
    /// `usize` or in `budget`.
    pub closed spec fn activation_refused(&self, budget: Budget) -> bool {
        &&& self.dimensions is Some
        &&& match self.activation_words() {
            None => true,
            Some(w) => {
                let added = (w - self.bits_cap) * vstd::layout::size_of::<u64>();
                &&& w > self.bits_cap
                &&& (added > usize::MAX || budget.used_bytes() + added > budget.limit_bytes())
            },
        }
    }

    /// The number of pending records there is room for without growing.
    pub closed spec fn pending_capacity(&self) -> nat {
        self.pending_cap as nat
    }

    /// The room the pending records grow to when full: twice as many, at
    /// least 64, at most `usize::MAX`.
    pub closed spec fn next_pending_capacity(&self) -> nat {
        let doubled = if self.pending_cap * 2 > usize::MAX { usize::MAX as int } else { self.pending_cap * 2 };
        if doubled < 64 { 64 } else { doubled as nat }
    }

    /// Growing the full pending records is refused without asking the
    /// allocator: they cannot grow, or the added bytes do not fit in `usize`
    /// or in `budget`.
    pub closed spec fn growth_refused(&self, budget: Budget) -> bool {
        let c = self.next_pending_capacity();
        let added = (c - self.pending_cap) * vstd::layout::size_of::<Pending>();
        ||| c <= self.pending_cap
        ||| added > usize::MAX
        ||| budget.used_bytes() + added > budget.limit_bytes()
    }

    /// The pending records, as (bit, stack depth), oldest first.
    pub closed spec fn pending_seq(&self) -> Seq<(nat, nat)> {
        self.pending@.map_values(|p: Pending| (p.bit as nat, p.stack_depth as nat))
    }

    /// The bookkeeping is consistent: each buffer within the capacity charged
    /// for it, charges equal to capacities in bytes, recorded bits cover every
    /// cache point at every position, and records exist only while recording.
    pub closed spec fn wf(&self) -> bool {
        &&& self.bits@.len() <= self.bits_cap
        &&& self.pending@.len() <= self.pending_cap
        &&& self.bits_bytes == self.bits_cap * vstd::layout::size_of::<u64>()
        &&& self.pending_bytes == self.pending_cap * vstd::layout::size_of::<Pending>()
        &&& self.bits@.len() > 0 ==> (self.dimensions matches Some((end, _, points)) && (end + 1)
            * points <= self.bits@.len() * 64 && (end + 1) * points + 63 <= usize::MAX)
        &&& forall|i: int| 0 <= i < self.pending@.len() ==> #[trigger] self.pending@[i].bit < self.bits@.len() * 64
    }

    /// A cache with `config` that holds nothing yet.
    pub fn new(config: MatchCacheConfig) -> (r: Self)
        ensures
            r.wf(),
            r.charged() == 0,
            !r.is_active(),
            !r.is_disabled(),
            r.dims() is None,
            r.config_of() == Some(config),
            r.pending_seq().len() == 0,
            r.work_done() == 0,
    {
        MatchCache {
            config: Some(config),
            dimensions: None,
            work: 0,
            threshold: 0,
            disabled: false,
            bits: Vec::new(),
            pending: Vec::new(),
            bits_cap: 0,
            pending_cap: 0,
            bits_bytes: 0,
            pending_bytes: 0,
        }
    }

    /// A cache for a pattern with a plan, with a budget of its own.
    pub fn for_regex(reg: &RegexType) -> (r: Option<(Self, Budget)>)
        ensures
            r is Some <==> reg.match_cache is Some,
            r matches Some((cache, budget)) ==> {
                &&& cache.wf() && cache.charged() == 0 && !cache.is_active()
                &&& cache.config_of() == Some(reg.match_cache->0.config)
                &&& budget.wf() && budget.used_bytes() == 0
                &&& budget.limit_bytes() == reg.match_cache->0.config.memory_budget
            },
    {
        match &reg.match_cache {
            Some(plan) => Some((MatchCache::new(plan.config), Budget::new(plan.config.memory_budget))),
            None => None,
        }
    }

    /// Frees both buffers and gives their bytes back to `budget`.
    pub fn release(&mut self, budget: &mut Budget)
        requires
            old(self).wf(),
            old(budget).wf(),
            old(self).charged() <= old(budget).used_bytes(),
        ensures
            final(self).wf(),
            final(budget).wf(),
            final(self).charged() == 0,
            !final(self).is_active(),
            final(self).pending_seq().len() == 0,
            final(budget).used_bytes() == old(budget).used_bytes() - old(self).charged(),
            final(budget).limit_bytes() == old(budget).limit_bytes(),
            final(self).dims() == old(self).dims(),
            final(self).is_disabled() == old(self).is_disabled(),
            final(self).config_of() == old(self).config_of(),
            final(self).work_done() == old(self).work_done(),
            final(self).threshold_of() == old(self).threshold_of(),
    {
        let bytes = self.bits_bytes + self.pending_bytes;
        self.bits = Vec::new();
        self.pending = Vec::new();
        self.bits_cap = 0;
        self.pending_cap = 0;
        self.bits_bytes = 0;
        self.pending_bytes = 0;
        if bytes != 0 {
            budget.release(bytes);
        }
    }

    /// Forgets the subject: frees everything, turns memoization back on and
    /// counts work from zero.
    pub fn reset_subject(&mut self, budget: &mut Budget)
        requires
            old(self).wf(),
            old(budget).wf(),
            old(self).charged() <= old(budget).used_bytes(),
        ensures
            final(self).wf(),
            final(budget).wf(),
            final(self).charged() == 0,
            !final(self).is_active(),
            final(self).pending_seq().len() == 0,
            final(budget).used_bytes() == old(budget).used_bytes() - old(self).charged(),
            final(budget).limit_bytes() == old(budget).limit_bytes(),
            final(self).dims() is None,
            !final(self).is_disabled(),
            final(self).work_done() == 0,
            final(self).config_of() == old(self).config_of(),
    {
        self.release(budget);
        self.dimensions = None;
        self.disabled = false;
        self.work = 0;
    }

    /// Turns memoization off for the current subject and frees everything.
    pub fn disable(&mut self, budget: &mut Budget)
        requires
            old(self).wf(),
            old(budget).wf(),
            old(self).charged() <= old(budget).used_bytes(),
        ensures
            final(self).wf(),
            final(budget).wf(),
            final(self).charged() == 0,
            !final(self).is_active(),
            final(self).is_disabled(),
            final(self).pending_seq().len() == 0,
            final(budget).used_bytes() == old(budget).used_bytes() - old(self).charged(),
            final(budget).limit_bytes() == old(budget).limit_bytes(),
            final(self).dims() == old(self).dims(),
            final(self).config_of() == old(self).config_of(),
            final(self).work_done() == old(self).work_done(),
            final(self).threshold_of() == old(self).threshold_of(),
    {
        self.release(budget);
        self.disabled = true;
    }

    /// Prepares a search of `text[..end]` up to `right` with `points` cache
    /// points. For new dimensions the cache starts over: everything is freed,
    /// work counts from zero, the threshold is set, and memoization is off
    /// when the text is not UTF-8, there is no configuration or its budget is
    /// zero. Pending records are dropped without being recorded.
    pub fn prepare(&mut self, budget: &mut Budget, text: &[u8], end: usize, right: usize, points: usize)
        requires
            old(self).wf(),
            old(budget).wf(),
            old(self).charged() <= old(budget).used_bytes(),
            end <= text@.len(),
        ensures
            final(self).wf(),
            final(budget).wf(),
            final(budget).limit_bytes() == old(budget).limit_bytes(),
            final(self).dims() == Some((end, right, points)),
            final(self).pending_seq().len() == 0,
            final(self).config_of() == old(self).config_of(),
            final(budget).used_bytes() == old(budget).used_bytes() - old(self).charged() + final(self).charged(),
            old(self).dims() == Some((end, right, points)) ==> {
                &&& final(self).charged() == old(self).charged()
                &&& final(self).is_active() == old(self).is_active()
                &&& forall|b: int| final(self).failed(b) == old(self).failed(b)
                &&& final(self).is_disabled() == old(self).is_disabled()
                &&& final(self).work_done() == old(self).work_done()
                &&& final(self).threshold_of() == old(self).threshold_of()
            },
            old(self).dims() != Some((end, right, points)) ==> {
                &&& final(self).charged() == 0
                &&& !final(self).is_active()
                &&& final(self).work_done() == 0
                &&& final(self).is_disabled() == (!valid_utf8(text@.subrange(0, end as int))
                    || old(self).config_of() is None
                    || old(self).config_of()->0.memory_budget == 0)
                &&& old(self).config_of() matches Some(c) ==> final(self).threshold_of() == match c.activation_threshold {
                    Some(t) => t,
                    None => adaptive_threshold(end, points),
                }
            },
    {
        let dims = (end, right, points);
        let same = match self.dimensions {
            Some(d) => d.0 == end && d.1 == right && d.2 == points,
            None => false,
        };
        if !same {
            self.release(budget);
            self.dimensions = Some(dims);
            self.work = 0;
            self.disabled = std_from_utf8(slice_to(text, end)).is_none();
            match self.config {
                Some(config) => {
                    self.threshold = match config.activation_threshold {
                        Some(t) => t,
                        None => threshold_for(end, points),
                    };
                    self.disabled = self.disabled || config.memory_budget == 0;
                },
                None => {
                    self.disabled = true;
                },
            }
        }
        self.pending.clear();
    }

    /// Counts `work` (saturating) and starts recording once it reaches the
    /// threshold, unless memoization is off or already recording.
    pub fn add_work(&mut self, budget: &mut Budget, work: usize)
        requires
            old(self).wf(),
            old(budget).wf(),
            old(self).charged() <= old(budget).used_bytes(),
        ensures
            final(self).wf(),
            final(budget).wf(),
            final(budget).limit_bytes() == old(budget).limit_bytes(),
            final(budget).used_bytes() == old(budget).used_bytes() - old(self).charged() + final(self).charged(),
            final(self).work_done() == if old(self).work_done() + work > usize::MAX {
                usize::MAX as int
            } else {
                old(self).work_done() + work
            },
            final(self).dims() == old(self).dims(),
            final(self).config_of() == old(self).config_of(),
            final(self).threshold_of() == old(self).threshold_of(),
            old(self).is_disabled() || old(self).is_active() || final(self).work_done() < old(self).threshold_of()
                ==> final(self).charged() == old(self).charged() && final(self).is_active() == old(self).is_active()
                && final(self).is_disabled() == old(self).is_disabled() && final(self).pending_seq() == old(self).pending_seq()
                && forall|b: int| final(self).failed(b) == old(self).failed(b),
            !(old(self).is_disabled() || old(self).is_active() || final(self).work_done() < old(self).threshold_of())
                && old(self).dims() is Some ==> final(self).is_active() || final(self).is_disabled()
                || old(self).activation_words() == Some(0nat),
            !(old(self).is_disabled() || old(self).is_active() || final(self).work_done() < old(self).threshold_of())
                && old(self).activation_refused(*old(budget)) ==> final(self).is_disabled() && !final(self).is_active()
                && final(self).charged() == 0,
            !(old(self).is_disabled() || old(self).is_active() || final(self).work_done() < old(self).threshold_of())
                && old(self).activation_words() == Some(0nat) ==> !final(self).is_active() && !final(self).is_disabled()
                && final(self).charged() == old(self).charged(),
            final(self).is_active() && !old(self).is_active() ==> forall|b: int| !final(self).failed(b),
            final(self).is_active() && !old(self).is_active() ==> old(self).activation_words() == Some(
                final(self).bit_words(),
            ),
    {
        self.work = match self.work.checked_add(work) {
            Some(w) => w,
            None => usize::MAX,
        };
        if self.disabled || self.bits.len() != 0 || self.work < self.threshold {
            return;
        }
        self.activate(budget);
    }

    /// Allocates one zeroed bit per cache point and position (`end + 1`
    /// positions), or turns memoization off when that does not fit.
    fn activate(&mut self, budget: &mut Budget)
        requires
            old(self).wf(),
            old(budget).wf(),
            old(self).charged() <= old(budget).used_bytes(),
            !old(self).is_active(),
        ensures
            final(self).wf(),
            final(budget).wf(),
            final(budget).limit_bytes() == old(budget).limit_bytes(),
            final(budget).used_bytes() == old(budget).used_bytes() - old(self).charged() + final(self).charged(),
            final(self).dims() == old(self).dims(),
            final(self).config_of() == old(self).config_of(),
            final(self).work_done() == old(self).work_done(),
            final(self).threshold_of() == old(self).threshold_of(),
            old(self).dims() is Some ==> final(self).is_active() || final(self).is_disabled()
                || old(self).activation_words() == Some(0nat),
            old(self).dims() is None ==> final(self).charged() == old(self).charged()
                && final(self).is_disabled() == old(self).is_disabled() && !final(self).is_active(),
            old(self).activation_refused(*old(budget)) ==> final(self).is_disabled() && !final(self).is_active()
                && final(self).charged() == 0,
            old(self).activation_words() == Some(0nat) ==> !final(self).is_active()
                && final(self).is_disabled() == old(self).is_disabled() && final(self).charged() == old(self).charged(),
            final(self).is_active() ==> forall|b: int| !final(self).failed(b),
            final(self).is_active() ==> old(self).activation_words() == Some(final(self).bit_words()),
            final(self).is_active() ==> final(self).pending_seq() == old(self).pending_seq(),
            final(self).is_active() ==> final(self).is_disabled() == old(self).is_disabled(),
    {
        let (end, points) = match self.dimensions {
            Some(d) => (d.0, d.2),
            None => return,
        };
        let words = match end.checked_add(1) {
            Some(n) => match n.checked_mul(points) {
                Some(n) => match n.checked_add(63) {
                    Some(n) => Some(n / 64),
                    None => None,
                },
                None => None,
            },
            None => None,
        };
        match words {
            Some(words) => {
                let granted = grow(budget, &mut self.bits, &mut self.bits_cap, &mut self.bits_bytes, words);
                self.finish_activation(budget, words, granted);
            },
            None => {
                self.disable(budget);
            },
        }
    }

    /// Ends a start of recording once the room for `words` words of bits was
    /// asked for: `granted` says whether it was had. When it was, the bits
    /// are all zero, and recording is on unless there are no cache points;
    /// when it was not, memoization is turned off.
    pub fn finish_activation(&mut self, budget: &mut Budget, words: usize, granted: bool)
        requires
            old(self).wf(),
            old(budget).wf(),
            old(self).charged() <= old(budget).used_bytes(),
            !old(self).is_active(),
            old(self).activation_words() == Some(words as nat),
            granted ==> old(self).bits_capacity() >= words,
        ensures
            final(self).wf(),
            final(budget).wf(),
            final(budget).limit_bytes() == old(budget).limit_bytes(),
            final(budget).used_bytes() == old(budget).used_bytes() - old(self).charged() + final(self).charged(),
            final(self).dims() == old(self).dims(),
            final(self).config_of() == old(self).config_of(),
            final(self).work_done() == old(self).work_done(),
            final(self).threshold_of() == old(self).threshold_of(),
            granted ==> final(self).bit_words() == words && (final(self).is_active() <==> words > 0)
                && forall|b: int| !final(self).failed(b),
            granted ==> final(self).charged() == old(self).charged() && final(self).pending_seq()
                == old(self).pending_seq() && final(self).is_disabled() == old(self).is_disabled(),
            !granted ==> final(self).is_disabled() && !final(self).is_active() && final(self).charged() == 0,
    {
        if granted {
            proof {
                let (end, _, points) = self.dimensions->0;
                assert((end + 1) * points <= words * 64) by (nonlinear_arith)
                    requires
                        words == ((end + 1) * points + 63) / 64,
                ;
            }
            self.bits.resize(words, 0);
            proof {
                assert forall|b: int| !bit_of(self.bits@, b) by {
                    if 0 <= b < self.bits@.len() * 64 {
                        let w = self.bits@[b / 64];
                        assert(w == 0u64);
                        lemma_zero_bit(w, (b % 64) as u64);
                    }
                }
            }
        } else {
            self.disable(budget);
        }
    }

    /// Whether failures are being recorded.
    pub fn active(&self) -> (r: bool)
        ensures
            r == self.is_active(),
    {
        self.bits.len() != 0
    }

    /// Enters the state of cache point `point` at `position` with the stack at
    /// `depth`. While recording, answers whether that state is known to fail;
    /// when it is not, records it as pending. Memoization is turned off
    /// instead only when the records are full and cannot grow: growth is
    /// refused (see `growth_refused`) or the allocator fails. Answers `false`
    /// when not recording.
    pub fn enter(&mut self, budget: &mut Budget, point: usize, position: usize, depth: usize) -> (r: bool)
        requires
            old(self).wf(),
            old(budget).wf(),
            old(self).charged() <= old(budget).used_bytes(),
            old(self).is_active() ==> (old(self).dims() matches Some((end, _, points)) && point < points
                && position <= end),
        ensures
            final(self).wf(),
            final(budget).wf(),
            final(budget).limit_bytes() == old(budget).limit_bytes(),
            final(budget).used_bytes() == old(budget).used_bytes() - old(self).charged() + final(self).charged(),
            final(self).dims() == old(self).dims(),
            final(self).config_of() == old(self).config_of(),
            final(self).work_done() == old(self).work_done(),
            final(self).threshold_of() == old(self).threshold_of(),
            !old(self).is_active() ==> !r && final(self).charged() == old(self).charged()
                && final(self).pending_seq() == old(self).pending_seq() && !final(self).is_active()
                && final(self).is_disabled() == old(self).is_disabled(),
            old(self).is_active() ==> ({
                let bit = point * (old(self).subject_end() + 1) + position;
                &&& r == old(self).failed(bit)
                &&& r ==> final(self).pending_seq() == old(self).pending_seq() && final(self).is_active()
                    && final(self).charged() == old(self).charged()
                &&& !r ==> (final(self).is_active() && final(self).pending_seq() == old(self).pending_seq().push(
                    (bit as nat, depth as nat),
                ) && final(self).is_disabled() == old(self).is_disabled())
                    || (final(self).is_disabled() && !final(self).is_active() && final(self).charged() == 0)
                &&& final(self).is_active() ==> forall|b: int| final(self).failed(b) == old(self).failed(b)
                &&& !r && old(self).pending_seq().len() < old(self).pending_capacity() ==> final(self).is_active()
                    && final(self).pending_seq() == old(self).pending_seq().push((bit as nat, depth as nat))
                    && final(self).charged() == old(self).charged()
                &&& !r && old(self).pending_seq().len() >= old(self).pending_capacity() && old(self).growth_refused(
                    *old(budget),
                ) ==> final(self).is_disabled() && !final(self).is_active() && final(self).charged() == 0
            }),
    {
        if self.bits.len() == 0 {
            return false;
        }
        let end = match self.dimensions {
            Some(d) => d.0,
            None => return false,
        };
        proof {
            let points = match self.dimensions {
                Some((_, _, p)) => p,
                None => 0,
            };
            assert((end + 1) * points <= self.bits@.len() * 64);
            assert(point * (end + 1) + position < (end + 1) * points) by (nonlinear_arith)
                requires
                    point < points,
                    position <= end,
            ;
            assert(point * (end + 1) <= point * (end + 1) + position);
            assert(end + 1 <= (end + 1) * points) by (nonlinear_arith)
                requires
                    point < points,
            ;
        }
        let bit = point * (end + 1) + position;
        let word = self.bits[bit / 64];
        let set = (word >> ((bit % 64) as u64)) & 1 == 1;
        if set {
            return true;
        }
        let room = if self.pending.len() == self.pending_cap {
            let doubled = match self.pending_cap.checked_mul(2) {
                Some(c) => c,
                None => usize::MAX,
            };
            let capacity = if doubled < 64 { 64 } else { doubled };
            if capacity <= self.pending_cap {
                false
            } else {
                grow(budget, &mut self.pending, &mut self.pending_cap, &mut self.pending_bytes, capacity)
            }
        } else {
            true
        };
        self.finish_record(budget, bit, depth, room);
        false
    }

    /// Ends the recording of the state `bit` entered at stack depth `depth`
    /// once room for one more pending record was asked for: `room` says
    /// whether there is room. With room, the record is pushed and recording
    /// goes on; without it, memoization is turned off.
    pub fn finish_record(&mut self, budget: &mut Budget, bit: usize, depth: usize, room: bool)
        requires
            old(self).wf(),
            old(budget).wf(),
            old(self).charged() <= old(budget).used_bytes(),
            old(self).is_active(),
            (bit as int) < old(self).bit_words() * 64,
            room ==> old(self).pending_seq().len() < old(self).pending_capacity(),
        ensures
            final(self).wf(),
            final(budget).wf(),
            final(budget).limit_bytes() == old(budget).limit_bytes(),
            final(budget).used_bytes() == old(budget).used_bytes() - old(self).charged() + final(self).charged(),
            final(self).dims() == old(self).dims(),
            final(self).config_of() == old(self).config_of(),
            final(self).work_done() == old(self).work_done(),
            final(self).threshold_of() == old(self).threshold_of(),
            room ==> final(self).is_active() && final(self).pending_seq() == old(self).pending_seq().push(
                (bit as nat, depth as nat),
            ) && final(self).charged() == old(self).charged() && final(self).is_disabled() == old(self).is_disabled()
                && forall|b: int| final(self).failed(b) == old(self).failed(b),
            !room ==> final(self).is_disabled() && !final(self).is_active() && final(self).charged() == 0,
    {
        if room {
            self.pending.push(Pending { bit, stack_depth: depth });
            proof {
                assert(self.pending_seq() =~= old(self).pending_seq().push((bit as nat, depth as nat)));
            }
        } else {
            self.disable(budget);
        }
    }

    /// Backtracking has reached stack depth `depth`: every pending record
    /// entered deeper has failed in all its alternatives and is recorded.
    pub fn unwind(&mut self, depth: usize)
        requires
            old(self).wf(),
        ensures
            final(self).wf(),
            final(self).pending_seq() == old(self).pending_seq().take(
                kept_len(old(self).pending_seq(), depth as nat) as int,
            ),
            forall|b: int| #[trigger] final(self).failed(b) == (old(self).failed(b) || exists|j: int|
                kept_len(old(self).pending_seq(), depth as nat) <= j < old(self).pending_seq().len()
                    && old(self).pending_seq()[j].0 == b),
            final(self).charged() == old(self).charged(),
            final(self).is_active() == old(self).is_active(),
            final(self).is_disabled() == old(self).is_disabled(),
            final(self).dims() == old(self).dims(),
            final(self).config_of() == old(self).config_of(),
            final(self).work_done() == old(self).work_done(),
            final(self).threshold_of() == old(self).threshold_of(),
    {
        let ghost p0 = old(self).pending_seq();
        let ghost k = kept_len(p0, depth as nat);
        proof {
            lemma_kept_len(p0, depth as nat);
            assert(p0.take(p0.len() as int) =~= p0);
            assert(old(self).pending@.take(old(self).pending@.len() as int) =~= old(self).pending@);
        }
        while self.pending.len() > 0 && self.pending[self.pending.len() - 1].stack_depth > depth
            invariant
                self.wf(),
                p0 == old(self).pending_seq(),
                k == kept_len(p0, depth as nat),
                k <= self.pending@.len() <= p0.len(),
                self.pending_seq() == p0.take(self.pending@.len() as int),
                self.pending@ == old(self).pending@.take(self.pending@.len() as int),
                kept_len(self.pending_seq(), depth as nat) == k,
                self.bits@.len() == old(self).bits@.len(),
                self.bits_cap == old(self).bits_cap,
                self.pending_cap == old(self).pending_cap,
                self.bits_bytes == old(self).bits_bytes,
                self.pending_bytes == old(self).pending_bytes,
                self.disabled == old(self).disabled,
                self.dimensions == old(self).dimensions,
                self.config == old(self).config,
                self.work == old(self).work,
                self.threshold == old(self).threshold,
                forall|b: int| #[trigger] self.failed(b) == (old(self).failed(b) || exists|j: int|
                    self.pending@.len() <= j < p0.len() && p0[j].0 == b),
            decreases self.pending@.len(),
        {
            let n = self.pending.len();
            let entry = self.pending[n - 1];
            let ghost cur = self.pending_seq();
            let ghost bits0 = self.bits@;
            proof {
                assert(cur.last() == (entry.bit as nat, entry.stack_depth as nat));
                assert(cur.drop_last() =~= p0.take(n - 1));
                assert(kept_len(cur, depth as nat) == kept_len(cur.drop_last(), depth as nat));
                lemma_kept_len(cur.drop_last(), depth as nat);
                assert forall|b: int| #[trigger] bit_of(bits0, b) == (old(self).failed(b) || exists|j: int|
                    n <= j < p0.len() && p0[j].0 == b) by {
                    assert(self.failed(b) == bit_of(bits0, b));
                }
            }
            self.pending.pop();
            let w = entry.bit / 64;
            let sh = (entry.bit % 64) as u64;
            let word = self.bits[w];
            self.bits.set(w, word | (1u64 << sh));
            proof {
                assert(self.pending_seq() =~= p0.take(n - 1));
                assert(self.pending@ =~= old(self).pending@.take(n - 1));
                assert forall|b: int| #[trigger] bit_of(self.bits@, b) == (bit_of(bits0, b) || b == entry.bit) by {
                    if 0 <= b < self.bits@.len() * 64 {
                        if b / 64 == w {
                            lemma_set_bit(word, sh, (b % 64) as u64);
                        } else {
                            assert(self.bits@[b / 64] == bits0[b / 64]);
                        }
                    }
                }
                assert forall|b: int| #[trigger] self.failed(b) == (old(self).failed(b) || exists|j: int|
                    n - 1 <= j < p0.len() && p0[j].0 == b) by {
                    assert(bit_of(self.bits@, b) == (bit_of(bits0, b) || b == entry.bit));
                    assert(bit_of(bits0, b) == (old(self).failed(b) || exists|j: int|
                        n <= j < p0.len() && p0[j].0 == b));
                    assert(p0[n - 1].0 == entry.bit);
                    if exists|j: int| n - 1 <= j < p0.len() && p0[j].0 == b {
                        let j = choose|j: int| n - 1 <= j < p0.len() && p0[j].0 == b;
                        if j > n - 1 {
                            assert(exists|j2: int| n <= j2 < p0.len() && p0[j2].0 == b);
                        }
                    }
                    if exists|j: int| n <= j < p0.len() && p0[j].0 == b {
                        let j = choose|j: int| n <= j < p0.len() && p0[j].0 == b;
                        assert(n - 1 <= j < p0.len() && p0[j].0 == b);
                    }
                }
                assert forall|i: int| 0 <= i < self.pending@.len() implies #[trigger] self.pending@[i].bit < self.bits@.len() * 64 by {
                    assert(self.pending@[i] == old(self).pending@[i]);
                }
            }
        }
        proof {
            if self.pending@.len() > 0 {
                let cur = self.pending_seq();
                assert(cur.last().1 == self.pending@[self.pending@.len() - 1].stack_depth);
            }
            assert(self.pending@.len() == k);
        }
    }
}

/// The first `end` bytes of `text`.
fn slice_to(text: &[u8], end: usize) -> (r: &[u8])
    requires
        end <= text@.len(),
    ensures
        r@ == text@.subrange(0, end as int),
{
    vstd::slice::slice_subrange(text, 0, end)
}

/// The adaptive threshold, computed with saturating arithmetic.
fn threshold_for(end: usize, points: usize) -> (r: usize)
    ensures
        r == adaptive_threshold(end, points),
{
    let product = match end.checked_mul(points) {
        Some(p) => p,
        None => usize::MAX,
    };
    let scaled = match product.checked_mul(8) {
        Some(p) => p,
        None => usize::MAX,
    };
    if scaled < 4096 { 4096 } else { scaled }
}

/// Grows `vec` to room for `capacity` items, charging every byte of the
/// capacity the allocator grants to `budget`. `cap` and `held` are the
/// capacity and bytes charged for `vec`. It succeeds at once when there is
/// room already, and fails with nothing changed when the added bytes do not
/// fit in `usize` or in the budget; otherwise the allocator decides. On
/// failure either nothing changed, or the vector was freed with all its
/// bytes given back.
fn grow<T>(budget: &mut Budget, vec: &mut Vec<T>, cap: &mut usize, held: &mut usize, capacity: usize) -> (r: bool)
    requires
        old(budget).wf(),
        old(vec)@.len() <= *old(cap),
        *old(held) == *old(cap) * vstd::layout::size_of::<T>(),
        *old(held) <= old(budget).used_bytes(),
    ensures
        final(budget).wf(),
        final(budget).limit_bytes() == old(budget).limit_bytes(),
        final(vec)@.len() <= *final(cap),
        *final(held) == *final(cap) * vstd::layout::size_of::<T>(),
        final(budget).used_bytes() == old(budget).used_bytes() - *old(held) + *final(held),
        r ==> *final(cap) >= capacity && final(vec)@ == old(vec)@,
        !r ==> (final(vec)@ == old(vec)@ && *final(cap) == *old(cap)) || (final(vec)@.len() == 0 && *final(cap) == 0),
        capacity <= *old(cap) ==> r && *final(budget) == *old(budget) && final(vec)@ == old(vec)@ && *final(cap)
            == *old(cap) && *final(held) == *old(held),
        capacity > *old(cap) && ((capacity - *old(cap)) * vstd::layout::size_of::<T>() > usize::MAX || old(
            budget,
        ).used_bytes() + (capacity - *old(cap)) * vstd::layout::size_of::<T>() > old(budget).limit_bytes())
            ==> !r && final(budget).used_bytes() == old(budget).used_bytes() && final(vec)@ == old(vec)@
            && *final(cap) == *old(cap) && *final(held) == *old(held),
{
    if capacity <= *cap {
        return true;
    }
    let old_cap = *cap;
    let size = core::mem::size_of::<T>();
    let bytes = match (capacity - old_cap).checked_mul(size) {
        Some(b) => b,
        None => return false,
    };
    if !budget.reserve(bytes) {
        return false;
    }
    let len = vec.len();
    if !try_reserve_exact(vec, capacity - len) {
        budget.release(bytes);
        return false;
    }
    let actual = capacity_of(vec);
    let extra_items = if actual > capacity { actual - capacity } else { 0 };
    let extra = match extra_items.checked_mul(size) {
        Some(e) => e,
        None => usize::MAX,
    };
    proof {
        lemma_mul_split(old_cap as int, (capacity - old_cap) as int, extra_items as int, size as int);
    }
    if extra != 0 {
        let ok = match extra_items.checked_mul(size) {
            Some(_) => budget.reserve(extra),
            None => false,
        };
        if !ok {
            *vec = Vec::new();
            let total = *held + bytes;
            budget.release(total);
            *cap = 0;
            *held = 0;
            return false;
        }
    }
    *cap = capacity + extra_items;
    *held = *held + bytes + extra;
    true
}

proof fn lemma_mul_split(a: int, b: int, c: int, s: int)
    requires
        0 <= a,
        0 <= b,
        0 <= c,
        0 <= s,
    ensures
        a * s + b * s + c * s == (a + b + c) * s,
        (a + b) * s == a * s + b * s,
{
    assert(a * s + b * s + c * s == (a + b + c) * s) by (nonlinear_arith);
    assert((a + b) * s == a * s + b * s) by (nonlinear_arith);
}

proof fn lemma_zero_bit(w: u64, k: u64)
    requires
        w == 0,
        k < 64,
    ensures
        (w >> k) & 1 != 1,
{
    assert((w >> k) & 1 != 1) by (bit_vector)
        requires
            w == 0,
            k < 64,
    ;
}

proof fn lemma_set_bit(w: u64, k: u64, j: u64)
    requires
        k < 64,
        j < 64,
    ensures
        ((w | (1u64 << k)) >> j) & 1 == 1 <==> ((w >> j) & 1 == 1 || j == k),
{
    assert(((w | (1u64 << k)) >> j) & 1 == 1 <==> ((w >> j) & 1 == 1 || j == k)) by (bit_vector)
        requires
            k < 64,
            j < 64,
    ;
}

proof fn lemma_kept_len(p: Seq<(nat, nat)>, depth: nat)
    ensures
        kept_len(p, depth) <= p.len(),
        forall|j: int| kept_len(p, depth) <= j < p.len() ==> #[trigger] p[j].1 > depth,
        kept_len(p, depth) > 0 ==> p[kept_len(p, depth) - 1].1 <= depth,
        kept_len(p.take(kept_len(p, depth) as int), depth) == kept_len(p, depth),
    decreases p.len(),
{
    if p.len() > 0 {
        lemma_kept_len(p.drop_last(), depth);
        if p.last().1 > depth {
            let q = p.drop_last();
            let k = kept_len(q, depth);
            assert forall|j: int| k <= j < p.len() implies #[trigger] p[j].1 > depth by {
                if j < q.len() {
                    assert(p[j] == q[j]);
                }
            }
            if k > 0 {
                assert(p[k - 1] == q[k - 1]);
            }
            assert(p.take(k as int) =~= q.take(k as int));
        } else {
            assert(p.take(p.len() as int) =~= p);
        }
    }
}

/// Backtracking below the depth at which a state was entered commits the
/// failure of that state: after `enter` pushed the record `(bit, entered)`,
/// an `unwind` to a depth below `entered` keeps only what was pending before
/// (down to that depth) and counts `bit` among the committed records, so
/// `failed(bit)` holds afterwards.
pub proof fn lemma_unwind_commits_deeper_entries(p: Seq<(nat, nat)>, bit: nat, entered: nat, depth: nat)
    requires
        depth < entered,
    ensures
        kept_len(p.push((bit, entered)), depth) == kept_len(p, depth),
        exists|j: int| kept_len(p.push((bit, entered)), depth) <= j < p.len() + 1 && #[trigger] p.push((bit, entered))[j].0 == bit,
{
    let q = p.push((bit, entered));
    assert(q.drop_last() =~= p);
    lemma_kept_len(p, depth);
    assert(q[p.len() as int].0 == bit);
}

} // verus!
