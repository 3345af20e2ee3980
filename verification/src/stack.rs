//! The backtracking stack of the matcher: its entries, the pops and cuts a
//! failing path makes, and the look-ups instructions make in it.
use vstd::prelude::*;

use crate::regexec::{folded_match, mem_is_in_mems, string_cmp_ic};
use crate::regenc::OnigEncoding;
use crate::regint::{mem_status_at, mem_status_at_spec, RegexType, SaveType, StackPopLevel};

verus! {

/// Where a group's start or end is kept: not yet, in a stack entry, or as a
/// position.
#[derive(Clone, Copy, Debug, PartialEq, Eq, Structural)]
pub enum MemPtr {
    /// Not matched yet.
    Invalid,
    /// The stack entry that holds it.
    StackIdx(usize),
    /// The position itself.
    Pos(usize),
}

/// An entry of the backtracking stack.
#[derive(Clone, Copy, Debug, PartialEq, Eq, Structural)]
pub enum StackEntry {
    /// A choice point: where to go on, and at what position, when the path
    /// fails; a super alternative survives cuts.
    Alt { pcode: usize, pstr: usize, zid: i32, is_super: bool },
    /// A group start, with what the group held before.
    MemStart { zid: usize, pstr: usize, prev_start: MemPtr, prev_end: MemPtr },
    /// A group end, with what the group held before.
    MemEnd { zid: usize, pstr: usize, prev_start: MemPtr, prev_end: MemPtr },
    /// The end of a recursive group.
    MemEndMark { zid: usize },
    /// A repeat count.
    RepeatInc { zid: usize, count: i32 },
    /// Where an empty check started.
    EmptyCheckStart { zid: usize, pstr: usize },
    /// The end of an empty check.
    EmptyCheckEnd { zid: usize },
    /// A mark, with the position it saved.
    Mark { zid: usize, pos: Option<usize> },
    /// A saved value.
    SaveVal { zid: usize, save_type: SaveType, v: usize },
    /// The return address of a call.
    CallFrame { ret_addr: usize },
    /// The return from a call.
    Return,
    /// A callout to retract when backtracking passes it.
    Callout { num: i32, id: i32 },
    /// A removed entry, skipped by pops.
    Void,
}

impl StackEntry {
    /// Whether the entry is a choice point.
    pub fn is_alt(&self) -> (r: bool)
        ensures
            r == (*self is Alt),
    {
        match self {
            StackEntry::Alt { .. } => true,
            _ => false,
        }
    }

    /// Whether a pop that restores everything has something to do for the
    /// entry.
    pub fn is_pop_handled(&self) -> (r: bool)
        ensures
            r == (*self is MemStart || *self is MemEnd || *self is RepeatInc || *self is EmptyCheckStart
                || *self is CallFrame || *self is Return),
    {
        match self {
            StackEntry::MemStart { .. } | StackEntry::MemEnd { .. } | StackEntry::RepeatInc { .. }
            | StackEntry::EmptyCheckStart { .. } | StackEntry::CallFrame { .. } | StackEntry::Return => true,
            _ => false,
        }
    }
}

/// The count of the most recent repeat entry of `zid`; 0 when there is none.
pub open spec fn repeat_count_in(s: Seq<StackEntry>, zid: usize) -> i32
    decreases s.len(),
{
    if s.len() == 0 {
        0
    } else {
        match s.last() {
            StackEntry::RepeatInc { zid: id, count } => if id == zid {
                count
            } else {
                repeat_count_in(s.drop_last(), zid)
            },
            _ => repeat_count_in(s.drop_last(), zid),
        }
    }
}

/// The count of the most recent repeat entry of `zid`; 0 when there is none.
pub fn stack_get_repeat_count(stack: &[StackEntry], zid: usize) -> (r: i32)
    ensures
        r == repeat_count_in(stack@, zid),
{
    let mut i = stack.len();
    proof {
        assert(stack@.take(i as int) =~= stack@);
    }
    while i > 0
        invariant
            i <= stack@.len(),
            repeat_count_in(stack@, zid) == repeat_count_in(stack@.take(i as int), zid),
        decreases i,
    {
        i = i - 1;
        proof {
            assert(stack@.take(i + 1).drop_last() =~= stack@.take(i as int));
            assert(stack@.take(i + 1).last() == stack@[i as int]);
        }
        match stack[i] {
            StackEntry::RepeatInc { zid: id, count } => {
                if id == zid {
                    return count;
                }
            },
            _ => {},
        }
    }
    proof {
        assert(stack@.take(0) =~= Seq::<StackEntry>::empty());
    }
    0
}

/// Where the most recent empty check of `zid` started, if there is one.
pub open spec fn empty_check_start_in(s: Seq<StackEntry>, zid: usize) -> Option<(int, usize)>
    decreases s.len(),
{
    if s.len() == 0 {
        None
    } else {
        match s.last() {
            StackEntry::EmptyCheckStart { zid: id, pstr } => if id == zid {
                Some(((s.len() - 1) as int, pstr))
            } else {
                empty_check_start_in(s.drop_last(), zid)
            },
            _ => empty_check_start_in(s.drop_last(), zid),
        }
    }
}

/// Whether the most recent empty check of `zid` started at `s`: the loop
/// body matched empty.
pub fn stack_empty_check(stack: &[StackEntry], zid: usize, s: usize) -> (r: bool)
    ensures
        r == (empty_check_start_in(stack@, zid) matches Some((_, p)) && p == s),
{
    let mut i = stack.len();
    proof {
        assert(stack@.take(i as int) =~= stack@);
    }
    while i > 0
        invariant
            i <= stack@.len(),
            empty_check_start_in(stack@, zid) == empty_check_start_in(stack@.take(i as int), zid),
        decreases i,
    {
        i = i - 1;
        proof {
            assert(stack@.take(i + 1).drop_last() =~= stack@.take(i as int));
            assert(stack@.take(i + 1).last() == stack@[i as int]);
        }
        match stack[i] {
            StackEntry::EmptyCheckStart { zid: id, pstr } => {
                if id == zid {
                    return pstr == s;
                }
            },
            _ => {},
        }
    }
    proof {
        assert(stack@.take(0) =~= Seq::<StackEntry>::empty());
    }
    false
}

/// The most recent saved value of type `save_type` (of group `zid` when
/// one is given).
pub open spec fn saved_value_in(s: Seq<StackEntry>, save_type: SaveType, zid: Option<usize>) -> Option<usize>
    decreases s.len(),
{
    if s.len() == 0 {
        None
    } else {
        match s.last() {
            StackEntry::SaveVal { zid: id, save_type: st, v } => if st == save_type && (zid matches Some(z) ==> id == z) {
                Some(v)
            } else {
                saved_value_in(s.drop_last(), save_type, zid)
            },
            _ => saved_value_in(s.drop_last(), save_type, zid),
        }
    }
}

/// The most recent saved value of type `save_type`.
pub fn stack_get_save_val_type_last(stack: &[StackEntry], save_type: SaveType) -> (r: Option<usize>)
    ensures
        r == saved_value_in(stack@, save_type, None),
{
    let mut i = stack.len();
    proof {
        assert(stack@.take(i as int) =~= stack@);
    }
    while i > 0
        invariant
            i <= stack@.len(),
            saved_value_in(stack@, save_type, None) == saved_value_in(stack@.take(i as int), save_type, None),
        decreases i,
    {
        i = i - 1;
        proof {
            assert(stack@.take(i + 1).drop_last() =~= stack@.take(i as int));
            assert(stack@.take(i + 1).last() == stack@[i as int]);
        }
        match stack[i] {
            StackEntry::SaveVal { save_type: st, v, .. } => {
                if st == save_type {
                    return Some(v);
                }
            },
            _ => {},
        }
    }
    proof {
        assert(stack@.take(0) =~= Seq::<StackEntry>::empty());
    }
    None
}

/// The most recent saved value of type `save_type` for group `zid`.
pub fn stack_get_save_val_last(stack: &[StackEntry], save_type: SaveType, zid: usize) -> (r: Option<usize>)
    ensures
        r == saved_value_in(stack@, save_type, Some(zid)),
{
    let mut i = stack.len();
    proof {
        assert(stack@.take(i as int) =~= stack@);
    }
    while i > 0
        invariant
            i <= stack@.len(),
            saved_value_in(stack@, save_type, Some(zid)) == saved_value_in(stack@.take(i as int), save_type, Some(zid)),
        decreases i,
    {
        i = i - 1;
        proof {
            assert(stack@.take(i + 1).drop_last() =~= stack@.take(i as int));
            assert(stack@.take(i + 1).last() == stack@[i as int]);
        }
        match stack[i] {
            StackEntry::SaveVal { zid: id, save_type: st, v } => {
                if id == zid && st == save_type {
                    return Some(v);
                }
            },
            _ => {},
        }
    }
    proof {
        assert(stack@.take(0) =~= Seq::<StackEntry>::empty());
    }
    None
}

/// The position a group pointer stands for: none, the position itself, or
/// the position of the group start (`start`) or end entry it points to.
pub open spec fn mem_pos(stack: Seq<StackEntry>, p: MemPtr, start: bool) -> Option<usize> {
    match p {
        MemPtr::Invalid => None,
        MemPtr::Pos(pos) => Some(pos),
        MemPtr::StackIdx(si) => match stack[si as int] {
            StackEntry::MemStart { pstr, .. } => if start { Some(pstr) } else { None },
            StackEntry::MemEnd { pstr, .. } => if start { None } else { Some(pstr) },
            _ => None,
        },
    }
}

/// A group pointer points into the stack when it points at an entry.
pub open spec fn ptr_in(stack: Seq<StackEntry>, p: MemPtr) -> bool {
    p matches MemPtr::StackIdx(si) ==> si < stack.len()
}

/// Where group `idx` starts.
pub fn get_mem_start(_reg: &RegexType, stack: &[StackEntry], mem_start_stk: &[MemPtr], idx: usize) -> (r: Option<usize>)
    requires
        idx < mem_start_stk@.len(),
        ptr_in(stack@, mem_start_stk@[idx as int]),
    ensures
        r == mem_pos(stack@, mem_start_stk@[idx as int], true),
{
    match mem_start_stk[idx] {
        MemPtr::Invalid => None,
        MemPtr::Pos(pos) => Some(pos),
        MemPtr::StackIdx(si) => match stack[si] {
            StackEntry::MemStart { pstr, .. } => Some(pstr),
            _ => None,
        },
    }
}

/// Where group `idx` ends.
pub fn get_mem_end(_reg: &RegexType, stack: &[StackEntry], mem_end_stk: &[MemPtr], idx: usize) -> (r: Option<usize>)
    requires
        idx < mem_end_stk@.len(),
        ptr_in(stack@, mem_end_stk@[idx as int]),
    ensures
        r == mem_pos(stack@, mem_end_stk@[idx as int], false),
{
    match mem_end_stk[idx] {
        MemPtr::Invalid => None,
        MemPtr::Pos(pos) => Some(pos),
        MemPtr::StackIdx(si) => match stack[si] {
            StackEntry::MemEnd { pstr, .. } => Some(pstr),
            _ => None,
        },
    }
}

/// The start of the innermost open instance of recursive group `mem`,
/// looking back over `s` with `level` instances closed above: nested
/// instances that ended in between are skipped. It is kept as a stack
/// pointer when the group pushes its start, else as its position.
pub open spec fn rec_start_in(s: Seq<StackEntry>, mem: usize, push_mem_start: u32, level: int) -> (MemPtr, usize)
    decreases s.len(),
{
    if s.len() == 0 {
        (MemPtr::Invalid, 0)
    } else {
        let k = (s.len() - 1) as usize;
        match s.last() {
            StackEntry::MemEnd { zid, .. } => if zid == mem {
                rec_start_in(s.drop_last(), mem, push_mem_start, level + 1)
            } else {
                rec_start_in(s.drop_last(), mem, push_mem_start, level)
            },
            StackEntry::MemEndMark { zid } => if zid == mem {
                rec_start_in(s.drop_last(), mem, push_mem_start, level + 1)
            } else {
                rec_start_in(s.drop_last(), mem, push_mem_start, level)
            },
            StackEntry::MemStart { zid, pstr, .. } => if zid == mem {
                if level == 0 {
                    if mem_status_at_spec(push_mem_start, mem as int) {
                        (MemPtr::StackIdx(k), pstr)
                    } else {
                        (MemPtr::Pos(pstr), pstr)
                    }
                } else {
                    rec_start_in(s.drop_last(), mem, push_mem_start, level - 1)
                }
            } else {
                rec_start_in(s.drop_last(), mem, push_mem_start, level)
            },
            _ => rec_start_in(s.drop_last(), mem, push_mem_start, level),
        }
    }
}

/// The start of the innermost open instance of recursive group `mem`, as
/// a pointer and a position; no pointer when there is none.
pub fn stack_get_mem_start_for_rec(stack: &[StackEntry], mem: usize, push_mem_start: u32) -> (r: (MemPtr, usize))
    requires
        stack@.len() <= i32::MAX,
    ensures
        r == rec_start_in(stack@, mem, push_mem_start, 0),
{
    let mut level: i32 = 0;
    let mut k = stack.len();
    proof {
        assert(stack@.take(k as int) =~= stack@);
    }
    while k > 0
        invariant
            k <= stack@.len() <= i32::MAX,
            -(stack@.len() - k) <= level <= stack@.len() - k,
            rec_start_in(stack@, mem, push_mem_start, 0) == rec_start_in(stack@.take(k as int), mem, push_mem_start, level as int),
        decreases k,
    {
        k = k - 1;
        proof {
            assert(stack@.take(k + 1).drop_last() =~= stack@.take(k as int));
            assert(stack@.take(k + 1).last() == stack@[k as int]);
        }
        match stack[k] {
            StackEntry::MemEnd { zid, .. } => {
                if zid == mem {
                    level = level + 1;
                }
            },
            StackEntry::MemEndMark { zid } => {
                if zid == mem {
                    level = level + 1;
                }
            },
            StackEntry::MemStart { zid, pstr, .. } => {
                if zid == mem {
                    if level == 0 {
                        if mem_status_at(push_mem_start, mem) {
                            return (MemPtr::StackIdx(k), pstr);
                        } else {
                            return (MemPtr::Pos(pstr), pstr);
                        }
                    }
                    level = level - 1;
                }
            },
            _ => {},
        }
    }
    proof {
        assert(stack@.take(0) =~= Seq::<StackEntry>::empty());
    }
    (MemPtr::Invalid, 0)
}

/// Group `zid` is among the first `num` groups of `mems`.
pub open spec fn in_mems(zid: usize, num: i32, mems: Seq<i32>) -> bool {
    exists|i: int| 0 <= i < num && #[trigger] mems[i] as usize == zid
}

/// Looking back over `s` at call nesting `level`, a group start of one of
/// the groups in `mems` is found at nesting `nest`: calls deepen the level
/// going back, returns raise it.
pub open spec fn start_at_level_in(s: Seq<StackEntry>, nest: int, num: i32, mems: Seq<i32>, level: int) -> bool
    decreases s.len(),
{
    if s.len() == 0 {
        false
    } else {
        match s.last() {
            StackEntry::CallFrame { .. } => start_at_level_in(s.drop_last(), nest, num, mems, level - 1),
            StackEntry::Return => start_at_level_in(s.drop_last(), nest, num, mems, level + 1),
            StackEntry::MemStart { zid, .. } => (level == nest && in_mems(zid, num, mems)) || start_at_level_in(
                s.drop_last(),
                nest,
                num,
                mems,
                level,
            ),
            _ => start_at_level_in(s.drop_last(), nest, num, mems, level),
        }
    }
}

/// Whether one of the groups in `mems` has started at call nesting `nest`.
pub fn backref_check_at_nested_level(stack: &[StackEntry], nest: i32, mem_num: i32, mems: &[i32]) -> (r: bool)
    requires
        stack@.len() <= i32::MAX,
        0 <= mem_num <= mems@.len(),
    ensures
        r == start_at_level_in(stack@, nest as int, mem_num, mems@, 0),
{
    let mut level: i32 = 0;
    let mut k = stack.len();
    proof {
        assert(stack@.take(k as int) =~= stack@);
    }
    while k > 0
        invariant
            k <= stack@.len() <= i32::MAX,
            0 <= mem_num <= mems@.len(),
            -(stack@.len() - k) <= level <= stack@.len() - k,
            start_at_level_in(stack@, nest as int, mem_num, mems@, 0) == start_at_level_in(
                stack@.take(k as int),
                nest as int,
                mem_num,
                mems@,
                level as int,
            ),
        decreases k,
    {
        k = k - 1;
        proof {
            assert(stack@.take(k + 1).drop_last() =~= stack@.take(k as int));
            assert(stack@.take(k + 1).last() == stack@[k as int]);
        }
        match stack[k] {
            StackEntry::CallFrame { .. } => {
                level = level - 1;
            },
            StackEntry::Return => {
                level = level + 1;
            },
            StackEntry::MemStart { zid, .. } => {
                if level == nest {
                    if mem_is_in_mems(zid, mem_num, mems) {
                        return true;
                    }
                }
            },
            _ => {},
        }
    }
    proof {
        assert(stack@.take(0) =~= Seq::<StackEntry>::empty());
    }
    false
}

/// The group entries of `s` name groups below `n`.
pub open spec fn zids_below(s: Seq<StackEntry>, n: int) -> bool {
    forall|i: int|
        0 <= i < s.len() ==> match #[trigger] s[i] {
            StackEntry::MemStart { zid, .. } => zid < n,
            StackEntry::MemEnd { zid, .. } => zid < n,
            _ => true,
        }
}

/// What backtracking restores of the group pointers when it pops `e` at
/// `level`: a group start restores its group at every level but the
/// lowest, a group end only when everything is restored.
pub open spec fn restore(level: StackPopLevel, e: StackEntry, ms: Seq<MemPtr>, me: Seq<MemPtr>) -> (Seq<MemPtr>, Seq<MemPtr>) {
    match e {
        StackEntry::MemStart { zid, prev_start, prev_end, .. } => if level != StackPopLevel::Free {
            (ms.update(zid as int, prev_start), me.update(zid as int, prev_end))
        } else {
            (ms, me)
        },
        StackEntry::MemEnd { zid, prev_start, prev_end, .. } => if level == StackPopLevel::All {
            (ms.update(zid as int, prev_start), me.update(zid as int, prev_end))
        } else {
            (ms, me)
        },
        _ => (ms, me),
    }
}

/// The callout `e` leaves to retract when it is popped at `level`.
pub open spec fn retraction(level: StackPopLevel, e: StackEntry) -> Seq<(i32, i32)> {
    match e {
        StackEntry::Callout { num, id } => if level == StackPopLevel::All { seq![(num, id)] } else { seq![] },
        _ => seq![],
    }
}

/// The pop down to the topmost choice point at `level`: the stack below it,
/// its target (code, position, count), the group pointers restored, and the
/// callouts to retract in the order they were popped; no target when the
/// stack runs out.
pub open spec fn pop_to_alt(level: StackPopLevel, s: Seq<StackEntry>, ms: Seq<MemPtr>, me: Seq<MemPtr>) -> (
    Seq<StackEntry>,
    Option<(usize, usize, i32)>,
    Seq<MemPtr>,
    Seq<MemPtr>,
    Seq<(i32, i32)>,
)
    decreases s.len(),
{
    if s.len() == 0 {
        (s, None, ms, me, seq![])
    } else {
        match s.last() {
            StackEntry::Alt { pcode, pstr, zid, .. } => (s.drop_last(), Some((pcode, pstr, zid)), ms, me, seq![]),
            e => {
                let (ms2, me2) = restore(level, e, ms, me);
                let rest = pop_to_alt(level, s.drop_last(), ms2, me2);
                (rest.0, rest.1, rest.2, rest.3, retraction(level, e) + rest.4)
            },
        }
    }
}

/// Restores the group pointers `e` saved, as a pop at `level` does.
fn restore_entry(level: StackPopLevel, e: &StackEntry, mem_start_stk: &mut [MemPtr], mem_end_stk: &mut [MemPtr])
    requires
        match *e {
            StackEntry::MemStart { zid, .. } => zid < old(mem_start_stk)@.len() && zid < old(mem_end_stk)@.len(),
            StackEntry::MemEnd { zid, .. } => zid < old(mem_start_stk)@.len() && zid < old(mem_end_stk)@.len(),
            _ => true,
        },
    ensures
        (final(mem_start_stk)@, final(mem_end_stk)@) == restore(level, *e, old(mem_start_stk)@, old(mem_end_stk)@),
{
    match e {
        StackEntry::MemStart { zid, prev_start, prev_end, .. } => {
            if level != StackPopLevel::Free {
                mem_start_stk[*zid] = *prev_start;
                mem_end_stk[*zid] = *prev_end;
            }
        },
        StackEntry::MemEnd { zid, prev_start, prev_end, .. } => {
            if level == StackPopLevel::All {
                mem_start_stk[*zid] = *prev_start;
                mem_end_stk[*zid] = *prev_end;
            }
        },
        _ => {},
    }
    proof {
        assert((mem_start_stk@, mem_end_stk@) == restore(level, *e, old(mem_start_stk)@, old(mem_end_stk)@));
    }
}

/// Pops down to the topmost choice point and gives its target (code,
/// position, count), restoring the group pointers the popped entries saved
/// as `pop_level` asks; `None` when the stack runs out. The callouts popped
/// when everything is restored come back in the order popped, for the
/// caller to retract.
pub fn stack_pop(
    stack: &mut Vec<StackEntry>,
    pop_level: StackPopLevel,
    mem_start_stk: &mut [MemPtr],
    mem_end_stk: &mut [MemPtr],
) -> (r: (Option<(usize, usize, i32)>, Vec<(i32, i32)>))
    requires
        zids_below(old(stack)@, old(mem_start_stk)@.len() as int),
        zids_below(old(stack)@, old(mem_end_stk)@.len() as int),
    ensures
        ({
            let p = pop_to_alt(pop_level, old(stack)@, old(mem_start_stk)@, old(mem_end_stk)@);
            &&& final(stack)@ == p.0
            &&& r.0 == p.1
            &&& final(mem_start_stk)@ == p.2
            &&& final(mem_end_stk)@ == p.3
            &&& r.1@ == p.4
        }),
{
    let mut retract: Vec<(i32, i32)> = Vec::new();
    loop
        invariant
            zids_below(stack@, mem_start_stk@.len() as int),
            zids_below(stack@, mem_end_stk@.len() as int),
            mem_start_stk@.len() == old(mem_start_stk)@.len(),
            mem_end_stk@.len() == old(mem_end_stk)@.len(),
            ({
                let p = pop_to_alt(pop_level, old(stack)@, old(mem_start_stk)@, old(mem_end_stk)@);
                let q = pop_to_alt(pop_level, stack@, mem_start_stk@, mem_end_stk@);
                &&& p.0 == q.0
                &&& p.1 == q.1
                &&& p.2 == q.2
                &&& p.3 == q.3
                &&& p.4 == retract@ + q.4
            }),
        decreases stack@.len(),
    {
        let ghost before = stack@;
        let ghost ms0 = mem_start_stk@;
        let ghost me0 = mem_end_stk@;
        let entry = match stack.pop() {
            Some(e) => e,
            None => {
                proof {
                    assert(retract@ + Seq::<(i32, i32)>::empty() =~= retract@);
                }
                return (None, retract);
            },
        };
        proof {
            assert(stack@ == before.drop_last());
            assert(entry == before[before.len() - 1]);
            assert(zids_below(stack@, mem_start_stk@.len() as int));
        }
        match entry {
            StackEntry::Alt { pcode, pstr, zid, .. } => {
                proof {
                    assert(retract@ + Seq::<(i32, i32)>::empty() =~= retract@);
                }
                return (Some((pcode, pstr, zid)), retract);
            },
            _ => {
                let ghost before_retract = retract@;
                proof {
                    assert(match entry {
                        StackEntry::MemStart { zid, .. } => zid < mem_start_stk@.len() && zid < mem_end_stk@.len(),
                        StackEntry::MemEnd { zid, .. } => zid < mem_start_stk@.len() && zid < mem_end_stk@.len(),
                        _ => true,
                    }) by {
                        assert(before[before.len() - 1] == entry);
                    }
                }
                restore_entry(pop_level, &entry, mem_start_stk, mem_end_stk);
                match entry {
                    StackEntry::Callout { num, id } => {
                        if pop_level == StackPopLevel::All {
                            retract.push((num, id));
                        }
                    },
                    _ => {},
                }
                proof {
                    assert(retract@ == before_retract + retraction(pop_level, entry));
                    let q = pop_to_alt(pop_level, stack@, mem_start_stk@, mem_end_stk@);
                    assert(before_retract + (retraction(pop_level, entry) + q.4) =~= retract@ + q.4);
                }
            },
        }
    }
}

/// The pop down to the topmost mark `mark_id`, the mark included: the stack
/// below it, the position it saved, and the group pointers every popped
/// group start and end restores; no position when the mark saved none or
/// the stack runs out.
pub open spec fn pop_to_mark(s: Seq<StackEntry>, mark_id: usize, ms: Seq<MemPtr>, me: Seq<MemPtr>) -> (
    Seq<StackEntry>,
    Option<usize>,
    Seq<MemPtr>,
    Seq<MemPtr>,
)
    decreases s.len(),
{
    if s.len() == 0 {
        (s, None, ms, me)
    } else {
        match s.last() {
            StackEntry::Mark { zid, pos } => if zid == mark_id {
                (s.drop_last(), pos, ms, me)
            } else {
                pop_to_mark(s.drop_last(), mark_id, ms, me)
            },
            e => {
                let (ms2, me2) = restore(StackPopLevel::All, e, ms, me);
                pop_to_mark(s.drop_last(), mark_id, ms2, me2)
            },
        }
    }
}

/// Pops down to the topmost mark `mark_id`, the mark included, restoring
/// the group pointers every popped group start and end saved; gives the
/// position the mark saved.
pub fn stack_pop_to_mark(stack: &mut Vec<StackEntry>, mark_id: usize, mem_start_stk: &mut [MemPtr], mem_end_stk: &mut [MemPtr]) -> (r: Option<usize>)
    requires
        zids_below(old(stack)@, old(mem_start_stk)@.len() as int),
        zids_below(old(stack)@, old(mem_end_stk)@.len() as int),
    ensures
        ({
            let p = pop_to_mark(old(stack)@, mark_id, old(mem_start_stk)@, old(mem_end_stk)@);
            &&& final(stack)@ == p.0
            &&& r == p.1
            &&& final(mem_start_stk)@ == p.2
            &&& final(mem_end_stk)@ == p.3
        }),
{
    loop
        invariant
            zids_below(stack@, mem_start_stk@.len() as int),
            zids_below(stack@, mem_end_stk@.len() as int),
            mem_start_stk@.len() == old(mem_start_stk)@.len(),
            mem_end_stk@.len() == old(mem_end_stk)@.len(),
            pop_to_mark(old(stack)@, mark_id, old(mem_start_stk)@, old(mem_end_stk)@) == pop_to_mark(
                stack@,
                mark_id,
                mem_start_stk@,
                mem_end_stk@,
            ),
        decreases stack@.len(),
    {
        let ghost before = stack@;
        let entry = match stack.pop() {
            Some(e) => e,
            None => return None,
        };
        proof {
            assert(stack@ == before.drop_last());
            assert(entry == before[before.len() - 1]);
        }
        match entry {
            StackEntry::Mark { zid, pos } => {
                if zid == mark_id {
                    return pos;
                }
            },
            _ => {
                proof {
                    assert(match entry {
                        StackEntry::MemStart { zid, .. } => zid < mem_start_stk@.len() && zid < mem_end_stk@.len(),
                        StackEntry::MemEnd { zid, .. } => zid < mem_start_stk@.len() && zid < mem_end_stk@.len(),
                        _ => true,
                    }) by {
                        assert(before[before.len() - 1] == entry);
                    }
                }
                restore_entry(StackPopLevel::All, &entry, mem_start_stk, mem_end_stk);
            },
        }
    }
}

/// What a cut to mark `mark_id` leaves of `s`, from the top down to that
/// mark: ordinary choice points and empty-check starts become void, the mark
/// too, and every other entry stays; with the position the mark saved, none
/// when there is no such mark.
pub open spec fn void_to_mark(s: Seq<StackEntry>, mark_id: usize) -> (Seq<StackEntry>, Option<usize>)
    decreases s.len(),
{
    if s.len() == 0 {
        (s, None)
    } else {
        match s.last() {
            StackEntry::Mark { zid, pos } => if zid == mark_id {
                (s.drop_last().push(StackEntry::Void), pos)
            } else {
                let rest = void_to_mark(s.drop_last(), mark_id);
                (rest.0.push(s.last()), rest.1)
            },
            StackEntry::Alt { is_super, .. } => {
                let rest = void_to_mark(s.drop_last(), mark_id);
                (rest.0.push(if is_super { s.last() } else { StackEntry::Void }), rest.1)
            },
            StackEntry::EmptyCheckStart { .. } => {
                let rest = void_to_mark(s.drop_last(), mark_id);
                (rest.0.push(StackEntry::Void), rest.1)
            },
            e => {
                let rest = void_to_mark(s.drop_last(), mark_id);
                (rest.0.push(e), rest.1)
            },
        }
    }
}

proof fn lemma_void_to_mark_len(s: Seq<StackEntry>, mark_id: usize)
    ensures
        void_to_mark(s, mark_id).0.len() == s.len(),
    decreases s.len(),
{
    if s.len() > 0 {
        lemma_void_to_mark_len(s.drop_last(), mark_id);
    }
}

/// Cuts to mark `mark_id`: from the top of the stack down to that mark,
/// ordinary choice points and empty-check starts become void, and the mark
/// too; super choice points and other entries stay. Gives the position the
/// mark saved.
pub fn stack_void_to_mark(stack: &mut Vec<StackEntry>, mark_id: usize) -> (r: Option<usize>)
    ensures
        final(stack)@ == void_to_mark(old(stack)@, mark_id).0,
        r == void_to_mark(old(stack)@, mark_id).1,
{
    let ghost orig = stack@;
    let mut i = stack.len();
    proof {
        assert(orig.take(i as int) =~= orig);
        assert(stack@.skip(i as int) =~= Seq::<StackEntry>::empty());
        assert(void_to_mark(orig, mark_id).0 =~= void_to_mark(orig.take(i as int), mark_id).0 + stack@.skip(i as int));
    }
    while i > 0
        invariant
            orig == old(stack)@,
            i <= stack@.len() == orig.len(),
            stack@.take(i as int) == orig.take(i as int),
            void_to_mark(orig, mark_id).0 == void_to_mark(orig.take(i as int), mark_id).0 + stack@.skip(i as int),
            void_to_mark(orig, mark_id).1 == void_to_mark(orig.take(i as int), mark_id).1,
        decreases i,
    {
        i = i - 1;
        let ghost head = orig.take(i as int);
        let ghost tail = stack@.skip(i + 1);
        proof {
            assert(orig.take(i + 1).drop_last() =~= head);
            assert(orig.take(i + 1).last() == orig[i as int]);
            assert(stack@[i as int] == orig[i as int]) by {
                assert(stack@.take(i + 1)[i as int] == orig.take(i + 1)[i as int]);
            }
            assert(stack@.skip(i as int) =~= seq![stack@[i as int]] + tail);
            lemma_void_to_mark_len(head, mark_id);
        }
        match stack[i] {
            StackEntry::Mark { zid, pos } => {
                if zid == mark_id {
                    stack.set(i, StackEntry::Void);
                    proof {
                        assert(stack@ =~= head + seq![StackEntry::Void] + tail);
                        assert(stack@ =~= head.push(StackEntry::Void) + tail);
                    }
                    return pos;
                }
                proof {
                    assert(stack@.take(i as int) =~= head);
                }
                continue;
            },
            _ => {},
        }
        let is_void_target = match stack[i] {
            StackEntry::Alt { is_super, .. } => !is_super,
            StackEntry::EmptyCheckStart { .. } => true,
            _ => false,
        };
        if is_void_target {
            stack.set(i, StackEntry::Void);
        }
        proof {
            assert(stack@.take(i as int) =~= head);
            assert(stack@.skip(i as int) =~= seq![stack@[i as int]] + tail);
            let rest = void_to_mark(head, mark_id);
            assert(void_to_mark(orig.take(i + 1), mark_id).0 == rest.0.push(stack@[i as int]));
            assert(rest.0.push(stack@[i as int]) + tail =~= rest.0 + stack@.skip(i as int));
        }
    }
    proof {
        assert(orig.take(0) =~= Seq::<StackEntry>::empty());
        assert(stack@.skip(0) =~= stack@);
    }
    None
}

/// The first start of group `m` in `s` from `lo` up to `hi`.
pub open spec fn first_start_between(s: Seq<StackEntry>, m: usize, lo: int, hi: int) -> Option<int>
    decreases hi - lo,
{
    if lo >= hi {
        None
    } else if s[lo] matches StackEntry::MemStart { zid, .. } && zid == m {
        Some(lo)
    } else {
        first_start_between(s, m, lo + 1, hi)
    }
}

/// The group end at `end_pstr` differs from what the group held before its
/// start saved `prev_end`: nothing, another position, or an end entry at
/// another position.
pub open spec fn end_changed(s: Seq<StackEntry>, prev_end: MemPtr, end_pstr: usize) -> bool {
    match prev_end {
        MemPtr::Invalid => true,
        MemPtr::Pos(p) => p != end_pstr,
        MemPtr::StackIdx(si) => s[si as int] matches StackEntry::MemEnd { pstr, .. } && pstr != end_pstr,
    }
}

/// The group end before `k` (down to past `klow`) of each group still in
/// `ms`, checked against what its start saved: `false` as soon as one
/// changed; each group is checked once, at its most recent end.
pub open spec fn captures_unchanged(s: Seq<StackEntry>, klow: int, k: int, ms: u32) -> bool
    decreases k - klow,
{
    if k <= klow + 1 {
        true
    } else {
        let j = k - 1;
        match s[j] {
            StackEntry::MemEnd { zid: m, pstr: end_pstr, .. } => if ms & (1u32 << (m as u32)) != 0 {
                match first_start_between(s, m, klow + 1, j) {
                    Some(kk) => {
                        let prev_end = match s[kk] {
                            StackEntry::MemStart { prev_end, .. } => prev_end,
                            _ => MemPtr::Invalid,
                        };
                        if end_changed(s, prev_end, end_pstr) {
                            false
                        } else {
                            let ms2 = ms & !(1u32 << (m as u32));
                            if ms2 == 0 { true } else { captures_unchanged(s, klow, j, ms2) }
                        }
                    },
                    None => captures_unchanged(s, klow, j, ms),
                }
            } else {
                captures_unchanged(s, klow, j, ms)
            },
            _ => captures_unchanged(s, klow, j, ms),
        }
    }
}

/// A loop body of empty check `zid` matched empty with the groups in
/// `empty_status_mem` left as they were: it started at `s`, and none of those
/// groups ended since at another place than before.
pub open spec fn empty_with_mems(stack: Seq<StackEntry>, zid: usize, s: usize, empty_status_mem: u32) -> bool {
    match empty_check_start_in(stack, zid) {
        None => false,
        Some((klow, pstr)) => pstr == s && captures_unchanged(stack, klow, stack.len() as int, empty_status_mem),
    }
}

/// What the check of captures needs of the stack above the empty-check
/// start at `klow`: group ends name groups below 32, and group starts point
/// into the stack.
pub open spec fn checkable_above(stack: Seq<StackEntry>, klow: int) -> bool {
    forall|i: int|
        klow < i < stack.len() ==> match #[trigger] stack[i] {
            StackEntry::MemEnd { zid, .. } => zid < 32,
            StackEntry::MemStart { prev_end, .. } => ptr_in(stack, prev_end),
            _ => true,
        }
}

proof fn lemma_first_start_between(s: Seq<StackEntry>, m: usize, lo: int, hi: int)
    ensures
        first_start_between(s, m, lo, hi) matches Some(kk) ==> lo <= kk < hi && (s[kk] matches StackEntry::MemStart {
            zid,
            ..
        } && zid == m),
    decreases hi - lo,
{
    if lo < hi && !(s[lo] matches StackEntry::MemStart { zid, .. } && zid == m) {
        lemma_first_start_between(s, m, lo + 1, hi);
    }
}

/// Whether the group start `kk` says the group end at `end_pstr` changed it.
fn start_says_changed(stack: &[StackEntry], kk: usize, end_pstr: usize) -> (r: bool)
    requires
        kk < stack@.len(),
        stack@[kk as int] matches StackEntry::MemStart { prev_end, .. } && ptr_in(stack@, prev_end),
    ensures
        r == match stack@[kk as int] {
            StackEntry::MemStart { prev_end, .. } => end_changed(stack@, prev_end, end_pstr),
            _ => false,
        },
{
    match stack[kk] {
        StackEntry::MemStart { prev_end, .. } => match prev_end {
            MemPtr::Invalid => true,
            MemPtr::Pos(p) => p != end_pstr,
            MemPtr::StackIdx(si) => match stack[si] {
                StackEntry::MemEnd { pstr, .. } => pstr != end_pstr,
                _ => false,
            },
        },
        _ => false,
    }
}

/// The most recent empty-check start of `zid`, as its index and position.
fn find_empty_check_start(stack: &[StackEntry], zid: usize) -> (r: Option<(usize, usize)>)
    ensures
        match empty_check_start_in(stack@, zid) {
            Some((k, p)) => r == Some((k as usize, p)) && 0 <= k < stack@.len(),
            None => r is None,
        },
{
    let mut i = stack.len();
    proof {
        assert(stack@.take(i as int) =~= stack@);
    }
    while i > 0
        invariant
            i <= stack@.len(),
            empty_check_start_in(stack@, zid) == empty_check_start_in(stack@.take(i as int), zid),
        decreases i,
    {
        i = i - 1;
        proof {
            assert(stack@.take(i + 1).drop_last() =~= stack@.take(i as int));
            assert(stack@.take(i + 1).last() == stack@[i as int]);
        }
        match stack[i] {
            StackEntry::EmptyCheckStart { zid: id, pstr } => {
                if id == zid {
                    return Some((i, pstr));
                }
            },
            _ => {},
        }
    }
    proof {
        assert(stack@.take(0) =~= Seq::<StackEntry>::empty());
    }
    None
}

/// Where the first start of group `m` from `lo` up to `hi` is; `hi` when
/// there is none.
fn find_start_between(stack: &[StackEntry], m: usize, lo: usize, hi: usize) -> (r: usize)
    requires
        hi <= stack@.len(),
    ensures
        match first_start_between(stack@, m, lo as int, hi as int) {
            Some(kk) => r == kk,
            None => r == hi || (lo >= hi && r == lo),
        },
        lo <= r,
{
    let mut kk = lo;
    while kk < hi
        invariant
            lo <= kk,
            kk <= hi || kk == lo,
            hi <= stack@.len(),
            first_start_between(stack@, m, lo as int, hi as int) == first_start_between(stack@, m, kk as int, hi as int),
        decreases hi - kk,
    {
        let is_start = match stack[kk] {
            StackEntry::MemStart { zid: start_zid, .. } => start_zid == m,
            _ => false,
        };
        if is_start {
            return kk;
        }
        kk = kk + 1;
    }
    kk
}

/// Whether a loop body of empty check `zid` matched empty and left the
/// groups in `empty_status_mem` as they were (see [`empty_with_mems`]).
pub fn stack_empty_check_mem(
    stack: &[StackEntry],
    zid: usize,
    s: usize,
    empty_status_mem: u32,
    _reg: &RegexType,
    _mem_start_stk: &[MemPtr],
    _mem_end_stk: &[MemPtr],
) -> (r: bool)
    requires
        empty_check_start_in(stack@, zid) matches Some((klow, _)) ==> checkable_above(stack@, klow),
    ensures
        r == empty_with_mems(stack@, zid, s, empty_status_mem),
{
    let klow = match find_empty_check_start(stack, zid) {
        Some((k, pstr)) => {
            if pstr != s {
                return false;
            }
            k
        },
        None => return false,
    };
    let mut ms = empty_status_mem;
    let mut k = stack.len();
    while k > klow + 1
        invariant
            klow < stack@.len(),
            klow + 1 <= k <= stack@.len(),
            checkable_above(stack@, klow as int),
            empty_with_mems(stack@, zid, s, empty_status_mem) == captures_unchanged(stack@, klow as int, k as int, ms),
        decreases k,
    {
        k = k - 1;
        match stack[k] {
            StackEntry::MemEnd { zid: mem_zid, pstr: end_pstr, .. } => {
                assert(mem_zid < 32);
                let bit = 1u32 << (mem_zid as u32);
                if ms & bit != 0 {
                    let kk = find_start_between(stack, mem_zid, klow + 1, k);
                    proof {
                        lemma_first_start_between(stack@, mem_zid, klow + 1, k as int);
                    }
                    if kk < k {
                        proof {
                            assert(stack@[kk as int] matches StackEntry::MemStart { prev_end, .. } && ptr_in(
                                stack@,
                                prev_end,
                            ));
                        }
                        if start_says_changed(stack, kk, end_pstr) {
                            return false;
                        }
                        ms = ms & !bit;
                        if ms == 0 {
                            return true;
                        }
                    }
                }
            },
            _ => {},
        }
    }
    true
}

/// Looking back over `s` at call nesting `level`, the capture of one of the
/// groups in `mems` at nesting `nest`: its start, and the end found above
/// it (`pend`); none when no start follows an end.
pub open spec fn capture_at_level_in(
    s: Seq<StackEntry>,
    nest: int,
    num: i32,
    mems: Seq<i32>,
    level: int,
    pend: Option<usize>,
) -> Option<(usize, usize)>
    decreases s.len(),
{
    if s.len() == 0 {
        None
    } else {
        match s.last() {
            StackEntry::CallFrame { .. } => capture_at_level_in(s.drop_last(), nest, num, mems, level - 1, pend),
            StackEntry::Return => capture_at_level_in(s.drop_last(), nest, num, mems, level + 1, pend),
            StackEntry::MemStart { zid, pstr, .. } => if level == nest && in_mems(zid, num, mems) && pend is Some {
                Some((pstr, pend->0))
            } else {
                capture_at_level_in(s.drop_last(), nest, num, mems, level, pend)
            },
            StackEntry::MemEnd { zid, pstr, .. } => if level == nest && in_mems(zid, num, mems) {
                capture_at_level_in(s.drop_last(), nest, num, mems, level, Some(pstr))
            } else {
                capture_at_level_in(s.drop_last(), nest, num, mems, level, pend)
            },
            _ => capture_at_level_in(s.drop_last(), nest, num, mems, level, pend),
        }
    }
}

/// Whether the `len` bytes at `a` equal those at `b`.
fn subrange_equal(data: &[u8], a: usize, b: usize, len: usize) -> (r: bool)
    requires
        a + len <= data@.len(),
        b + len <= data@.len(),
    ensures
        r == (data@.subrange(a as int, a + len) == data@.subrange(b as int, b + len)),
{
    let dlen = data.len();
    let mut i: usize = 0;
    while i < len
        invariant
            dlen == data@.len(),
            i <= len,
            a + len <= data@.len(),
            b + len <= data@.len(),
            forall|k: int| 0 <= k < i ==> #[trigger] data@[a + k] == data@[b + k],
        decreases len - i,
    {
        if data[a + i] != data[b + i] {
            assert(data@.subrange(a as int, a + len)[i as int] != data@.subrange(b as int, b + len)[i as int]);
            return false;
        }
        i = i + 1;
    }
    assert forall|k: int| 0 <= k < len implies #[trigger] data@.subrange(a as int, a + len)[k] == data@.subrange(
        b as int,
        b + len,
    )[k] by {
        assert(data@[a + k] == data@[b + k]);
    }
    assert(data@.subrange(a as int, a + len) =~= data@.subrange(b as int, b + len));
    true
}

/// Whether the `len` bytes at `*s` repeat those at `ps`, case-folded; on
/// success `*s` moves past them.
fn repeats_folded(enc: OnigEncoding, flag: u32, data: &[u8], ps: usize, s: &mut usize, len: usize) -> (r: bool)
    requires
        ps + len <= data@.len(),
        *old(s) + len <= data@.len(),
    ensures
        match folded_match(enc, data@, ps, *old(s), len) {
            Some(n) => r && *final(s) == n,
            None => !r && *final(s) == *old(s),
        },
{
    string_cmp_ic(enc, flag, data, ps, s, len)
}

/// Whether the text at `*s` repeats the capture of one of the groups in
/// `mems` at call nesting `nest` (case-folded when `ignore_case`); on
/// success `*s` moves past it. `false` when there is no such capture or the
/// text before `end` is too short.
pub fn backref_match_at_nested_level(
    reg: &RegexType,
    stack: &[StackEntry],
    ignore_case: bool,
    case_fold_flag: u32,
    nest: i32,
    mem_num: i32,
    mems: &[i32],
    s: &mut usize,
    str_data: &[u8],
    end: usize,
) -> (r: bool)
    requires
        stack@.len() <= i32::MAX,
        0 <= mem_num <= mems@.len(),
        *old(s) <= end <= str_data@.len(),
        capture_at_level_in(stack@, nest as int, mem_num, mems@, 0, None) matches Some((ps, pe)) ==> ps <= pe
            <= str_data@.len(),
    ensures
        match capture_at_level_in(stack@, nest as int, mem_num, mems@, 0, None) {
            None => !r && *final(s) == *old(s),
            Some((ps, pe)) => if pe - ps > end - *old(s) {
                !r && *final(s) == *old(s)
            } else if ignore_case {
                match folded_match(reg.enc, str_data@, ps, *old(s), (pe - ps) as usize) {
                    Some(n) => r && *final(s) == n,
                    None => !r && *final(s) == *old(s),
                }
            } else {
                &&& r == (str_data@.subrange(ps as int, pe as int) == str_data@.subrange(*old(s) as int, *old(s) + (pe - ps)))
                &&& *final(s) == if r { *old(s) + (pe - ps) } else { *old(s) as int }
            },
        },
{
    let mut level: i32 = 0;
    let mut pend: Option<usize> = None;
    let mut k = stack.len();
    proof {
        assert(stack@.take(k as int) =~= stack@);
    }
    while k > 0
        invariant
            k <= stack@.len() <= i32::MAX,
            0 <= mem_num <= mems@.len(),
            -(stack@.len() - k) <= level <= stack@.len() - k,
            *s == *old(s),
            *old(s) <= end <= str_data@.len(),
            capture_at_level_in(stack@, nest as int, mem_num, mems@, 0, None) matches Some((ps, pe)) ==> ps <= pe
                <= str_data@.len(),
            capture_at_level_in(stack@, nest as int, mem_num, mems@, 0, None) == capture_at_level_in(
                stack@.take(k as int),
                nest as int,
                mem_num,
                mems@,
                level as int,
                pend,
            ),
        decreases k,
    {
        k = k - 1;
        proof {
            assert(stack@.take(k + 1).drop_last() =~= stack@.take(k as int));
            assert(stack@.take(k + 1).last() == stack@[k as int]);
        }
        match stack[k] {
            StackEntry::CallFrame { .. } => {
                level = level - 1;
            },
            StackEntry::Return => {
                level = level + 1;
            },
            StackEntry::MemStart { zid, pstr, .. } => {
                if level == nest && mem_is_in_mems(zid, mem_num, mems) {
                    match pend {
                        Some(pe) => {
                            let pstart = pstr;
                            let cap_len = pe - pstart;
                            if cap_len > end - *s {
                                return false;
                            }
                            if ignore_case {
                                if !repeats_folded(reg.enc, case_fold_flag, str_data, pstart, s, cap_len) {
                                    return false;
                                }
                            } else {
                                if !subrange_equal(str_data, pstart, *s, cap_len) {
                                    return false;
                                }
                                *s = *s + cap_len;
                            }
                            return true;
                        },
                        None => {},
                    }
                }
            },
            StackEntry::MemEnd { zid, pstr, .. } => {
                if level == nest && mem_is_in_mems(zid, mem_num, mems) {
                    pend = Some(pstr);
                }
            },
            _ => {},
        }
    }
    proof {
        assert(stack@.take(0) =~= Seq::<StackEntry>::empty());
    }
    false
}

} // verus!
