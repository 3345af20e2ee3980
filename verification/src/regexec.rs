//! What a compiled pattern answers about itself, its named groups and its
//! callouts: accessors, name lookups, callout data slots and the arguments a
//! callout receives.
use vstd::prelude::*;

use crate::oniguruma::{
    is_syntax_bv, OnigCaptureTreeNode, OnigCalloutIn, OnigCaseFoldType, OnigOptionType, OnigRegion, OnigSyntaxType,
    OnigType, OnigValue, ONIGERR_INVALID_ARGUMENT, ONIGERR_INVALID_CALLOUT_TAG_NAME,
    ONIGERR_PARSER_BUG, ONIGERR_UNDEFINED_NAME_REFERENCE, ONIG_CALLOUT_DATA_SLOT_NUM,
    ONIG_MAX_CAPTURE_HISTORY_GROUP, ONIG_NORMAL, ONIG_REGION_NOTPOS,
    ONIG_SYN_CAPTURE_ONLY_NAMED_GROUP,
};
use crate::oniguruma::{
    OnigCodePoint, ONIGENC_CTYPE_WORD, ONIGENC_MBC_CASE_FOLD_MAXLEN, ONIGERR_MATCH_STACK_LIMIT_OVER,
};
use crate::regenc::{Encoding, OnigEncoding};
use vstd::slice::SliceAdditionalExecFns;
use crate::regint::{
    mem_status_at, mem_status_at_spec, opton_capture_group, opton_dont_capture_group,
    CalloutContent, ModeType, NameEntry, NameTable, RegexType,
};

verus! {

// === Regions ===

/// The limits one search runs under (0 is no limit for each).
#[derive(Clone, Copy, Debug, PartialEq, Eq, Structural)]
pub struct OnigMatchParam {
    pub match_stack_limit: u32,
    pub retry_limit_in_match: u64,
    pub retry_limit_in_search: u64,
    pub time_limit: u64,
}

/// Match parameters with the given limits.
pub fn onig_initialize_match_param(
    mp: &mut OnigMatchParam,
    match_stack_limit: u32,
    retry_limit_in_match: u64,
    retry_limit_in_search: u64,
    time_limit: u64,
) -> (r: i32)
    ensures
        r == ONIG_NORMAL,
        *final(mp) == (OnigMatchParam { match_stack_limit, retry_limit_in_match, retry_limit_in_search, time_limit }),
{
    mp.match_stack_limit = match_stack_limit;
    mp.retry_limit_in_match = retry_limit_in_match;
    mp.retry_limit_in_search = retry_limit_in_search;
    mp.time_limit = time_limit;
    ONIG_NORMAL
}

/// Sets the entries the match stack may hold.
pub fn onig_set_match_stack_limit_size_of_match_param(mp: &mut OnigMatchParam, limit: u32) -> (r: i32)
    ensures
        r == ONIG_NORMAL,
        *final(mp) == (OnigMatchParam { match_stack_limit: limit, ..*old(mp) }),
{
    mp.match_stack_limit = limit;
    ONIG_NORMAL
}

/// Sets the retries one match may take.
pub fn onig_set_retry_limit_in_match_of_match_param(mp: &mut OnigMatchParam, limit: u64) -> (r: i32)
    ensures
        r == ONIG_NORMAL,
        *final(mp) == (OnigMatchParam { retry_limit_in_match: limit, ..*old(mp) }),
{
    mp.retry_limit_in_match = limit;
    ONIG_NORMAL
}

/// Sets the retries one search may take.
pub fn onig_set_retry_limit_in_search_of_match_param(mp: &mut OnigMatchParam, limit: u64) -> (r: i32)
    ensures
        r == ONIG_NORMAL,
        *final(mp) == (OnigMatchParam { retry_limit_in_search: limit, ..*old(mp) }),
{
    mp.retry_limit_in_search = limit;
    ONIG_NORMAL
}

/// Sets the milliseconds a search may take.
pub fn onig_set_time_limit_of_match_param(mp: &mut OnigMatchParam, limit: u64) -> (r: i32)
    ensures
        r == ONIG_NORMAL,
        *final(mp) == (OnigMatchParam { time_limit: limit, ..*old(mp) }),
{
    mp.time_limit = limit;
    ONIG_NORMAL
}

/// A new empty region.
pub fn onig_region_new() -> (r: OnigRegion)
    ensures
        r.wf(),
        r.num_regs == 0,
        r.allocated == 0,
        r.history_root is None,
{
    OnigRegion::new()
}

/// Empties `region`.
pub fn onig_region_init(region: &mut OnigRegion)
    ensures
        final(region).wf(),
        final(region).num_regs == 0,
        final(region).allocated == 0,
        final(region).history_root is None,
{
    region.init();
}

/// Marks every group of `region` as unmatched.
pub fn onig_region_clear(region: &mut OnigRegion)
    requires
        old(region).wf(),
    ensures
        final(region).wf(),
        final(region).num_regs == old(region).num_regs,
        final(region).allocated == old(region).allocated,
        forall|i: int| 0 <= i < old(region).num_regs ==> final(region).beg@[i] == ONIG_REGION_NOTPOS
            && final(region).end@[i] == ONIG_REGION_NOTPOS,
        final(region).history_root is None,
{
    region.clear();
}

/// Gives `region` room for `n` groups; kept groups stay, new ones are unmatched.
pub fn onig_region_resize(region: &mut OnigRegion, n: i32) -> (r: i32)
    requires
        old(region).wf(),
        n >= 0,
    ensures
        r == ONIG_NORMAL,
        final(region).wf(),
        final(region).num_regs == n,
        final(region).allocated == n,
        forall|i: int| 0 <= i < n && i < old(region).num_regs ==> final(region).beg@[i] == old(region).beg@[i]
            && final(region).end@[i] == old(region).end@[i],
        forall|i: int| old(region).num_regs <= i < n ==> final(region).beg@[i] == ONIG_REGION_NOTPOS
            && final(region).end@[i] == ONIG_REGION_NOTPOS,
{
    region.resize(n);
    ONIG_NORMAL
}

// === Pattern accessors ===

/// The encoding of the pattern.
pub fn onig_get_encoding(reg: &RegexType) -> (r: OnigEncoding)
    ensures
        r == reg.enc,
{
    reg.enc
}

/// The options the pattern was compiled with.
pub fn onig_get_options(reg: &RegexType) -> (r: OnigOptionType)
    ensures
        r == reg.options,
{
    reg.options
}

/// The case-fold flags of the pattern.
pub fn onig_get_case_fold_flag(reg: &RegexType) -> (r: OnigCaseFoldType)
    ensures
        r == reg.case_fold_flag,
{
    reg.case_fold_flag
}

/// The syntax the pattern was written in.
pub fn onig_get_syntax(reg: &RegexType) -> (r: &OnigSyntaxType)
    ensures
        *r == reg.syntax,
{
    &reg.syntax
}

/// The number of capture groups.
pub fn onig_number_of_captures(reg: &RegexType) -> (r: i32)
    ensures
        r == reg.num_mem,
{
    reg.num_mem
}

/// The number of groups among `0..n` whose capture history is recorded.
pub open spec fn history_count(stats: u32, n: int) -> int
    decreases n,
{
    if n <= 0 {
        0
    } else {
        history_count(stats, n - 1) + if mem_status_at_spec(stats, n - 1) { 1int } else { 0int }
    }
}

/// The number of groups (up to the last history group) whose capture
/// history is recorded.
pub fn onig_number_of_capture_histories(reg: &RegexType) -> (r: i32)
    ensures
        r == history_count(reg.capture_history, ONIG_MAX_CAPTURE_HISTORY_GROUP + 1),
{
    let mut n: i32 = 0;
    let mut i: usize = 0;
    while i <= ONIG_MAX_CAPTURE_HISTORY_GROUP
        invariant
            i <= ONIG_MAX_CAPTURE_HISTORY_GROUP + 1,
            n == history_count(reg.capture_history, i as int),
            0 <= n <= i,
        decreases ONIG_MAX_CAPTURE_HISTORY_GROUP + 1 - i,
    {
        if mem_status_at(reg.capture_history, i) {
            n = n + 1;
        }
        i = i + 1;
    }
    n
}

// === Named groups ===

/// The first entry of the name table named `name`.
pub open spec fn name_index(entries: Seq<NameEntry>, name: Seq<u8>) -> Option<int>
    decreases entries.len(),
{
    if entries.len() == 0 {
        None
    } else {
        match name_index(entries.drop_last(), name) {
            Some(i) => Some(i),
            None => if entries.last().name@ == name { Some(entries.len() - 1) } else { None },
        }
    }
}

/// The entry of the group name `name` in the pattern, when it has one.
pub open spec fn named_entry(reg: &RegexType, name: Seq<u8>) -> Option<NameEntry> {
    match reg.name_table {
        Some(nt) => match name_index(nt.entries@, name) {
            Some(i) => Some(nt.entries@[i]),
            None => None,
        },
        None => None,
    }
}

proof fn lemma_name_index(entries: Seq<NameEntry>, name: Seq<u8>)
    ensures
        match name_index(entries, name) {
            Some(i) => 0 <= i < entries.len() && entries[i].name@ == name && forall|j: int|
                0 <= j < i ==> entries[j].name@ != name,
            None => forall|j: int| 0 <= j < entries.len() ==> entries[j].name@ != name,
        },
    decreases entries.len(),
{
    if entries.len() > 0 {
        lemma_name_index(entries.drop_last(), name);
        assert forall|j: int| 0 <= j < entries.len() - 1 implies entries.drop_last()[j] == entries[j] by {}
    }
}

/// Whether `a` and `b` hold the same bytes.
fn same_bytes(a: &[u8], b: &[u8]) -> (r: bool)
    ensures
        r == (a@ == b@),
{
    if a.len() != b.len() {
        return false;
    }
    let mut i: usize = 0;
    while i < a.len()
        invariant
            a@.len() == b@.len(),
            i <= a@.len(),
            forall|j: int| 0 <= j < i ==> a@[j] == b@[j],
        decreases a@.len() - i,
    {
        if a[i] != b[i] {
            return false;
        }
        i = i + 1;
    }
    proof {
        assert(a@ =~= b@);
    }
    true
}

/// The position of the entry named `name` in `entries`.
fn find_name(entries: &Vec<NameEntry>, name: &[u8]) -> (r: Option<usize>)
    ensures
        r matches Some(i) ==> name_index(entries@, name@) == Some(i as int) && i < entries@.len(),
        r is None ==> name_index(entries@, name@) is None,
{
    proof {
        lemma_name_index(entries@, name@);
    }
    let mut i: usize = 0;
    while i < entries.len()
        invariant
            i <= entries@.len(),
            forall|j: int| 0 <= j < i ==> entries@[j].name@ != name@,
        decreases entries@.len() - i,
    {
        if same_bytes(entries[i].name.as_slice(), name) {
            proof {
                lemma_name_index(entries@, name@);
            }
            return Some(i);
        }
        i = i + 1;
    }
    None
}

/// The group numbers `name` stands for, in order; an undefined name is an
/// error.
pub fn onig_name_to_group_numbers<'a>(reg: &'a RegexType, name: &[u8]) -> (r: Result<&'a [i32], i32>)
    ensures
        r is Err <==> named_entry(reg, name@) is None,
        r matches Err(e) ==> e == ONIGERR_UNDEFINED_NAME_REFERENCE,
        r matches Ok(nums) ==> nums@ == named_entry(reg, name@)->0.back_refs@,
{
    match &reg.name_table {
        Some(nt) => match find_name(&nt.entries, name) {
            Some(i) => Ok(nt.entries[i].back_refs.as_slice()),
            None => Err(ONIGERR_UNDEFINED_NAME_REFERENCE),
        },
        None => Err(ONIGERR_UNDEFINED_NAME_REFERENCE),
    }
}

/// The last of `nums` that took part in the match recorded in `region`.
pub open spec fn last_matched(nums: Seq<i32>, region: &OnigRegion, n: int) -> Option<i32>
    decreases n,
{
    if n <= 0 {
        None
    } else {
        let g = nums[n - 1];
        if 0 <= g < region.beg@.len() && region.beg@[g as int] != ONIG_REGION_NOTPOS {
            Some(g)
        } else {
            last_matched(nums, region, n - 1)
        }
    }
}

/// The group number a back reference to `name` means: the only group of that
/// name, or, when several share it, the last one that took part in the match
/// in `region` (the last of them when none did or there is no region).
pub fn onig_name_to_backref_number(reg: &RegexType, name: &[u8], region: Option<&OnigRegion>) -> (r: Result<i32, i32>)
    ensures
        named_entry(reg, name@) is None ==> r == Err::<i32, i32>(ONIGERR_UNDEFINED_NAME_REFERENCE),
        named_entry(reg, name@) matches Some(e) ==> {
            let nums = e.back_refs@;
            if nums.len() == 0 {
                r == Err::<i32, i32>(ONIGERR_PARSER_BUG)
            } else if nums.len() == 1 {
                r == Ok::<i32, i32>(nums[0])
            } else {
                r == Ok::<i32, i32>(match region {
                    Some(reg_) => match last_matched(nums, reg_, nums.len() as int) {
                        Some(g) => g,
                        None => nums.last(),
                    },
                    None => nums.last(),
                })
            }
        },
{
    let nums = match onig_name_to_group_numbers(reg, name) {
        Ok(n) => n,
        Err(e) => return Err(e),
    };
    if nums.len() == 0 {
        return Err(ONIGERR_PARSER_BUG);
    }
    if nums.len() == 1 {
        return Ok(nums[0]);
    }
    if let Some(rg) = region {
        let mut i = nums.len();
        while i > 0
            invariant
                i <= nums@.len(),
                region == Some(rg),
                named_entry(reg, name@) is Some,
                nums@ == named_entry(reg, name@)->0.back_refs@,
                nums@.len() >= 2,
                last_matched(nums@, rg, nums@.len() as int) == last_matched(nums@, rg, i as int),
            decreases i,
        {
            let g = nums[i - 1];
            if g >= 0 && (g as usize) < rg.beg.len() && rg.beg[g as usize] != ONIG_REGION_NOTPOS {
                proof {
                    assert(last_matched(nums@, rg, i as int) == Some(g));
                }
                return Ok(g);
            }
            i = i - 1;
        }
    }
    Ok(nums[nums.len() - 1])
}

/// `cb` may answer `out` when called with the name and group numbers of
/// entry `k` of `nt`.
pub open spec fn name_answer<F: FnMut(&[u8], &[i32]) -> i32>(cb: F, nt: NameTable, k: int, out: i32) -> bool {
    exists|a: &[u8], b: &[i32]|
        a@ == nt.entries@[k].name@ && b@ == nt.entries@[k].back_refs@ && #[trigger] call_ensures(cb, (a, b), out)
}

/// Calls `callback` with each group name and its group numbers, in table
/// order, until one call answers non-zero, which is then the answer; else
/// answers `ONIG_NORMAL`.
pub fn onig_foreach_name<F: FnMut(&[u8], &[i32]) -> i32>(reg: &RegexType, callback: F) -> (r: i32)
    requires
        forall|a: &[u8], b: &[i32]| call_requires(callback, (a, b)),
    ensures
        r != ONIG_NORMAL ==> (reg.name_table matches Some(nt) && nt.entries@.len() > 0),
        match reg.name_table {
            None => r == ONIG_NORMAL,
            Some(nt) => {
                &&& r == ONIG_NORMAL ==> forall|k: int| 0 <= k < nt.entries@.len() ==> #[trigger] name_answer(callback, nt, k, 0)
                &&& r != ONIG_NORMAL ==> exists|k: int|
                    0 <= k < nt.entries@.len() && #[trigger] name_answer(callback, nt, k, r) && forall|j: int|
                        0 <= j < k ==> #[trigger] name_answer(callback, nt, j, 0)
            },
        },
{
    let ghost cb0 = callback;
    let mut cb = callback;
    match &reg.name_table {
        Some(nt) => {
            let mut i: usize = 0;
            while i < nt.entries.len()
                invariant
                    i <= nt.entries@.len(),
                    cb == cb0,
                    cb0 == callback,
                    reg.name_table == Some(*nt),
                    forall|a: &[u8], b: &[i32]| call_requires(cb, (a, b)),
                    forall|k: int| 0 <= k < i ==> #[trigger] name_answer(cb0, *nt, k, 0),
                decreases nt.entries@.len() - i,
            {
                let entry = &nt.entries[i];
                let name_s = entry.name.as_slice();
                let refs_s = entry.back_refs.as_slice();
                let r = cb(name_s, refs_s);
                proof {
                    assert(call_ensures(cb0, (name_s, refs_s), r));
                    assert(name_answer(cb0, *nt, i as int, r));
                }
                if r != 0 {
                    assert(exists|k: int|
                        0 <= k < nt.entries@.len() && #[trigger] name_answer(cb0, *nt, k, r) && forall|j: int|
                            0 <= j < k ==> #[trigger] name_answer(cb0, *nt, j, 0));
                    return r;
                }
                i = i + 1;
            }
            ONIG_NORMAL
        },
        None => ONIG_NORMAL,
    }
}

/// The number of group names.
pub fn onig_number_of_names(reg: &RegexType) -> (r: i32)
    ensures
        r == match reg.name_table {
            Some(nt) => nt.entries@.len() as i32,
            None => 0,
        },
{
    match &reg.name_table {
        Some(nt) => nt.entries.len() as i32,
        None => 0,
    }
}

/// Whether groups without a name capture: not when captures are turned off,
/// nor when the pattern has names, its syntax captures only named groups,
/// and capturing was not asked for.
pub fn onig_noname_group_capture_is_active(reg: &RegexType) -> (r: bool)
    ensures
        r == !(reg.options & crate::oniguruma::ONIG_OPTION_DONT_CAPTURE_GROUP != 0 || ((match reg.name_table {
            Some(nt) => nt.entries@.len() as i32,
            None => 0,
        }) > 0 && reg.syntax.behavior & ONIG_SYN_CAPTURE_ONLY_NAMED_GROUP != 0 && reg.options
            & crate::oniguruma::ONIG_OPTION_CAPTURE_GROUP == 0)),
{
    if opton_dont_capture_group(reg.options) {
        return false;
    }
    if onig_number_of_names(reg) > 0 {
        if is_syntax_bv(&reg.syntax, ONIG_SYN_CAPTURE_ONLY_NAMED_GROUP) && !opton_capture_group(reg.options) {
            return false;
        }
    }
    true
}

// === Version and library state ===

/// The version of the engine this library follows.
pub fn onig_version() -> (r: &'static str)
    ensures
        r@ == "6.9.10"@,
{
    "6.9.10"
}

/// The copyright notice of the engine this library follows.
pub fn onig_copyright() -> (r: &'static str)
    ensures
        r@ == "Oniguruma 6.9.10 : Copyright (C) 2002-2024 K.Kosako"@,
{
    "Oniguruma 6.9.10 : Copyright (C) 2002-2024 K.Kosako"
}

/// Nothing to set up: always `ONIG_NORMAL`.
pub fn onig_init() -> (r: i32)
    ensures
        r == ONIG_NORMAL,
{
    ONIG_NORMAL
}

/// Nothing to set up: always `ONIG_NORMAL`.
pub fn onig_initialize() -> (r: i32)
    ensures
        r == ONIG_NORMAL,
{
    ONIG_NORMAL
}

/// Nothing to tear down: always `ONIG_NORMAL`.
pub fn onig_end() -> (r: i32)
    ensures
        r == ONIG_NORMAL,
{
    ONIG_NORMAL
}

// === Callout data ===

/// The data slots of the callouts of one match, one row per callout.
pub type CalloutData = [i64; ONIG_CALLOUT_DATA_SLOT_NUM];

/// The row of callout `callout_num` (numbered from 1) and the slot, when both
/// exist.
pub open spec fn data_slot(rows: int, callout_num: i32, slot: i32) -> Option<(int, int)> {
    if callout_num < 1 || slot < 0 || slot >= ONIG_CALLOUT_DATA_SLOT_NUM || callout_num - 1 >= rows {
        None
    } else {
        Some(((callout_num - 1) as int, slot as int))
    }
}

/// `after` is `before` with `val` in slot `s` of row `row`.
pub open spec fn slot_updated(before: Seq<CalloutData>, after: Seq<CalloutData>, row: int, s: int, val: i64) -> bool {
    &&& after.len() == before.len()
    &&& forall|i: int| 0 <= i < before.len() && i != row ==> after[i] == before[i]
    &&& after[row]@ == before[row]@.update(s, val)
}

/// The value in `slot` of callout `callout_num`, when both exist.
pub fn onig_get_callout_data(reg: &RegexType, callout_data: &[CalloutData], callout_num: i32, slot: i32) -> (r: Option<i64>)
    ensures
        r == match data_slot(callout_data@.len() as int, callout_num, slot) {
            Some((row, s)) => Some(callout_data@[row]@[s]),
            None => None,
        },
{
    if callout_num < 1 || slot < 0 || slot >= ONIG_CALLOUT_DATA_SLOT_NUM as i32 {
        return None;
    }
    let idx = (callout_num - 1) as usize;
    if idx >= callout_data.len() {
        return None;
    }
    Some(callout_data[idx][slot as usize])
}

/// Stores `val` in `slot` of callout `callout_num`; an error when either
/// does not exist, and nothing changes then.
pub fn onig_set_callout_data(callout_data: &mut [CalloutData], callout_num: i32, slot: i32, val: i64) -> (r: i32)
    ensures
        final(callout_data)@.len() == old(callout_data)@.len(),
        match data_slot(old(callout_data)@.len() as int, callout_num, slot) {
            Some((row, s)) => r == ONIG_NORMAL && slot_updated(old(callout_data)@, final(callout_data)@, row, s, val),
            None => r == ONIGERR_INVALID_ARGUMENT && final(callout_data)@ == old(callout_data)@,
        },
{
    if callout_num < 1 || slot < 0 || slot >= ONIG_CALLOUT_DATA_SLOT_NUM as i32 {
        return ONIGERR_INVALID_ARGUMENT;
    }
    let idx = (callout_num - 1) as usize;
    if idx >= callout_data.len() {
        return ONIGERR_INVALID_ARGUMENT;
    }
    let mut row = callout_data[idx];
    row.set(slot as usize, val);
    callout_data.set(idx, row);
    ONIG_NORMAL
}

/// The same as `onig_get_callout_data`: slots are never cleared on access.
pub fn onig_get_callout_data_dont_clear_old(
    reg: &RegexType,
    callout_data: &[CalloutData],
    callout_num: i32,
    slot: i32,
) -> (r: Option<i64>)
    ensures
        r == match data_slot(callout_data@.len() as int, callout_num, slot) {
            Some((row, s)) => Some(callout_data@[row]@[s]),
            None => None,
        },
{
    onig_get_callout_data(reg, callout_data, callout_num, slot)
}

// === Callout tags ===

/// The first entry of the tag table with tag `tag`.
pub open spec fn tag_index(table: Seq<crate::regint::CalloutTag>, tag: Seq<u8>) -> Option<int>
    decreases table.len(),
{
    if table.len() == 0 {
        None
    } else {
        match tag_index(table.drop_last(), tag) {
            Some(i) => Some(i),
            None => if table.last().tag@ == tag { Some(table.len() - 1) } else { None },
        }
    }
}

proof fn lemma_tag_index(table: Seq<crate::regint::CalloutTag>, tag: Seq<u8>)
    ensures
        match tag_index(table, tag) {
            Some(i) => 0 <= i < table.len() && table[i].tag@ == tag && forall|j: int|
                0 <= j < i ==> table[j].tag@ != tag,
            None => forall|j: int| 0 <= j < table.len() ==> table[j].tag@ != tag,
        },
    decreases table.len(),
{
    if table.len() > 0 {
        lemma_tag_index(table.drop_last(), tag);
        assert forall|j: int| 0 <= j < table.len() - 1 implies table.drop_last()[j] == table[j] by {}
    }
}

/// The number of the callout tagged `tag`, when the pattern has one.
pub open spec fn tag_number(reg: &RegexType, tag: Seq<u8>) -> Option<i32> {
    match reg.extp {
        Some(ext) => match ext.tag_table {
            Some(table) => match tag_index(table@, tag) {
                Some(i) => Some(table@[i].num),
                None => None,
            },
            None => None,
        },
        None => None,
    }
}

/// The number of the callout tagged `tag`, or `ONIGERR_INVALID_ARGUMENT`.
pub fn onig_get_callout_num_by_tag(reg: &RegexType, tag: &[u8]) -> (r: i32)
    ensures
        r == match tag_number(reg, tag@) {
            Some(n) => n,
            None => ONIGERR_INVALID_ARGUMENT,
        },
{
    if let Some(ext) = &reg.extp {
        if let Some(table) = &ext.tag_table {
            let mut i: usize = 0;
            proof {
                lemma_tag_index(table@, tag@);
            }
            while i < table.len()
                invariant
                    i <= table@.len(),
                    reg.extp == Some(*ext),
                    ext.tag_table == Some(*table),
                    forall|j: int| 0 <= j < i ==> #[trigger] table@[j].tag@ != tag@,
                decreases table@.len() - i,
            {
                if same_bytes(table[i].tag.as_slice(), tag) {
                    proof {
                        lemma_tag_index(table@, tag@);
                        let k = tag_index(table@, tag@)->0;
                        if k < i {
                        } else if k > i {
                            assert(table@[i as int].tag@ != tag@);
                        }
                    }
                    return table[i].num;
                }
                i = i + 1;
            }
        }
    }
    ONIGERR_INVALID_ARGUMENT
}

/// The tag of callout `callout_num` (numbered from 1): its tag bytes, when
/// there are any.
pub open spec fn callout_tag(reg: &RegexType, callout_num: i32) -> Option<Seq<u8>> {
    match reg.extp {
        Some(ext) => if 1 <= callout_num && callout_num - 1 < ext.callout_list@.len() {
            let t = ext.callout_list@[callout_num - 1].tag_start@;
            if t.len() > 0 { Some(t) } else { None }
        } else {
            None
        },
        None => None,
    }
}

/// Whether callout `callout_num` has a tag.
pub fn onig_callout_tag_is_exist_at_callout_num(reg: &RegexType, callout_num: i32) -> (r: bool)
    ensures
        r == callout_tag(reg, callout_num) is Some,
{
    if let Some(ext) = &reg.extp {
        if callout_num >= 1 && ((callout_num - 1) as usize) < ext.callout_list.len() {
            return ext.callout_list[(callout_num - 1) as usize].tag_start.len() > 0;
        }
    }
    false
}

/// The tag of callout `callout_num`, when it has one.
pub fn onig_get_callout_tag(reg: &RegexType, callout_num: i32) -> (r: Option<&[u8]>)
    ensures
        r is Some <==> callout_tag(reg, callout_num) is Some,
        r matches Some(t) ==> t@ == callout_tag(reg, callout_num)->0,
{
    if let Some(ext) = &reg.extp {
        if callout_num >= 1 && ((callout_num - 1) as usize) < ext.callout_list.len() {
            let t = &ext.callout_list[(callout_num - 1) as usize].tag_start;
            if t.len() > 0 {
                return Some(t.as_slice());
            }
        }
    }
    None
}

/// The value in `slot` of the callout tagged `tag`, when both exist.
pub fn onig_get_callout_data_by_tag(reg: &RegexType, callout_data: &[CalloutData], tag: &[u8], slot: i32) -> (r: Option<i64>)
    ensures
        r == match tag_number(reg, tag@) {
            Some(n) => if n < 1 {
                None
            } else {
                match data_slot(callout_data@.len() as int, n, slot) {
                    Some((row, s)) => Some(callout_data@[row]@[s]),
                    None => None,
                }
            },
            None => None,
        },
{
    let num = onig_get_callout_num_by_tag(reg, tag);
    if num < 1 {
        return None;
    }
    onig_get_callout_data(reg, callout_data, num, slot)
}

/// Stores `val` in `slot` of the callout tagged `tag`: an unknown tag is an
/// error, as is a missing slot; nothing changes then.
pub fn onig_set_callout_data_by_tag(
    reg: &RegexType,
    callout_data: &mut [CalloutData],
    tag: &[u8],
    slot: i32,
    val: i64,
) -> (r: i32)
    ensures
        final(callout_data)@.len() == old(callout_data)@.len(),
        match tag_number(reg, tag@) {
            Some(n) if n >= 1 => match data_slot(old(callout_data)@.len() as int, n, slot) {
                Some((row, s)) => r == ONIG_NORMAL && slot_updated(old(callout_data)@, final(callout_data)@, row, s, val),
                None => r == ONIGERR_INVALID_ARGUMENT && final(callout_data)@ == old(callout_data)@,
            },
            _ => r == ONIGERR_INVALID_CALLOUT_TAG_NAME && final(callout_data)@ == old(callout_data)@,
        },
{
    let num = onig_get_callout_num_by_tag(reg, tag);
    if num < 1 {
        proof {
            if tag_number(reg, tag@) is Some {
                assert(tag_number(reg, tag@)->0 < 1);
            }
        }
        return ONIGERR_INVALID_CALLOUT_TAG_NAME;
    }
    onig_set_callout_data(callout_data, num, slot, val)
}

/// The same as `onig_get_callout_data_by_tag`: slots are never cleared on access.
pub fn onig_get_callout_data_by_tag_dont_clear_old(
    reg: &RegexType,
    callout_data: &[CalloutData],
    tag: &[u8],
    slot: i32,
) -> (r: Option<i64>)
    ensures
        r == match tag_number(reg, tag@) {
            Some(n) => if n < 1 {
                None
            } else {
                match data_slot(callout_data@.len() as int, n, slot) {
                    Some((row, s)) => Some(callout_data@[row]@[s]),
                    None => None,
                }
            },
            None => None,
        },
{
    onig_get_callout_data_by_tag(reg, callout_data, tag, slot)
}

// === Callout arguments ===

/// What a callout receives: where it is called, which callout it is, the
/// pattern, the subject and the positions of the match in it, the retry
/// count, and the data slots of the match's callouts.
pub struct OnigCalloutArgs<'a> {
    pub callout_in: OnigCalloutIn,
    pub name_id: i32,
    pub num: i32,
    pub regex: &'a RegexType,
    pub string: &'a [u8],
    pub string_end: usize,
    pub start: usize,
    pub right_range: usize,
    pub current: usize,
    pub retry_in_match_counter: u64,
    pub callout_data: Option<Vec<CalloutData>>,
}

impl<'a> OnigCalloutArgs<'a> {
    /// The arguments of callout `num` at `current` in `str_data`, whose
    /// search ends at `end`, started at `start` and may reach `right_range`;
    /// no data slots yet.
    pub fn new(
        callout_in: OnigCalloutIn,
        name_id: i32,
        num: i32,
        reg: &'a RegexType,
        str_data: &'a [u8],
        end: usize,
        start: usize,
        right_range: usize,
        current: usize,
        retry_counter: u64,
    ) -> (r: Self)
        requires
            end <= str_data@.len(),
            start <= str_data@.len(),
            right_range <= str_data@.len(),
            current <= str_data@.len(),
        ensures
            r.callout_in == callout_in,
            r.name_id == name_id,
            r.num == num,
            r.regex == reg,
            r.string@ == str_data@,
            r.string_end == end,
            r.start == start,
            r.right_range == right_range,
            r.current == current,
            r.retry_in_match_counter == retry_counter,
            r.callout_data is None,
    {
        OnigCalloutArgs {
            callout_in,
            name_id,
            num,
            regex: reg,
            string: str_data,
            string_end: end,
            start,
            right_range,
            current,
            retry_in_match_counter: retry_counter,
            callout_data: None,
        }
    }
}

/// The number of the callout being called.
pub fn onig_get_callout_num_by_callout_args(args: &OnigCalloutArgs) -> (r: i32)
    ensures
        r == args.num,
{
    args.num
}

/// Whether the callout is called on the way forward or when backtracking.
pub fn onig_get_callout_in_by_callout_args(args: &OnigCalloutArgs) -> (r: OnigCalloutIn)
    ensures
        r == args.callout_in,
{
    args.callout_in
}

/// The name id of the callout being called.
pub fn onig_get_name_id_by_callout_args(args: &OnigCalloutArgs) -> (r: i32)
    ensures
        r == args.name_id,
{
    args.name_id
}

/// The contents of a `(?{...})` callout: not kept, so always `None`.
pub fn onig_get_contents_by_callout_args<'b>(_args: &'b OnigCalloutArgs) -> (r: Option<&'b [u8]>)
    ensures
        r is None,
{
    None
}

/// The callout list entry of the callout being called.
pub open spec fn args_entry(args: &OnigCalloutArgs) -> Option<crate::regint::CalloutListEntry> {
    match args.regex.extp {
        Some(ext) => if 1 <= args.num && args.num - 1 < ext.callout_list@.len() {
            Some(ext.callout_list@[args.num - 1])
        } else {
            None
        },
        None => None,
    }
}

/// The number of arguments the callout takes (0 for a contents callout or an
/// unknown callout).
pub fn onig_get_args_num_by_callout_args(args: &OnigCalloutArgs) -> (r: i32)
    ensures
        r == match args_entry(args) {
            Some(e) => match e.content {
                CalloutContent::Args { num, .. } => num,
                _ => 0,
            },
            None => 0,
        },
{
    if let Some(ext) = &args.regex.extp {
        if args.num >= 1 && ((args.num - 1) as usize) < ext.callout_list.len() {
            match &ext.callout_list[(args.num - 1) as usize].content {
                CalloutContent::Args { num, .. } => return *num,
                _ => return 0,
            }
        }
    }
    0
}

/// The number of arguments given in the pattern (0 for a contents callout or
/// an unknown callout).
pub fn onig_get_passed_args_num_by_callout_args(args: &OnigCalloutArgs) -> (r: i32)
    ensures
        r == match args_entry(args) {
            Some(e) => match e.content {
                CalloutContent::Args { passed_num, .. } => passed_num,
                _ => 0,
            },
            None => 0,
        },
{
    if let Some(ext) = &args.regex.extp {
        if args.num >= 1 && ((args.num - 1) as usize) < ext.callout_list.len() {
            match &ext.callout_list[(args.num - 1) as usize].content {
                CalloutContent::Args { passed_num, .. } => return *passed_num,
                _ => return 0,
            }
        }
    }
    0
}

/// The type and value of argument `index` of the callout being called.
pub fn onig_get_arg_by_callout_args<'b>(args: &'b OnigCalloutArgs, index: i32) -> (r: Option<(OnigType, &'b OnigValue)>)
    ensures
        r == match args_entry(args) {
            Some(e) => match e.content {
                CalloutContent::Args { num, types, vals, .. } => if 0 <= index < num && index < 4 {
                    Some((types@[index as int], &vals@[index as int]))
                } else {
                    None
                },
                _ => None,
            },
            None => None,
        },
{
    if let Some(ext) = &args.regex.extp {
        if args.num >= 1 && ((args.num - 1) as usize) < ext.callout_list.len() {
            match &ext.callout_list[(args.num - 1) as usize].content {
                CalloutContent::Args { num, types, vals, .. } => {
                    if index >= 0 && index < *num && index < 4 {
                        return Some((types[index as usize], &vals[index as usize]));
                    }
                    return None;
                },
                _ => return None,
            }
        }
    }
    None
}

/// The subject of the search.
pub fn onig_get_string_by_callout_args<'b>(args: &'b OnigCalloutArgs) -> (r: &'b [u8])
    ensures
        r@ == args.string@,
{
    args.string
}

/// The end of the subject, as an offset into it.
pub fn onig_get_string_end_by_callout_args(args: &OnigCalloutArgs) -> (r: usize)
    ensures
        r == args.string_end,
{
    args.string_end
}

/// Where the current match attempt started, as an offset.
pub fn onig_get_start_by_callout_args(args: &OnigCalloutArgs) -> (r: usize)
    ensures
        r == args.start,
{
    args.start
}

/// How far the search may go, as an offset.
pub fn onig_get_right_range_by_callout_args(args: &OnigCalloutArgs) -> (r: usize)
    ensures
        r == args.right_range,
{
    args.right_range
}

/// Where the matcher is, as an offset.
pub fn onig_get_current_by_callout_args(args: &OnigCalloutArgs) -> (r: usize)
    ensures
        r == args.current,
{
    args.current
}

/// The pattern being matched.
pub fn onig_get_regex_by_callout_args<'b>(args: &'b OnigCalloutArgs) -> (r: &'b RegexType)
    ensures
        r == args.regex,
{
    args.regex
}

/// The retry count of the current match.
pub fn onig_get_retry_counter_by_callout_args(args: &OnigCalloutArgs) -> (r: u64)
    ensures
        r == args.retry_in_match_counter,
{
    args.retry_in_match_counter
}

/// The value in `slot` of callout `callout_num`, from the data the callout
/// receives; `None` when there is none.
pub fn onig_get_callout_data_by_callout_args(args: &OnigCalloutArgs, callout_num: i32, slot: i32) -> (r: Option<i64>)
    ensures
        r == match args.callout_data {
            Some(cd) => match data_slot(cd@.len() as int, callout_num, slot) {
                Some((row, s)) => Some(cd@[row]@[s]),
                None => None,
            },
            None => None,
        },
{
    match &args.callout_data {
        Some(cd) => onig_get_callout_data(args.regex, cd.as_slice(), callout_num, slot),
        None => None,
    }
}

/// Stores `val` in `slot` of callout `callout_num` in the data the callout
/// receives; an error when there is no such data or slot.
pub fn onig_set_callout_data_by_callout_args(args: &mut OnigCalloutArgs, callout_num: i32, slot: i32, val: i64) -> (r: i32)
    ensures
        final(args).num == old(args).num,
        final(args).regex == old(args).regex,
        match old(args).callout_data {
            Some(cd) => (final(args).callout_data matches Some(cd2) && match data_slot(cd@.len() as int, callout_num, slot) {
                Some((row, s)) => r == ONIG_NORMAL && slot_updated(cd@, cd2@, row, s, val),
                None => r == ONIGERR_INVALID_ARGUMENT && cd2@ == cd@,
            }),
            None => r == ONIGERR_INVALID_ARGUMENT && final(args).callout_data is None,
        },
{
    match &mut args.callout_data {
        Some(cd) => onig_set_callout_data(cd.as_mut_slice(), callout_num, slot, val),
        None => ONIGERR_INVALID_ARGUMENT,
    }
}

/// The data in `slot` of the callout the arguments are for.
pub fn onig_get_callout_data_by_callout_args_self(args: &OnigCalloutArgs, slot: i32) -> (r: Option<i64>)
    ensures
        r == match args.callout_data {
            Some(cd) => match data_slot(cd@.len() as int, args.num, slot) {
                Some((row, s)) => Some(cd@[row]@[s]),
                None => None,
            },
            None => None,
        },
{
    onig_get_callout_data_by_callout_args(args, args.num, slot)
}

/// Stores `val` in `slot` of the callout the arguments are for; an error
/// when there is no such data or slot.
pub fn onig_set_callout_data_by_callout_args_self(args: &mut OnigCalloutArgs, slot: i32, val: i64) -> (r: i32)
    ensures
        final(args).num == old(args).num,
        final(args).regex == old(args).regex,
        match old(args).callout_data {
            Some(cd) => (final(args).callout_data matches Some(cd2) && match data_slot(cd@.len() as int, old(args).num, slot) {
                Some((row, s)) => r == ONIG_NORMAL && slot_updated(cd@, cd2@, row, s, val),
                None => r == ONIGERR_INVALID_ARGUMENT && cd2@ == cd@,
            }),
            None => r == ONIGERR_INVALID_ARGUMENT && final(args).callout_data is None,
        },
{
    let num = args.num;
    onig_set_callout_data_by_callout_args(args, num, slot, val)
}

/// The same as [`onig_get_callout_data_by_callout_args_self`]: reading never
/// clears data here.
pub fn onig_get_callout_data_by_callout_args_self_dont_clear_old(args: &OnigCalloutArgs, slot: i32) -> (r: Option<i64>)
    ensures
        r == match args.callout_data {
            Some(cd) => match data_slot(cd@.len() as int, args.num, slot) {
                Some((row, s)) => Some(cd@[row]@[s]),
                None => None,
            },
            None => None,
        },
{
    onig_get_callout_data_by_callout_args_self(args, slot)
}

/// The range group `mem_num` captured when the callout runs. The arguments
/// carry no capture state, so a valid group reports no position; a group
/// number below 1 is an error.
pub fn onig_get_capture_range_in_callout(_args: &OnigCalloutArgs, mem_num: i32) -> (r: Result<(i32, i32), i32>)
    ensures
        mem_num <= 0 ==> r == Err::<(i32, i32), i32>(ONIGERR_INVALID_ARGUMENT),
        mem_num > 0 ==> r == Ok::<(i32, i32), i32>((ONIG_REGION_NOTPOS, ONIG_REGION_NOTPOS)),
{
    if mem_num <= 0 {
        return Err(ONIGERR_INVALID_ARGUMENT);
    }
    Ok((ONIG_REGION_NOTPOS, ONIG_REGION_NOTPOS))
}

/// The stack the match uses when the callout runs, as (entries, bytes). The
/// arguments carry no stack state, so both are 0.
pub fn onig_get_used_stack_size_in_callout(_args: &OnigCalloutArgs) -> (r: (i32, i32))
    ensures
        r == (0i32, 0i32),
{
    (0, 0)
}

// === Word positions ===

/// `[0-9A-Za-z_]`.
pub open spec fn is_word_ascii_code(code: OnigCodePoint) -> bool {
    (0x30 <= code <= 0x39) || (0x41 <= code <= 0x5a) || (0x61 <= code <= 0x7a) || code == 0x5f
}

/// The character at `s` (before `end`) is a word character: of the
/// encoding when `mode` is 0, of ASCII otherwise.
pub open spec fn word_char_at(enc: OnigEncoding, data: Seq<u8>, s: int, end: int, mode: ModeType) -> bool {
    if s >= end {
        false
    } else {
        let code = enc.code_spec(data.subrange(s, data.len() as int));
        if mode == 0 {
            enc.ctype_spec(code, ONIGENC_CTYPE_WORD)
        } else {
            is_word_ascii_code(code)
        }
    }
}

/// The start of the character before `s`, not before `start`.
pub open spec fn prev_head(enc: OnigEncoding, start: int, s: int, data: Seq<u8>) -> int {
    if s <= start {
        s
    } else {
        enc.left_adjust_spec(start, s - 1, data)
    }
}

/// `s` lies between a word character and another: at the start of the text
/// before one, at its end after one, or inside it between characters that
/// differ in that.
pub open spec fn word_boundary_at(enc: OnigEncoding, data: Seq<u8>, s: int, end: int, mode: ModeType) -> bool {
    let before = word_char_at(enc, data, prev_head(enc, 0, s, data), end, mode);
    let after = word_char_at(enc, data, s, end, mode);
    if s == 0 && s >= end {
        false
    } else if s == 0 {
        after
    } else if s >= end {
        before
    } else {
        before != after
    }
}

/// A word starts at `s`: a word character follows, and none comes before.
pub open spec fn word_begin_at(enc: OnigEncoding, data: Seq<u8>, s: int, end: int, mode: ModeType) -> bool {
    &&& s < end
    &&& word_char_at(enc, data, s, end, mode)
    &&& (s == 0 || !word_char_at(enc, data, prev_head(enc, 0, s, data), end, mode))
}

/// A word ends at `s`: a word character comes before, and none follows.
pub open spec fn word_end_at(enc: OnigEncoding, data: Seq<u8>, s: int, end: int, mode: ModeType) -> bool {
    &&& s != 0
    &&& word_char_at(enc, data, prev_head(enc, 0, s, data), end, mode)
    &&& (s >= end || !word_char_at(enc, data, s, end, mode))
}

/// Whether the character at `s` is a word character of the encoding.
pub fn is_word_char_at(enc: OnigEncoding, str_data: &[u8], s: usize, end: usize) -> (r: bool)
    requires
        end <= str_data@.len(),
    ensures
        r == word_char_at(enc, str_data@, s as int, end as int, 0),
{
    if s >= end {
        return false;
    }
    let rest = vstd::slice::slice_subrange(str_data, s, str_data.len());
    let code = enc.mbc_to_code(rest, end);
    enc.is_code_ctype(code, ONIGENC_CTYPE_WORD)
}

/// Whether the character at `s` is a word character: of the encoding when
/// `mode` is 0, of ASCII (letters, digits, `_`) otherwise.
pub fn is_word_char_ascii_mode(enc: OnigEncoding, str_data: &[u8], s: usize, end: usize, mode: ModeType) -> (r: bool)
    requires
        end <= str_data@.len(),
    ensures
        r == word_char_at(enc, str_data@, s as int, end as int, mode),
{
    if mode == 0 {
        return is_word_char_at(enc, str_data, s, end);
    }
    if s >= end {
        return false;
    }
    let rest = vstd::slice::slice_subrange(str_data, s, str_data.len());
    let code = enc.mbc_to_code(rest, end);
    if code > 0x7f {
        return false;
    }
    (0x30 <= code && code <= 0x39) || (0x41 <= code && code <= 0x5a) || (0x61 <= code && code <= 0x7a) || code == 0x5f
}

/// The start of the character before `s`, not before `start`.
pub fn prev_char_head(enc: OnigEncoding, start: usize, s: usize, str_data: &[u8]) -> (r: usize)
    requires
        s <= str_data@.len(),
    ensures
        r == prev_head(enc, start as int, s as int, str_data@),
{
    if s <= start {
        return s;
    }
    enc.left_adjust_char_head(start, s - 1, str_data)
}

/// Whether `s` is a word boundary.
pub fn is_word_boundary(enc: OnigEncoding, str_data: &[u8], s: usize, end: usize, mode: ModeType) -> (r: bool)
    requires
        s <= str_data@.len(),
        end <= str_data@.len(),
    ensures
        r == word_boundary_at(enc, str_data@, s as int, end as int, mode),
{
    let at_start = s == 0;
    let at_end = s >= end;
    if at_start && at_end {
        return false;
    }
    if at_start {
        return is_word_char_ascii_mode(enc, str_data, s, end, mode);
    }
    let prev = prev_char_head(enc, 0, s, str_data);
    if at_end {
        return is_word_char_ascii_mode(enc, str_data, prev, end, mode);
    }
    let prev_word = is_word_char_ascii_mode(enc, str_data, prev, end, mode);
    let curr_word = is_word_char_ascii_mode(enc, str_data, s, end, mode);
    prev_word != curr_word
}

/// Whether a word starts at `s`.
pub fn is_word_begin(enc: OnigEncoding, str_data: &[u8], s: usize, end: usize, mode: ModeType) -> (r: bool)
    requires
        s <= str_data@.len(),
        end <= str_data@.len(),
    ensures
        r == word_begin_at(enc, str_data@, s as int, end as int, mode),
{
    if s >= end {
        return false;
    }
    if !is_word_char_ascii_mode(enc, str_data, s, end, mode) {
        return false;
    }
    if s == 0 {
        return true;
    }
    let prev = prev_char_head(enc, 0, s, str_data);
    !is_word_char_ascii_mode(enc, str_data, prev, end, mode)
}

/// Whether a word ends at `s`.
pub fn is_word_end(enc: OnigEncoding, str_data: &[u8], s: usize, end: usize, mode: ModeType) -> (r: bool)
    requires
        s <= str_data@.len(),
        end <= str_data@.len(),
    ensures
        r == word_end_at(enc, str_data@, s as int, end as int, mode),
{
    if s == 0 {
        return false;
    }
    let prev = prev_char_head(enc, 0, s, str_data);
    if !is_word_char_ascii_mode(enc, str_data, prev, end, mode) {
        return false;
    }
    if s >= end {
        return true;
    }
    !is_word_char_ascii_mode(enc, str_data, s, end, mode)
}

// === Code range tables ===

/// The first code point of the `i`-th range of a table (`data[0]` is the
/// number of ranges, then each range as its first and last code point).
pub open spec fn range_from(data: Seq<u32>, i: int) -> u32 {
    data[2 * i + 1]
}

/// The last code point of the `i`-th range of a table.
pub open spec fn range_to(data: Seq<u32>, i: int) -> u32 {
    data[2 * i + 2]
}

/// The ranges of a table are in order and apart: each starts no later than
/// it ends, and ends before the next starts.
pub open spec fn ranges_in_order(data: Seq<u32>) -> bool {
    &&& forall|i: int| 0 <= i < data[0] ==> #[trigger] range_from(data, i) <= range_to(data, i)
    &&& forall|i: int, j: int| 0 <= i < j < data[0] ==> #[trigger] range_to(data, i) < #[trigger] range_from(data, j)
}

/// Whether `code` lies in one of the ranges of the table `data`: `data[0]`
/// is the number of ranges, each given as its first and last code point.
/// Binary search: for a table whose ranges are in order the answer is exact;
/// for another, `true` still names a range that starts at or before `code`.
pub fn is_in_code_range(data: &[u32], code: OnigCodePoint) -> (r: bool)
    requires
        data@.len() == 0 || 2 * data@[0] + 1 <= data@.len(),
    ensures
        data@.len() == 0 ==> !r,
        data@.len() > 0 && ranges_in_order(data@) ==> (r <==> exists|i: int|
            0 <= i < data@[0] && range_from(data@, i) <= code <= #[trigger] range_to(data@, i)),
        r ==> data@.len() > 0 && exists|i: int| 0 <= i < data@[0] && #[trigger] range_from(data@, i) <= code,
{
    if data.len() == 0 {
        return false;
    }
    let len = data.len();
    let n = data[0] as usize;
    let mut low: usize = 0;
    let mut high: usize = n;
    while low < high
        invariant
            len == data@.len(),
            low <= high <= n,
            n == data@[0],
            2 * n + 1 <= data@.len(),
            ranges_in_order(data@) ==> forall|i: int| 0 <= i < low ==> #[trigger] range_to(data@, i) < code,
            ranges_in_order(data@) ==> forall|i: int| high <= i < n ==> code <= #[trigger] range_to(data@, i),
        decreases high - low,
    {
        let x = low + (high - low) / 2;
        let to = data[x + x + 2];
        assert(to == range_to(data@, x as int));
        if code > to {
            proof {
                if ranges_in_order(data@) {
                    assert forall|i: int| 0 <= i < x + 1 implies #[trigger] range_to(data@, i) < code by {
                        if i < x {
                            assert(range_to(data@, i) < range_from(data@, x as int));
                            assert(range_from(data@, x as int) <= range_to(data@, x as int));
                        }
                    }
                }
            }
            low = x + 1;
        } else {
            proof {
                if ranges_in_order(data@) {
                    assert forall|i: int| x <= i < n implies code <= #[trigger] range_to(data@, i) by {
                        if i > x {
                            assert(range_to(data@, x as int) < range_from(data@, i));
                            assert(range_from(data@, i) <= range_to(data@, i));
                        }
                    }
                }
            }
            high = x;
        }
    }
    let r = low < n && code >= data[low + low + 1];
    proof {
        if low < n {
            assert(data@[low + low + 1] == range_from(data@, low as int));
        }
        if ranges_in_order(data@) {
            if exists|i: int| 0 <= i < data@[0] && range_from(data@, i) <= code <= #[trigger] range_to(data@, i) {
                let i = choose|i: int| 0 <= i < data@[0] && range_from(data@, i) <= code <= #[trigger] range_to(data@, i);
                if i < low {
                    assert(range_to(data@, i) < code);
                } else if i > low {
                    assert(range_to(data@, low as int) < range_from(data@, i));
                }
            }
            if r {
                assert(range_from(data@, low as int) <= code <= range_to(data@, low as int));
            }
        }
    }
    r
}

/// Whether `mem` is one of the first `num` groups in `mems`; a negative
/// `num` looks through all of `mems`, where `mem` must then be.
pub fn mem_is_in_mems(mem: usize, num: i32, mems: &[i32]) -> (r: bool)
    requires
        num >= 0 ==> num <= mems@.len(),
        num < 0 ==> exists|i: int| 0 <= i < mems@.len() && #[trigger] mems@[i] as usize == mem,
    ensures
        r == exists|i: int| 0 <= i < (if num >= 0 { num as int } else { mems@.len() as int }) && #[trigger] mems@[i] as usize == mem,
{
    // A negative count reaches past every group; `mem` is among them then.
    let count: usize = if num >= 0 { num as usize } else { mems.len() };
    let mut i: usize = 0;
    while i < count
        invariant
            count == (if num >= 0 { num as int } else { mems@.len() as int }),
            count <= mems@.len(),
            num < 0 ==> exists|j: int| i <= j < mems@.len() && #[trigger] mems@[j] as usize == mem,
            forall|j: int| 0 <= j < i ==> #[trigger] mems@[j] as usize != mem,
            i <= mems@.len(),
        decreases count - i,
    {
        if mem == mems[i] as usize {
            return true;
        }
        proof {
            if num < 0 {
                let j = choose|j: int| i <= j < mems@.len() && #[trigger] mems@[j] as usize == mem;
                assert(j != i);
            }
        }
        i = i + 1;
    }
    false
}

// === Limits and callout arguments ===

/// Whether the match stack may grow past `stack_len` entries: an error once
/// it holds `limit` (0 is no limit).
pub fn check_stack_limit(stack_len: usize, limit: u32) -> (r: Result<(), i32>)
    ensures
        r == if limit != 0 && stack_len >= limit { Err::<(), i32>(ONIGERR_MATCH_STACK_LIMIT_OVER) } else { Ok::<(), i32>(()) },
{
    if limit != 0 && stack_len >= limit as usize {
        return Err(ONIGERR_MATCH_STACK_LIMIT_OVER);
    }
    Ok(())
}

/// The code of a comparison operator of the `CMP` callout: `==` 0, `!=` 1,
/// `<` 2, `>` 3, `<=` 4, `>=` 5; -1 for anything else.
pub open spec fn cmp_op_code(s: Seq<u8>) -> i32 {
    if s == seq![0x3du8, 0x3du8] {
        0
    } else if s == seq![0x21u8, 0x3du8] {
        1
    } else if s == seq![0x3cu8] {
        2
    } else if s == seq![0x3eu8] {
        3
    } else if s == seq![0x3cu8, 0x3du8] {
        4
    } else if s == seq![0x3eu8, 0x3du8] {
        5
    } else {
        -1i32
    }
}

/// The code of the comparison operator `s` names (see [`cmp_op_code`]).
pub fn parse_cmp_op(s: &[u8]) -> (r: i32)
    ensures
        r == cmp_op_code(s@),
{
    if s.len() == 1 {
        if s[0] == 0x3c {
            assert(s@ == seq![0x3cu8]);
            return 2;
        }
        if s[0] == 0x3e {
            assert(s@ == seq![0x3eu8]);
            return 3;
        }
        return -1;
    }
    if s.len() == 2 && s[1] == 0x3d {
        if s[0] == 0x3d {
            assert(s@ == seq![0x3du8, 0x3du8]);
            return 0;
        }
        if s[0] == 0x21 {
            assert(s@ == seq![0x21u8, 0x3du8]);
            return 1;
        }
        if s[0] == 0x3c {
            assert(s@ == seq![0x3cu8, 0x3du8]);
            return 4;
        }
        if s[0] == 0x3e {
            assert(s@ == seq![0x3eu8, 0x3du8]);
            return 5;
        }
    }
    proof {
        if s@.len() == 2 {
            assert(s@ != seq![0x3du8, 0x3du8] ==> s@[0] != 0x3d || s@[1] != 0x3d);
        }
    }
    -1
}

// === Case-insensitive comparison ===

/// Compares the text from `p1` up to `end1` with the text from `p2` up to
/// `end2`, a case-folded character at a time: where the second text ends
/// when every character folds alike and both end together, `None` when they
/// differ.
pub open spec fn folded_from(enc: OnigEncoding, data: Seq<u8>, p1: int, end1: int, p2: int, end2: int) -> Option<int>
    decreases if p1 < end1 { end1 - p1 } else { 0 },
{
    if p1 >= end1 {
        Some(p2)
    } else if p2 >= end2 {
        None
    } else {
        let (f1, n1) = enc.fold_spec(data, p1, end1);
        let (f2, n2) = enc.fold_spec(data, p2, end2);
        if f1 != f2 {
            None
        } else if n2 >= end2 {
            if n1 < end1 { None } else { Some(n2) }
        } else if n1 <= p1 {
            None
        } else {
            folded_from(enc, data, n1, end1, n2, end2)
        }
    }
}

/// The text of `mblen` bytes at `s1` compared with the text at `s2`, a
/// case-folded character at a time (see [`folded_from`]).
pub open spec fn folded_match(enc: OnigEncoding, data: Seq<u8>, s1: usize, s2: usize, mblen: usize) -> Option<int> {
    folded_from(enc, data, s1 as int, s1 + mblen, s2 as int, s2 + mblen)
}

/// Whether the `mblen` bytes at `s1_pos` equal those at `*s2_pos` when
/// each character is case-folded; on success `*s2_pos` moves past them.
pub fn string_cmp_ic(
    enc: OnigEncoding,
    case_fold_flag: u32,
    data: &[u8],
    s1_pos: usize,
    s2_pos: &mut usize,
    mblen: usize,
) -> (r: bool)
    requires
        s1_pos + mblen <= data@.len(),
        *old(s2_pos) + mblen <= data@.len(),
    ensures
        match folded_match(enc, data@, s1_pos, *old(s2_pos), mblen) {
            Some(n) => r && *final(s2_pos) == n,
            None => !r && *final(s2_pos) == *old(s2_pos),
        },
{
    equal_folded(enc, case_fold_flag, data, s1_pos, s2_pos, mblen)
}

/// Whether the first `n` bytes of `a` and `b` are equal.
fn prefix_equal(a: &[u8; 18], b: &[u8; 18], n: usize) -> (r: bool)
    requires
        n <= 18,
    ensures
        r == (a@.subrange(0, n as int) == b@.subrange(0, n as int)),
{
    let mut i: usize = 0;
    while i < n
        invariant
            n <= 18,
            i <= n,
            forall|k: int| 0 <= k < i ==> a@[k] == b@[k],
        decreases n - i,
    {
        if a[i] != b[i] {
            assert(a@.subrange(0, n as int)[i as int] != b@.subrange(0, n as int)[i as int]);
            return false;
        }
        i = i + 1;
    }
    assert(a@.subrange(0, n as int) =~= b@.subrange(0, n as int));
    true
}

/// Whether the `mblen` bytes at `s1_pos` equal those at `*s2_pos` when
/// each character is case-folded; on success `*s2_pos` moves past them.
fn equal_folded(
    enc: OnigEncoding,
    case_fold_flag: u32,
    data: &[u8],
    s1_pos: usize,
    s2_pos: &mut usize,
    mblen: usize,
) -> (r: bool)
    requires
        s1_pos + mblen <= data@.len(),
        *old(s2_pos) + mblen <= data@.len(),
    ensures
        match folded_from(enc, data@, s1_pos as int, s1_pos + mblen, *old(s2_pos) as int, *old(s2_pos) + mblen) {
            Some(n) => r && *final(s2_pos) == n,
            None => !r && *final(s2_pos) == *old(s2_pos),
        },
{
    let mut buf1 = [0u8; ONIGENC_MBC_CASE_FOLD_MAXLEN];
    let mut buf2 = [0u8; ONIGENC_MBC_CASE_FOLD_MAXLEN];
    let _data_len = data.len();
    let end1 = s1_pos + mblen;
    let end2 = *s2_pos + mblen;
    let mut p1 = s1_pos;
    let mut p2 = *s2_pos;
    proof {
        enc.lemma_enc_len_bounds(seq![0u8]);
    }
    while p1 < end1
        invariant
            end1 <= data@.len(),
            end2 <= data@.len(),
            end2 == *old(s2_pos) + mblen,
            end1 == s1_pos + mblen,
            *s2_pos == *old(s2_pos),
            p2 < end2 || p1 >= end1,
            buf1@.len() == ONIGENC_MBC_CASE_FOLD_MAXLEN,
            buf2@.len() == ONIGENC_MBC_CASE_FOLD_MAXLEN,
            enc.max_len_spec() <= 4,
            folded_from(enc, data@, s1_pos as int, end1 as int, *old(s2_pos) as int, end2 as int) == folded_from(
                enc,
                data@,
                p1 as int,
                end1 as int,
                p2 as int,
                end2 as int,
            ),
        decreases end1 - p1,
    {
        let ghost q1 = p1;
        let ghost q2 = p2;
        let len1 = enc.mbc_case_fold(case_fold_flag, &mut p1, end1, data, &mut buf1);
        let len2 = enc.mbc_case_fold(case_fold_flag, &mut p2, end2, data, &mut buf2);
        let ghost f1 = enc.fold_spec(data@, q1 as int, end1 as int).0;
        let ghost f2 = enc.fold_spec(data@, q2 as int, end2 as int).0;
        if len1 != len2 {
            proof {
                assert(f1.len() != f2.len());
            }
            return false;
        }
        let n = len1 as usize;
        if !prefix_equal(&buf1, &buf2, n) {
            return false;
        }
        assert(f1 =~= f2);
        if p2 >= end2 {
            if p1 < end1 {
                return false;
            }
            *s2_pos = p2;
            return true;
        }
    }
    *s2_pos = p2;
    true
}

/// The capture history tree of a region, if it has one.
pub fn onig_get_capture_tree(region: &OnigRegion) -> (r: Option<&OnigCaptureTreeNode>)
    ensures
        r is None <==> region.history_root is None,
        r matches Some(n) ==> (region.history_root matches Some(b) && *n == *b),
{
    match &region.history_root {
        Some(b) => Some(&**b),
        None => None,
    }
}


/// In ASCII word mode, the character at `s` (before `end`) is a word
/// character exactly when its code is a digit, a letter or `_`.
pub proof fn lemma_ascii_word_chars(enc: OnigEncoding, data: Seq<u8>, s: int, end: int, mode: ModeType)
    requires
        mode != 0,
        s < end,
    ensures
        ({
            let code = enc.code_spec(data.subrange(s, data.len() as int));
            word_char_at(enc, data, s, end, mode) <==> (0x30 <= code <= 0x39 || 0x41 <= code <= 0x5a || 0x61 <= code
                <= 0x7a || code == 0x5f)
        }),
{
}

/// The case-folded bytes of the characters from `p` while before `stop`,
/// each read as the encoding folds it within `end`.
pub open spec fn fold_span(enc: OnigEncoding, data: Seq<u8>, p: int, stop: int, end: int) -> Seq<u8>
    decreases if p < stop { stop - p } else { 0 },
{
    if p >= stop {
        Seq::empty()
    } else {
        let (f, n) = enc.fold_spec(data, p, end);
        if n <= p { f } else { f + fold_span(enc, data, n, stop, end) }
    }
}

proof fn lemma_fold_advances(enc: OnigEncoding, data: Seq<u8>, p: int, end: int)
    requires
        p < end,
    ensures
        p < enc.fold_spec(data, p, end).1 <= end,
{
}

/// A case-insensitive comparison succeeds only when the two spans fold to
/// the same bytes: when the text from `p1` to `end1` matches the text from
/// `p2` up to `n`, their case-folded bytes are equal (for UTF-8, non-ASCII
/// characters fold to themselves, so their bytes must be identical).
pub proof fn lemma_folded_equal(enc: OnigEncoding, data: Seq<u8>, p1: int, end1: int, p2: int, end2: int)
    ensures
        folded_from(enc, data, p1, end1, p2, end2) matches Some(n) ==> p2 <= n <= end2 || p1 >= end1,
        folded_from(enc, data, p1, end1, p2, end2) matches Some(n) ==> fold_span(enc, data, p1, end1, end1) == fold_span(
            enc,
            data,
            p2,
            n,
            end2,
        ),
    decreases if p1 < end1 { end1 - p1 } else { 0 },
{
    if p1 < end1 && p2 < end2 {
        let (f1, n1) = enc.fold_spec(data, p1, end1);
        let (f2, n2) = enc.fold_spec(data, p2, end2);
        lemma_fold_advances(enc, data, p1, end1);
        lemma_fold_advances(enc, data, p2, end2);
        if f1 == f2 {
            if n2 >= end2 {
                if n1 >= end1 {
                    assert(fold_span(enc, data, n1, end1, end1) =~= Seq::<u8>::empty());
                    assert(fold_span(enc, data, n2, n2, end2) =~= Seq::<u8>::empty());
                    assert(fold_span(enc, data, p1, end1, end1) =~= f1);
                    assert(fold_span(enc, data, p2, n2, end2) =~= f2);
                }
            } else if n1 > p1 {
                lemma_folded_equal(enc, data, n1, end1, n2, end2);
                if folded_from(enc, data, n1, end1, n2, end2) is Some {
                    let n = folded_from(enc, data, n1, end1, n2, end2)->0;
                    if n1 >= end1 {
                        assert(n == n2);
                        assert(fold_span(enc, data, n1, end1, end1) =~= Seq::<u8>::empty());
                        assert(fold_span(enc, data, n2, n2, end2) =~= Seq::<u8>::empty());
                    }
                    assert(n >= n2);
                    assert(n > p2);
                }
            }
        }
    }
}

/// `string_cmp_ic` answers `true` only when the two spans of `mblen` bytes
/// fold to the same bytes (see `lemma_folded_equal`).
pub proof fn lemma_case_insensitive_match_folds_equal(enc: OnigEncoding, data: Seq<u8>, s1: usize, s2: usize, mblen: usize)
    ensures
        folded_match(enc, data, s1, s2, mblen) matches Some(n) ==> fold_span(enc, data, s1 as int, s1 + mblen, s1 + mblen)
            == fold_span(enc, data, s2 as int, n, s2 + mblen),
{
    lemma_folded_equal(enc, data, s1 as int, s1 + mblen, s2 as int, s2 + mblen);
}

} // verus!
