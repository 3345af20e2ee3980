//! The scans a search runs before the matcher: they find where the literal
//! or the first-byte map a pattern was optimized for occurs, and so where a
//! match can start.
use vstd::prelude::*;

use crate::regenc::{Encoding, OnigEncoding};
use crate::regint::{
    OptimizeType, RegexType, ANCR_ANYCHAR_INF_ML, ANCR_BEGIN_BUF, ANCR_BEGIN_LINE, ANCR_BEGIN_POSITION,
    ANCR_END_BUF, ANCR_END_LINE, ANCR_SEMI_END_BUF, INFINITE_LEN,
};

verus! {

/// The length of the character at `s` (at least one byte); 1 past the end
/// of `text`.
pub open spec fn char_step(enc: OnigEncoding, text: Seq<u8>, s: int) -> int {
    if s < 0 || s >= text.len() {
        1
    } else {
        let l = enc.enc_len_spec(text.subrange(s, text.len() as int)) as int;
        if l < 1 { 1 } else { l }
    }
}

/// A character is at least one byte long.
pub proof fn lemma_char_step_positive(enc: OnigEncoding, text: Seq<u8>, s: int)
    ensures
        1 <= char_step(enc, text, s) <= 4,
{
    if 0 <= s < text.len() {
        enc.lemma_enc_len_bounds(text.subrange(s, text.len() as int));
    }
}

/// A position as an integer.
pub open spec fn as_pos(r: Option<usize>) -> Option<int> {
    match r {
        Some(p) => Some(p as int),
        None => None,
    }
}

/// The length of the character at `s`; 1 past the end of `str_data`.
pub fn enclen(enc: OnigEncoding, str_data: &[u8], s: usize) -> (r: usize)
    ensures
        r == char_step(enc, str_data@, s as int),
        1 <= r <= 4,
{
    proof {
        lemma_char_step_positive(enc, str_data@, s as int);
    }
    if s >= str_data.len() {
        1
    } else {
        let rest = vstd::slice::slice_subrange(str_data, s, str_data.len());
        enc.mbc_enc_len(rest)
    }
}

/// Whether every character of the encoding is one byte long.
pub fn enc_is_singlebyte(enc: OnigEncoding) -> (r: bool)
    ensures
        r == (enc.max_len_spec() == 1),
{
    enc.max_enc_len() == 1
}

/// A newline starts at `pos`, before `end`.
pub open spec fn newline_at(text: Seq<u8>, pos: int, end: int) -> bool {
    pos < end && text[pos] == 0x0a
}

/// Whether a newline starts at `pos`, before `end`.
pub fn is_mbc_newline(_enc: OnigEncoding, text: &[u8], pos: usize, end: usize) -> (r: bool)
    requires
        pos < end ==> pos < text@.len(),
    ensures
        r == newline_at(text@, pos as int, end as int),
{
    if pos >= end {
        return false;
    }
    text[pos] == 0x0a
}

/// The first character start from `s` on (stepping a character at a time)
/// before `range` whose byte `map` marks.
pub open spec fn map_hit_from(enc: OnigEncoding, map: Seq<u8>, text: Seq<u8>, s: int, range: int) -> Option<int>
    decreases if s < range { range - s } else { 0 },
{
    if s >= range {
        None
    } else if map[text[s] as int] != 0 {
        Some(s)
    } else {
        map_hit_from(enc, map, text, s + char_step(enc, text, s), range)
    }
}

/// The first character start from `text_start` on, before `text_range`,
/// whose byte `map` marks.
pub fn map_search(enc: OnigEncoding, map: &[u8; 256], text: &[u8], text_start: usize, text_range: usize) -> (r: Option<usize>)
    requires
        text_range <= text@.len() <= isize::MAX,
    ensures
        as_pos(r) == map_hit_from(enc, map@, text@, text_start as int, text_range as int),
        r matches Some(p) ==> text_start <= p < text_range && map@[text@[p as int] as int] != 0,
{
    let mut s = text_start;
    while s < text_range
        invariant
            text_range <= text@.len() <= isize::MAX,
            text_start <= s,
            map_hit_from(enc, map@, text@, text_start as int, text_range as int) == map_hit_from(
                enc,
                map@,
                text@,
                s as int,
                text_range as int,
            ),
        decreases if s < text_range { text_range - s } else { 0 },
    {
        if map[text[s] as usize] != 0 {
            return Some(s);
        }
        s = s + enclen(enc, text, s);
    }
    None
}

/// `target` occurs at `s`, ending before `end`.
pub open spec fn occurs_at(text: Seq<u8>, target: Seq<u8>, s: int, end: int) -> bool {
    &&& s + target.len() <= end
    &&& forall|i: int| 0 <= i < target.len() ==> #[trigger] text[s + i] == target[i]
}

/// The first character start from `s` on (stepping a character at a time)
/// before `limit` at which `target` occurs before `end`.
pub open spec fn occurrence_from(enc: OnigEncoding, target: Seq<u8>, text: Seq<u8>, s: int, limit: int, end: int) -> Option<int>
    decreases if s < limit { limit - s } else { 0 },
{
    if s >= limit {
        None
    } else if occurs_at(text, target, s, end) {
        Some(s)
    } else {
        occurrence_from(enc, target, text, s + char_step(enc, text, s), limit, end)
    }
}

/// Whether `target` occurs at `s`, ending before `text_end`.
fn matches_at(target: &[u8], text: &[u8], s: usize, text_end: usize) -> (r: bool)
    requires
        0 < target@.len() <= isize::MAX,
        s < text_end <= text@.len() <= isize::MAX,
    ensures
        r == occurs_at(text@, target@, s as int, text_end as int),
{
    if text[s] != target[0] {
        assert(text@[s + 0] != target@[0]);
        return false;
    }
    let tlen = target.len();
    let mut i: usize = 1;
    while i < tlen
        invariant
            1 <= i <= tlen,
            tlen == target@.len() <= isize::MAX,
            s < text_end <= text@.len() <= isize::MAX,
            s + i <= text_end,
            forall|k: int| 0 <= k < i ==> #[trigger] text@[s + k] == target@[k],
        decreases tlen - i,
    {
        if s + i >= text_end || text[s + i] != target[i] {
            assert(!(s + i < text_end && text@[s + i] == target@[i as int]));
            return false;
        }
        i = i + 1;
    }
    true
}

/// An occurrence found from `s` on lies at `s` or after it.
proof fn lemma_occurrence_after(enc: OnigEncoding, target: Seq<u8>, text: Seq<u8>, s: int, limit: int, end: int)
    ensures
        occurrence_from(enc, target, text, s, limit, end) matches Some(p) ==> s <= p < limit,
    decreases if s < limit { limit - s } else { 0 },
{
    if s < limit && !occurs_at(text, target, s, end) {
        lemma_occurrence_after(enc, target, text, s + char_step(enc, text, s), limit, end);
    }
}

/// The first character start from `text_start` on, before `text_range`, at
/// which `target` occurs before `text_end`; an empty target occurs at
/// `text_start`.
pub fn slow_search(
    enc: OnigEncoding,
    target: &[u8],
    text: &[u8],
    text_start: usize,
    text_end: usize,
    text_range: usize,
) -> (r: Option<usize>)
    requires
        text_end <= text@.len() <= isize::MAX,
        target@.len() <= isize::MAX,
    ensures
        as_pos(r) == slow_search_result(enc, target@, text@, text_start as int, text_end as int, text_range as int),
        target@.len() > 0 ==> (r matches Some(p) ==> text_start <= p < text_range && occurs_at(text@, target@, p as int, text_end as int)),
{
    if target.len() == 0 {
        return Some(text_start);
    }
    let tlen = target.len();
    let mut limit = if text_end + 1 < tlen { 0 } else { text_end + 1 - tlen };
    let ghost full_limit = limit;
    if limit > text_range {
        limit = text_range;
    }
    let mut s = text_start;
    while s < limit
        invariant
            0 < tlen == target@.len() <= isize::MAX,
            text_end <= text@.len() <= isize::MAX,
            limit <= full_limit <= text_end,
            full_limit == (if text_end + 1 < tlen { 0 } else { text_end + 1 - tlen }),
            limit == (if full_limit > text_range { text_range as int } else { full_limit as int }),
            text_start <= s,
            occurrence_from(enc, target@, text@, text_start as int, full_limit as int, text_end as int)
                == occurrence_from(enc, target@, text@, s as int, full_limit as int, text_end as int),
        decreases if s < limit { limit - s } else { 0 },
    {
        if matches_at(target, text, s, text_end) {
            assert(occurrence_from(enc, target@, text@, s as int, full_limit as int, text_end as int) == Some(s as int));
            return Some(s);
        }
        s = s + enclen(enc, text, s);
    }
    proof {
        lemma_occurrence_after(enc, target@, text@, s as int, full_limit as int, text_end as int);
    }
    None
}

/// A UTF-8 continuation byte.
pub open spec fn is_continuation(b: u8) -> bool {
    b & 0xc0 == 0x80
}

/// The start of the character that holds byte `p`, going back over
/// continuation bytes but not before `start`; `start` itself when `p` is
/// not after it.
pub open spec fn head_at_or_before(text: Seq<u8>, start: int, p: int) -> int
    decreases p - start,
{
    if p <= start {
        start
    } else if !is_continuation(text[p]) {
        p
    } else {
        head_at_or_before(text, start, p - 1)
    }
}

pub proof fn lemma_head_bounds(text: Seq<u8>, start: int, p: int)
    ensures
        p > start ==> start <= head_at_or_before(text, start, p) <= p,
        p <= start ==> head_at_or_before(text, start, p) == start,
    decreases p - start,
{
    if p > start && is_continuation(text[p]) {
        lemma_head_bounds(text, start, p - 1);
    }
}

/// The start of the character that holds byte `pos`, not before `start`
/// (UTF-8 continuation bytes are skipped whatever the encoding).
pub fn left_adjust_char_head(_enc: OnigEncoding, text: &[u8], start: usize, pos: usize) -> (r: usize)
    requires
        pos > start ==> pos < text@.len(),
    ensures
        r == head_at_or_before(text@, start as int, pos as int),
        pos > start ==> start <= r <= pos,
        pos <= start ==> r == start,
{
    proof {
        lemma_head_bounds(text@, start as int, pos as int);
    }
    if pos <= start {
        return start;
    }
    let mut p = pos;
    while p > start && text[p] & 0xc0 == 0x80
        invariant
            start <= p <= pos < text@.len(),
            head_at_or_before(text@, start as int, pos as int) == head_at_or_before(text@, start as int, p as int),
        decreases p,
    {
        p = p - 1;
    }
    p
}

/// The start of the character that holds byte `p`, going back over
/// continuation bytes down to the start of the text.
pub open spec fn head_from_zero(text: Seq<u8>, p: int) -> int
    decreases p,
{
    if p <= 0 || !is_continuation(text[p]) {
        if p < 0 { 0 } else { p }
    } else {
        head_from_zero(text, p - 1)
    }
}

/// The start of the character before `pos`; 0 at the start of the text.
pub open spec fn prev_head_of(text: Seq<u8>, pos: int) -> int {
    if pos <= 0 { 0 } else { head_from_zero(text, pos - 1) }
}

pub proof fn lemma_head_from_zero_bounds(text: Seq<u8>, p: int)
    ensures
        p >= 0 ==> 0 <= head_from_zero(text, p) <= p,
    decreases p,
{
    if p > 0 && is_continuation(text[p]) {
        lemma_head_from_zero_bounds(text, p - 1);
    }
}

/// The start of the character before `pos` (UTF-8 continuation bytes are
/// skipped whatever the encoding); 0 at the start of the text.
pub fn onigenc_get_prev_char_head(_enc: OnigEncoding, text: &[u8], _start: usize, pos: usize) -> (r: usize)
    requires
        pos <= text@.len(),
    ensures
        r == prev_head_of(text@, pos as int),
        pos > 0 ==> r < pos,
        pos == 0 ==> r == 0,
{
    if pos == 0 {
        return 0;
    }
    proof {
        lemma_head_from_zero_bounds(text@, pos - 1);
    }
    let mut p = pos - 1;
    while p > 0 && text[p] & 0xc0 == 0x80
        invariant
            p < pos <= text@.len(),
            head_from_zero(text@, pos - 1) == head_from_zero(text@, p as int),
        decreases p,
    {
        p = p - 1;
    }
    p
}

/// The first character start at or after byte `s`, not looking back before
/// `start`.
pub open spec fn right_head(enc: OnigEncoding, text: Seq<u8>, start: int, s: int) -> int {
    let p = head_at_or_before(text, start, s);
    if p < s { p + char_step(enc, text, p) } else { p }
}

/// The first character start at or after byte `s`, not looking back before
/// `start`.
pub fn onigenc_get_right_adjust_char_head(enc: OnigEncoding, text: &[u8], start: usize, s: usize) -> (r: usize)
    requires
        s > start ==> s < text@.len() <= isize::MAX,
    ensures
        r == right_head(enc, text@, start as int, s as int),
        s > start ==> start < r,
{
    let p = left_adjust_char_head(enc, text, start, s);
    if p < s {
        proof {
            lemma_char_step_positive(enc, text@, p as int);
        }
        p + enclen(enc, text, p)
    } else {
        p
    }
}

/// The skip the map gives for the byte at `at` (at least 1).
pub open spec fn skip_at(map: Seq<u8>, text: Seq<u8>, at: int) -> int {
    let k = map[text[at] as int] as int;
    if k < 1 { 1 } else { k }
}

/// Where the quick search ends its window, or `None` when the target is
/// longer than what lies between `text_start` and `text_end`.
pub open spec fn quick_search_end(tlen: int, text_start: int, text_end: int, text_range: int) -> Option<int> {
    let after_range = if text_end > text_range { text_end - text_range } else { 0 };
    let after_start = if text_end > text_start { text_end - text_start } else { 0 };
    if tlen > after_range {
        if tlen > after_start { None } else { Some(text_end) }
    } else {
        Some(text_range + tlen)
    }
}

/// The quick search from the position `s` of the target's last byte: the
/// first start of an occurrence, skipping by the map entry of the byte
/// `off` after `s` each time the comparison fails.
pub open spec fn quick_search_from(map: Seq<u8>, off: int, text: Seq<u8>, target: Seq<u8>, s: int, end: int, text_end: int) -> Option<int>
    decreases if s < end { end - s } else { 0 },
{
    let tail = target.len() - 1;
    if s >= end {
        None
    } else if occurs_at(text, target, s - tail, s + 1) {
        Some(s - tail)
    } else if s + off >= text_end {
        None
    } else {
        quick_search_from(map, off, text, target, s + skip_at(map, text, s + off), end, text_end)
    }
}

proof fn lemma_quick_search_sound(map: Seq<u8>, off: int, text: Seq<u8>, target: Seq<u8>, s: int, end: int, text_end: int)
    requires
        target.len() > 0,
        end <= text_end,
    ensures
        quick_search_from(map, off, text, target, s, end, text_end) matches Some(p) ==> s - (target.len() - 1) <= p
            && occurs_at(text, target, p, text_end),
    decreases if s < end { end - s } else { 0 },
{
    let tail = target.len() - 1;
    if s < end && !occurs_at(text, target, s - tail, s + 1) && s + off < text_end {
        lemma_quick_search_sound(map, off, text, target, s + skip_at(map, text, s + off), end, text_end);
    }
}

/// Whether `target` ends at byte `s`, compared from its last byte back.
fn matches_ending_at(target: &[u8], text: &[u8], s: usize) -> (r: bool)
    requires
        0 < target@.len(),
        target@.len() - 1 <= s < text@.len(),
    ensures
        r == occurs_at(text@, target@, s - (target@.len() - 1), s + 1),
{
    let tail = target.len() - 1;
    let ghost from: int = s - tail;
    let mut p = s;
    let mut t = tail;
    loop
        invariant
            t <= tail == target@.len() - 1,
            from == s - tail,
            p == from + t,
            0 <= from,
            s < text@.len(),
            p <= s,
            forall|k: int| t < k <= tail ==> #[trigger] text@[from + k] == target@[k],
        decreases t,
    {
        if text[p] != target[t] {
            assert(text@[from + t] != target@[t as int]);
            return false;
        }
        if t == 0 {
            assert(forall|k: int| 0 <= k < target@.len() ==> #[trigger] text@[from + k] == target@[k]);
            return true;
        }
        p = p - 1;
        t = t - 1;
    }
}

/// Quick search (a Boyer-Moore-Horspool variant): the first start of an
/// occurrence of `target` between `text_start` and `text_end` whose last
/// byte comes before the end of the window, comparing from the target's
/// last byte and skipping by the pattern's map entry for the byte
/// `map_offset` after it.
pub fn sunday_quick_search(reg: &RegexType, target: &[u8], text: &[u8], text_start: usize, text_end: usize, text_range: usize) -> (r: Option<usize>)
    requires
        text_end <= text@.len() <= isize::MAX,
        target@.len() <= isize::MAX,
        text_start + target@.len() <= usize::MAX,
        reg.map_offset >= 0,
        forall|b: int| 0 <= b < 256 ==> #[trigger] reg.map@[b] >= 1,
    ensures
        as_pos(r) == quick_search_result(reg.map@, reg.map_offset as int, target@, text@, text_start as int, text_end as int, text_range as int),
        target@.len() > 0 ==> (r matches Some(p) ==> text_start <= p && occurs_at(text@, target@, p as int, text_end as int)),
{
    let map_offset = reg.map_offset as usize;
    let tlen = target.len();
    if tlen == 0 {
        return Some(text_start);
    }
    let tail_idx = tlen - 1;
    let after_range = if text_end > text_range { text_end - text_range } else { 0 };
    let end = if tlen > after_range {
        let after_start = if text_end > text_start { text_end - text_start } else { 0 };
        if tlen > after_start {
            return None;
        }
        text_end
    } else {
        text_range + tlen
    };
    let mut s = text_start + tail_idx;
    proof {
        lemma_quick_search_sound(reg.map@, map_offset as int, text@, target@, s as int, end as int, text_end as int);
    }
    while s < end
        invariant
            text_end <= text@.len() <= isize::MAX,
            0 < tlen == target@.len() <= isize::MAX,
            tail_idx == tlen - 1,
            map_offset == reg.map_offset,
            map_offset <= i32::MAX,
            end <= text_end,
            text_start + tail_idx <= s,
            forall|b: int| 0 <= b < 256 ==> #[trigger] reg.map@[b] >= 1,
            quick_search_end(tlen as int, text_start as int, text_end as int, text_range as int) == Some(end as int),
            quick_search_from(reg.map@, map_offset as int, text@, target@, text_start + tail_idx, end as int, text_end as int)
                == quick_search_from(reg.map@, map_offset as int, text@, target@, s as int, end as int, text_end as int),
        decreases if s < end { end - s } else { 0 },
    {
        if matches_ending_at(target, text, s) {
            return Some(s - tail_idx);
        }
        if s + map_offset >= text_end {
            return None;
        }
        let skip = reg.map[text[s + map_offset] as usize] as usize;
        s = s + skip;
    }
    None
}

/// Stepping to the right-adjusted character start of a later byte moves on.
pub proof fn lemma_right_head_after(enc: OnigEncoding, text: Seq<u8>, start: int, s: int)
    requires
        s > start,
    ensures
        right_head(enc, text, start, s) > start,
{
    lemma_head_bounds(text, start, s);
    lemma_char_step_positive(enc, text, head_at_or_before(text, start, s));
}

/// Where the quick search that keeps to character starts ends its window.
pub open spec fn step_forward_end(tail: int, text_end: int, text_range: int) -> int {
    let after_range = if text_end > text_range { text_end - text_range } else { 0 };
    if tail > after_range {
        if text_end > tail { text_end - tail } else { 0 }
    } else {
        text_range
    }
}

/// The quick search that keeps to character starts, from the start `s` of
/// a candidate: the first start of an occurrence, moving on by the map
/// entry of the byte `off` after the candidate's last byte, to the next
/// character start.
pub open spec fn step_forward_from(enc: OnigEncoding, map: Seq<u8>, off: int, text: Seq<u8>, target: Seq<u8>, s: int, end: int, text_end: int) -> Option<int>
    decreases if s < end { end - s } else { 0 },
{
    let tail = target.len() - 1;
    if s >= end {
        None
    } else if occurs_at(text, target, s, s + tail + 1) {
        Some(s)
    } else if s + tail + off >= text_end {
        None
    } else {
        let next = s + skip_at(map, text, s + tail + off);
        if next < end {
            proof {
                lemma_right_head_after(enc, text, s, next);
            }
            step_forward_from(enc, map, off, text, target, right_head(enc, text, s, next), end, text_end)
        } else {
            None
        }
    }
}

proof fn lemma_step_forward_sound(enc: OnigEncoding, map: Seq<u8>, off: int, text: Seq<u8>, target: Seq<u8>, s: int, end: int, text_end: int)
    requires
        target.len() > 0,
        end + target.len() - 1 <= text_end || s >= end,
    ensures
        step_forward_from(enc, map, off, text, target, s, end, text_end) matches Some(p) ==> s <= p && occurs_at(
            text,
            target,
            p,
            text_end,
        ),
    decreases if s < end { end - s } else { 0 },
{
    let tail = target.len() - 1;
    if s < end && !occurs_at(text, target, s, s + tail + 1) && s + tail + off < text_end {
        let next = s + skip_at(map, text, s + tail + off);
        if next < end {
            lemma_right_head_after(enc, text, s, next);
            lemma_step_forward_sound(enc, map, off, text, target, right_head(enc, text, s, next), end, text_end);
        }
    }
}

/// Quick search that keeps to character starts: like
/// [`sunday_quick_search`], but each candidate starts at a character and
/// the skip lands on the next character start, so that a multibyte text
/// is never compared from the middle of a character.
pub fn sunday_quick_search_step_forward(
    reg: &RegexType,
    target: &[u8],
    text: &[u8],
    text_start: usize,
    text_end: usize,
    text_range: usize,
) -> (r: Option<usize>)
    requires
        text_range <= text_end <= text@.len() <= isize::MAX,
        target@.len() <= isize::MAX,
        reg.map_offset >= 0,
        forall|b: int| 0 <= b < 256 ==> #[trigger] reg.map@[b] >= 1,
    ensures
        as_pos(r) == step_forward_result(reg.enc, reg.map@, reg.map_offset as int, target@, text@, text_start as int, text_end as int, text_range as int),
        target@.len() > 0 ==> (r matches Some(p) ==> text_start <= p && occurs_at(text@, target@, p as int, text_end as int)),
{
    let enc = reg.enc;
    let tlen = target.len();
    if tlen == 0 {
        return Some(text_start);
    }
    let tail_idx = tlen - 1;
    let mut end = text_range;
    let after_range = if text_end > end { text_end - end } else { 0 };
    if tail_idx > after_range {
        end = if text_end > tail_idx { text_end - tail_idx } else { 0 };
    }
    let map_offset = reg.map_offset as usize;
    let mut s = text_start;
    proof {
        lemma_step_forward_sound(enc, reg.map@, map_offset as int, text@, target@, s as int, end as int, text_end as int);
    }
    while s < end
        invariant
            text_end <= text@.len() <= isize::MAX,
            0 < tlen == target@.len() <= isize::MAX,
            tail_idx == tlen - 1,
            enc == reg.enc,
            map_offset == reg.map_offset,
            map_offset <= i32::MAX,
            end == step_forward_end(tail_idx as int, text_end as int, text_range as int),
            end + tail_idx <= text_end || s >= end,
            text_range <= text_end,
            forall|b: int| 0 <= b < 256 ==> #[trigger] reg.map@[b] >= 1,
            text_start <= s,
            step_forward_from(enc, reg.map@, map_offset as int, text@, target@, text_start as int, end as int, text_end as int)
                == step_forward_from(enc, reg.map@, map_offset as int, text@, target@, s as int, end as int, text_end as int),
        decreases if s < end { end - s } else { 0 },
    {
        let se = s + tail_idx;
        if matches_ending_at(target, text, se) {
            return Some(s);
        }
        if se + map_offset >= text_end {
            return None;
        }
        let skip = reg.map[text[se + map_offset] as usize] as usize;
        let next = s + skip;
        if next < end {
            proof {
                lemma_right_head_after(enc, text@, s as int, next as int);
            }
            s = onigenc_get_right_adjust_char_head(enc, text, s, next);
        } else {
            return None;
        }
    }
    None
}

/// The backward search from `s`: the first character start, going back
/// from `s` but not before `text_start`, at which `target` occurs before
/// `text_end`.
pub open spec fn occurrence_back_from(text: Seq<u8>, target: Seq<u8>, s: int, text_start: int, text_end: int) -> Option<int>
    decreases if s > 0 { s } else { 0 },
{
    if s < text_start {
        None
    } else if occurs_at(text, target, s, text_end) {
        Some(s)
    } else if s <= 0 {
        None
    } else {
        proof {
            lemma_head_from_zero_bounds(text, s - 1);
        }
        occurrence_back_from(text, target, prev_head_of(text, s), text_start, text_end)
    }
}

/// Where the backward search starts: the last place the target fits
/// before `text_end`, moved back to a character start not before
/// `adjust_text`, or `search_start` when that comes earlier.
pub open spec fn back_search_first(text: Seq<u8>, tlen: int, adjust_text: int, text_end: int, search_start: int) -> int {
    let last = if text_end > tlen { text_end - tlen } else { 0 };
    if last > search_start { search_start } else { head_at_or_before(text, adjust_text, last) }
}

/// The last character start, from `search_start` back to `text_start`, at
/// which `target` occurs before `text_end`; an empty target occurs at
/// `search_start`.
pub fn slow_search_backward(
    enc: OnigEncoding,
    target: &[u8],
    text: &[u8],
    text_start: usize,
    adjust_text: usize,
    text_end: usize,
    search_start: usize,
) -> (r: Option<usize>)
    requires
        text_end <= text@.len() <= isize::MAX,
        target@.len() <= isize::MAX,
        target@.len() > 0 ==> adjust_text < text_end,
    ensures
        as_pos(r) == slow_back_result(text@, target@, text_start as int, adjust_text as int, text_end as int, search_start as int),
{
    let tlen = target.len();
    if tlen == 0 {
        return Some(search_start);
    }
    let mut s = if text_end > tlen { text_end - tlen } else { 0 };
    if s > search_start {
        s = search_start;
    } else {
        s = left_adjust_char_head(enc, text, adjust_text, s);
    }
    loop
        invariant
            text_end <= text@.len() <= isize::MAX,
            0 < tlen == target@.len() <= isize::MAX,
            s < text_end,
            occurrence_back_from(
                text@,
                target@,
                back_search_first(text@, tlen as int, adjust_text as int, text_end as int, search_start as int),
                text_start as int,
                text_end as int,
            ) == occurrence_back_from(text@, target@, s as int, text_start as int, text_end as int),
        decreases s,
    {
        if s < text_start {
            return None;
        }
        if matches_at(target, text, s, text_end) {
            return Some(s);
        }
        if s == 0 {
            return None;
        }
        s = onigenc_get_prev_char_head(enc, text, adjust_text, s);
    }
}

/// The backward map search from `s`: the first character start, going back
/// from `s` but not before `text_start`, whose byte `map` marks; the byte at
/// `s` itself is always looked at.
pub open spec fn map_hit_back(map: Seq<u8>, text: Seq<u8>, s: int, text_start: int) -> Option<int>
    decreases if s > 0 { s } else { 0 },
{
    if map[text[s] as int] != 0 {
        Some(s)
    } else if s <= text_start || s <= 0 {
        None
    } else {
        proof {
            lemma_head_from_zero_bounds(text, s - 1);
        }
        let p = prev_head_of(text, s);
        if p < text_start { None } else { map_hit_back(map, text, p, text_start) }
    }
}

/// The last character start, from `search_start` back to `text_start`,
/// whose byte `map` marks.
pub fn map_search_backward(
    enc: OnigEncoding,
    map: &[u8; 256],
    text: &[u8],
    text_start: usize,
    adjust_text: usize,
    search_start: usize,
) -> (r: Option<usize>)
    requires
        search_start < text@.len(),
    ensures
        as_pos(r) == map_hit_back(map@, text@, search_start as int, text_start as int),
{
    let mut s = search_start;
    loop
        invariant
            s < text@.len(),
            map_hit_back(map@, text@, search_start as int, text_start as int) == map_hit_back(
                map@,
                text@,
                s as int,
                text_start as int,
            ),
        decreases s,
    {
        if map[text[s] as usize] != 0 {
            return Some(s);
        }
        if s <= text_start {
            return None;
        }
        s = onigenc_get_prev_char_head(enc, text, adjust_text, s);
        if s < text_start {
            return None;
        }
    }
}

/// What the naive search finds: an empty target at `start`; else the first
/// occurrence from `start` on that fits before `end`, when it lies before
/// `range`.
pub open spec fn slow_search_result(enc: OnigEncoding, target: Seq<u8>, text: Seq<u8>, start: int, end: int, range: int) -> Option<int> {
    if target.len() == 0 {
        Some(start)
    } else {
        let limit = if end + 1 < target.len() { 0 } else { end + 1 - target.len() };
        match occurrence_from(enc, target, text, start, limit, end) {
            Some(p) => if p < range { Some(p) } else { None },
            None => None,
        }
    }
}

/// What the quick search finds.
pub open spec fn quick_search_result(map: Seq<u8>, off: int, target: Seq<u8>, text: Seq<u8>, start: int, end: int, range: int) -> Option<int> {
    if target.len() == 0 {
        Some(start)
    } else {
        match quick_search_end(target.len() as int, start, end, range) {
            None => None,
            Some(e) => quick_search_from(map, off, text, target, start + target.len() - 1, e, end),
        }
    }
}

/// What the quick search that keeps to character starts finds.
pub open spec fn step_forward_result(enc: OnigEncoding, map: Seq<u8>, off: int, target: Seq<u8>, text: Seq<u8>, start: int, end: int, range: int) -> Option<int> {
    if target.len() == 0 {
        Some(start)
    } else {
        step_forward_from(enc, map, off, text, target, start, step_forward_end(target.len() - 1, end, range), end)
    }
}

proof fn lemma_map_hit_after(enc: OnigEncoding, map: Seq<u8>, text: Seq<u8>, s: int, range: int)
    ensures
        map_hit_from(enc, map, text, s, range) matches Some(p) ==> s <= p,
    decreases if s < range { range - s } else { 0 },
{
    if s < range && map[text[s] as int] == 0 {
        lemma_map_hit_after(enc, map, text, s + char_step(enc, text, s), range);
    }
}

proof fn lemma_quick_search_after(map: Seq<u8>, off: int, text: Seq<u8>, target: Seq<u8>, s: int, end: int, text_end: int)
    ensures
        quick_search_from(map, off, text, target, s, end, text_end) matches Some(p) ==> s - (target.len() - 1) <= p,
    decreases if s < end { end - s } else { 0 },
{
    let tail = target.len() - 1;
    if s < end && !occurs_at(text, target, s - tail, s + 1) && s + off < text_end {
        lemma_quick_search_after(map, off, text, target, s + skip_at(map, text, s + off), end, text_end);
    }
}

proof fn lemma_step_forward_after(enc: OnigEncoding, map: Seq<u8>, off: int, text: Seq<u8>, target: Seq<u8>, s: int, end: int, text_end: int)
    ensures
        step_forward_from(enc, map, off, text, target, s, end, text_end) matches Some(p) ==> s <= p,
    decreases if s < end { end - s } else { 0 },
{
    let tail = target.len() - 1;
    if s < end && !occurs_at(text, target, s, s + tail + 1) && s + tail + off < text_end {
        let next = s + skip_at(map, text, s + tail + off);
        if next < end {
            lemma_right_head_after(enc, text, s, next);
            lemma_step_forward_after(enc, map, off, text, target, right_head(enc, text, s, next), end, text_end);
        }
    }
}

/// Where the scan the pattern was optimized for finds a candidate from
/// `p` on: its literal (naively, by quick search, or by quick search that
/// keeps to character starts) or a byte of its first-byte map; `None`
/// without an optimization.
pub open spec fn candidate(reg: &RegexType, text: Seq<u8>, p: int, end: int, range: int) -> Option<int> {
    match reg.optimize {
        OptimizeType::Str => slow_search_result(reg.enc, reg.exact@, text, p, end, range),
        OptimizeType::StrFast => quick_search_result(reg.map@, reg.map_offset as int, reg.exact@, text, p, end, range),
        OptimizeType::StrFastStepForward => step_forward_result(
            reg.enc,
            reg.map@,
            reg.map_offset as int,
            reg.exact@,
            text,
            p,
            end,
            range,
        ),
        OptimizeType::ByteMap => map_hit_from(reg.enc, reg.map@, text, p, range),
        OptimizeType::NoOptimize => None,
    }
}

/// A candidate lies at or after where the scan starts.
pub proof fn lemma_candidate_after(reg: &RegexType, text: Seq<u8>, p: int, end: int, range: int)
    ensures
        candidate(reg, text, p, end, range) matches Some(q) ==> p <= q,
{
    let target = reg.exact@;
    if target.len() > 0 {
        let limit = if end + 1 < target.len() { 0 } else { end + 1 - target.len() };
        lemma_occurrence_after(reg.enc, target, text, p, limit, end);
        if let Some(e) = quick_search_end(target.len() as int, p, end, range) {
            lemma_quick_search_after(reg.map@, reg.map_offset as int, text, target, p + target.len() - 1, e, end);
        }
        lemma_step_forward_after(
            reg.enc,
            reg.map@,
            reg.map_offset as int,
            text,
            target,
            p,
            step_forward_end(target.len() - 1, end, range),
            end,
        );
    }
    lemma_map_hit_after(reg.enc, reg.map@, text, p, range);
}

/// What the optimized scans need of a pattern: a literal shorter than any
/// text, and for the quick searches a map of skips of at least one byte.
pub open spec fn scan_ready(reg: &RegexType) -> bool {
    &&& reg.exact@.len() <= isize::MAX
    &&& (reg.optimize == OptimizeType::StrFast || reg.optimize == OptimizeType::StrFastStepForward) ==> {
        &&& reg.map_offset >= 0
        &&& forall|b: int| 0 <= b < 256 ==> #[trigger] reg.map@[b] >= 1
    }
}

/// Runs the scan the pattern was optimized for from `p`.
fn find_candidate(reg: &RegexType, text: &[u8], p: usize, end: usize, range: usize) -> (r: Option<usize>)
    requires
        range <= end <= text@.len() <= isize::MAX,
        scan_ready(reg),
        p + reg.exact@.len() <= usize::MAX,
    ensures
        as_pos(r) == candidate(reg, text@, p as int, end as int, range as int),
{
    match reg.optimize {
        OptimizeType::Str => slow_search(reg.enc, reg.exact.as_slice(), text, p, end, range),
        OptimizeType::StrFast => sunday_quick_search(reg, reg.exact.as_slice(), text, p, end, range),
        OptimizeType::StrFastStepForward => sunday_quick_search_step_forward(reg, reg.exact.as_slice(), text, p, end, range),
        OptimizeType::ByteMap => map_search(reg.enc, &reg.map, text, p, range),
        OptimizeType::NoOptimize => None,
    }
}

/// The candidate at `pos` fails an anchor the pattern puts before or after
/// its literal: a line start that is not after a newline, or a line end
/// that is not before one.
pub open spec fn anchor_refuses(reg: &RegexType, text: Seq<u8>, end: int, pos: int) -> bool {
    &&& reg.sub_anchor != 0
    &&& {
        ||| (reg.sub_anchor & ANCR_BEGIN_LINE) != 0 && pos > 0 && !newline_at(text, prev_head_of(text, pos), end)
        ||| (reg.sub_anchor & ANCR_END_LINE) != 0 && pos < end && !newline_at(text, pos, end)
    }
}

/// Where a match can start, given a candidate at `pos` found from `start`:
/// the pattern's distance range back from `pos` (at a character start),
/// `pos` itself when the distance is 0, or from `start` on when the distance
/// has no bound.
pub open spec fn start_window(reg: &RegexType, text: Seq<u8>, start: int, pos: int) -> (int, int) {
    if reg.dist_max == 0 {
        (pos, pos)
    } else {
        let low = if reg.dist_max != INFINITE_LEN {
            if pos < reg.dist_max {
                0
            } else {
                let l = pos - reg.dist_max;
                if l > start { right_head(reg.enc, text, start, l) } else { l }
            }
        } else {
            start
        };
        let high = if pos < reg.dist_min { 0 } else { pos - reg.dist_min };
        (low, high)
    }
}

/// The forward search from the scan position `p`: the window of the first
/// candidate before `range` that lies far enough from `start` and passes the
/// anchors; a candidate that does not is stepped over by a character.
pub open spec fn forward_from(reg: &RegexType, text: Seq<u8>, end: int, start: int, range: int, p: int) -> Option<(int, int)>
    decreases if p < range { range - p } else { 0 },
{
    match candidate(reg, text, p, end, range) {
        None => None,
        Some(pos) => if pos >= range {
            None
        } else {
            proof {
                lemma_candidate_after(reg, text, p, end, range);
                lemma_char_step_positive(reg.enc, text, pos);
            }
            if (if pos > start { pos - start } else { 0 }) < reg.dist_min || anchor_refuses(reg, text, end, pos) {
                forward_from(reg, text, end, start, range, pos + char_step(reg.enc, text, pos))
            } else {
                Some(start_window(reg, text, start, pos))
            }
        },
    }
}

/// `p` moved on a character at a time until it reaches `target` or `end`.
pub open spec fn advance_chars(enc: OnigEncoding, text: Seq<u8>, p: int, target: int, end: int) -> int
    decreases if p < target { target - p } else { 0 },
{
    if p < target && p < end {
        proof {
            lemma_char_step_positive(enc, text, p);
        }
        advance_chars(enc, text, p + char_step(enc, text, p), target, end)
    } else {
        p
    }
}

/// Where the forward scan starts: `dist_min` bytes (or, in a multibyte
/// encoding, whole characters covering them) after `start`.
pub open spec fn forward_first(reg: &RegexType, text: Seq<u8>, end: int, start: int) -> int {
    if reg.dist_min == 0 {
        start
    } else if reg.enc.max_len_spec() == 1 {
        start + reg.dist_min
    } else {
        advance_chars(reg.enc, text, start, start + reg.dist_min, end)
    }
}

/// The forward search: `None` when fewer than `dist_min` bytes remain after
/// `start`, else the forward search from the first scan position.
pub open spec fn forward_search_spec(reg: &RegexType, text: Seq<u8>, end: int, start: int, range: int) -> Option<(int, int)> {
    if reg.dist_min != 0 && (if end > start { end - start } else { 0 }) <= reg.dist_min {
        None
    } else {
        forward_from(reg, text, end, start, range, forward_first(reg, text, end, start))
    }
}

proof fn lemma_advance_bound(enc: OnigEncoding, text: Seq<u8>, p: int, target: int, end: int)
    requires
        p <= end + 3,
    ensures
        p <= advance_chars(enc, text, p, target, end) <= end + 3,
    decreases if p < target { target - p } else { 0 },
{
    lemma_char_step_positive(enc, text, p);
    if p < target && p < end {
        lemma_advance_bound(enc, text, p + char_step(enc, text, p), target, end);
    }
}

/// Where a match can start after `start`, before `range`, as a window of
/// start positions (low, high), found by the scan the pattern was optimized
/// for; `None` when no candidate remains.
pub fn forward_search(reg: &RegexType, str_data: &[u8], end: usize, start: usize, range: usize) -> (r: Option<(usize, usize)>)
    requires
        start <= range <= end <= str_data@.len() <= isize::MAX,
        scan_ready(reg),
        end + reg.exact@.len() + 8 <= usize::MAX,
    ensures
        match forward_search_spec(reg, str_data@, end as int, start as int, range as int) {
            Some((low, high)) => r matches Some((l, h)) && l == low && h == high,
            None => r is None,
        },
{
    let mut p = start;
    if reg.dist_min != 0 {
        let left = if end > p { end - p } else { 0 };
        if left <= reg.dist_min as usize {
            return None;
        }
        if enc_is_singlebyte(reg.enc) {
            p = p + reg.dist_min as usize;
        } else {
            let target = p + reg.dist_min as usize;
            proof {
                lemma_advance_bound(reg.enc, str_data@, p as int, target as int, end as int);
            }
            while p < target && p < end
                invariant
                    start <= p <= end + 3,
                    end <= str_data@.len() <= isize::MAX,
                    advance_chars(reg.enc, str_data@, start as int, target as int, end as int) == advance_chars(
                        reg.enc,
                        str_data@,
                        p as int,
                        target as int,
                        end as int,
                    ),
                decreases if p < target { target - p } else { 0 },
            {
                p = p + enclen(reg.enc, str_data, p);
            }
        }
    }
    let mut pprev: Option<usize> = None;
    loop
        invariant
            start <= range <= end <= str_data@.len() <= isize::MAX,
            scan_ready(reg),
            end + reg.exact@.len() + 8 <= usize::MAX,
            p <= end + 3,
            forward_search_spec(reg, str_data@, end as int, start as int, range as int) == forward_from(
                reg,
                str_data@,
                end as int,
                start as int,
                range as int,
                p as int,
            ),
        decreases if p < range { range - p } else { 0 },
    {
        let found = find_candidate(reg, str_data, p, end, range);
        proof {
            lemma_candidate_after(reg, str_data@, p as int, end as int, range as int);
        }
        let pos = match found {
            Some(pos) => {
                if pos < range {
                    pos
                } else {
                    return None;
                }
            },
            None => return None,
        };
        p = pos;
        let from_start = if p > start { p - start } else { 0 };
        if from_start < reg.dist_min as usize {
            pprev = Some(p);
            p = p + enclen(reg.enc, str_data, p);
            continue;
        }
        if reg.sub_anchor != 0 {
            let mut retry = false;
            if (reg.sub_anchor & ANCR_BEGIN_LINE) != 0 {
                if p > 0 {
                    let prev = match pprev {
                        Some(x) => x,
                        None => 0,
                    };
                    let prev_pos = onigenc_get_prev_char_head(reg.enc, str_data, prev, p);
                    if !is_mbc_newline(reg.enc, str_data, prev_pos, end) {
                        retry = true;
                    }
                }
            }
            if !retry && (reg.sub_anchor & ANCR_END_LINE) != 0 {
                if p < end && !is_mbc_newline(reg.enc, str_data, p, end) {
                    retry = true;
                }
            }
            if retry {
                pprev = Some(p);
                p = p + enclen(reg.enc, str_data, p);
                continue;
            }
        }
        let low;
        let high;
        if reg.dist_max == 0 {
            low = p;
            high = p;
        } else {
            if reg.dist_max != INFINITE_LEN {
                if p < reg.dist_max as usize {
                    low = 0;
                } else {
                    let mut l = p - reg.dist_max as usize;
                    if l > start {
                        l = onigenc_get_right_adjust_char_head(reg.enc, str_data, start, l);
                    }
                    low = l;
                }
            } else {
                low = start;
            }
            if p < reg.dist_min as usize {
                high = 0;
            } else {
                high = p - reg.dist_min as usize;
            }
        }
        return Some((low, high));
    }
}

proof fn lemma_occurrence_back_before(text: Seq<u8>, target: Seq<u8>, s: int, text_start: int, text_end: int)
    ensures
        occurrence_back_from(text, target, s, text_start, text_end) matches Some(p) ==> text_start <= p <= s && occurs_at(
            text,
            target,
            p,
            text_end,
        ),
    decreases if s > 0 { s } else { 0 },
{
    if s >= text_start && !occurs_at(text, target, s, text_end) && s > 0 {
        lemma_head_from_zero_bounds(text, s - 1);
        lemma_occurrence_back_before(text, target, prev_head_of(text, s), text_start, text_end);
    }
}

proof fn lemma_map_hit_back_before(map: Seq<u8>, text: Seq<u8>, s: int, text_start: int)
    ensures
        map_hit_back(map, text, s, text_start) matches Some(p) ==> p <= s,
    decreases if s > 0 { s } else { 0 },
{
    if map[text[s] as int] == 0 && s > text_start && s > 0 {
        lemma_head_from_zero_bounds(text, s - 1);
        let p = prev_head_of(text, s);
        if p >= text_start {
            lemma_map_hit_back_before(map, text, p, text_start);
        }
    }
}

/// What the naive backward search finds.
pub open spec fn slow_back_result(text: Seq<u8>, target: Seq<u8>, text_start: int, adjust: int, text_end: int, search_start: int) -> Option<int> {
    if target.len() == 0 {
        Some(search_start)
    } else {
        occurrence_back_from(
            text,
            target,
            back_search_first(text, target.len() as int, adjust, text_end, search_start),
            text_start,
            text_end,
        )
    }
}

/// Where the backward scan the pattern was optimized for finds a candidate,
/// going back from `p` to `min_range`; `None` without an optimization.
pub open spec fn back_candidate(reg: &RegexType, text: Seq<u8>, end: int, p: int, min_range: int, adjrange: int) -> Option<int> {
    match reg.optimize {
        OptimizeType::Str | OptimizeType::StrFast | OptimizeType::StrFastStepForward => slow_back_result(
            text,
            reg.exact@,
            min_range,
            adjrange,
            end,
            p,
        ),
        OptimizeType::ByteMap => map_hit_back(reg.map@, text, p, min_range),
        OptimizeType::NoOptimize => None,
    }
}

/// A backward candidate lies no later than where the scan starts, or than
/// `adjrange`.
pub proof fn lemma_back_candidate_before(reg: &RegexType, text: Seq<u8>, end: int, p: int, min_range: int, adjrange: int)
    ensures
        back_candidate(reg, text, end, p, min_range, adjrange) matches Some(q) ==> (q <= p || q <= adjrange) && (p < end ==> q
            < end),
{
    let target = reg.exact@;
    if target.len() > 0 {
        let last = if end > target.len() { end - target.len() } else { 0 };
        lemma_head_bounds(text, adjrange, last);
        lemma_occurrence_back_before(
            text,
            target,
            back_search_first(text, target.len() as int, adjrange, end, p),
            min_range,
            end,
        );
    }
    lemma_map_hit_back_before(reg.map@, text, p, min_range);
}

/// Where a match can end before a candidate found going back: the
/// pattern's distance range back from `q`, its upper end moved to a
/// character start; from 0 when the distance has no bound.
pub open spec fn back_window(reg: &RegexType, text: Seq<u8>, adjrange: int, q: int) -> (int, int) {
    if reg.dist_max != INFINITE_LEN {
        let low = if q < reg.dist_max { 0 } else { q - reg.dist_max };
        let high = if reg.dist_min != 0 {
            if q < reg.dist_min { 0 } else { q - reg.dist_min }
        } else {
            q
        };
        (low, right_head(reg.enc, text, adjrange, high))
    } else {
        (0, q)
    }
}

/// The backward search from `p`: the window of the first candidate going
/// back that passes the anchors. At the end of the text, a line end looks
/// at the character before; a candidate that fails an anchor is stepped
/// back over by a character, never before `adjrange`.
pub open spec fn backward_from(reg: &RegexType, text: Seq<u8>, end: int, p: int, min_range: int, adjrange: int) -> Option<(int, int)>
    decreases if p > adjrange { p } else { adjrange },
{
    match back_candidate(reg, text, end, p, min_range, adjrange) {
        None => None,
        Some(q) => {
            proof {
                lemma_back_candidate_before(reg, text, end, p, min_range, adjrange);
                if q > 0 {
                    lemma_head_from_zero_bounds(text, q - 1);
                }
            }
            let begin_refuses = (reg.sub_anchor & ANCR_BEGIN_LINE) != 0 && q > 0 && !newline_at(
                text,
                prev_head_of(text, q),
                end,
            );
            let end_line = (reg.sub_anchor & ANCR_END_LINE) != 0;
            if reg.sub_anchor == 0 {
                Some(back_window(reg, text, adjrange, q))
            } else if !begin_refuses && end_line && q >= end {
                let prev = prev_head_of(text, q);
                if prev < adjrange {
                    None
                } else if newline_at(text, prev, end) {
                    if q > 0 { backward_from(reg, text, end, prev, min_range, adjrange) } else { None }
                } else {
                    Some(back_window(reg, text, adjrange, q))
                }
            } else if begin_refuses || (end_line && q < end && !newline_at(text, q, end)) {
                if q <= 0 {
                    None
                } else {
                    let p2 = prev_head_of(text, q);
                    if p2 < adjrange { None } else { backward_from(reg, text, end, p2, min_range, adjrange) }
                }
            } else {
                Some(back_window(reg, text, adjrange, q))
            }
        },
    }
}

/// Where a match can lie, going back from `search_start` to `min_range`, as
/// a window (low, high) found by the backward scan the pattern was
/// optimized for; `None` when no candidate remains.
pub fn backward_search(
    reg: &RegexType,
    str_data: &[u8],
    end: usize,
    search_start: usize,
    min_range: usize,
    adjrange: usize,
) -> (r: Option<(usize, usize)>)
    requires
        end <= str_data@.len() <= isize::MAX,
        search_start < end,
        adjrange < end,
        reg.exact@.len() <= isize::MAX,
    ensures
        match backward_from(reg, str_data@, end as int, search_start as int, min_range as int, adjrange as int) {
            Some((low, high)) => r matches Some((l, h)) && l == low && h == high,
            None => r is None,
        },
{
    let mut p = search_start;
    loop
        invariant
            end <= str_data@.len() <= isize::MAX,
            p < end,
            adjrange < end,
            reg.exact@.len() <= isize::MAX,
            backward_from(reg, str_data@, end as int, search_start as int, min_range as int, adjrange as int)
                == backward_from(reg, str_data@, end as int, p as int, min_range as int, adjrange as int),
        decreases if p > adjrange { p } else { adjrange },
    {
        let found = match reg.optimize {
            OptimizeType::Str | OptimizeType::StrFast | OptimizeType::StrFastStepForward => {
                slow_search_backward(reg.enc, reg.exact.as_slice(), str_data, min_range, adjrange, end, p)
            },
            OptimizeType::ByteMap => map_search_backward(reg.enc, &reg.map, str_data, min_range, adjrange, p),
            OptimizeType::NoOptimize => {
                return None;
            },
        };
        proof {
            lemma_back_candidate_before(reg, str_data@, end as int, p as int, min_range as int, adjrange as int);
        }
        assert(as_pos(found) == back_candidate(reg, str_data@, end as int, p as int, min_range as int, adjrange as int));
        let q = match found {
            Some(pos) => pos,
            None => return None,
        };
        p = q;
        if reg.sub_anchor != 0 {
            let mut retry = false;
            if (reg.sub_anchor & ANCR_BEGIN_LINE) != 0 {
                if p > 0 {
                    let prev = onigenc_get_prev_char_head(reg.enc, str_data, 0, p);
                    if !is_mbc_newline(reg.enc, str_data, prev, end) {
                        retry = true;
                    }
                }
            }
            if !retry && (reg.sub_anchor & ANCR_END_LINE) != 0 {
                if p >= end {
                    let prev = onigenc_get_prev_char_head(reg.enc, str_data, adjrange, p);
                    if prev < adjrange {
                        return None;
                    }
                    if is_mbc_newline(reg.enc, str_data, prev, end) {
                        p = prev;
                        continue;
                    }
                } else if !is_mbc_newline(reg.enc, str_data, p, end) {
                    retry = true;
                }
            }
            if retry {
                if p == 0 {
                    return None;
                }
                p = onigenc_get_prev_char_head(reg.enc, str_data, adjrange, p);
                if p < adjrange {
                    return None;
                }
                continue;
            }
        }
        if reg.dist_max != INFINITE_LEN {
            let low = if p < reg.dist_max as usize { 0 } else { p - reg.dist_max as usize };
            let high = if reg.dist_min != 0 {
                if p < reg.dist_min as usize { 0 } else { p - reg.dist_min as usize }
            } else {
                p
            };
            let high = onigenc_get_right_adjust_char_head(reg.enc, str_data, adjrange, high);
            return Some((low, high));
        }
        return Some((0, p));
    }
}


/// `a - b`, or 0 when `b` is larger.
pub open spec fn sat_sub(a: int, b: int) -> int {
    if a >= b { a - b } else { 0 }
}

/// The window a search anchored at the end narrows `[start, range]` to,
/// where a match must end between `min_semi` and `max_semi`: `None` when the
/// text is shorter than the anchor's least distance or the window empties.
pub open spec fn end_anchor_window(reg: &RegexType, min_semi: int, max_semi: int, start: int, range: int) -> Option<(int, int)> {
    if max_semi < reg.anc_dist_min {
        None
    } else if range > start {
        let cs = if reg.anc_dist_max != INFINITE_LEN && sat_sub(min_semi, start) > reg.anc_dist_max {
            min_semi - reg.anc_dist_max
        } else {
            start
        };
        let too_close = sat_sub(max_semi, sat_sub(range, 1)) < reg.anc_dist_min;
        if too_close && max_semi + 1 < reg.anc_dist_min {
            None
        } else {
            let cr = if too_close { max_semi - reg.anc_dist_min + 1 } else { range };
            if cs > cr { None } else { Some((cs, cr)) }
        }
    } else {
        Some((start, range))
    }
}

/// The window `[start, range]` of a forward search of `text[..end]`, as the
/// pattern's anchors narrow it, and `None` when they rule out every start
/// or fewer bytes than the pattern's least length remain after the first
/// start.
pub open spec fn forward_window_spec(reg: &RegexType, text: Seq<u8>, end: int, start: int, range: int) -> Option<(int, int)> {
    let a = reg.anchor;
    let w = if a == 0 {
        Some((start, range))
    } else if a & ANCR_BEGIN_POSITION != 0 {
        Some((start, if range > start { start + 1 } else { start }))
    } else if a & ANCR_BEGIN_BUF != 0 {
        if range > start && start == 0 { Some((start, 1)) } else { None }
    } else if a & ANCR_END_BUF != 0 {
        end_anchor_window(reg, end, end, start, range)
    } else if a & ANCR_SEMI_END_BUF != 0 {
        end_anchor_window(reg, if end > 0 && text[end - 1] == 0x0a { end - 1 } else { end }, end, start, range)
    } else if a & ANCR_ANYCHAR_INF_ML != 0 && range > start {
        Some((start, start + 1))
    } else {
        Some((start, range))
    };
    match w {
        Some((cs, cr)) => if end - cs < reg.threshold_len { None } else { Some((cs, cr)) },
        None => None,
    }
}

/// The window of starts a forward search over a non-empty text tries: the
/// anchors of the pattern narrow `[start, range]` (to the search position,
/// the text's start, or the starts from which its end lies within the
/// anchor's distances), and a window leaving fewer bytes than the pattern's
/// least length is empty.
pub fn forward_search_window(reg: &RegexType, str_data: &[u8], end: usize, start: usize, range: usize) -> (r: Option<(usize, usize)>)
    requires
        start < end,
        start <= range <= end,
        end <= str_data@.len(),
        end <= i32::MAX,
    ensures
        match forward_window_spec(reg, str_data@, end as int, start as int, range as int) {
            Some((cs, cr)) => r matches Some((s, e)) && s == cs && e == cr,
            None => r is None,
        },
{
    let mut cur_start = start;
    let mut cur_range = range;
    if reg.anchor != 0 {
        if (reg.anchor & ANCR_BEGIN_POSITION) != 0 {
            if range > start {
                cur_range = start + 1;
            } else {
                cur_range = start;
            }
        } else if (reg.anchor & ANCR_BEGIN_BUF) != 0 {
            if range > start {
                if start != 0 {
                    return None;
                }
                cur_range = 1;
            } else {
                return None;
            }
        } else if (reg.anchor & ANCR_END_BUF) != 0 || (reg.anchor & ANCR_SEMI_END_BUF) != 0 {
            let max_semi_end = end;
            let min_semi_end = if (reg.anchor & ANCR_END_BUF) == 0 && end > 0 && str_data[end - 1] == 0x0a {
                end - 1
            } else {
                end
            };
            if (max_semi_end as u32) < reg.anc_dist_min {
                return None;
            }
            if range > start {
                if reg.anc_dist_max != INFINITE_LEN && (if min_semi_end >= start { min_semi_end - start } else { 0 })
                    > reg.anc_dist_max as usize {
                    cur_start = min_semi_end - reg.anc_dist_max as usize;
                }
                let before = if cur_range >= 1 { cur_range - 1 } else { 0 };
                let gap = if max_semi_end >= before { max_semi_end - before } else { 0 };
                if gap < reg.anc_dist_min as usize {
                    if max_semi_end + 1 < reg.anc_dist_min as usize {
                        return None;
                    } else {
                        cur_range = max_semi_end - reg.anc_dist_min as usize + 1;
                    }
                }
                if cur_start > cur_range {
                    return None;
                }
            }
        } else if (reg.anchor & ANCR_ANYCHAR_INF_ML) != 0 && range > start {
            cur_range = start + 1;
        }
    }
    if (end as i32 - cur_start as i32) < reg.threshold_len {
        return None;
    }
    Some((cur_start, cur_range))
}

/// How far the candidate scan of a forward search reaches past the last
/// start `range`: the pattern's greatest distance to its fixed part, up to
/// the text's end (`end` when that distance is unbounded).
pub open spec fn scan_reach_spec(reg: &RegexType, end: int, range: int) -> int {
    if reg.dist_max == 0 {
        range
    } else if reg.dist_max == INFINITE_LEN || end - range < reg.dist_max {
        end
    } else {
        range + reg.dist_max
    }
}

/// Where the candidate scan of a forward search over starts up to `range`
/// may look: see `scan_reach_spec`.
pub fn forward_scan_reach(reg: &RegexType, end: usize, range: usize) -> (r: usize)
    requires
        range <= end,
    ensures
        r == scan_reach_spec(reg, end as int, range as int),
{
    if reg.dist_max != 0 {
        if reg.dist_max == INFINITE_LEN {
            end
        } else if end - range < reg.dist_max as usize {
            end
        } else {
            range + reg.dist_max as usize
        }
    } else {
        range
    }
}


/// Skipping `d` positions past a window whose byte `off` after its last
/// byte is `c` passes over no occurrence: the byte `c` would stand at
/// target index `tail + off - d` of it, where the target holds another byte.
pub open spec fn sunday_skip_ok(map: Seq<u8>, off: int, target: Seq<u8>, c: u8, d: int) -> bool {
    1 <= d < skip_at(map, seq![c], 0) ==> d <= target.len() - 1 + off && target[target.len() - 1 + off - d] != c
}

/// `map` is a skip table for `target` that never jumps over an occurrence.
pub open spec fn sunday_table_valid(map: Seq<u8>, off: int, target: Seq<u8>) -> bool {
    &&& map.len() == 256
    &&& forall|c: u8, d: int| #[trigger] sunday_skip_ok(map, off, target, c, d)
}

proof fn lemma_quick_search_from_complete(
    map: Seq<u8>,
    off: int,
    text: Seq<u8>,
    target: Seq<u8>,
    s: int,
    end: int,
    text_end: int,
    p: int,
)
    requires
        target.len() > 0,
        0 <= off <= 1,
        sunday_table_valid(map, off, target),
        occurs_at(text, target, p, text_end),
        s <= p + target.len() - 1,
        p + target.len() <= end,
        end <= text_end,
    ensures
        quick_search_from(map, off, text, target, s, end, text_end) matches Some(q) && q <= p,
    decreases end - s,
{
    let tail = target.len() - 1;
    if s == p + tail {
        assert(occurs_at(text, target, s - tail, s + 1));
    } else if !occurs_at(text, target, s - tail, s + 1) {
        let c = text[s + off];
        let skip = skip_at(map, text, s + off);
        assert(skip_at(map, seq![c], 0) == skip);
        let d = p + tail - s;
        if s + skip > p + tail {
            assert(sunday_skip_ok(map, off, target, c, d));
            let idx = tail + off - d;
            assert(text[p + idx] == target[idx]);
        }
        lemma_quick_search_from_complete(map, off, text, target, s + skip, end, text_end, p);
    }
}

/// The quick search finds every occurrence it is owed: when `target` occurs
/// at `p`, from `text_start` on, no later than the window's last start
/// `text_range`, and fitting before `text_end`, and the skip table never
/// jumps over an occurrence, the search answers a start no later than `p`
/// (at which `target` occurs, by its contract): the first occurrence.
pub proof fn lemma_quick_search_complete(
    map: Seq<u8>,
    off: int,
    target: Seq<u8>,
    text: Seq<u8>,
    text_start: int,
    text_end: int,
    text_range: int,
    p: int,
)
    requires
        target.len() > 0,
        0 <= off <= 1,
        sunday_table_valid(map, off, target),
        text_start <= p <= text_range,
        p + target.len() <= text_end,
        forall|i: int| 0 <= i < target.len() ==> #[trigger] text[p + i] == target[i],
    ensures
        quick_search_result(map, off, target, text, text_start, text_end, text_range) matches Some(q) && q <= p,
{
    let tlen = target.len() as int;
    assert(occurs_at(text, target, p, text_end));
    let e = quick_search_end(tlen, text_start, text_end, text_range)->0;
    lemma_quick_search_from_complete(map, off, text, target, text_start + tlen - 1, e, text_end, p);
}

/// Going back from `s` over character starts reaches every character start
/// from `p` on.
proof fn lemma_head_from_zero_at_least(text: Seq<u8>, q: int, p: int)
    requires
        0 <= p <= q,
        p == 0 || !is_continuation(text[p]),
    ensures
        p <= head_from_zero(text, q),
    decreases q,
{
    if q > 0 && is_continuation(text[q]) {
        if q > p {
            lemma_head_from_zero_at_least(text, q - 1, p);
        }
    }
}

proof fn lemma_occurrence_back_complete(text: Seq<u8>, target: Seq<u8>, s: int, text_start: int, text_end: int, p: int)
    requires
        0 <= text_start <= p <= s,
        p == s || p == 0 || !is_continuation(text[p]),
        occurs_at(text, target, p, text_end),
    ensures
        occurrence_back_from(text, target, s, text_start, text_end) matches Some(q) && p <= q,
    decreases s,
{
    if !occurs_at(text, target, s, text_end) {
        assert(s != p);
        lemma_head_from_zero_at_least(text, s - 1, p);
        lemma_head_from_zero_bounds(text, s - 1);
        lemma_occurrence_back_complete(text, target, prev_head_of(text, s), text_start, text_end, p);
    }
}

proof fn lemma_head_at_or_before_at_least(text: Seq<u8>, start: int, q: int, p: int)
    requires
        0 <= start,
        0 <= p <= q,
        p == 0 || !is_continuation(text[p]),
    ensures
        p <= head_at_or_before(text, start, q),
    decreases q - start,
{
    if q > start && is_continuation(text[q]) {
        if q > p {
            lemma_head_at_or_before_at_least(text, start, q - 1, p);
        }
    }
}

/// The naive backward search finds every occurrence it is owed: when a
/// non-empty `target` occurs at the character start `p` (fitting before
/// `text_end`), between `text_start` and `search_start`, the search answers
/// a start at or after `p` (at which `target` occurs, by its contract): the
/// last occurrence. An occurrence right at `text_start` is found.
pub proof fn lemma_slow_back_complete(
    text: Seq<u8>,
    target: Seq<u8>,
    text_start: int,
    adjust: int,
    text_end: int,
    search_start: int,
    p: int,
)
    requires
        target.len() > 0,
        0 <= adjust,
        0 <= text_start <= p <= search_start,
        p == 0 || !is_continuation(text[p]),
        p + target.len() <= text_end,
        forall|i: int| 0 <= i < target.len() ==> #[trigger] text[p + i] == target[i],
    ensures
        slow_back_result(text, target, text_start, adjust, text_end, search_start) matches Some(q) && p <= q,
{
    let tlen = target.len() as int;
    assert(occurs_at(text, target, p, text_end));
    let last = if text_end > tlen { text_end - tlen } else { 0 };
    assert(p <= last);
    let first = back_search_first(text, tlen, adjust, text_end, search_start);
    if last <= search_start {
        lemma_head_at_or_before_at_least(text, adjust, last, p);
    }
    assert(p <= first);
    lemma_occurrence_back_complete(text, target, first, text_start, text_end, p);
}


proof fn lemma_map_hit_from_ascii_complete(map: Seq<u8>, text: Seq<u8>, s: int, range: int, p: int)
    requires
        s <= p < range,
        map[text[p] as int] != 0,
    ensures
        map_hit_from(OnigEncoding::Ascii, map, text, s, range) matches Some(q) && s <= q <= p,
    decreases p - s,
{
    if map[text[s] as int] == 0 {
        assert(char_step(OnigEncoding::Ascii, text, s) == 1);
        lemma_map_hit_from_ascii_complete(map, text, s + 1, range, p);
    }
}

/// In a single-byte encoding the forward map search misses no marked byte:
/// when `map` marks the byte at `p`, from `s` on and before `range`, the
/// search answers a position from `s` up to `p` (whose byte `map` marks,
/// by its definition): the first marked byte.
pub proof fn lemma_map_search_ascii_complete(map: Seq<u8>, text: Seq<u8>, s: int, range: int, p: int)
    requires
        s <= p < range,
        map[text[p] as int] != 0,
    ensures
        map_hit_from(OnigEncoding::Ascii, map, text, s, range) matches Some(q) && s <= q <= p
            && map[text[q] as int] != 0,
{
    lemma_map_hit_from_ascii_complete(map, text, s, range, p);
    lemma_map_hit_from_marks(map, text, s, range);
}

proof fn lemma_map_hit_from_marks(map: Seq<u8>, text: Seq<u8>, s: int, range: int)
    ensures
        map_hit_from(OnigEncoding::Ascii, map, text, s, range) matches Some(q) ==> map[text[q] as int] != 0,
    decreases if s < range { range - s } else { 0 },
{
    if s < range && map[text[s] as int] == 0 {
        assert(char_step(OnigEncoding::Ascii, text, s) == 1);
        lemma_map_hit_from_marks(map, text, s + 1, range);
    }
}

proof fn lemma_occurrence_from_ascii_complete(target: Seq<u8>, text: Seq<u8>, s: int, limit: int, end: int, p: int)
    requires
        s <= p < limit,
        occurs_at(text, target, p, end),
    ensures
        occurrence_from(OnigEncoding::Ascii, target, text, s, limit, end) matches Some(q) && s <= q <= p,
    decreases p - s,
{
    if !occurs_at(text, target, s, end) {
        assert(char_step(OnigEncoding::Ascii, text, s) == 1);
        lemma_occurrence_from_ascii_complete(target, text, s + 1, limit, end, p);
    }
}

/// In a single-byte encoding the naive forward search misses no occurrence:
/// when `target` occurs at `p` (fitting before `end`), from `s` on and
/// before `limit`, the search answers a start from `s` up to `p`.
pub proof fn lemma_slow_search_ascii_complete(target: Seq<u8>, text: Seq<u8>, s: int, limit: int, end: int, p: int)
    requires
        s <= p < limit,
        p + target.len() <= end,
        forall|i: int| 0 <= i < target.len() ==> #[trigger] text[p + i] == target[i],
    ensures
        occurrence_from(OnigEncoding::Ascii, target, text, s, limit, end) matches Some(q) && s <= q <= p,
{
    assert(occurs_at(text, target, p, end));
    lemma_occurrence_from_ascii_complete(target, text, s, limit, end, p);
}

proof fn lemma_map_hit_back_complete_from(map: Seq<u8>, text: Seq<u8>, s: int, text_start: int, p: int)
    requires
        0 <= text_start <= p <= s,
        p == s || p == 0 || !is_continuation(text[p]),
        map[text[p] as int] != 0,
    ensures
        map_hit_back(map, text, s, text_start) matches Some(q) && p <= q <= s,
    decreases s,
{
    if map[text[s] as int] == 0 {
        assert(s != p);
        lemma_head_from_zero_at_least(text, s - 1, p);
        lemma_head_from_zero_bounds(text, s - 1);
        lemma_map_hit_back_complete_from(map, text, prev_head_of(text, s), text_start, p);
    }
}

/// The backward map search misses no marked character start: when `map`
/// marks the byte at the character start `p`, between `text_start` and the
/// search start `s`, the search answers a position from `p` up to `s`: the
/// last marked one.
pub proof fn lemma_map_search_backward_complete(map: Seq<u8>, text: Seq<u8>, s: int, text_start: int, p: int)
    requires
        0 <= text_start <= p <= s,
        p == s || p == 0 || !is_continuation(text[p]),
        map[text[p] as int] != 0,
    ensures
        map_hit_back(map, text, s, text_start) matches Some(q) && p <= q <= s,
{
    lemma_map_hit_back_complete_from(map, text, s, text_start, p);
}

} // verus!
