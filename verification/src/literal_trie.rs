//! Compact trie for matching literal alternations.
//!
//! When an alternation consists entirely of literal strings (for example
//! `accent-color|additive-symbols|...|z-index`), the literals go into a trie
//! so that a match costs the length of the input read, not one attempt per literal.
use vstd::prelude::*;

use crate::encodings::utf8::{enc_len_utf8, utf8_code, utf8_len_table, ONIG_ENCODING_UTF8};
use crate::regenc::Encoding;
use crate::regenc::{ascii_lower, onigenc_ascii_code_to_lower_case};

verus! {

/// A byte as the trie compares it: lower-cased (ASCII) when case is ignored.
pub open spec fn fold_byte(ci: bool, b: u8) -> u8 {
    if ci { ascii_lower(b) } else { b }
}

/// A string as the trie compares it.
pub open spec fn fold_key(ci: bool, s: Seq<u8>) -> Seq<u8> {
    s.map_values(|b: u8| fold_byte(ci, b))
}

/// The first position at which `w` occurs in `keys`.
pub open spec fn first_index(keys: Seq<Seq<u8>>, w: Seq<u8>) -> Option<int>
    decreases keys.len(),
{
    if keys.len() == 0 {
        None
    } else {
        match first_index(keys.drop_last(), w) {
            Some(j) => Some(j),
            None => if keys.last() == w { Some(keys.len() - 1) } else { None },
        }
    }
}

/// The `len` input bytes from `pos` on, as the trie compares them.
pub open spec fn input_word(ci: bool, input: Seq<u8>, pos: int, len: int) -> Seq<u8> {
    if len == 0 { Seq::empty() } else { fold_key(ci, input.subrange(pos, pos + len)) }
}

/// The literal that matches the `len` input bytes at `pos` (its first position
/// among the literals), if any.
pub open spec fn match_at(keys: Seq<Seq<u8>>, ci: bool, input: Seq<u8>, pos: int, len: int) -> Option<int> {
    first_index(keys, input_word(ci, input, pos, len))
}

/// The longest match length the search window `[pos, end)` allows.
pub open spec fn window_len(pos: int, end: int) -> int {
    if end > pos { end - pos } else { 0 }
}

/// The matches at `pos` shorter than `n` bytes, as (literal, length), shortest first.
pub open spec fn matches_upto(keys: Seq<Seq<u8>>, ci: bool, input: Seq<u8>, pos: int, n: nat) -> Seq<(u32, nat)>
    decreases n,
{
    if n == 0 {
        Seq::empty()
    } else {
        let prev = matches_upto(keys, ci, input, pos, (n - 1) as nat);
        match match_at(keys, ci, input, pos, n - 1) {
            Some(j) => prev.push((j as u32, (n - 1) as nat)),
            None => prev,
        }
    }
}

/// Every match at `pos` within `[pos, end)`, shortest first.
pub open spec fn all_matches(keys: Seq<Seq<u8>>, ci: bool, input: Seq<u8>, pos: int, end: int) -> Seq<(u32, nat)> {
    matches_upto(keys, ci, input, pos, (window_len(pos, end) + 1) as nat)
}

/// Whether children are in strictly increasing byte order.
pub open spec fn children_sorted(ch: Seq<(u8, u32)>) -> bool {
    forall|i: int, j: int| 0 <= i < j < ch.len() ==> ch[i].0 < ch[j].0
}

/// The child reached over byte `b`.
pub open spec fn child_of(ch: Seq<(u8, u32)>, b: u8) -> Option<u32> {
    if exists|k: int| 0 <= k < ch.len() && ch[k].0 == b {
        Some(ch[choose|k: int| 0 <= k < ch.len() && ch[k].0 == b].1)
    } else {
        None
    }
}

proof fn lemma_child_of_at(ch: Seq<(u8, u32)>, k: int)
    requires
        children_sorted(ch),
        0 <= k < ch.len(),
    ensures
        child_of(ch, ch[k].0) == Some(ch[k].1),
{
    let b = ch[k].0;
    assert(exists|k2: int| 0 <= k2 < ch.len() && ch[k2].0 == b);
    let c = choose|k2: int| 0 <= k2 < ch.len() && ch[k2].0 == b;
    if c < k {
        assert(ch[c].0 < ch[k].0);
    } else if c > k {
        assert(ch[k].0 < ch[c].0);
    }
}

proof fn lemma_child_of_insert(ch: Seq<(u8, u32)>, pos: int, b: u8, c: u32, b2: u8)
    requires
        children_sorted(ch),
        0 <= pos <= ch.len(),
        forall|i: int| 0 <= i < pos ==> ch[i].0 < b,
        forall|i: int| pos <= i < ch.len() ==> ch[i].0 > b,
    ensures
        children_sorted(ch.insert(pos, (b, c))),
        child_of(ch.insert(pos, (b, c)), b2) == (if b2 == b { Some(c) } else { child_of(ch, b2) }),
{
    let ch2 = ch.insert(pos, (b, c));
    assert(children_sorted(ch2)) by {
        assert forall|i: int, j: int| 0 <= i < j < ch2.len() implies ch2[i].0 < ch2[j].0 by {
            if j < pos {
                assert(ch2[i] == ch[i] && ch2[j] == ch[j]);
            } else if j == pos {
                assert(ch2[i] == ch[i]);
            } else if i < pos {
                assert(ch2[i] == ch[i] && ch2[j] == ch[j - 1]);
            } else if i == pos {
                assert(ch2[j] == ch[j - 1]);
            } else {
                assert(ch2[i] == ch[i - 1] && ch2[j] == ch[j - 1]);
            }
        }
    }
    if b2 == b {
        assert(ch2[pos] == (b, c));
        lemma_child_of_at(ch2, pos);
    } else {
        if exists|k: int| 0 <= k < ch.len() && ch[k].0 == b2 {
            let k = choose|k: int| 0 <= k < ch.len() && ch[k].0 == b2;
            lemma_child_of_at(ch, k);
            let k2 = if k < pos { k } else { k + 1 };
            assert(ch2[k2] == ch[k]);
            lemma_child_of_at(ch2, k2);
        } else {
            assert forall|k: int| 0 <= k < ch2.len() implies ch2[k].0 != b2 by {
                if k < pos {
                    assert(ch2[k] == ch[k]);
                } else if k > pos {
                    assert(ch2[k] == ch[k - 1]);
                }
            }
        }
    }
}

struct TrieNode {
    /// Sorted (byte, child index) pairs for binary search lookup.
    children: Vec<(u8, u32)>,
    /// Index of the literal that ends at this node, if any.
    terminal: Option<u32>,
}

/// Compact trie over the literal alternatives of one alternation.
pub struct LiteralTrie {
    nodes: Vec<TrieNode>,
    case_insensitive: bool,
    raw_literals: Vec<Vec<u8>>,
    /// Unicode case folding of a case-insensitive UTF-8 alternation.
    folds: Option<Box<CaseFolds>>,
    /// The string that leads from the root to each node.
    paths: Ghost<Seq<Seq<u8>>>,
    /// The node each path leads to.
    index_of: Ghost<Map<Seq<u8>, int>>,
}

/// A character read by the folded walk: its input bytes `[start, end)` and
/// how many literal bytes (lowercase ASCII symbols) it stands for.
#[derive(Clone, Copy)]
pub struct FoldedChar {
    pub start: usize,
    pub end: usize,
    pub symbols: usize,
}

/// What a case-insensitive alternation of ASCII literals accepts beyond
/// ASCII case pairs.
///
/// Compiled without a trie, each literal becomes single-character classes
/// and, where a multi-character fold starts (`ss`, `st`, `ffi`), an
/// alternation of exact strings covering that segment. The trie walks the
/// input folded to lowercase ASCII and, when it meets non-ASCII input, checks
/// the literal it reached against those segments.
pub struct CaseFolds {
    /// Code points a single-character class accepts from non-ASCII input,
    /// with the lowercase letter of that class, sorted by code point.
    pub class_members: Vec<(u32, u8)>,
    /// Characters only a multi-character segment accepts, as exact UTF-8
    /// bytes, with the lowercase text they stand for (`ß` for `ss`).
    pub ligatures: Vec<(Vec<u8>, Vec<u8>)>,
    /// Multi-character segments of each literal, in order: start offset,
    /// length, and index into `accepted`.
    pub segments: Vec<Vec<(usize, usize, usize)>>,
    /// The exact inputs each distinct multi-character segment accepts.
    pub accepted: Vec<Vec<Vec<u8>>>,
}

impl CaseFolds {
    /// The ligatures, as (bytes, text).
    pub open spec fn ligs(&self) -> Seq<(Seq<u8>, Seq<u8>)> {
        self.ligatures@.map_values(|e: (Vec<u8>, Vec<u8>)| (e.0@, e.1@))
    }

    /// The segments of each literal.
    pub open spec fn segs(&self) -> Seq<Seq<(usize, usize, usize)>> {
        self.segments@.map_values(|v: Vec<(usize, usize, usize)>| v@)
    }

    /// The inputs each segment kind accepts.
    pub open spec fn acc(&self) -> Seq<Seq<Seq<u8>>> {
        self.accepted@.map_values(|v: Vec<Vec<u8>>| v@.map_values(|c: Vec<u8>| c@))
    }

    /// The folds describe the literals `lits`: class members sorted by
    /// strictly increasing code point, one segment list per literal, and
    /// each literal's segments in order, inside the literal, naming an
    /// existing set of accepted inputs.
    pub open spec fn wf_for(&self, lits: Seq<Seq<u8>>) -> bool {
        &&& members_sorted(self.class_members@)
        &&& self.segs().len() == lits.len()
        &&& forall|l: int| 0 <= l < lits.len() ==> segments_fit(#[trigger] self.segs()[l], lits[l].len() as int, self.acc().len() as int)
    }
}

/// Code points in strictly increasing order.
pub open spec fn members_sorted(members: Seq<(u32, u8)>) -> bool {
    forall|i: int, j: int| 0 <= i < j < members.len() ==> members[i].0 < members[j].0
}

/// Segments in order, each ending by `limit` and naming one of `n_acc` sets.
pub open spec fn segments_fit(segs: Seq<(usize, usize, usize)>, limit: int, n_acc: int) -> bool {
    &&& forall|k: int| 0 <= k < segs.len() ==> #[trigger] segs[k].0 + segs[k].1 <= limit && (segs[k].2 as int) < n_acc
    &&& forall|j: int, k: int| 0 <= j < k < segs.len() ==> #[trigger] segs[j].0 + segs[j].1 <= #[trigger] segs[k].0
}

/// The letter of the class that accepts `code`, if any.
pub open spec fn class_member_of(members: Seq<(u32, u8)>, code: u32) -> Option<u8> {
    if exists|k: int| 0 <= k < members.len() && #[trigger] members[k].0 == code {
        Some(members[choose|k: int| 0 <= k < members.len() && #[trigger] members[k].0 == code].1)
    } else {
        None
    }
}

/// The text of the first ligature whose bytes are `bytes`, if any.
pub open spec fn ligature_of(ligs: Seq<(Seq<u8>, Seq<u8>)>, bytes: Seq<u8>) -> Option<Seq<u8>>
    decreases ligs.len(),
{
    if ligs.len() == 0 {
        None
    } else if ligs[0].0 == bytes {
        Some(ligs[0].1)
    } else {
        ligature_of(ligs.drop_first(), bytes)
    }
}

/// Where the characters from `at` on first cover `len` symbols, counting
/// from `covered`: the index after them and the symbols covered, or `None`
/// when the characters run out first.
pub open spec fn cover(chars: Seq<FoldedChar>, at: int, covered: int, len: int) -> Option<(int, int)>
    decreases chars.len() - at,
{
    if covered >= len {
        Some((at, covered))
    } else if at < 0 || at >= chars.len() {
        None
    } else {
        cover(chars, at + 1, covered + chars[at].symbols, len)
    }
}

/// Whether the characters from `at` (at literal offset `offset`) fit the
/// segments from `k` on: before a segment, one single-symbol character per
/// offset; the segment, whole characters covering exactly its length whose
/// bytes it accepts; after the last segment, single-symbol characters only.
pub open spec fn accepts_from(
    segs: Seq<(usize, usize, usize)>,
    acc: Seq<Seq<Seq<u8>>>,
    input: Seq<u8>,
    chars: Seq<FoldedChar>,
    k: int,
    at: int,
    offset: int,
) -> bool
    decreases segs.len() - k,
{
    if k < 0 || k >= segs.len() {
        forall|m: int| at <= m < chars.len() ==> #[trigger] chars[m].symbols == 1
    } else {
        let start = segs[k].0 as int;
        let len = segs[k].1 as int;
        let n = if offset < start { start - offset } else { 0 };
        let at1 = at + n;
        if !(0 <= at && at1 < chars.len() && forall|m: int| at <= m < at1 ==> #[trigger] chars[m].symbols == 1) {
            false
        } else {
            match cover(chars, at1, 0, len) {
                None => false,
                Some((at2, covered)) => {
                    let span_end = if at2 > at1 { chars[at2 - 1].end as int } else { chars[at1].start as int };
                    &&& covered == len
                    &&& acc[segs[k].2 as int].contains(input.subrange(chars[at1].start as int, span_end))
                    &&& accepts_from(segs, acc, input, chars, k + 1, at2, offset + n + len)
                },
            }
        }
    }
}

/// Whether the characters read for literal `literal` fit its segments.
pub open spec fn accepts_spec(f: CaseFolds, literal: int, input: Seq<u8>, chars: Seq<FoldedChar>) -> bool {
    accepts_from(f.segs()[literal], f.acc(), input, chars, 0, 0, 0)
}

/// The characters lie in order inside `[lo, hi)`, each at least one byte long.
pub open spec fn chars_ok(chars: Seq<FoldedChar>, lo: int, hi: int) -> bool {
    &&& forall|m: int| 0 <= m < chars.len() ==> lo <= #[trigger] chars[m].start < chars[m].end <= hi
    &&& forall|a: int, b: int| 0 <= a < b < chars.len() ==> #[trigger] chars[a].end <= #[trigger] chars[b].start
}

/// Whether two byte strings are equal.
fn same_bytes(a: &[u8], b: &[u8]) -> (r: bool)
    ensures
        r == (a@ == b@),
{
    if a.len() != b.len() {
        return false;
    }
    let mut i: usize = 0;
    while i < a.len()
        invariant
            i <= a@.len(),
            a@.len() == b@.len(),
            forall|k: int| 0 <= k < i ==> a@[k] == b@[k],
        decreases a@.len() - i,
    {
        if a[i] != b[i] {
            return false;
        }
        i = i + 1;
    }
    assert(a@ =~= b@);
    true
}

impl CaseFolds {
    /// The letter of the class that accepts `code`, if any.
    fn class_member(&self, code: u32) -> (r: Option<u8>)
        requires
            members_sorted(self.class_members@),
        ensures
            r == class_member_of(self.class_members@, code),
    {
        let ghost ms = self.class_members@;
        let mut lo: usize = 0;
        let mut hi: usize = self.class_members.len();
        while lo < hi
            invariant
                ms == self.class_members@,
                members_sorted(ms),
                lo <= hi <= ms.len(),
                forall|i: int| 0 <= i < lo ==> ms[i].0 < code,
                forall|i: int| hi <= i < ms.len() ==> ms[i].0 > code,
            decreases hi - lo,
        {
            let mid = lo + (hi - lo) / 2;
            let (member, letter) = self.class_members[mid];
            if member == code {
                proof {
                    let k = choose|k: int| 0 <= k < ms.len() && #[trigger] ms[k].0 == code;
                    if k < mid {
                        assert(ms[k].0 < ms[mid as int].0);
                    } else if k > mid {
                        assert(ms[mid as int].0 < ms[k].0);
                    }
                }
                return Some(letter);
            } else if member < code {
                lo = mid + 1;
            } else {
                hi = mid;
            }
        }
        proof {
            assert forall|k: int| 0 <= k < ms.len() implies #[trigger] ms[k].0 != code by {
                if k < lo {
                } else {
                }
            }
        }
        None
    }

    /// The text of the first ligature whose bytes are `bytes`, if any.
    fn ligature(&self, bytes: &[u8]) -> (r: Option<&[u8]>)
        ensures
            match r {
                Some(t) => ligature_of(self.ligs(), bytes@) == Some(t@),
                None => ligature_of(self.ligs(), bytes@) is None,
            },
    {
        let ghost ls = self.ligs();
        let mut i: usize = 0;
        proof {
            assert(ls.subrange(0, ls.len() as int) =~= ls);
        }
        while i < self.ligatures.len()
            invariant
                ls == self.ligs(),
                ls.len() == self.ligatures@.len(),
                i <= ls.len(),
                ligature_of(ls, bytes@) == ligature_of(ls.subrange(i as int, ls.len() as int), bytes@),
            decreases ls.len() - i,
        {
            let entry = &self.ligatures[i];
            let ghost rest = ls.subrange(i as int, ls.len() as int);
            proof {
                assert(rest[0] == ls[i as int]);
                assert(rest.drop_first() =~= ls.subrange(i + 1, ls.len() as int));
            }
            if same_bytes(entry.0.as_slice(), bytes) {
                return Some(entry.1.as_slice());
            }
            i = i + 1;
        }
        None
    }

    /// Whether accepted set `which` holds `input[start..end]`.
    fn accepted_holds(&self, which: usize, input: &[u8], start: usize, end: usize) -> (r: bool)
        requires
            (which as int) < self.acc().len(),
            start <= end <= input@.len(),
        ensures
            r == self.acc()[which as int].contains(input@.subrange(start as int, end as int)),
    {
        let span = vstd::slice::slice_subrange(input, start, end);
        let set = &self.accepted[which];
        let ghost cs = self.acc()[which as int];
        let mut i: usize = 0;
        while i < set.len()
            invariant
                cs == self.acc()[which as int],
                cs.len() == set@.len(),
                forall|k: int| 0 <= k < set@.len() ==> #[trigger] cs[k] == set@[k]@,
                span@ == input@.subrange(start as int, end as int),
                i <= set@.len(),
                forall|k: int| 0 <= k < i ==> cs[k] != span@,
            decreases set@.len() - i,
        {
            if same_bytes(set[i].as_slice(), span) {
                proof {
                    assert(cs[i as int] == span@);
                }
                return true;
            }
            i = i + 1;
        }
        proof {
            if cs.contains(span@) {
                let k = choose|k: int| 0 <= k < cs.len() && cs[k] == span@;
                assert(cs[k] != span@);
            }
        }
        false
    }

    /// Whether the characters read for `literal` fit its segments: a
    /// multi-character segment must be covered by whole characters whose
    /// bytes it accepts, and every other offset by one single-symbol
    /// character.
    fn accepts(&self, literal: usize, input: &[u8], chars: &Vec<FoldedChar>) -> (r: bool)
        requires
            (literal as int) < self.segs().len(),
            segments_fit(self.segs()[literal as int], usize::MAX as int, self.acc().len() as int),
            chars_ok(chars@, 0, input@.len() as int),
        ensures
            r == accepts_spec(*self, literal as int, input@, chars@),
    {
        let segs = &self.segments[literal];
        let ghost sg = self.segs()[literal as int];
        let ghost acc = self.acc();
        let ghost cs = chars@;
        let ghost spec_r = accepts_spec(*self, literal as int, input@, chars@);
        assert(sg == segs@);
        assert(spec_r == accepts_from(sg, acc, input@, cs, 0, 0, 0));
        let mut at: usize = 0;
        let mut offset: usize = 0;
        let mut k: usize = 0;
        while k < segs.len()
            invariant
                sg == segs@,
                acc == self.acc(),
                cs == chars@,
                segments_fit(sg, usize::MAX as int, acc.len() as int),
                chars_ok(cs, 0, input@.len() as int),
                k <= sg.len(),
                at <= cs.len(),
                k == 0 ==> offset == 0,
                k > 0 ==> offset == sg[k - 1].0 + sg[k - 1].1,
                spec_r == accepts_spec(*self, literal as int, input@, chars@),
                    spec_r == accepts_from(sg, acc, input@, cs, k as int, at as int, offset as int),
            decreases sg.len() - k,
        {
            let (start, len, which) = segs[k];
            proof {
                assert(sg[k as int] == (start, len, which));
                if k > 0 {
                    assert(sg[k - 1].0 + sg[k - 1].1 <= sg[k as int].0);
                }
            }
            let ghost at0 = at as int;
            let ghost off0 = offset as int;
            while offset < start
                invariant
                    cs == chars@,
                    sg == segs@,
                    acc == self.acc(),
                    (k as int) < sg.len(),
                    sg[k as int] == (start, len, which),
                    spec_r == accepts_spec(*self, literal as int, input@, chars@),
                    spec_r == accepts_from(sg, acc, input@, cs, k as int, at0, off0),
                    off0 <= start,
                    off0 <= offset <= start,
                    at == at0 + (offset - off0),
                    at <= cs.len(),
                    forall|m: int| at0 <= m < at ==> #[trigger] cs[m].symbols == 1,
                decreases start - offset,
            {
                if at >= chars.len() || chars[at].symbols != 1 {
                    proof {
                        assert(at < at0 + (start - off0));
                        if at < cs.len() {
                            assert(cs[at as int].symbols != 1);
                        }
                        assert(!spec_r);
                    }
                    return false;
                }
                offset = offset + 1;
                at = at + 1;
            }
            if at >= chars.len() {
                assert(!spec_r);
                return false;
            }
            let at1 = at;
            let first_start = chars[at].start;
            let mut covered: usize = 0;
            let mut span_end = first_start;
            assert(at == at0 + (start - off0));
            while covered < len
                invariant
                    cs == chars@,
                    sg == segs@,
                    acc == self.acc(),
                    (k as int) < sg.len(),
                    sg[k as int] == (start, len, which),
                    spec_r == accepts_spec(*self, literal as int, input@, chars@),
                    spec_r == accepts_from(sg, acc, input@, cs, k as int, at0, off0),
                    off0 <= start,
                    at1 == at0 + (start - off0),
                    forall|m: int| at0 <= m < at1 ==> #[trigger] cs[m].symbols == 1,
                    chars_ok(cs, 0, input@.len() as int),
                    at1 <= at <= cs.len(),
                    at1 < cs.len(),
                    first_start == cs[at1 as int].start,
                    covered <= len,
                    cover(cs, at1 as int, 0, len as int) == cover(cs, at as int, covered as int, len as int),
                    at > at1 ==> span_end == cs[at - 1].end,
                    at == at1 ==> span_end == first_start,
                decreases cs.len() - at,
            {
                if at >= chars.len() {
                    assert(!spec_r);
                    return false;
                }
                let c = chars[at];
                if c.symbols > len - covered {
                    proof {
                        assert(cover(cs, at + 1, covered + c.symbols, len as int) == Some(((at + 1) as int, covered + c.symbols)));
                        assert(!spec_r);
                    }
                    return false;
                }
                covered = covered + c.symbols;
                span_end = c.end;
                at = at + 1;
            }
            proof {
                if at > at1 {
                    assert(cs[at1 as int].end <= cs[at - 1].start || at1 == at - 1);
                }
            }
            assert(cover(cs, at1 as int, 0, len as int) == Some((at as int, len as int)));
            if !self.accepted_holds(which, input, first_start, span_end) {
                assert(!spec_r);
                return false;
            }
            offset = offset + len;
            k = k + 1;
        }
        let mut m: usize = at;
        while m < chars.len()
            invariant
                cs == chars@,
                at <= m <= cs.len(),
                forall|x: int| at <= x < m ==> #[trigger] cs[x].symbols == 1,
                spec_r == accepts_spec(*self, literal as int, input@, chars@),
                    spec_r == accepts_from(sg, acc, input@, cs, sg.len() as int, at as int, offset as int),
            decreases cs.len() - m,
        {
            if chars[m].symbols != 1 {
                assert(!spec_r);
                return false;
            }
            m = m + 1;
        }
        true
    }
}

/// The symbols the character at `i` reads as, and its length in bytes, or
/// `None` where the folded walk stops: an ASCII byte reads as its lowercase
/// letter; a non-ASCII character (as long as its lead byte announces, and
/// ending by `end`) as the letter of a class accepting its code point, or
/// else as the text of a ligature with its bytes.
pub open spec fn read_char(f: CaseFolds, input: Seq<u8>, i: int, end: int) -> Option<(Seq<u8>, int)> {
    let b = input[i];
    if b < 0x80 {
        Some((seq![ascii_lower(b)], 1))
    } else {
        let len = utf8_len_table(b) as int;
        if len == 1 || i + len > end {
            None
        } else {
            let bytes = input.subrange(i, i + len);
            match class_member_of(f.class_members@, utf8_code(bytes)) {
                Some(l) => Some((seq![l], len)),
                None => match ligature_of(f.ligs(), bytes) {
                    Some(t) => Some((t, len)),
                    None => None,
                },
            }
        }
    }
}

/// The matches the folded walk reports from position `i` on, having read the
/// symbols `w` and the characters `chars` since `pos`: after each character,
/// the literal whose key is the symbols read so far, when its segments accept
/// the characters, with the length read; the walk stops at the first
/// character it cannot read.
pub open spec fn folded_reports(
    keys: Seq<Seq<u8>>,
    f: CaseFolds,
    input: Seq<u8>,
    pos: int,
    end: int,
    i: int,
    w: Seq<u8>,
    chars: Seq<FoldedChar>,
) -> Seq<(u32, nat)>
    decreases end - i,
{
    if i < 0 || i >= end || i >= input.len() {
        Seq::empty()
    } else {
        match read_char(f, input, i, end) {
            None => Seq::empty(),
            Some((syms, len)) => if len < 1 {
                Seq::empty()
            } else {
                let w2 = w + syms;
                let i2 = i + len;
                let chars2 = chars.push(FoldedChar { start: i as usize, end: i2 as usize, symbols: syms.len() as usize });
                let rest = folded_reports(keys, f, input, pos, end, i2, w2, chars2);
                match first_index(keys, w2) {
                    Some(lit) => if accepts_spec(f, lit, input, chars2) {
                        seq![(lit as u32, (i2 - pos) as nat)] + rest
                    } else {
                        rest
                    },
                    None => rest,
                }
            },
        }
    }
}

/// The bytes from `pos` to `q`, each a character of one symbol.
pub open spec fn plain_chars(pos: int, q: int) -> Seq<FoldedChar> {
    Seq::new((q - pos) as nat, |k: int| FoldedChar { start: (pos + k) as usize, end: (pos + k + 1) as usize, symbols: 1 })
}

/// `q` is the first non-ASCII byte of the window `[pos, end)`.
pub open spec fn high_at(input: Seq<u8>, pos: int, end: int, q: int) -> bool {
    &&& pos <= q < end
    &&& input[q] >= 0x80
    &&& forall|r: int| pos <= r < q ==> #[trigger] input[r] < 0x80
}

/// The first non-ASCII byte of the window `[pos, end)`, if any.
pub open spec fn first_high(input: Seq<u8>, pos: int, end: int) -> Option<int> {
    if exists|q: int| high_at(input, pos, end, q) {
        Some(choose|q: int| high_at(input, pos, end, q))
    } else {
        None
    }
}

/// `w` begins some key.
pub open spec fn is_key_prefix(keys: Seq<Seq<u8>>, w: Seq<u8>) -> bool {
    exists|j: int| 0 <= j < keys.len() && w.len() <= keys[j].len() && #[trigger] keys[j].take(w.len() as int) == w
}

proof fn lemma_first_high_at(input: Seq<u8>, pos: int, end: int, q: int)
    requires
        high_at(input, pos, end, q),
    ensures
        first_high(input, pos, end) == Some(q),
{
    let c = choose|x: int| high_at(input, pos, end, x);
    assert(high_at(input, pos, end, c));
    if c < q {
        assert(input[c] < 0x80);
    } else if c > q {
        assert(input[q] < 0x80);
    }
}

proof fn lemma_no_high(input: Seq<u8>, pos: int, end: int, i: int)
    requires
        forall|r: int| pos <= r < i ==> #[trigger] input[r] < 0x80,
        end <= i,
    ensures
        first_high(input, pos, end) is None,
{
    assert forall|q: int| !high_at(input, pos, end, q) by {
        if high_at(input, pos, end, q) {
            assert(input[q] < 0x80);
        }
    }
}

/// A string that begins no key has no extension that does.
proof fn lemma_not_prefix_extends(keys: Seq<Seq<u8>>, u: Seq<u8>, w: Seq<u8>)
    requires
        !is_key_prefix(keys, u),
        u.len() <= w.len(),
        w.take(u.len() as int) == u,
    ensures
        !is_key_prefix(keys, w),
{
    if is_key_prefix(keys, w) {
        let j = choose|j: int| 0 <= j < keys.len() && w.len() <= keys[j].len() && #[trigger] keys[j].take(w.len() as int) == w;
        assert(keys[j].take(u.len() as int) =~= w.take(u.len() as int));
        assert(is_key_prefix(keys, u));
    }
}

/// No key equals a string that begins no key.
proof fn lemma_not_prefix_not_key(keys: Seq<Seq<u8>>, w: Seq<u8>)
    requires
        !is_key_prefix(keys, w),
    ensures
        first_index(keys, w) is None,
{
    lemma_first_index(keys, w);
    if first_index(keys, w) is Some {
        let j = first_index(keys, w)->0;
        assert(keys[j].take(w.len() as int) =~= keys[j]);
    }
}

/// A walk that has read symbols beginning no key reports nothing more.
proof fn lemma_folded_none(
    keys: Seq<Seq<u8>>,
    f: CaseFolds,
    input: Seq<u8>,
    pos: int,
    end: int,
    i: int,
    w: Seq<u8>,
    chars: Seq<FoldedChar>,
)
    requires
        !is_key_prefix(keys, w),
    ensures
        folded_reports(keys, f, input, pos, end, i, w, chars) == Seq::<(u32, nat)>::empty(),
    decreases end - i,
{
    if !(i < 0 || i >= end || i >= input.len()) {
        match read_char(f, input, i, end) {
            None => {},
            Some((syms, len)) => {
                if len >= 1 {
                    let w2 = w + syms;
                    assert(w2.take(w.len() as int) =~= w);
                    lemma_not_prefix_extends(keys, w, w2);
                    lemma_not_prefix_not_key(keys, w2);
                    let chars2 = chars.push(FoldedChar { start: i as usize, end: (i + len) as usize, symbols: syms.len() as usize });
                    lemma_folded_none(keys, f, input, pos, end, i + len, w2, chars2);
                }
            },
        }
    }
}

/// The folded walk reports lengths beyond `i - pos`, in increasing order.
proof fn lemma_folded_lengths(
    keys: Seq<Seq<u8>>,
    f: CaseFolds,
    input: Seq<u8>,
    pos: int,
    end: int,
    i: int,
    w: Seq<u8>,
    chars: Seq<FoldedChar>,
)
    requires
        pos <= i,
    ensures
        ({
            let r = folded_reports(keys, f, input, pos, end, i, w, chars);
            &&& forall|a: int| 0 <= a < r.len() ==> r[a].1 > i - pos
            &&& forall|a: int, b: int| 0 <= a < b < r.len() ==> r[a].1 < r[b].1
        }),
    decreases end - i,
{
    if !(i < 0 || i >= end || i >= input.len()) {
        match read_char(f, input, i, end) {
            None => {},
            Some((syms, len)) => {
                if len >= 1 {
                    let w2 = w + syms;
                    let i2 = i + len;
                    let chars2 = chars.push(FoldedChar { start: i as usize, end: i2 as usize, symbols: syms.len() as usize });
                    lemma_folded_lengths(keys, f, input, pos, end, i2, w2, chars2);
                    let rest = folded_reports(keys, f, input, pos, end, i2, w2, chars2);
                    let r = folded_reports(keys, f, input, pos, end, i, w, chars);
                    match first_index(keys, w2) {
                        Some(lit) => if accepts_spec(f, lit, input, chars2) {
                            let head = seq![(lit as u32, (i2 - pos) as nat)];
                            assert(r == head + rest);
                            assert forall|a: int| 0 <= a < r.len() implies r[a].1 > i - pos by {
                                if a > 0 {
                                    assert(r[a] == rest[a - 1]);
                                }
                            }
                            assert forall|a: int, b: int| 0 <= a < b < r.len() implies r[a].1 < r[b].1 by {
                                assert(r[b] == rest[b - 1]);
                                if a > 0 {
                                    assert(r[a] == rest[a - 1]);
                                }
                            }
                        },
                        None => {},
                    }
                }
            },
        }
    }
}

/// The literals as byte strings.
pub open spec fn literal_views(literals: Seq<&[u8]>) -> Seq<Seq<u8>> {
    Seq::new(literals.len(), |j: int| literals[j]@)
}

/// The total length of the first `k` literals.
pub open spec fn total_len(lits: Seq<Seq<u8>>, k: int) -> int
    decreases k,
{
    if k <= 0 || k > lits.len() {
        0
    } else {
        total_len(lits, k - 1) + lits[k - 1].len()
    }
}

impl LiteralTrie {
    /// The literals the trie was built from.
    pub closed spec fn literals_spec(self) -> Seq<Seq<u8>> {
        Seq::new(self.raw_literals@.len(), |j: int| self.raw_literals@[j]@)
    }

    /// Whether case is ignored (ASCII only).
    pub closed spec fn ci(self) -> bool {
        self.case_insensitive
    }

    /// The case folding the trie also accepts, if any.
    pub closed spec fn folds_spec(self) -> Option<CaseFolds> {
        match self.folds {
            Some(b) => Some(*b),
            None => None,
        }
    }

    /// Every match at `pos` within `[pos, end)`, as (literal, length), in the
    /// order found: by key up to the first non-ASCII byte; with case folds,
    /// from that byte on by the folded walk.
    pub open spec fn found(self, input: Seq<u8>, pos: int, end: int) -> Seq<(u32, nat)> {
        match self.folds_spec() {
            Some(f) => match first_high(input, pos, end) {
                Some(q) => matches_upto(self.keys(), self.ci(), input, pos, (q - pos + 1) as nat) + folded_reports(
                    self.keys(),
                    f,
                    input,
                    pos,
                    end,
                    q,
                    input_word(self.ci(), input, pos, q - pos),
                    plain_chars(pos, q),
                ),
                None => all_matches(self.keys(), self.ci(), input, pos, end),
            },
            None => all_matches(self.keys(), self.ci(), input, pos, end),
        }
    }

    /// The literals as the trie compares them.
    pub open spec fn keys(self) -> Seq<Seq<u8>> {
        Seq::new(self.literals_spec().len(), |j: int| fold_key(self.ci(), self.literals_spec()[j]))
    }

    /// The trie holds the first `k` literals.
    closed spec fn inv(self, k: int) -> bool {
        &&& 0 <= k <= self.raw_literals@.len()
        &&& trie_inv(self.nodes@, self.paths@, self.index_of@, self.keys().take(k))
    }

    /// The trie holds all its literals, in at most one node per literal byte
    /// plus the root, with node and literal counts that fit in `u32`; case
    /// folds, if any, describe its literals and come with ignoring case.
    pub closed spec fn wf(self) -> bool {
        &&& self.inv(self.raw_literals@.len() as int)
        &&& self.nodes@.len() <= 1 + total_len(self.literals_spec(), self.raw_literals@.len() as int)
        &&& self.raw_literals@.len() <= u32::MAX
        &&& self.nodes@.len() < u32::MAX
        &&& 1 + total_len(self.literals_spec(), self.raw_literals@.len() as int) < u32::MAX
        &&& (self.folds_spec() matches Some(f) ==> f.wf_for(self.literals_spec()) && self.ci())
    }
}

/// The trie structure: each node's path; the node of each path; prefix-closed
/// paths; sorted children that lead exactly to the one-byte extensions of a
/// node's path; every key a path; and each node's literal the first key equal
/// to its path.
spec fn trie_inv(nodes: Seq<TrieNode>, paths: Seq<Seq<u8>>, index_of: Map<Seq<u8>, int>, keys: Seq<Seq<u8>>) -> bool {
    &&& nodes.len() == paths.len()
    &&& 1 <= nodes.len()
    &&& paths[0] == Seq::<u8>::empty()
    &&& forall|n: int| 0 <= n < nodes.len() ==> #[trigger] index_of.contains_key(paths[n])
        && index_of[paths[n]] == n
    &&& forall|p: Seq<u8>| #[trigger] index_of.contains_key(p) ==> 0 <= index_of[p] < nodes.len()
        && paths[index_of[p]] == p
    &&& forall|n: int, l: int|
        0 <= n < nodes.len() && 0 <= l <= paths[n].len() ==> #[trigger] index_of.contains_key(
            paths[n].take(l),
        )
    &&& forall|n: int| 0 <= n < nodes.len() ==> children_sorted(#[trigger] nodes[n].children@)
    &&& forall|n: int, b: u8|
        0 <= n < nodes.len() ==> #[trigger] child_of(nodes[n].children@, b) == (if index_of.contains_key(
            paths[n].push(b),
        ) {
            Some(index_of[paths[n].push(b)] as u32)
        } else {
            None
        })
    &&& forall|j: int| 0 <= j < keys.len() ==> index_of.contains_key(#[trigger] keys[j])
    &&& forall|n: int|
        0 <= n < nodes.len() ==> terminal_ok(#[trigger] nodes[n].terminal, first_index(keys, paths[n]))
}

spec fn terminal_ok(t: Option<u32>, f: Option<int>) -> bool {
    match t {
        Some(t) => f == Some(t as int),
        None => f is None,
    }
}


/// Where `b` is among sorted children: `Ok` with its position, or `Err` with
/// the position it would be inserted at.
fn search_children(children: &Vec<(u8, u32)>, b: u8) -> (r: Result<usize, usize>)
    requires
        children_sorted(children@),
    ensures
        match r {
            Ok(k) => k < children@.len() && children@[k as int].0 == b,
            Err(k) => k <= children@.len() && (forall|i: int| 0 <= i < k ==> children@[i].0 < b) && (
            forall|i: int| k <= i < children@.len() ==> children@[i].0 > b),
        },
{
    let mut lo: usize = 0;
    let mut hi: usize = children.len();
    while lo < hi
        invariant
            lo <= hi <= children@.len(),
            children_sorted(children@),
            forall|i: int| 0 <= i < lo ==> children@[i].0 < b,
            forall|i: int| hi <= i < children@.len() ==> children@[i].0 > b,
        decreases hi - lo,
    {
        let mid = lo + (hi - lo) / 2;
        let c = children[mid].0;
        if c == b {
            return Ok(mid);
        } else if c < b {
            lo = mid + 1;
        } else {
            hi = mid;
        }
    }
    Err(lo)
}

proof fn lemma_child_of_none(ch: Seq<(u8, u32)>, b: u8)
    requires
        forall|i: int| 0 <= i < ch.len() ==> ch[i].0 != b,
    ensures
        child_of(ch, b) is None,
{
}

proof fn lemma_first_index(keys: Seq<Seq<u8>>, w: Seq<u8>)
    ensures
        match first_index(keys, w) {
            Some(j) => 0 <= j < keys.len() && keys[j] == w && forall|i: int| 0 <= i < j ==> keys[i] != w,
            None => forall|i: int| 0 <= i < keys.len() ==> keys[i] != w,
        },
    decreases keys.len(),
{
    if keys.len() > 0 {
        let init = keys.drop_last();
        lemma_first_index(init, w);
        assert forall|i: int| 0 <= i < init.len() implies init[i] == keys[i] by {}
    }
}

proof fn lemma_first_index_push(keys: Seq<Seq<u8>>, key: Seq<u8>, w: Seq<u8>)
    ensures
        first_index(keys.push(key), w) == (match first_index(keys, w) {
            Some(j) => Some(j),
            None => if key == w { Some(keys.len() as int) } else { None },
        }),
{
    assert(keys.push(key).drop_last() =~= keys);
}

proof fn lemma_total_len_nonneg(lits: Seq<Seq<u8>>, k: int)
    ensures
        total_len(lits, k) >= 0,
    decreases k,
{
    if k > 0 && k <= lits.len() {
        lemma_total_len_nonneg(lits, k - 1);
    }
}

proof fn lemma_total_len_mono(lits: Seq<Seq<u8>>, k: int, m: int)
    requires
        0 <= k <= m <= lits.len(),
    ensures
        total_len(lits, k) <= total_len(lits, m),
        total_len(lits, k) >= 0,
    decreases m - k,
{
    lemma_total_len_nonneg(lits, k);
    if k < m {
        lemma_total_len_mono(lits, k, m - 1);
    }
}

/// Adding a node for the path of node `n` extended by `b`, as the last child
/// position `pos` among `n`'s children, keeps the structure.
proof fn lemma_add_node(
    nodes: Seq<TrieNode>,
    paths: Seq<Seq<u8>>,
    index_of: Map<Seq<u8>, int>,
    keys: Seq<Seq<u8>>,
    n: int,
    b: u8,
    pos: int,
    new_nodes: Seq<TrieNode>,
)
    requires
        trie_inv(nodes, paths, index_of, keys),
        0 <= n < nodes.len(),
        nodes.len() < u32::MAX,
        0 <= pos <= nodes[n].children@.len(),
        forall|i: int| 0 <= i < pos ==> nodes[n].children@[i].0 < b,
        forall|i: int| pos <= i < nodes[n].children@.len() ==> nodes[n].children@[i].0 > b,
        new_nodes.len() == nodes.len() + 1,
        new_nodes[nodes.len() as int].children@ == Seq::<(u8, u32)>::empty(),
        new_nodes[nodes.len() as int].terminal is None,
        new_nodes[n].children@ == nodes[n].children@.insert(pos, (b, nodes.len() as u32)),
        new_nodes[n].terminal == nodes[n].terminal,
        forall|x: int| 0 <= x < nodes.len() && x != n ==> new_nodes[x] == nodes[x],
    ensures
        trie_inv(
            new_nodes,
            paths.push(paths[n].push(b)),
            index_of.insert(paths[n].push(b), nodes.len() as int),
            keys,
        ),
        !index_of.contains_key(paths[n].push(b)),
{
    let nn = nodes.len() as int;
    let p = paths[n].push(b);
    let paths2 = paths.push(p);
    let index2 = index_of.insert(p, nn);
    // The new path is not a node yet: `n` has no child over `b`.
    assert forall|i: int| 0 <= i < nodes[n].children@.len() implies nodes[n].children@[i].0 != b by {
        if i < pos {
        } else {
        }
    }
    lemma_child_of_none(nodes[n].children@, b);
    assert(child_of(nodes[n].children@, b) is None);
    assert(!index_of.contains_key(p));
    assert forall|x: int| 0 <= x < new_nodes.len() implies #[trigger] index2.contains_key(paths2[x])
        && index2[paths2[x]] == x by {
        if x < nn {
            assert(paths2[x] == paths[x]);
            assert(index_of.contains_key(paths[x]));
        }
    }
    assert forall|q: Seq<u8>| #[trigger] index2.contains_key(q) implies 0 <= index2[q] < new_nodes.len()
        && paths2[index2[q]] == q by {
        if q != p {
            assert(index_of.contains_key(q));
        }
    }
    assert forall|x: int, l: int|
        0 <= x < new_nodes.len() && 0 <= l <= paths2[x].len() implies #[trigger] index2.contains_key(
        paths2[x].take(l),
    ) by {
        if x < nn {
            assert(paths2[x] == paths[x]);
            assert(index_of.contains_key(paths[x].take(l)));
        } else {
            if l == p.len() {
                assert(p.take(l) =~= p);
            } else {
                assert(p.take(l) =~= paths[n].take(l));
                assert(index_of.contains_key(paths[n].take(l)));
            }
        }
    }
    assert forall|x: int| 0 <= x < new_nodes.len() implies children_sorted(
        #[trigger] new_nodes[x].children@,
    ) by {
        if x == n {
            lemma_child_of_insert(nodes[n].children@, pos, b, nn as u32, 0);
        } else if x < nn {
            assert(new_nodes[x] == nodes[x]);
        }
    }
    assert forall|x: int, b2: u8| 0 <= x < new_nodes.len() implies #[trigger] child_of(
        new_nodes[x].children@,
        b2,
    ) == (if index2.contains_key(paths2[x].push(b2)) {
        Some(index2[paths2[x].push(b2)] as u32)
    } else {
        None
    }) by {
        if x == n {
            lemma_child_of_insert(nodes[n].children@, pos, b, nn as u32, b2);
            assert(paths2[x] == paths[n]);
            if b2 != b {
                assert(paths[n].push(b2) != p) by {
                    assert(paths[n].push(b2).last() == b2);
                }
                assert(child_of(nodes[n].children@, b2) == (if index_of.contains_key(paths[n].push(b2)) {
                    Some(index_of[paths[n].push(b2)] as u32)
                } else {
                    None
                }));
            }
        } else if x < nn {
            assert(new_nodes[x] == nodes[x]);
            assert(paths2[x] == paths[x]);
            if paths[x].push(b2) == p {
                assert(paths[x] =~= paths[x].push(b2).drop_last());
                assert(p.drop_last() =~= paths[n]);
                assert(index_of.contains_key(paths[x]));
                assert(index_of.contains_key(paths[n]));
                assert(index_of[paths[x]] == x);
                assert(index_of[paths[n]] == n);
            }
            assert(child_of(nodes[x].children@, b2) == (if index_of.contains_key(paths[x].push(b2)) {
                Some(index_of[paths[x].push(b2)] as u32)
            } else {
                None
            }));
        } else {
            let q = p.push(b2);
            assert(q != p) by {
                assert(q.len() != p.len());
            }
            if index_of.contains_key(q) {
                let m = index_of[q];
                assert(paths[m] == q);
                assert(index_of.contains_key(paths[m].take(p.len() as int)));
                assert(q.take(p.len() as int) =~= p);
            }
            assert(child_of(new_nodes[x].children@, b2) is None);
        }
    }
    assert forall|j: int| 0 <= j < keys.len() implies index2.contains_key(#[trigger] keys[j]) by {
        assert(index_of.contains_key(keys[j]));
    }
    assert forall|x: int| 0 <= x < new_nodes.len() implies terminal_ok(
        #[trigger] new_nodes[x].terminal,
        first_index(keys, paths2[x]),
    ) by {
        if x < nn {
            assert(paths2[x] == paths[x]);
            if x != n {
                assert(new_nodes[x] == nodes[x]);
            }
            assert(terminal_ok(nodes[x].terminal, first_index(keys, paths[x])));
        } else {
            lemma_first_index(keys, p);
            if first_index(keys, p) is Some {
                let j = first_index(keys, p)->0;
                assert(index_of.contains_key(keys[j]));
            }
        }
    }
}

/// Recording literal number `keys.len()` at node `node` (whose path is `key`)
/// keeps the structure for the keys with `key` added.
proof fn lemma_add_key(
    nodes: Seq<TrieNode>,
    paths: Seq<Seq<u8>>,
    index_of: Map<Seq<u8>, int>,
    keys: Seq<Seq<u8>>,
    key: Seq<u8>,
    node: int,
    new_nodes: Seq<TrieNode>,
)
    requires
        trie_inv(nodes, paths, index_of, keys),
        0 <= node < nodes.len(),
        paths[node] == key,
        keys.len() <= u32::MAX,
        new_nodes.len() == nodes.len(),
        new_nodes[node].children@ == nodes[node].children@,
        new_nodes[node].terminal == (match nodes[node].terminal {
            Some(t) => Some(t),
            None => Some(keys.len() as u32),
        }),
        forall|x: int| 0 <= x < nodes.len() && x != node ==> new_nodes[x] == nodes[x],
    ensures
        trie_inv(new_nodes, paths, index_of, keys.push(key)),
{
    let keys2 = keys.push(key);
    assert forall|x: int| 0 <= x < new_nodes.len() implies children_sorted(
        #[trigger] new_nodes[x].children@,
    ) by {
        if x != node {
            assert(new_nodes[x] == nodes[x]);
        }
    }
    assert forall|x: int, b2: u8| 0 <= x < new_nodes.len() implies #[trigger] child_of(
        new_nodes[x].children@,
        b2,
    ) == (if index_of.contains_key(paths[x].push(b2)) {
        Some(index_of[paths[x].push(b2)] as u32)
    } else {
        None
    }) by {
        if x != node {
            assert(new_nodes[x] == nodes[x]);
        }
        assert(child_of(nodes[x].children@, b2) == (if index_of.contains_key(paths[x].push(b2)) {
            Some(index_of[paths[x].push(b2)] as u32)
        } else {
            None
        }));
    }
    assert forall|j: int| 0 <= j < keys2.len() implies index_of.contains_key(#[trigger] keys2[j]) by {
        if j < keys.len() {
            assert(keys2[j] == keys[j]);
        } else {
            assert(index_of.contains_key(paths[node]));
        }
    }
    assert forall|x: int| 0 <= x < new_nodes.len() implies terminal_ok(
        #[trigger] new_nodes[x].terminal,
        first_index(keys2, paths[x]),
    ) by {
        lemma_first_index_push(keys, key, paths[x]);
        assert(terminal_ok(nodes[x].terminal, first_index(keys, paths[x])));
        if x != node {
            assert(new_nodes[x] == nodes[x]);
            assert(paths[x] != key) by {
                assert(index_of.contains_key(paths[x]));
                assert(index_of.contains_key(paths[node]));
                assert(index_of[paths[x]] == x);
                assert(index_of[paths[node]] == node);
            }
        }
    }
}

impl LiteralTrie {
    /// Adds literal number `index` (which is `key`) to a trie holding the literals before it.
    fn insert(&mut self, key: &[u8], index: u32)
        requires
            old(self).inv(index as int),
            (index as int) < old(self).raw_literals@.len(),
            old(self).raw_literals@.len() <= u32::MAX,
            key@ == old(self).literals_spec()[index as int],
            old(self).nodes@.len() <= 1 + total_len(old(self).literals_spec(), index as int),
            1 + total_len(old(self).literals_spec(), old(self).raw_literals@.len() as int) < u32::MAX,
        ensures
            final(self).inv(index + 1),
            final(self).raw_literals == old(self).raw_literals,
            final(self).case_insensitive == old(self).case_insensitive,
            final(self).folds == old(self).folds,
            final(self).nodes@.len() <= 1 + total_len(final(self).literals_spec(), index + 1),
    {
        let ghost k = index as int;
        let ghost keyf = fold_key(self.case_insensitive, key@);
        let ghost keys0 = self.keys().take(k);
        proof {
            lemma_total_len_mono(self.literals_spec(), k + 1, self.raw_literals@.len() as int);
            assert(total_len(self.literals_spec(), k + 1) == total_len(self.literals_spec(), k) + key@.len());
            assert(self.paths@[0].take(0) =~= keyf.take(0));
        }
        let mut node_idx: u32 = 0;
        let mut t: usize = 0;
        while t < key.len()
            invariant
                0 <= k < self.raw_literals@.len(),
                self.raw_literals == old(self).raw_literals,
                self.case_insensitive == old(self).case_insensitive,
                self.folds == old(self).folds,
                keyf == fold_key(self.case_insensitive, key@),
                keys0 == self.keys().take(k),
                key@ == self.literals_spec()[k],
                trie_inv(self.nodes@, self.paths@, self.index_of@, keys0),
                t <= key@.len(),
                (node_idx as int) < self.nodes@.len(),
                self.paths@[node_idx as int] == keyf.take(t as int),
                self.nodes@.len() <= 1 + total_len(self.literals_spec(), k) + t,
                1 + total_len(self.literals_spec(), k) + key@.len() < u32::MAX,
            decreases key@.len() - t,
        {
            let raw = key[t];
            let b = if self.case_insensitive {
                onigenc_ascii_code_to_lower_case(raw)
            } else {
                raw
            };
            assert(b == fold_byte(self.case_insensitive, raw));
            proof {
                assert(keyf.take(t + 1) =~= keyf.take(t as int).push(b));
            }
            let found = search_children(&self.nodes[node_idx as usize].children, b);
            match found {
                Ok(pos) => {
                    let next = self.nodes[node_idx as usize].children[pos].1;
                    proof {
                        lemma_child_of_at(self.nodes@[node_idx as int].children@, pos as int);
                    }
                    node_idx = next;
                },
                Err(pos) => {
                    let new_idx = self.nodes.len() as u32;
                    let ghost old_nodes = self.nodes@;
                    let ghost n = node_idx as int;
                    self.nodes.push(TrieNode { children: Vec::new(), terminal: None });
                    self.nodes[node_idx as usize].children.insert(pos, (b, new_idx));
                    proof {
                        lemma_add_node(
                            old_nodes,
                            self.paths@,
                            self.index_of@,
                            keys0,
                            n,
                            b,
                            pos as int,
                            self.nodes@,
                        );
                    }
                    let ghost newp = self.paths@[n].push(b);
                    self.paths = Ghost(self.paths@.push(newp));
                    self.index_of = Ghost(self.index_of@.insert(newp, new_idx as int));
                    node_idx = new_idx;
                },
            }
            t = t + 1;
        }
        proof {
            assert(keyf.take(key@.len() as int) =~= keyf);
            assert(self.keys()[k] == keyf);
            assert(self.keys().take(k + 1) =~= keys0.push(keyf));
        }
        let ghost before = self.nodes@;
        if self.nodes[node_idx as usize].terminal.is_none() {
            self.nodes[node_idx as usize].terminal = Some(index);
        }
        proof {
            lemma_add_key(
                before,
                self.paths@,
                self.index_of@,
                keys0,
                keyf,
                node_idx as int,
                self.nodes@,
            );
        }
    }
}


/// Segments that end by `a` end by any `b >= a`.
proof fn lemma_fit_weaken(segs: Seq<(usize, usize, usize)>, a: int, b: int, n: int)
    requires
        segments_fit(segs, a, n),
        a <= b,
    ensures
        segments_fit(segs, b, n),
{
}

/// Characters inside `[lo, hi)` lie inside any wider range.
proof fn lemma_chars_widen(chars: Seq<FoldedChar>, lo: int, hi: int, lo2: int, hi2: int)
    requires
        chars_ok(chars, lo, hi),
        lo2 <= lo,
        hi <= hi2,
    ensures
        chars_ok(chars, lo2, hi2),
{
}

/// A character `[i, j)` after characters ending by `i` keeps them in order.
proof fn lemma_chars_push(chars: Seq<FoldedChar>, lo: int, i: int, j: int, symbols: usize)
    requires
        chars_ok(chars, lo, i),
        0 <= lo <= i < j <= usize::MAX,
    ensures
        chars_ok(chars.push(FoldedChar { start: i as usize, end: j as usize, symbols }), lo, j),
{
    let c = FoldedChar { start: i as usize, end: j as usize, symbols };
    let c2 = chars.push(c);
    assert(c2[chars.len() as int] == c);
    assert(c.start == i && c.end == j);
    assert forall|a: int, b: int| 0 <= a < b < c2.len() implies #[trigger] c2[a].end <= #[trigger] c2[b].start by {
        if b < chars.len() {
            assert(c2[a] == chars[a] && c2[b] == chars[b]);
        } else {
            assert(c2[a] == chars[a]);
            assert(lo <= chars[a].start);
        }
    }
    assert forall|m: int| 0 <= m < c2.len() implies lo <= #[trigger] c2[m].start < c2[m].end <= j by {
        if m < chars.len() {
            assert(c2[m] == chars[m]);
        }
    }
}

impl LiteralTrie {
    /// Stepping from `node` over one symbol: the child's path extends the
    /// node's by it, and a missing child means no key begins that way.
    proof fn lemma_child_step(&self, node: u32, l: u8, nx: Option<u32>)
        requires
            self.wf(),
            (node as int) < self.nodes@.len(),
            nx == child_of(self.nodes@[node as int].children@, l),
        ensures
            match nx {
                Some(n) => (n as int) < self.nodes@.len() && self.paths@[n as int] == self.paths@[node as int] + seq![l],
                None => !is_key_prefix(self.keys(), self.paths@[node as int] + seq![l]),
            },
    {
        let keys = self.keys();
        assert(keys.take(keys.len() as int) =~= keys);
        let p = self.paths@[node as int];
        assert(p + seq![l] =~= p.push(l));
        if nx is None {
            if is_key_prefix(keys, p.push(l)) {
                lemma_key_prefix_in_index(self.nodes@, self.paths@, self.index_of@, keys, p.push(l));
            }
        } else {
            assert(self.index_of@.contains_key(p.push(l)));
            assert(self.paths@[self.index_of@[p.push(l)]] == p.push(l));
        }
    }
}

/// Every string that begins a key is a node's path.
proof fn lemma_key_prefix_in_index(
    nodes: Seq<TrieNode>,
    paths: Seq<Seq<u8>>,
    index_of: Map<Seq<u8>, int>,
    keys: Seq<Seq<u8>>,
    w: Seq<u8>,
)
    requires
        trie_inv(nodes, paths, index_of, keys),
        is_key_prefix(keys, w),
    ensures
        index_of.contains_key(w),
{
    let j = choose|j: int| 0 <= j < keys.len() && w.len() <= keys[j].len() && #[trigger] keys[j].take(w.len() as int) == w;
    assert(index_of.contains_key(keys[j]));
    let m = index_of[keys[j]];
    assert(paths[m] == keys[j]);
    assert(index_of.contains_key(paths[m].take(w.len() as int)));
}

/// A literal is no longer than all literals together.
proof fn lemma_len_le_total(lits: Seq<Seq<u8>>, l: int, n: int)
    requires
        0 <= l < n <= lits.len(),
    ensures
        lits[l].len() <= total_len(lits, n),
{
    lemma_total_len_mono(lits, l + 1, n);
    lemma_total_len_nonneg(lits, l);
}

impl LiteralTrie {
    /// The node reached from `node` over the symbols `text`, or `None` when
    /// `node`'s path followed by `text` begins no key.
    fn walk_text(&self, node: u32, text: &[u8]) -> (r: Option<u32>)
        requires
            self.wf(),
            (node as int) < self.nodes@.len(),
        ensures
            match r {
                Some(n) => (n as int) < self.nodes@.len() && self.paths@[n as int] == self.paths@[node as int] + text@,
                None => !is_key_prefix(self.keys(), self.paths@[node as int] + text@),
            },
    {
        let ghost keys = self.keys();
        let ghost full = self.paths@[node as int] + text@;
        proof {
            assert(keys.take(keys.len() as int) =~= keys);
        }
        let mut cur = node;
        let mut t: usize = 0;
        while t < text.len()
            invariant
                self.wf(),
                keys == self.keys(),
                keys.take(keys.len() as int) == keys,
                full == self.paths@[node as int] + text@,
                (node as int) < self.nodes@.len(),
                t <= text@.len(),
                (cur as int) < self.nodes@.len(),
                self.paths@[cur as int] == self.paths@[node as int] + text@.take(t as int),
            decreases text@.len() - t,
        {
            let b = text[t];
            let ghost p = self.paths@[cur as int];
            proof {
                assert(text@.take(t + 1) =~= text@.take(t as int).push(b));
            }
            match self.child(cur, b) {
                Some(next) => {
                    proof {
                        assert(self.index_of@.contains_key(p.push(b)));
                        assert(self.paths@[self.index_of@[p.push(b)]] == p.push(b));
                        assert(self.paths@[node as int] + text@.take(t + 1) =~= p.push(b));
                    }
                    cur = next;
                },
                None => {
                    proof {
                        assert(!self.index_of@.contains_key(p.push(b)));
                        if is_key_prefix(keys, p.push(b)) {
                            lemma_key_prefix_in_index(self.nodes@, self.paths@, self.index_of@, keys, p.push(b));
                        }
                        assert(full.take(p.push(b).len() as int) =~= p.push(b));
                        lemma_not_prefix_extends(keys, p.push(b), full);
                    }
                    return None;
                },
            }
            t = t + 1;
        }
        proof {
            assert(text@.take(text@.len() as int) =~= text@);
        }
        Some(cur)
    }

    /// The rest of a folded walk from the non-ASCII byte at `start_i`, reached
    /// at `start_node` over ASCII input: each character reads as the letter of
    /// a class that accepts it or as a ligature's text, and every literal
    /// reached is checked against its segments. A literal ending inside a
    /// ligature cannot match; its node is passed without a report.
    fn folded_matches(
        &self,
        folds: &CaseFolds,
        input: &[u8],
        pos: usize,
        end: usize,
        start_i: usize,
        start_node: u32,
        out: &mut Vec<(u32, usize)>,
    )
        requires
            self.wf(),
            self.folds_spec() == Some(*folds),
            pos <= start_i < end <= input@.len(),
            (start_node as int) < self.nodes@.len(),
            self.paths@[start_node as int] == input_word(self.ci(), input@, pos as int, start_i - pos),
        ensures
            as_pairs(final(out)@) == as_pairs(old(out)@) + folded_reports(
                self.keys(),
                *folds,
                input@,
                pos as int,
                end as int,
                start_i as int,
                input_word(self.ci(), input@, pos as int, start_i - pos),
                plain_chars(pos as int, start_i as int),
            ),
    {
        let ghost keys = self.keys();
        let ghost f = *folds;
        let ghost w0 = input_word(self.ci(), input@, pos as int, start_i - pos);
        let ghost target = as_pairs(out@) + folded_reports(
            keys,
            f,
            input@,
            pos as int,
            end as int,
            start_i as int,
            w0,
            plain_chars(pos as int, start_i as int),
        );
        proof {
            assert(keys.take(keys.len() as int) =~= keys);
            assert(f.wf_for(self.literals_spec()));
            assert(self.ci());
        }
        let mut chars: Vec<FoldedChar> = Vec::new();
        let mut t: usize = pos;
        proof {
            assert(chars@ =~= plain_chars(pos as int, t as int));
        }
        while t < start_i
            invariant
                pos <= t <= start_i,
                chars@ == plain_chars(pos as int, t as int),
                chars_ok(chars@, pos as int, t as int),
            decreases start_i - t,
        {
            proof {
                lemma_chars_push(chars@, pos as int, t as int, t + 1, 1);
            }
            chars.push(FoldedChar { start: t, end: t + 1, symbols: 1 });
            t = t + 1;
            proof {
                assert(chars@ =~= plain_chars(pos as int, t as int));
            }
        }
        let mut i: usize = start_i;
        let mut node: u32 = start_node;
        let ghost mut w: Seq<u8> = w0;
        while i < end
            invariant
                self.wf(),
                keys == self.keys(),
                keys.take(keys.len() as int) == keys,
                self.folds_spec() == Some(f),
                f == *folds,
                f.wf_for(self.literals_spec()),
                self.ci(),
                pos <= i <= end <= input@.len(),
                (node as int) < self.nodes@.len(),
                self.paths@[node as int] == w,
                chars_ok(chars@, pos as int, i as int),
                as_pairs(out@) + folded_reports(keys, f, input@, pos as int, end as int, i as int, w, chars@) == target,
                w0 == input_word(self.ci(), input@, pos as int, start_i - pos),
                target == as_pairs(old(out)@) + folded_reports(
                    keys,
                    f,
                    input@,
                    pos as int,
                    end as int,
                    start_i as int,
                    w0,
                    plain_chars(pos as int, start_i as int),
                ),
            decreases end - i,
        {
            let b = input[i];
            let ghost mut syms: Seq<u8> = Seq::empty();
            let (next, nsyms, clen) = if b < 0x80 {
                let l = onigenc_ascii_code_to_lower_case(b);
                let nx = self.child(node, l);
                proof {
                    self.lemma_child_step(node, l, nx);
                    syms = seq![l];
                }
                (nx, 1usize, 1usize)
            } else {
                let l0 = enc_len_utf8(b);
                if l0 == 1 || l0 > end - i {
                    proof {
                        assert(read_char(f, input@, i as int, end as int) is None);
                        assert(folded_reports(keys, f, input@, pos as int, end as int, i as int, w, chars@) =~= Seq::<(u32, nat)>::empty());
                        assert(as_pairs(out@) =~= as_pairs(out@) + Seq::<(u32, nat)>::empty());
                    }
                    return;
                }
                let bytes = vstd::slice::slice_subrange(input, i, i + l0);
                let code = ONIG_ENCODING_UTF8.mbc_to_code(bytes, l0);
                match folds.class_member(code) {
                    Some(l) => {
                        let nx = self.child(node, l);
                        proof {
                            self.lemma_child_step(node, l, nx);
                            syms = seq![l];
                        }
                        (nx, 1usize, l0)
                    },
                    None => match folds.ligature(bytes) {
                        Some(text) => {
                        let nx = self.walk_text(node, text);
                        proof {
                            syms = text@;
                        }
                        (nx, text.len(), l0)
                    },
                        None => {
                            proof {
                                assert(read_char(f, input@, i as int, end as int) is None);
                                assert(folded_reports(keys, f, input@, pos as int, end as int, i as int, w, chars@) =~= Seq::<(u32, nat)>::empty());
                                assert(as_pairs(out@) =~= as_pairs(out@) + Seq::<(u32, nat)>::empty());
                            }
                            return;
                        },
                    },
                }
            };
            let ghost w2 = w + syms;
            let ghost i2 = i + clen;
            let ghost chars2 = chars@.push(FoldedChar { start: i, end: (i + clen) as usize, symbols: nsyms });
            proof {
                assert(read_char(f, input@, i as int, end as int) == Some((syms, clen as int)));
                assert(nsyms == syms.len());
            }
            match next {
                None => {
                    proof {
                        lemma_not_prefix_not_key(keys, w2);
                        lemma_folded_none(keys, f, input@, pos as int, end as int, i2, w2, chars2);
                        assert(folded_reports(keys, f, input@, pos as int, end as int, i as int, w, chars@) =~= Seq::<(u32, nat)>::empty());
                        assert(as_pairs(out@) =~= as_pairs(out@) + Seq::<(u32, nat)>::empty());
                    }
                    return;
                },
                Some(n) => {
                    node = n;
                },
            }
            proof {
                lemma_chars_push(chars@, pos as int, i as int, (i + clen) as int, nsyms);
            }
            chars.push(FoldedChar { start: i, end: i + clen, symbols: nsyms });
            i = i + clen;
            proof {
                w = w2;
                assert(chars@ == chars2);
                assert(terminal_ok(self.nodes@[node as int].terminal, first_index(keys, self.paths@[node as int])));
            }
            let ghost before = out@;
            match self.nodes[node as usize].terminal {
                Some(lit) => {
                    proof {
                        lemma_first_index(keys, w);
                        lemma_len_le_total(self.literals_spec(), lit as int, self.raw_literals@.len() as int);
                        assert(segments_fit(f.segs()[lit as int], self.literals_spec()[lit as int].len() as int, f.acc().len() as int));
                        lemma_fit_weaken(f.segs()[lit as int], self.literals_spec()[lit as int].len() as int, usize::MAX as int, f.acc().len() as int);
                        lemma_chars_widen(chars@, pos as int, i as int, 0, input@.len() as int);
                    }
                    if folds.accepts(lit as usize, input, &chars) {
                        out.push((lit, i - pos));
                        proof {
                            assert(as_pairs(out@) =~= as_pairs(before).push((lit, (i - pos) as nat)));
                        }
                    }
                },
                None => {},
            }
            proof {
                let rest = folded_reports(keys, f, input@, pos as int, end as int, i as int, w, chars@);
                assert(as_pairs(out@) + rest =~= target) by {
                    match first_index(keys, w) {
                        Some(lit) => {
                            if accepts_spec(f, lit, input@, chars@) {
                                assert(as_pairs(before) + (seq![(lit as u32, (i - pos) as nat)] + rest) =~= as_pairs(out@) + rest);
                            }
                        },
                        None => {},
                    }
                }
            }
        }
    }
}

/// Pairs of (literal, length) with lengths as natural numbers.
pub open spec fn as_pairs(v: Seq<(u32, usize)>) -> Seq<(u32, nat)> {
    v.map_values(|e: (u32, usize)| (e.0, e.1 as nat))
}

/// The entry a left-to-right scan keeps when it replaces the kept entry only by
/// one with a smaller literal: the match of the literal that comes first.
pub open spec fn first_entry(ms: Seq<(u32, nat)>) -> (u32, nat)
    decreases ms.len(),
{
    if ms.len() <= 1 {
        ms[0]
    } else {
        let best = first_entry(ms.drop_last());
        if ms.last().0 < best.0 { ms.last() } else { best }
    }
}

proof fn lemma_input_word(ci: bool, input: Seq<u8>, pos: int, len: int)
    requires
        0 <= pos,
        0 <= len,
        pos + len <= input.len(),
    ensures
        input_word(ci, input, pos, len).len() == len,
        forall|m: int| 0 <= m <= len ==> #[trigger] input_word(ci, input, pos, len).take(m) == input_word(ci, input, pos, m),
        pos + len < input.len() ==> input_word(ci, input, pos, len + 1) == input_word(ci, input, pos, len).push(
            fold_byte(ci, input[pos + len]),
        ),
{
    assert forall|m: int| 0 <= m <= len implies #[trigger] input_word(ci, input, pos, len).take(m) == input_word(ci, input, pos, m) by {
        assert(input_word(ci, input, pos, len).take(m) =~= input_word(ci, input, pos, m));
    }
    if pos + len < input.len() {
        assert(input_word(ci, input, pos, len + 1) =~= input_word(ci, input, pos, len).push(
            fold_byte(ci, input[pos + len]),
        ));
    }
}

/// Properties of the matches shorter than `n`: lengths strictly increase, each
/// entry is the match of its length, and every length with a match has an entry.
proof fn lemma_matches_upto(keys: Seq<Seq<u8>>, ci: bool, input: Seq<u8>, pos: int, n: nat)
    requires
        keys.len() <= u32::MAX,
    ensures
        ({
            let ms = matches_upto(keys, ci, input, pos, n);
            &&& forall|i: int| 0 <= i < ms.len() ==> ms[i].1 < n && match_at(keys, ci, input, pos, ms[i].1 as int) == Some(ms[i].0 as int)
            &&& forall|i: int, j: int| 0 <= i < j < ms.len() ==> ms[i].1 < ms[j].1
            &&& forall|l: int| 0 <= l < n && #[trigger] match_at(keys, ci, input, pos, l) is Some ==> exists|i: int| 0 <= i < ms.len() && ms[i].1 == l
            &&& ms.len() == 0 <==> forall|l: int| 0 <= l < n ==> #[trigger] match_at(keys, ci, input, pos, l) is None
            &&& ms.len() > 0 ==> forall|l: int| ms.last().1 < l < n ==> #[trigger] match_at(keys, ci, input, pos, l) is None
        }),
    decreases n,
{
    if n > 0 {
        lemma_matches_upto(keys, ci, input, pos, (n - 1) as nat);
        let prev = matches_upto(keys, ci, input, pos, (n - 1) as nat);
        let ms = matches_upto(keys, ci, input, pos, n);
        match match_at(keys, ci, input, pos, n - 1) {
            Some(j) => {
                lemma_first_index(keys, input_word(ci, input, pos, n - 1));
                assert(ms == prev.push((j as u32, (n - 1) as nat)));
                assert(0 <= j < keys.len());
                assert forall|l: int| 0 <= l < n && #[trigger] match_at(keys, ci, input, pos, l) is Some implies exists|i: int| 0 <= i < ms.len() && ms[i].1 == l by {
                    if l == n - 1 {
                        assert(ms[ms.len() - 1].1 == l);
                    } else {
                        let i = choose|i: int| 0 <= i < prev.len() && prev[i].1 == l;
                        assert(ms[i] == prev[i]);
                    }
                }
                assert(ms.len() > 0 && match_at(keys, ci, input, pos, n - 1) is Some);
            },
            None => {
                assert(ms == prev);
            },
        }
    }
}

/// When no length in `[a, n)` has a match, the matches shorter than `n` are those shorter than `a`.
proof fn lemma_matches_upto_skip(keys: Seq<Seq<u8>>, ci: bool, input: Seq<u8>, pos: int, a: nat, n: nat)
    requires
        a <= n,
        forall|l: int| a <= l < n ==> #[trigger] match_at(keys, ci, input, pos, l) is None,
    ensures
        matches_upto(keys, ci, input, pos, n) == matches_upto(keys, ci, input, pos, a),
    decreases n - a,
{
    if a < n {
        lemma_matches_upto_skip(keys, ci, input, pos, a, (n - 1) as nat);
        assert(match_at(keys, ci, input, pos, n - 1) is None);
    }
}

proof fn lemma_first_entry(ms: Seq<(u32, nat)>)
    requires
        ms.len() > 0,
    ensures
        exists|i: int| 0 <= i < ms.len() && ms[i] == first_entry(ms),
        forall|i: int| 0 <= i < ms.len() ==> first_entry(ms).0 <= ms[i].0,
    decreases ms.len(),
{
    if ms.len() > 1 {
        let init = ms.drop_last();
        lemma_first_entry(init);
        let k = choose|i: int| 0 <= i < init.len() && init[i] == first_entry(init);
        assert(ms[k] == init[k]);
        assert forall|i: int| 0 <= i < ms.len() implies first_entry(ms).0 <= ms[i].0 by {
            if i < init.len() {
                assert(ms[i] == init[i]);
            }
        }
        if ms.last().0 < first_entry(init).0 {
            assert(ms[ms.len() - 1] == first_entry(ms));
        }
    } else {
        assert(ms[0] == first_entry(ms));
    }
}

fn copy_bytes(s: &[u8]) -> (r: Vec<u8>)
    ensures
        r@ == s@,
{
    let mut v: Vec<u8> = Vec::new();
    let mut i: usize = 0;
    while i < s.len()
        invariant
            i <= s@.len(),
            v@ == s@.take(i as int),
        decreases s@.len() - i,
    {
        v.push(s[i]);
        i = i + 1;
        assert(v@ =~= s@.take(i as int));
    }
    assert(s@.take(s@.len() as int) =~= s@);
    v
}

impl LiteralTrie {
    /// Builds a trie from a set of literal byte strings. When `case_insensitive`,
    /// literals and input are compared with ASCII letters lower-cased.
    pub fn build(literals: &[&[u8]], case_insensitive: bool) -> (r: Self)
        requires
            literals@.len() <= u32::MAX,
            1 + total_len(literal_views(literals@), literals@.len() as int) < u32::MAX,
        ensures
            r.wf(),
            r.literals_spec() == literal_views(literals@),
            r.ci() == case_insensitive,
            r.folds_spec() is None,
    {
        let mut raw: Vec<Vec<u8>> = Vec::new();
        let mut i: usize = 0;
        while i < literals.len()
            invariant
                i <= literals@.len(),
                raw@.len() == i,
                forall|j: int| 0 <= j < i ==> #[trigger] raw@[j]@ == literals@[j]@,
            decreases literals@.len() - i,
        {
            raw.push(copy_bytes(literals[i]));
            i = i + 1;
        }
        let ghost root: Seq<u8> = Seq::empty();
        let ghost paths0: Seq<Seq<u8>> = Seq::empty().push(root);
        let ghost index0: Map<Seq<u8>, int> = Map::empty().insert(root, 0);
        let mut nodes: Vec<TrieNode> = Vec::new();
        nodes.push(TrieNode { children: Vec::new(), terminal: None });
        let mut trie = LiteralTrie {
            nodes,
            case_insensitive,
            raw_literals: raw,
            folds: None,
            paths: Ghost(paths0),
            index_of: Ghost(index0),
        };
        proof {
            assert(trie.literals_spec() =~= literal_views(literals@));
            let keys0 = trie.keys().take(0);
            assert(keys0 =~= Seq::<Seq<u8>>::empty());
            assert forall|n: int, l: int|
                0 <= n < trie.nodes@.len() && 0 <= l <= trie.paths@[n].len() implies #[trigger] trie.index_of@.contains_key(
                trie.paths@[n].take(l),
            ) by {
                assert(trie.paths@[n].take(l) =~= root);
            }
            assert forall|n: int, b: u8| 0 <= n < trie.nodes@.len() implies #[trigger] child_of(
                trie.nodes@[n].children@,
                b,
            ) == (if trie.index_of@.contains_key(trie.paths@[n].push(b)) {
                Some(trie.index_of@[trie.paths@[n].push(b)] as u32)
            } else {
                None
            }) by {
                assert(trie.paths@[n].push(b) != root) by {
                    assert(trie.paths@[n].push(b).len() == 1);
                }
            }
            lemma_total_len_nonneg(trie.literals_spec(), 0);
            assert(trie.inv(0));
        }
        let mut index: usize = 0;
        while index < literals.len()
            invariant
                index <= literals@.len(),
                literals@.len() <= u32::MAX,
                trie.inv(index as int),
                trie.raw_literals@.len() == literals@.len(),
                trie.literals_spec() == literal_views(literals@),
                trie.case_insensitive == case_insensitive,
                trie.folds is None,
                trie.nodes@.len() <= 1 + total_len(trie.literals_spec(), index as int),
                1 + total_len(trie.literals_spec(), literals@.len() as int) < u32::MAX,
            decreases literals@.len() - index,
        {
            trie.insert(literals[index], index as u32);
            index = index + 1;
        }
        trie
    }

    /// Builds a case-insensitive trie over ASCII literals that also accepts
    /// the non-ASCII input described by `folds`, whose segments are indexed
    /// like `literals`.
    pub fn build_folded(literals: &[&[u8]], folds: CaseFolds) -> (r: Self)
        requires
            literals@.len() <= u32::MAX,
            1 + total_len(literal_views(literals@), literals@.len() as int) < u32::MAX,
            folds.wf_for(literal_views(literals@)),
        ensures
            r.wf(),
            r.literals_spec() == literal_views(literals@),
            r.ci(),
            r.folds_spec() == Some(folds),
    {
        let mut trie = Self::build(literals, true);
        trie.folds = Some(Box::new(folds));
        trie
    }

    /// The child of `node` over `symbol`.
    fn child(&self, node: u32, symbol: u8) -> (r: Option<u32>)
        requires
            self.wf(),
            (node as int) < self.nodes@.len(),
        ensures
            r == child_of(self.nodes@[node as int].children@, symbol),
    {
        proof {
            assert(children_sorted(self.nodes@[node as int].children@));
        }
        let children = &self.nodes[node as usize].children;
        match search_children(children, symbol) {
            Ok(at) => {
                proof {
                    lemma_child_of_at(children@, at as int);
                }
                Some(children[at].1)
            },
            Err(_) => {
                proof {
                    lemma_child_of_none(children@, symbol);
                }
                None
            },
        }
    }

    /// Returns the literals the trie was built from.
    pub fn literals(&self) -> (r: &[Vec<u8>])
        ensures
            r@.len() == self.literals_spec().len(),
            forall|j: int| 0 <= j < r@.len() ==> #[trigger] r@[j]@ == self.literals_spec()[j],
    {
        self.raw_literals.as_slice()
    }

    /// Returns whether the trie was built for case-insensitive matching.
    pub fn is_case_insensitive(&self) -> (r: bool)
        ensures
            r == self.ci(),
    {
        self.case_insensitive
    }

    /// Every literal matching at `pos` within `[pos, end)`, in the order
    /// found (shortest first). With case folds, input from the first
    /// non-ASCII byte on goes through the folded walk: every ASCII case
    /// variant of a literal is accepted anyway.
    fn matches_at(&self, input: &[u8], pos: usize, end: usize) -> (r: Vec<(u32, usize)>)
        requires
            self.wf(),
            end <= input@.len() || end <= pos,
        ensures
            as_pairs(r@) == self.found(input@, pos as int, end as int),
    {
        let ghost keys = self.keys();
        let ghost ci = self.ci();
        let ghost w = window_len(pos as int, end as int);
        proof {
            assert(keys.take(keys.len() as int) =~= keys);
        }
        let mut out: Vec<(u32, usize)> = Vec::new();
        let mut node: u32 = 0;
        let mut i: usize = pos;
        proof {
            assert(as_pairs(out@) =~= matches_upto(keys, ci, input@, pos as int, 0));
        }
        loop
            invariant
                self.wf(),
                keys == self.keys(),
                ci == self.ci(),
                keys.take(keys.len() as int) == keys,
                w == window_len(pos as int, end as int),
                end <= input@.len() || end <= pos,
                pos <= i,
                i - pos <= w,
                end > pos ==> i <= end,
                end <= pos ==> i == pos,
                (node as int) < self.nodes@.len(),
                self.paths@[node as int] == input_word(ci, input@, pos as int, i - pos),
                as_pairs(out@) == matches_upto(keys, ci, input@, pos as int, (i - pos) as nat),
                self.folds_spec() is Some ==> forall|r: int| pos <= r < i ==> #[trigger] input@[r] < 0x80,
            decreases w - (i - pos),
        {
            let ghost len = i - pos;
            let ghost before = out@;
            proof {
                assert(terminal_ok(self.nodes@[node as int].terminal, first_index(keys, self.paths@[node as int])));
            }
            match self.nodes[node as usize].terminal {
                Some(literal) => {
                    out.push((literal, i - pos));
                },
                None => {},
            }
            proof {
                assert(as_pairs(out@) =~= matches_upto(keys, ci, input@, pos as int, (len + 1) as nat));
            }
            if i >= end {
                proof {
                    if self.folds_spec() is Some {
                        lemma_no_high(input@, pos as int, end as int, i as int);
                    }
                }
                return out;
            }
            let b = input[i];
            if b >= 0x80 {
                match &self.folds {
                    Some(folds) => {
                        proof {
                            lemma_first_high_at(input@, pos as int, end as int, i as int);
                        }
                        self.folded_matches(&**folds, input, pos, end, i, node, &mut out);
                        return out;
                    },
                    None => {},
                }
            }
            let symbol = if self.case_insensitive {
                onigenc_ascii_code_to_lower_case(b)
            } else {
                b
            };
            proof {
                lemma_input_word(ci, input@, pos as int, len);
            }
            match self.child(node, symbol) {
                Some(next) => {
                    proof {
                        assert(symbol == fold_byte(ci, b));
                        let p = self.paths@[node as int].push(symbol);
                        assert(self.index_of@.contains_key(p));
                        assert(self.paths@[self.index_of@[p]] == p);
                        assert(input_word(ci, input@, pos as int, len + 1) == p);
                        assert(next as int == self.index_of@[p]);
                    }
                    node = next;
                },
                None => {
                    proof {
                        let word1 = input_word(ci, input@, pos as int, len + 1);
                        assert(!self.index_of@.contains_key(word1));
                        assert forall|l: int| len + 1 <= l < w + 1 implies #[trigger] match_at(keys, ci, input@, pos as int, l) is None by {
                            lemma_input_word(ci, input@, pos as int, l);
                            lemma_first_index(keys, input_word(ci, input@, pos as int, l));
                            if match_at(keys, ci, input@, pos as int, l) is Some {
                                let j = match_at(keys, ci, input@, pos as int, l)->0;
                                assert(self.index_of@.contains_key(keys[j]));
                                let m = self.index_of@[keys[j]];
                                assert(self.paths@[m] == keys[j]);
                                assert(self.index_of@.contains_key(self.paths@[m].take(len + 1)));
                                assert(input_word(ci, input@, pos as int, l).take(len + 1) == word1);
                            }
                        }
                        lemma_matches_upto_skip(keys, ci, input@, pos as int, (len + 1) as nat, (w + 1) as nat);
                        if self.folds_spec() is Some {
                            if first_high(input@, pos as int, end as int) is Some {
                                let q = first_high(input@, pos as int, end as int)->0;
                                let c = choose|x: int| high_at(input@, pos as int, end as int, x);
                                assert(high_at(input@, pos as int, end as int, c));
                                assert(q == c);
                                if q <= i {
                                    if q < i {
                                        assert(input@[q] < 0x80);
                                    }
                                }
                                assert(q > i);
                                lemma_matches_upto_skip(keys, ci, input@, pos as int, (len + 1) as nat, (q - pos + 1) as nat);
                                if is_key_prefix(keys, word1) {
                                    lemma_key_prefix_in_index(self.nodes@, self.paths@, self.index_of@, keys, word1);
                                }
                                lemma_input_word(ci, input@, pos as int, q - pos);
                                lemma_not_prefix_extends(keys, word1, input_word(ci, input@, pos as int, q - pos));
                                lemma_folded_none(
                                    keys,
                                    self.folds_spec()->0,
                                    input@,
                                    pos as int,
                                    end as int,
                                    q,
                                    input_word(ci, input@, pos as int, q - pos),
                                    plain_chars(pos as int, q),
                                );
                                assert(as_pairs(out@) =~= as_pairs(out@) + Seq::<(u32, nat)>::empty());
                            }
                        }
                    }
                    return out;
                },
            }
            i = i + 1;
        }
    }

    /// The length of the longest literal matching at `input[pos]` within
    /// `[pos, end)`, or `None` when no literal matches there.
    pub fn find_match(&self, input: &[u8], pos: usize, end: usize) -> (r: Option<usize>)
        requires
            self.wf(),
            end <= input@.len() || end <= pos,
        ensures
            ({
                let found = self.found(input@, pos as int, end as int);
                r == (if found.len() == 0 { None } else { Some(found.last().1 as usize) })
            }),
            self.folds_spec() is None ==> (r is None <==> forall|l: int|
                0 <= l <= window_len(pos as int, end as int) ==> #[trigger] match_at(self.keys(), self.ci(), input@, pos as int, l) is None),
            self.folds_spec() is None ==> (r matches Some(n) ==> n <= window_len(pos as int, end as int) && match_at(self.keys(), self.ci(), input@, pos as int, n as int) is Some
                && forall|l: int| n < l <= window_len(pos as int, end as int) ==> #[trigger] match_at(self.keys(), self.ci(), input@, pos as int, l) is None),
    {
        let ms = self.matches_at(input, pos, end);
        let ghost found = self.found(input@, pos as int, end as int);
        let ghost all = all_matches(self.keys(), self.ci(), input@, pos as int, end as int);
        proof {
            lemma_matches_upto(self.keys(), self.ci(), input@, pos as int, (window_len(pos as int, end as int) + 1) as nat);
            assert(ms@.len() == found.len());
        }
        if ms.len() == 0 {
            None
        } else {
            let n = ms[ms.len() - 1].1;
            proof {
                assert(as_pairs(ms@)[ms@.len() - 1] == found.last());
                assert(found[found.len() - 1] == found.last());
                if self.folds_spec() is None {
                    assert(all[all.len() - 1] == all.last());
                }
            }
            Some(n)
        }
    }

    /// The match of the literal that comes first in the alternation, as its
    /// length, and whether other literals match too.
    pub fn first_match(&self, input: &[u8], pos: usize, end: usize) -> (r: Option<(usize, bool)>)
        requires
            self.wf(),
            end <= input@.len() || end <= pos,
        ensures
            ({
                let all = self.found(input@, pos as int, end as int);
                r == (if all.len() == 0 {
                    None
                } else {
                    Some((first_entry(all).1 as usize, all.len() > 1))
                })
            }),
    {
        let ms = self.matches_at(input, pos, end);
        let ghost all = self.found(input@, pos as int, end as int);
        if ms.len() == 0 {
            return None;
        }
        let mut best = ms[0];
        let mut others = false;
        let mut i: usize = 1;
        proof {
            assert(as_pairs(ms@).take(1) =~= seq![as_pairs(ms@)[0]]);
        }
        while i < ms.len()
            invariant
                1 <= i <= ms@.len(),
                as_pairs(ms@) == all,
                (best.0, best.1 as nat) == first_entry(all.take(i as int)),
                others == (i > 1),
            decreases ms@.len() - i,
        {
            let next = ms[i];
            others = true;
            proof {
                assert(all.take(i + 1).drop_last() =~= all.take(i as int));
                assert(all.take(i + 1).last() == all[i as int]);
            }
            if next.0 < best.0 {
                best = next;
            }
            i = i + 1;
        }
        proof {
            assert(all.take(ms@.len() as int) =~= all);
        }
        Some((best.1, others))
    }

    /// Every match at `pos` as (literal, length), in alternation order:
    /// sorted by literal, then by length.
    pub fn matches_in_order(&self, input: &[u8], pos: usize, end: usize) -> (r: Vec<(u32, usize)>)
        requires
            self.wf(),
            end <= input@.len() || end <= pos,
        ensures
            ({
                let found = self.found(input@, pos as int, end as int);
                &&& forall|x: (u32, nat)| as_pairs(r@).contains(x) <==> found.contains(x)
                &&& forall|i: int, j: int| 0 <= i < j < r@.len() ==> pair_less(r@[i], r@[j])
            }),
    {
        let ms = self.matches_at(input, pos, end);
        let ghost all = self.found(input@, pos as int, end as int);
        proof {
            self.lemma_found_increasing(input@, pos as int, end as int);
        }
        let mut out: Vec<(u32, usize)> = Vec::new();
        let mut i: usize = 0;
        while i < ms.len()
            invariant
                i <= ms@.len(),
                as_pairs(ms@) == all,
                forall|a: int, b: int| 0 <= a < b < all.len() ==> all[a].1 < all[b].1,
                forall|x: (u32, nat)| as_pairs(out@).contains(x) <==> all.take(i as int).contains(x),
                forall|a: int, b: int| 0 <= a < b < out@.len() ==> pair_less(out@[a], out@[b]),
            decreases ms@.len() - i,
        {
            let e = ms[i];
            let mut at: usize = 0;
            while at < out.len() && pair_lt(out[at], e)
                invariant
                    at <= out@.len(),
                    forall|a: int| 0 <= a < at ==> pair_less(out@[a], e),
                decreases out@.len() - at,
            {
                at = at + 1;
            }
            proof {
                assert forall|a: int| 0 <= a < out@.len() implies out@[a] != e by {
                    let x = as_pairs(out@)[a];
                    assert(as_pairs(out@).contains(x));
                    assert(all.take(i as int).contains(x));
                    let t0 = all.take(i as int);
                    let k = choose|k: int| 0 <= k < t0.len() && #[trigger] t0[k] == x;
                    assert(all[k] == x);
                    assert(all[i as int] == (e.0, e.1 as nat));
                }
                if at < out@.len() {
                    assert(!pair_less(out@[at as int], e));
                    assert(out@[at as int] != e);
                    assert(pair_less(e, out@[at as int]));
                }
            }
            let ghost old_out = out@;
            out.insert(at, e);
            proof {
                assert forall|a: int, b: int| 0 <= a < b < out@.len() implies pair_less(out@[a], out@[b]) by {
                    if b < at {
                        assert(out@[a] == old_out[a] && out@[b] == old_out[b]);
                    } else if b == at {
                        assert(out@[a] == old_out[a]);
                    } else if a < at {
                        assert(out@[a] == old_out[a] && out@[b] == old_out[b - 1]);
                        if b - 1 > at {
                            assert(pair_less(old_out[at as int], old_out[b - 1]));
                        }
                    } else if a == at {
                        assert(out@[b] == old_out[b - 1]);
                        if b - 1 > at {
                            assert(pair_less(old_out[at as int], old_out[b - 1]));
                        }
                    } else {
                        assert(out@[a] == old_out[a - 1] && out@[b] == old_out[b - 1]);
                    }
                }
                assert(all.take(i + 1) =~= all.take(i as int).push(all[i as int]));
                lemma_as_pairs_insert(old_out, at as int, e);
                assert forall|x: (u32, nat)| as_pairs(out@).contains(x) <==> all.take(i + 1).contains(x) by {
                    lemma_insert_contains(as_pairs(old_out), at as int, (e.0, e.1 as nat), x);
                    lemma_insert_contains(all.take(i as int), i as int, all[i as int], x);
                    assert(all.take(i as int).insert(i as int, all[i as int]) =~= all.take(i as int).push(all[i as int]));
                }
            }
            i = i + 1;
        }
        proof {
            assert(all.take(ms@.len() as int) =~= all);
        }
        out
    }

    /// The lengths of the matches found strictly increase.
    proof fn lemma_found_increasing(&self, input: Seq<u8>, pos: int, end: int)
        requires
            self.wf(),
            0 <= pos,
        ensures
            forall|a: int, b: int| 0 <= a < b < self.found(input, pos, end).len() ==> self.found(input, pos, end)[a].1
                < self.found(input, pos, end)[b].1,
    {
        let keys = self.keys();
        let ci = self.ci();
        let found = self.found(input, pos, end);
        lemma_matches_upto(keys, ci, input, pos, (window_len(pos, end) + 1) as nat);
        match self.folds_spec() {
            Some(f) => match first_high(input, pos, end) {
                Some(q) => {
                    let c = choose|x: int| high_at(input, pos, end, x);
                    assert(high_at(input, pos, end, c));
                    let m = matches_upto(keys, ci, input, pos, (q - pos + 1) as nat);
                    let fr = folded_reports(keys, f, input, pos, end, q, input_word(ci, input, pos, q - pos), plain_chars(pos, q));
                    lemma_matches_upto(keys, ci, input, pos, (q - pos + 1) as nat);
                    lemma_folded_lengths(keys, f, input, pos, end, q, input_word(ci, input, pos, q - pos), plain_chars(pos, q));
                    assert(found == m + fr);
                    assert forall|a: int, b: int| 0 <= a < b < found.len() implies found[a].1 < found[b].1 by {
                        if b < m.len() {
                            assert(found[a] == m[a] && found[b] == m[b]);
                        } else if a < m.len() {
                            assert(found[a] == m[a] && found[b] == fr[b - m.len()]);
                        } else {
                            assert(found[a] == fr[a - m.len()] && found[b] == fr[b - m.len()]);
                        }
                    }
                },
                None => {},
            },
            None => {},
        }
    }
}

/// Lexicographic order on (literal, length).
pub open spec fn pair_less(a: (u32, usize), b: (u32, usize)) -> bool {
    a.0 < b.0 || (a.0 == b.0 && a.1 < b.1)
}

fn pair_lt(a: (u32, usize), b: (u32, usize)) -> (r: bool)
    ensures
        r == pair_less(a, b),
{
    a.0 < b.0 || (a.0 == b.0 && a.1 < b.1)
}

proof fn lemma_as_pairs_insert(v: Seq<(u32, usize)>, at: int, e: (u32, usize))
    requires
        0 <= at <= v.len(),
    ensures
        as_pairs(v.insert(at, e)) == as_pairs(v).insert(at, (e.0, e.1 as nat)),
{
    assert(as_pairs(v.insert(at, e)) =~= as_pairs(v).insert(at, (e.0, e.1 as nat)));
}

proof fn lemma_insert_contains<A>(s: Seq<A>, at: int, a: A, x: A)
    requires
        0 <= at <= s.len(),
    ensures
        s.insert(at, a).contains(x) <==> (s.contains(x) || x == a),
{
    let t = s.insert(at, a);
    if t.contains(x) {
        let k = choose|k: int| 0 <= k < t.len() && #[trigger] t[k] == x;
        if k < at {
            assert(s[k] == x);
        } else if k > at {
            assert(s[k - 1] == x);
        }
    }
    if s.contains(x) {
        let k = choose|k: int| 0 <= k < s.len() && #[trigger] s[k] == x;
        if k < at {
            assert(t[k] == x);
        } else {
            assert(t[k + 1] == x);
        }
    }
    if x == a {
        assert(t[at] == x);
    }
}

/// Some literal starts with `b`, as the trie compares bytes.
pub open spec fn starts_with_byte(keys: Seq<Seq<u8>>, b: u8) -> bool {
    exists|j: int| 0 <= j < keys.len() && keys[j].len() > 0 && #[trigger] keys[j][0] == b
}

/// Some literal is empty.
pub open spec fn has_empty(keys: Seq<Seq<u8>>) -> bool {
    exists|j: int| 0 <= j < keys.len() && #[trigger] keys[j].len() == 0
}

impl LiteralTrie {
    /// The bytes the literals start with, as the trie compares them, each
    /// once and in increasing order; `None` when a literal is empty, since
    /// then the alternation can match without consuming anything.
    pub fn first_bytes(&self) -> (r: Option<Vec<u8>>)
        ensures
            r is None <==> has_empty(self.keys()),
            r matches Some(v) ==> (forall|b: u8| v@.contains(b) <==> starts_with_byte(self.keys(), b)),
            r matches Some(v) ==> (forall|i: int, j: int| 0 <= i < j < v@.len() ==> v@[i] < v@[j]),
    {
        let ghost keys = self.keys();
        let mut seen: Vec<bool> = Vec::new();
        let mut b: usize = 0;
        while b < 256
            invariant
                b <= 256,
                seen@.len() == b,
                forall|i: int| 0 <= i < b ==> !(#[trigger] seen@[i]),
            decreases 256 - b,
        {
            seen.push(false);
            b = b + 1;
        }
        let mut j: usize = 0;
        while j < self.raw_literals.len()
            invariant
                keys == self.keys(),
                j <= self.raw_literals@.len(),
                seen@.len() == 256,
                forall|k: int| 0 <= k < j ==> #[trigger] keys[k].len() > 0,
                forall|c: u8| #[trigger] seen@[c as int] <==> exists|k: int| 0 <= k < j && keys[k].len() > 0 && keys[k][0] == c,
            decreases self.raw_literals@.len() - j,
        {
            let lit = &self.raw_literals[j];
            proof {
                assert(keys[j as int] == fold_key(self.ci(), lit@));
            }
            if lit.len() == 0 {
                proof {
                    assert(keys[j as int].len() == 0);
                }
                return None;
            }
            let c = if self.case_insensitive {
                onigenc_ascii_code_to_lower_case(lit[0])
            } else {
                lit[0]
            };
            proof {
                assert(keys[j as int][0] == c);
            }
            seen.set(c as usize, true);
            proof {
                assert forall|d: u8| #[trigger] seen@[d as int] <==> exists|k: int| 0 <= k < j + 1 && keys[k].len() > 0 && keys[k][0] == d by {
                    if d != c {
                        if exists|k: int| 0 <= k < j + 1 && keys[k].len() > 0 && keys[k][0] == d {
                            let k = choose|k: int| 0 <= k < j + 1 && keys[k].len() > 0 && keys[k][0] == d;
                            assert(k < j);
                        }
                    }
                }
            }
            j = j + 1;
        }
        let mut out: Vec<u8> = Vec::new();
        let mut b: usize = 0;
        while b < 256
            invariant
                b <= 256,
                seen@.len() == 256,
                forall|i: int| 0 <= i < out@.len() ==> (#[trigger] out@[i] as int) < b,
                forall|i: int, k: int| 0 <= i < k < out@.len() ==> out@[i] < out@[k],
                forall|c: u8| (c as int) < b ==> (out@.contains(c) <==> #[trigger] seen@[c as int]),
            decreases 256 - b,
        {
            let ghost before = out@;
            if seen[b] {
                out.push(b as u8);
            }
            proof {
                assert forall|c: u8| (c as int) < b + 1 implies (out@.contains(c) <==> #[trigger] seen@[c as int]) by {
                    if c as int == b {
                        if seen@[b as int] {
                            assert(out@[out@.len() - 1] == c);
                        } else {
                            assert(out@ == before);
                            if out@.contains(c) {
                                let i = choose|i: int| 0 <= i < out@.len() && out@[i] == c;
                                assert((out@[i] as int) < b);
                            }
                        }
                    } else {
                        if out@.contains(c) {
                            let i = choose|i: int| 0 <= i < out@.len() && out@[i] == c;
                            if i < before.len() {
                                assert(before[i] == c);
                                assert(before.contains(c));
                            }
                        }
                        if before.contains(c) {
                            let i = choose|i: int| 0 <= i < before.len() && before[i] == c;
                            assert(out@[i] == c);
                        }
                    }
                }
            }
            b = b + 1;
        }
        proof {
            assert forall|c: u8| out@.contains(c) <==> starts_with_byte(keys, c) by {
                assert(out@.contains(c) <==> seen@[c as int]);
                if seen@[c as int] {
                    let k = choose|k: int| 0 <= k < keys.len() && keys[k].len() > 0 && keys[k][0] == c;
                    assert(keys[k][0] == c);
                }
                if starts_with_byte(keys, c) {
                    let k = choose|k: int| 0 <= k < keys.len() && keys[k].len() > 0 && #[trigger] keys[k][0] == c;
                    assert(seen@[c as int]);
                }
            }
            assert(!has_empty(keys));
        }
        Some(out)
    }
}

/// The matches shorter than `n` bytes see only those bytes, as compared.
proof fn lemma_matches_upto_same(keys: Seq<Seq<u8>>, ci: bool, a: Seq<u8>, b: Seq<u8>, pos: int, n: nat)
    requires
        0 <= pos,
        n <= 1 || (pos + n - 1 <= a.len() && pos + n - 1 <= b.len()),
        forall|k: int| pos <= k < pos + n - 1 ==> fold_byte(ci, #[trigger] a[k]) == fold_byte(ci, b[k]),
    ensures
        matches_upto(keys, ci, a, pos, n) == matches_upto(keys, ci, b, pos, n),
    decreases n,
{
    if n > 0 {
        lemma_matches_upto_same(keys, ci, a, b, pos, (n - 1) as nat);
        let len = n - 1;
        if len > 0 {
            assert(fold_key(ci, a.subrange(pos, pos + len)) =~= fold_key(ci, b.subrange(pos, pos + len))) by {
                assert forall|i: int| 0 <= i < len implies fold_byte(ci, #[trigger] a.subrange(pos, pos + len)[i]) == fold_byte(
                    ci,
                    b.subrange(pos, pos + len)[i],
                ) by {
                    assert(a.subrange(pos, pos + len)[i] == a[pos + i]);
                    assert(b.subrange(pos, pos + len)[i] == b[pos + i]);
                }
            }
        }
        assert(input_word(ci, a, pos, len) == input_word(ci, b, pos, len));
    }
}

/// Where the characters from `at` cover `len` symbols, it is at or after `at`
/// and within the characters.
proof fn lemma_cover_bounds(chars: Seq<FoldedChar>, at: int, covered: int, len: int)
    requires
        0 <= at <= chars.len(),
    ensures
        cover(chars, at, covered, len) matches Some((a2, c2)) ==> at <= a2 <= chars.len(),
    decreases chars.len() - at,
{
    if covered < len && at < chars.len() {
        lemma_cover_bounds(chars, at + 1, covered + chars[at].symbols, len);
    }
}

/// The one-symbol characters of `[pos, q)` lie in order inside it.
proof fn lemma_plain_chars_ok(pos: int, q: int)
    requires
        0 <= pos <= q <= usize::MAX,
    ensures
        chars_ok(plain_chars(pos, q), pos, q),
{
    let cs = plain_chars(pos, q);
    assert forall|m: int| 0 <= m < cs.len() implies pos <= #[trigger] cs[m].start < cs[m].end <= q by {
        assert(cs[m].start == pos + m);
    }
    assert forall|x: int, y: int| 0 <= x < y < cs.len() implies #[trigger] cs[x].end <= #[trigger] cs[y].start by {
        assert(cs[x].end == pos + x + 1 && cs[y].start == pos + y);
    }
}

/// Whether characters inside `[lo, hi)` fit the segments depends only on the
/// input bytes there.
proof fn lemma_accepts_same(
    segs: Seq<(usize, usize, usize)>,
    acc: Seq<Seq<Seq<u8>>>,
    a: Seq<u8>,
    b: Seq<u8>,
    chars: Seq<FoldedChar>,
    lo: int,
    hi: int,
    k: int,
    at: int,
    offset: int,
)
    requires
        chars_ok(chars, lo, hi),
        0 <= lo,
        hi <= a.len(),
        hi <= b.len(),
        forall|x: int| lo <= x < hi ==> #[trigger] a[x] == b[x],
    ensures
        accepts_from(segs, acc, a, chars, k, at, offset) == accepts_from(segs, acc, b, chars, k, at, offset),
    decreases segs.len() - k,
{
    if 0 <= k < segs.len() {
        let start = segs[k].0 as int;
        let len = segs[k].1 as int;
        let n = if offset < start { start - offset } else { 0 };
        let at1 = at + n;
        if 0 <= at && at1 < chars.len() {
            lemma_cover_bounds(chars, at1, 0, len);
            match cover(chars, at1, 0, len) {
                Some((at2, covered)) => {
                    let s = chars[at1].start as int;
                    let e = if at2 > at1 { chars[at2 - 1].end as int } else { chars[at1].start as int };
                    if at2 > at1 && at2 - 1 > at1 {
                        assert(chars[at1].end <= chars[at2 - 1].start);
                    }
                    assert(lo <= s <= e <= hi);
                    assert(a.subrange(s, e) =~= b.subrange(s, e));
                    lemma_accepts_same(segs, acc, a, b, chars, lo, hi, k + 1, at2, offset + n + len);
                },
                None => {},
            }
        }
    }
}

/// What the folded walk reports depends only on the input bytes of the window.
proof fn lemma_folded_same(
    keys: Seq<Seq<u8>>,
    f: CaseFolds,
    a: Seq<u8>,
    b: Seq<u8>,
    pos: int,
    end: int,
    i: int,
    w: Seq<u8>,
    chars: Seq<FoldedChar>,
)
    requires
        0 <= pos <= i,
        end <= a.len(),
        end <= b.len(),
        end <= usize::MAX,
        forall|x: int| pos <= x < end ==> #[trigger] a[x] == b[x],
        chars_ok(chars, pos, i),
    ensures
        folded_reports(keys, f, a, pos, end, i, w, chars) == folded_reports(keys, f, b, pos, end, i, w, chars),
    decreases end - i,
{
    if i < end {
        assert(a[i] == b[i]);
        let len0 = utf8_len_table(a[i]) as int;
        if a[i] >= 0x80 && len0 != 1 && i + len0 <= end {
            assert(a.subrange(i, i + len0) =~= b.subrange(i, i + len0));
        }
        assert(read_char(f, a, i, end) == read_char(f, b, i, end));
        match read_char(f, a, i, end) {
            Some((syms, len)) => {
                if len >= 1 {
                    let i2 = i + len;
                    let chars2 = chars.push(FoldedChar { start: i as usize, end: i2 as usize, symbols: syms.len() as usize });
                    lemma_chars_push(chars, pos, i, i2, syms.len() as usize);
                    lemma_folded_same(keys, f, a, b, pos, end, i2, w + syms, chars2);
                    match first_index(keys, w + syms) {
                        Some(lit) => {
                            lemma_accepts_same(f.segs()[lit], f.acc(), a, b, chars2, pos, i2, 0, 0, 0);
                        },
                        None => {},
                    }
                }
            },
            None => {},
        }
    }
}

/// What a trie finds at `pos` depends only on the bytes of the window
/// `[pos, end)`: inputs that agree there give the same matches, and for a
/// trie without case folds it is enough that they agree as the trie compares
/// bytes (ASCII case aside when it ignores case).
pub proof fn lemma_matches_see_only_the_window(t: LiteralTrie, a: Seq<u8>, b: Seq<u8>, pos: int, end: int)
    requires
        0 <= pos,
        end <= usize::MAX,
        (end <= a.len() && end <= b.len()) || end <= pos,
        t.folds_spec() is None ==> forall|k: int| pos <= k < end ==> fold_byte(t.ci(), #[trigger] a[k]) == fold_byte(t.ci(), b[k]),
        t.folds_spec() is Some ==> forall|k: int| pos <= k < end ==> #[trigger] a[k] == b[k],
    ensures
        t.found(a, pos, end) == t.found(b, pos, end),
{
    let keys = t.keys();
    let ci = t.ci();
    assert forall|k: int| pos <= k < end implies fold_byte(ci, #[trigger] a[k]) == fold_byte(ci, b[k]) by {
        if t.folds_spec() is Some {
            assert(a[k] == b[k]);
        }
    }
    lemma_matches_upto_same(keys, ci, a, b, pos, (window_len(pos, end) + 1) as nat);
    match t.folds_spec() {
        Some(f) => {
            match first_high(a, pos, end) {
                Some(q) => {
                    let c = choose|x: int| high_at(a, pos, end, x);
                    assert(high_at(a, pos, end, c));
                    assert(high_at(b, pos, end, q)) by {
                        assert forall|r: int| pos <= r < q implies #[trigger] b[r] < 0x80 by {
                            assert(a[r] < 0x80);
                        }
                    }
                    lemma_first_high_at(b, pos, end, q);
                    lemma_matches_upto_same(keys, ci, a, b, pos, (q - pos + 1) as nat);
                    assert(input_word(ci, a, pos, q - pos) == input_word(ci, b, pos, q - pos)) by {
                        if q - pos > 0 {
                            assert(fold_key(ci, a.subrange(pos, q)) =~= fold_key(ci, b.subrange(pos, q)));
                        }
                    }
                    lemma_plain_chars_ok(pos, q);
                    lemma_folded_same(keys, f, a, b, pos, end, q, input_word(ci, a, pos, q - pos), plain_chars(pos, q));
                },
                None => {
                    if first_high(b, pos, end) is Some {
                        let q = first_high(b, pos, end)->0;
                        let c = choose|x: int| high_at(b, pos, end, x);
                        assert(high_at(b, pos, end, c));
                        assert(high_at(a, pos, end, q)) by {
                            assert forall|r: int| pos <= r < q implies #[trigger] a[r] < 0x80 by {
                                assert(b[r] < 0x80);
                            }
                        }
                        lemma_first_high_at(a, pos, end, q);
                    }
                },
            }
        },
        None => {},
    }
}

/// A trie that ignores case, and has no case folds, finds the same matches in
/// inputs that differ only in ASCII case.
pub proof fn lemma_ignoring_case_sees_no_ascii_case(t: LiteralTrie, a: Seq<u8>, b: Seq<u8>, pos: int, end: int)
    requires
        t.ci(),
        t.folds_spec() is None,
        0 <= pos,
        end <= usize::MAX,
        (end <= a.len() && end <= b.len()) || end <= pos,
        forall|k: int| pos <= k < end ==> ascii_lower(#[trigger] a[k]) == ascii_lower(b[k]),
    ensures
        t.found(a, pos, end) == t.found(b, pos, end),
{
    lemma_matches_see_only_the_window(t, a, b, pos, end);
}

} // verus!
