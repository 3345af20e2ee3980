//! The idiomatic face of the library: a compiled pattern, a builder for its
//! options, a match in a text, the groups of a match, and the stepping of an
//! iteration over all matches.
use vstd::prelude::*;

use crate::encodings::utf8::std_from_utf8;
use crate::oniguruma::{
    OnigOptionType, OnigRegion, OnigSyntaxType, ONIG_OPTION_EXTEND, ONIG_OPTION_IGNORECASE,
    ONIG_OPTION_MULTILINE, ONIG_OPTION_NONE, ONIG_OPTION_SINGLELINE, ONIG_REGION_NOTPOS,
};
use crate::regenc::{Encoding, OnigEncoding};
use crate::regexec::{named_entry, onig_name_to_group_numbers};
use crate::regint::RegexType;
use vstd::string::StringSliceAdditionalSpecFns;
use vstd::utf8::{decode_utf8, encode_utf8_decode_utf8, valid_utf8};

verus! {

/// A compiled regular expression.
pub struct Regex {
    inner: RegexType,
}

impl Regex {
    /// The compiled pattern this regex is.
    pub closed spec fn raw(&self) -> RegexType {
        self.inner
    }

    /// A builder for `pattern`, to set options before compiling.
    pub fn builder(pattern: &str) -> (r: RegexBuilder)
        ensures
            r.pattern_bytes() == pattern.spec_bytes(),
            r.options_of() == ONIG_OPTION_NONE,
            r.syntax_of() is None,
    {
        RegexBuilder::new(pattern)
    }

    /// Wraps a compiled pattern.
    pub fn from_raw(inner: RegexType) -> (r: Regex)
        ensures
            r.raw() == inner,
    {
        Regex { inner }
    }

    /// The number of capture groups of the pattern (group 0 not counted).
    pub fn captures_len(&self) -> (r: usize)
        ensures
            r == self.raw().num_mem as usize,
    {
        self.inner.num_mem as usize
    }

    /// The compiled pattern, for the lower-level functions.
    pub fn as_raw(&self) -> (r: &RegexType)
        ensures
            *r == self.raw(),
    {
        &self.inner
    }
}

/// Options for compiling a pattern. Without a syntax of its own, a builder
/// uses the default (Oniguruma) syntax.
pub struct RegexBuilder {
    pattern: Vec<u8>,
    options: OnigOptionType,
    syntax: Option<OnigSyntaxType>,
}

/// `options` with `flag` set or cleared.
pub open spec fn with_flag(options: OnigOptionType, flag: OnigOptionType, yes: bool) -> OnigOptionType {
    if yes { options | flag } else { options & !flag }
}

impl RegexBuilder {
    /// The pattern to compile.
    pub closed spec fn pattern_bytes(&self) -> Seq<u8> {
        self.pattern@
    }

    /// The options to compile with.
    pub closed spec fn options_of(&self) -> OnigOptionType {
        self.options
    }

    /// The syntax chosen, if any (else the default).
    pub closed spec fn syntax_of(&self) -> Option<OnigSyntaxType> {
        self.syntax
    }

    /// A builder for `pattern`, with no options and the default syntax.
    pub fn new(pattern: &str) -> (r: Self)
        ensures
            r.pattern_bytes() == pattern.spec_bytes(),
            r.options_of() == ONIG_OPTION_NONE,
            r.syntax_of() is None,
    {
        let bytes = pattern.as_bytes();
        let mut v: Vec<u8> = Vec::new();
        let mut i: usize = 0;
        while i < bytes.len()
            invariant
                i <= bytes@.len(),
                v@ == bytes@.take(i as int),
            decreases bytes@.len() - i,
        {
            v.push(bytes[i]);
            i = i + 1;
            proof {
                assert(v@ =~= bytes@.take(i as int));
            }
        }
        RegexBuilder { pattern: v, options: ONIG_OPTION_NONE, syntax: None }
    }

    /// Turns case-insensitive matching on or off.
    pub fn case_insensitive(self, yes: bool) -> (r: Self)
        ensures
            r.options_of() == with_flag(self.options_of(), ONIG_OPTION_IGNORECASE, yes),
            r.pattern_bytes() == self.pattern_bytes(),
            r.syntax_of() == self.syntax_of(),
    {
        let mut b = self;
        if yes {
            b.options = b.options | ONIG_OPTION_IGNORECASE;
        } else {
            b.options = b.options & !ONIG_OPTION_IGNORECASE;
        }
        b
    }

    /// Lets `.` match a newline, or not.
    pub fn dot_matches_newline(self, yes: bool) -> (r: Self)
        ensures
            r.options_of() == with_flag(self.options_of(), ONIG_OPTION_MULTILINE, yes),
            r.pattern_bytes() == self.pattern_bytes(),
            r.syntax_of() == self.syntax_of(),
    {
        let mut b = self;
        if yes {
            b.options = b.options | ONIG_OPTION_MULTILINE;
        } else {
            b.options = b.options & !ONIG_OPTION_MULTILINE;
        }
        b
    }

    /// Lets `^` and `$` match at every line boundary, or only at the ends of
    /// the text: clears the single-line option for line anchors, sets it
    /// otherwise.
    pub fn multi_line_anchors(self, yes: bool) -> (r: Self)
        ensures
            r.options_of() == with_flag(self.options_of(), ONIG_OPTION_SINGLELINE, !yes),
            r.pattern_bytes() == self.pattern_bytes(),
            r.syntax_of() == self.syntax_of(),
    {
        let mut b = self;
        if yes {
            b.options = b.options & !ONIG_OPTION_SINGLELINE;
        } else {
            b.options = b.options | ONIG_OPTION_SINGLELINE;
        }
        b
    }

    /// Turns extended mode (spaces and `#` comments ignored) on or off.
    pub fn extended(self, yes: bool) -> (r: Self)
        ensures
            r.options_of() == with_flag(self.options_of(), ONIG_OPTION_EXTEND, yes),
            r.pattern_bytes() == self.pattern_bytes(),
            r.syntax_of() == self.syntax_of(),
    {
        let mut b = self;
        if yes {
            b.options = b.options | ONIG_OPTION_EXTEND;
        } else {
            b.options = b.options & !ONIG_OPTION_EXTEND;
        }
        b
    }

    /// Adds a raw option flag.
    pub fn option(self, flag: OnigOptionType) -> (r: Self)
        ensures
            r.options_of() == self.options_of() | flag,
            r.pattern_bytes() == self.pattern_bytes(),
            r.syntax_of() == self.syntax_of(),
    {
        let mut b = self;
        b.options = b.options | flag;
        b
    }

    /// Chooses the syntax the pattern is written in.
    pub fn syntax(self, syntax: &OnigSyntaxType) -> (r: Self)
        ensures
            r.syntax_of() == Some(*syntax),
            r.options_of() == self.options_of(),
            r.pattern_bytes() == self.pattern_bytes(),
    {
        let mut b = self;
        b.syntax = Some(*syntax);
        b
    }

    /// The pattern to compile.
    pub fn pattern(&self) -> (r: &[u8])
        ensures
            r@ == self.pattern_bytes(),
    {
        self.pattern.as_slice()
    }

    /// The options to compile with.
    pub fn options(&self) -> (r: OnigOptionType)
        ensures
            r == self.options_of(),
    {
        self.options
    }
}

/// One match: a range of a text.
#[derive(Clone, Copy)]
pub struct Match<'t> {
    text: &'t [u8],
    start: usize,
    end: usize,
}

impl<'t> Match<'t> {
    /// The text matched in.
    pub closed spec fn text_of(&self) -> Seq<u8> {
        self.text@
    }

    /// Where the match starts.
    pub closed spec fn start_of(&self) -> nat {
        self.start as nat
    }

    /// Where the match ends (exclusive).
    pub closed spec fn end_of(&self) -> nat {
        self.end as nat
    }

    /// The match lies within its text.
    pub closed spec fn wf(&self) -> bool {
        self.start <= self.end <= self.text@.len()
    }

    /// The match of `text[start..end]`.
    pub fn new(text: &'t [u8], start: usize, end: usize) -> (r: Self)
        requires
            start <= end <= text@.len(),
        ensures
            r.wf(),
            r.text_of() == text@,
            r.start_of() == start,
            r.end_of() == end,
    {
        Match { text, start, end }
    }

    /// Byte offset of the start of the match.
    pub fn start(&self) -> (r: usize)
        ensures
            r == self.start_of(),
    {
        self.start
    }

    /// Byte offset of the end of the match (exclusive).
    pub fn end(&self) -> (r: usize)
        ensures
            r == self.end_of(),
    {
        self.end
    }

    /// The byte range of the match.
    pub fn range(&self) -> (r: core::ops::Range<usize>)
        ensures
            r.start == self.start_of(),
            r.end == self.end_of(),
    {
        self.start..self.end
    }

    /// The matched bytes.
    pub fn as_bytes(&self) -> (r: &'t [u8])
        requires
            self.wf(),
        ensures
            r@ == self.text_of().subrange(self.start_of() as int, self.end_of() as int),
    {
        vstd::slice::slice_subrange(self.text, self.start, self.end)
    }

    /// The matched text as a string; the matched bytes must be UTF-8.
    pub fn as_str(&self) -> (r: &'t str)
        requires
            self.wf(),
            valid_utf8(self.text_of().subrange(self.start_of() as int, self.end_of() as int)),
        ensures
            r.spec_bytes() == self.text_of().subrange(self.start_of() as int, self.end_of() as int),
            r@ == decode_utf8(self.text_of().subrange(self.start_of() as int, self.end_of() as int)),
    {
        let bytes = self.as_bytes();
        match std_from_utf8(bytes) {
            Some(s) => {
                proof {
                    encode_utf8_decode_utf8(s@);
                }
                s
            },
            None => "",
        }
    }

    /// The matched text as a string, or `None` when the matched bytes are not
    /// UTF-8.
    pub fn try_as_str(&self) -> (r: Option<&'t str>)
        requires
            self.wf(),
        ensures
            r is Some <==> valid_utf8(self.text_of().subrange(self.start_of() as int, self.end_of() as int)),
            r matches Some(s) ==> s.spec_bytes() == self.text_of().subrange(self.start_of() as int, self.end_of() as int)
                && s@ == decode_utf8(self.text_of().subrange(self.start_of() as int, self.end_of() as int)),
    {
        if std_from_utf8(self.as_bytes()).is_none() {
            return None;
        }
        Some(self.as_str())
    }

    /// The length of the match in bytes.
    pub fn len(&self) -> (r: usize)
        requires
            self.wf(),
        ensures
            r == self.end_of() - self.start_of(),
    {
        self.end - self.start
    }

    /// Whether the match is empty.
    pub fn is_empty(&self) -> (r: bool)
        ensures
            r == (self.start_of() == self.end_of()),
    {
        self.start == self.end
    }
}

/// The groups of one match: group 0 is the whole match.
pub struct Captures<'t> {
    text: &'t [u8],
    region: OnigRegion,
    regex: &'t Regex,
}

/// Group `i` of `region` took part in the match and lies within a text of `len` bytes.
pub open spec fn group_in(region: OnigRegion, len: nat, i: int) -> bool {
    &&& 0 <= i < region.num_regs
    &&& region.beg@[i] != ONIG_REGION_NOTPOS
    &&& 0 <= region.beg@[i] <= region.end@[i] <= len
}

/// Group `g` exists in `region` and took part in the match.
pub open spec fn group_took_part(region: OnigRegion, g: i32) -> bool {
    0 <= g < region.num_regs && region.beg@[g as int] != ONIG_REGION_NOTPOS
}

impl<'t> Captures<'t> {
    /// The text matched in.
    pub closed spec fn text_of(&self) -> Seq<u8> {
        self.text@
    }

    /// The positions of the groups.
    pub closed spec fn region_of(&self) -> OnigRegion {
        self.region
    }

    /// The regex that matched.
    pub closed spec fn regex_of(&self) -> Regex {
        *self.regex
    }

    /// Every group that took part lies within the text.
    pub closed spec fn wf(&self) -> bool {
        &&& self.region.wf()
        &&& forall|i: int| 0 <= i < self.region.num_regs && self.region.beg@[i] != ONIG_REGION_NOTPOS ==> #[trigger] group_in(
            self.region,
            self.text@.len(),
            i,
        )
    }

    /// The groups `region` records for a match of `regex` in `text`.
    pub fn new(text: &'t [u8], region: OnigRegion, regex: &'t Regex) -> (r: Self)
        requires
            region.wf(),
            forall|i: int| 0 <= i < region.num_regs && region.beg@[i] != ONIG_REGION_NOTPOS ==> #[trigger] group_in(
                region,
                text@.len(),
                i,
            ),
        ensures
            r.wf(),
            r.text_of() == text@,
            r.region_of() == region,
            r.regex_of() == *regex,
    {
        Captures { text, region, regex }
    }

    /// Group `i`, or `None` when there is no such group or it did not take part.
    pub fn get(&self, i: usize) -> (r: Option<Match<'t>>)
        requires
            self.wf(),
        ensures
            r is Some <==> (i < self.region_of().num_regs && self.region_of().beg@[i as int] != ONIG_REGION_NOTPOS),
            r matches Some(m) ==> m.wf() && m.text_of() == self.text_of() && m.start_of() == self.region_of().beg@[i as int]
                && m.end_of() == self.region_of().end@[i as int],
    {
        if i >= self.region.num_regs as usize {
            return None;
        }
        let beg = self.region.beg[i];
        let end = self.region.end[i];
        if beg == ONIG_REGION_NOTPOS {
            return None;
        }
        proof {
            assert(group_in(self.region, self.text@.len(), i as int));
        }
        Some(Match { text: self.text, start: beg as usize, end: end as usize })
    }

    /// The first group named `name` that took part in the match.
    pub fn name(&self, name: &str) -> (r: Option<Match<'t>>)
        requires
            self.wf(),
        ensures
            r matches Some(m) ==> m.wf() && m.text_of() == self.text_of(),
            named_entry(&self.regex_of().raw(), name.spec_bytes()) is None ==> r is None,
            named_entry(&self.regex_of().raw(), name.spec_bytes()) matches Some(e) ==> (r is Some <==> exists|k: int|
                0 <= k < e.back_refs@.len() && #[trigger] e.back_refs@[k] >= 0 && e.back_refs@[k] < self.region_of().num_regs
                    && self.region_of().beg@[e.back_refs@[k] as int] != ONIG_REGION_NOTPOS),
            named_entry(&self.regex_of().raw(), name.spec_bytes()) matches Some(e) ==> (r matches Some(m) ==> exists|k: int|
                0 <= k < e.back_refs@.len() && #[trigger] group_took_part(self.region_of(), e.back_refs@[k])
                    && (forall|j: int| 0 <= j < k ==> !#[trigger] group_took_part(self.region_of(), e.back_refs@[j]))
                    && m.start_of() == self.region_of().beg@[e.back_refs@[k] as int]
                    && m.end_of() == self.region_of().end@[e.back_refs@[k] as int]),
    {
        let nums = match onig_name_to_group_numbers(&self.regex.inner, name.as_bytes()) {
            Ok(n) => n,
            Err(_) => return None,
        };
        let mut k: usize = 0;
        while k < nums.len()
            invariant
                self.wf(),
                k <= nums@.len(),
                named_entry(&self.regex_of().raw(), name.spec_bytes()) is Some,
                nums@ == named_entry(&self.regex_of().raw(), name.spec_bytes())->0.back_refs@,
                forall|j: int| 0 <= j < k ==> !(#[trigger] nums@[j] >= 0 && nums@[j] < self.region.num_regs
                    && self.region.beg@[nums@[j] as int] != ONIG_REGION_NOTPOS),
                forall|j: int| 0 <= j < k ==> !#[trigger] group_took_part(self.region_of(), nums@[j]),
            decreases nums@.len() - k,
        {
            let num = nums[k];
            if num >= 0 {
                let m = self.get(num as usize);
                if m.is_some() {
                    proof {
                        assert(nums@[k as int] >= 0 && nums@[k as int] < self.region.num_regs
                            && self.region.beg@[nums@[k as int] as int] != ONIG_REGION_NOTPOS);
                        assert(group_took_part(self.region_of(), nums@[k as int]));
                    }
                    return m;
                }
            }
            proof {
                assert(!group_took_part(self.region_of(), nums@[k as int]));
            }
            k = k + 1;
        }
        None
    }

    /// The number of groups, group 0 included.
    pub fn len(&self) -> (r: usize)
        requires
            self.wf(),
        ensures
            r == self.region_of().num_regs,
    {
        self.region.num_regs as usize
    }

    /// Whether there are no groups at all.
    pub fn is_empty(&self) -> (r: bool)
        ensures
            r == (self.region_of().num_regs == 0),
    {
        self.region.num_regs == 0
    }

    /// An iteration over the groups, group 0 first.
    pub fn iter(&self) -> (r: CapturesIter<'_, 't>)
        requires
            self.wf(),
        ensures
            r.captures_of() == *self,
            r.index_of() == 0,
            r.wf(),
    {
        CapturesIter { captures: self, index: 0 }
    }
}

/// An iteration over the groups of a [`Captures`], group 0 first.
pub struct CapturesIter<'c, 't> {
    captures: &'c Captures<'t>,
    index: usize,
}

impl<'c, 't> CapturesIter<'c, 't> {
    /// The captures iterated over.
    pub closed spec fn captures_of(&self) -> Captures<'t> {
        *self.captures
    }

    /// The next group.
    pub closed spec fn index_of(&self) -> nat {
        self.index as nat
    }

    /// The iteration has not passed the last group.
    pub open spec fn wf(&self) -> bool {
        &&& self.captures_of().wf()
        &&& self.index_of() <= self.captures_of().region_of().num_regs
    }

    /// The next group, as a match or `None` when it did not take part;
    /// `None` after the last group.
    pub fn next(&mut self) -> (r: Option<Option<Match<'t>>>)
        requires
            old(self).wf(),
        ensures
            final(self).wf(),
            final(self).captures_of() == old(self).captures_of(),
            old(self).index_of() == old(self).captures_of().region_of().num_regs ==> r is None && final(self).index_of()
                == old(self).index_of(),
            old(self).index_of() < old(self).captures_of().region_of().num_regs ==> {
                let i = old(self).index_of() as int;
                let region = old(self).captures_of().region_of();
                &&& final(self).index_of() == i + 1
                &&& r matches Some(g) && (g is Some <==> region.beg@[i] != ONIG_REGION_NOTPOS)
                &&& r matches Some(Some(m)) ==> m.wf() && m.text_of() == old(self).captures_of().text_of()
                    && m.start_of() == region.beg@[i] && m.end_of() == region.end@[i]
            },
    {
        if self.index >= self.captures.len() {
            return None;
        }
        let m = self.captures.get(self.index);
        self.index = self.index + 1;
        Some(m)
    }

    /// How many groups remain, as a lower and an exact upper bound.
    pub fn size_hint(&self) -> (r: (usize, Option<usize>))
        requires
            self.wf(),
        ensures
            r.0 == self.captures_of().region_of().num_regs - self.index_of(),
            r.1 == Some(r.0),
    {
        let remaining = self.captures.len() - self.index;
        (remaining, Some(remaining))
    }
}

/// What to do after a search for the next of all matches.
pub enum FindStep<'t> {
    /// The next match.
    Found(Match<'t>),
    /// Search again from the new position.
    Again,
    /// No more matches.
    Done,
}

/// The state of an iteration over all non-overlapping matches of a text:
/// where the next search starts, and whether the last match was empty.
pub struct FindIter<'r, 't> {
    regex: &'r Regex,
    text: &'t [u8],
    last_end: usize,
    last_was_empty: bool,
}

impl<'r, 't> FindIter<'r, 't> {
    /// The text searched.
    pub closed spec fn text_of(&self) -> Seq<u8> {
        self.text@
    }

    /// Where the next search starts.
    pub closed spec fn next_start(&self) -> nat {
        self.last_end as nat
    }

    /// Whether the last match was empty.
    pub closed spec fn after_empty(&self) -> bool {
        self.last_was_empty
    }

    /// The encoding of the pattern.
    pub closed spec fn enc_of(&self) -> OnigEncoding {
        self.regex.inner.enc
    }

    /// How much the iteration has left to do: two units for each byte after
    /// the next start, and one more until an empty match has been reported
    /// there. It is never negative while a search is still to be made, and
    /// every step that does not end the iteration lowers it.
    pub open spec fn remaining_work(&self) -> int {
        2 * (self.text_of().len() - self.next_start()) + if self.after_empty() { 0int } else { 1int }
    }

    /// An iteration over the matches of `regex` in `text`, from its start.
    pub fn new(regex: &'r Regex, text: &'t [u8]) -> (r: Self)
        ensures
            r.text_of() == text@,
            r.next_start() == 0,
            !r.after_empty(),
            r.enc_of() == regex.raw().enc,
    {
        FindIter { regex, text, last_end: 0, last_was_empty: false }
    }

    /// Where the next search starts, or `None` when the iteration is over.
    pub fn search_start(&self) -> (r: Option<usize>)
        ensures
            r is Some <==> self.next_start() <= self.text_of().len(),
            r matches Some(p) ==> p == self.next_start(),
    {
        if self.last_end > self.text.len() {
            None
        } else {
            Some(self.last_end)
        }
    }

    /// Takes the result of the search from `search_start`: the range of the
    /// match found, if any. A second empty match in a row at the same place
    /// moves the start on by one character and asks for another search; an
    /// empty match at the end of the text ends the iteration.
    pub fn step(&mut self, found: Option<(usize, usize)>) -> (r: FindStep<'t>)
        requires
            old(self).next_start() <= old(self).text_of().len(),
            old(self).text_of().len() <= isize::MAX,
            found matches Some((s, e)) ==> s <= e <= old(self).text_of().len(),
        ensures
            final(self).text_of() == old(self).text_of(),
            final(self).enc_of() == old(self).enc_of(),
            found is None ==> r is Done && final(self).next_start() == old(self).next_start()
                && final(self).after_empty() == old(self).after_empty(),
            found matches Some((s, e)) ==> {
                if s == e && old(self).after_empty() {
                    if old(self).next_start() >= old(self).text_of().len() {
                        r is Done && final(self).next_start() == old(self).next_start()
                    } else {
                        r is Again && !final(self).after_empty() && final(self).next_start() == old(self).next_start()
                            + old(self).enc_of().enc_len_spec(old(self).text_of().subrange(
                            old(self).next_start() as int,
                            old(self).text_of().len() as int,
                        ))
                    }
                } else {
                    &&& r matches FindStep::Found(m) && m.wf() && m.text_of() == old(self).text_of()
                        && m.start_of() == s && m.end_of() == e
                    &&& final(self).next_start() == e
                    &&& final(self).after_empty() == (s == e)
                }
            },
            found matches Some((s, e)) && s >= old(self).next_start() && !(r is Done)
                ==> final(self).remaining_work() < old(self).remaining_work(),
    {
        let (start, end) = match found {
            Some(f) => f,
            None => return FindStep::Done,
        };
        if start == end {
            if self.last_was_empty {
                if self.last_end >= self.text.len() {
                    return FindStep::Done;
                }
                let rest = vstd::slice::slice_subrange(self.text, self.last_end, self.text.len());
                let step = self.regex.inner.enc.mbc_enc_len(rest);
                proof {
                    self.regex.inner.enc.lemma_enc_len_bounds(rest@);
                }
                self.last_end = self.last_end + step;
                self.last_was_empty = false;
                return FindStep::Again;
            }
            self.last_was_empty = true;
        } else {
            self.last_was_empty = false;
        }
        self.last_end = end;
        FindStep::Found(Match { text: self.text, start, end })
    }
}

} // verus!
