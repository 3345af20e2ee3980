//! The bytes a path through compiled bytecode can consume first.
//!
//! A set of pattern searches uses the map from the start of a pattern as a
//! start filter; the compiler uses the map from inside a pattern to guard
//! backtrack pushes.
use vstd::prelude::*;

use crate::literal_trie::{starts_with_byte, LiteralTrie};
use crate::regenc::{ascii_lower, onigenc_ascii_code_to_lower_case};
use crate::regint::{
    bitset_at, bitset_has, bitset_set_bit, BitSet, OpCode, Operation, OperationPayload, RegexType,
    BITSET_REAL_SIZE,
};

verus! {

/// The bytes a path may consume first, one bit per byte.
pub type ByteMap = BitSet;

/// What an instruction contributes to a first-byte map.
#[derive(Clone, Copy, PartialEq, Eq, Structural)]
pub enum FirstBytes {
    /// Consumes nothing; control flow decides what follows.
    Passes,
    /// Consumes one of the recorded bytes.
    Consumes,
    /// A loop that consumes recorded bytes or nothing, then falls through.
    ConsumesOrFallsThrough,
}

/// `[0-9A-Za-z_]`.
pub open spec fn is_ascii_word_byte(p: int) -> bool {
    (0x30 <= p <= 0x39) || (0x41 <= p <= 0x5a) || (0x61 <= p <= 0x7a) || p == 0x5f
}

/// The upper case of an ASCII byte; every other byte stays.
pub open spec fn ascii_upper(c: u8) -> u8 {
    if 0x61 <= c <= 0x7a { (c - 0x20) as u8 } else { c }
}

/// Whether `c` is an ASCII letter.
pub open spec fn is_ascii_alpha(c: u8) -> bool {
    (0x41 <= c <= 0x5a) || (0x61 <= c <= 0x7a)
}

/// Byte `p` is in `map`.
pub open spec fn in_map(map: ByteMap, p: int) -> bool {
    bitset_has(map@, p)
}

/// `after` holds what `before` holds and exactly the bytes `added` adds.
pub open spec fn extends(before: ByteMap, after: ByteMap, added: spec_fn(int) -> bool) -> bool {
    forall|p: int| 0 <= p < 256 ==> #[trigger] in_map(after, p) == (in_map(before, p) || added(p))
}

/// The trie of a literal alternation, when its index is valid.
pub open spec fn trie_of(reg: &RegexType, idx: u32) -> Option<LiteralTrie> {
    if (idx as int) < reg.literal_tries@.len() {
        Some(reg.literal_tries@[idx as int])
    } else {
        None
    }
}

/// What `op` contributes: `None` when its operands do not fit its opcode (or a
/// literal alternation has no trie or an empty literal).
pub open spec fn op_first(reg: &RegexType, op: Operation) -> Option<FirstBytes> {
    match op.opcode {
        OpCode::Str1 | OpCode::Str2 | OpCode::Str3 | OpCode::Str4 | OpCode::Str5 => match op.payload {
            OperationPayload::Exact { .. } => Some(FirstBytes::Consumes),
            _ => None,
        },
        OpCode::StrN => match op.payload {
            OperationPayload::ExactN { s, .. } => if s@.len() > 0 { Some(FirstBytes::Consumes) } else { None },
            _ => None,
        },
        OpCode::StrMb2n1 | OpCode::StrMb2n2 | OpCode::StrMb2n3 | OpCode::StrMb2n | OpCode::StrMb3n
        | OpCode::StrMbn => match op.payload {
            OperationPayload::ExactLenN { s, .. } => if s@.len() > 0 { Some(FirstBytes::Consumes) } else { None },
            _ => None,
        },
        OpCode::CClass | OpCode::CClassNot => match op.payload {
            OperationPayload::CClass { .. } => Some(FirstBytes::Consumes),
            _ => None,
        },
        OpCode::CClassMb | OpCode::CClassMbNot => Some(FirstBytes::Consumes),
        OpCode::CClassMix | OpCode::CClassMixNot => match op.payload {
            OperationPayload::CClassMix { .. } => Some(FirstBytes::Consumes),
            _ => None,
        },
        OpCode::Word | OpCode::NoWord | OpCode::AnyChar | OpCode::AnyCharMl | OpCode::WordAscii
        | OpCode::NoWordAscii => Some(FirstBytes::Consumes),
        OpCode::CClassStar | OpCode::CClassNotStar => match op.payload {
            OperationPayload::CClass { .. } => Some(FirstBytes::ConsumesOrFallsThrough),
            _ => None,
        },
        OpCode::CClassMixStar | OpCode::CClassMixNotStar => match op.payload {
            OperationPayload::CClassMix { .. } => Some(FirstBytes::ConsumesOrFallsThrough),
            _ => None,
        },
        OpCode::CClassMbStar | OpCode::CClassMbNotStar | OpCode::WordStar | OpCode::WordAsciiStar
        | OpCode::WordAsciiStarPeekNext => Some(FirstBytes::ConsumesOrFallsThrough),
        OpCode::CClassStarPeekNext => match op.payload {
            OperationPayload::CClassStarPeekNext { .. } => Some(FirstBytes::ConsumesOrFallsThrough),
            _ => None,
        },
        OpCode::AltLiterals => match op.payload {
            OperationPayload::AltLiterals { trie_idx } => match trie_of(reg, trie_idx) {
                Some(t) => if crate::literal_trie::has_empty(t.keys()) { None } else { Some(FirstBytes::Consumes) },
                None => None,
            },
            _ => None,
        },
        OpCode::AnyCharStar | OpCode::AnyCharMlStar | OpCode::AnyCharStarPeekNext
        | OpCode::AnyCharMlStarPeekNext => Some(FirstBytes::Consumes),
        _ => Some(FirstBytes::Passes),
    }
}

/// Byte `p` can be consumed first by a literal alternation: a literal starts
/// with it, or with the other case of it when case is ignored, or case is
/// ignored and `p` is a lead or continuation byte of a multibyte character.
pub open spec fn trie_adds(t: LiteralTrie, p: int) -> bool {
    ||| exists|b: u8| (b as int) == p && starts_with_byte(t.keys(), b)
    ||| t.ci() && exists|b: u8| #![trigger starts_with_byte(t.keys(), b)] starts_with_byte(t.keys(), b)
        && is_ascii_alpha(b) && (p == ascii_lower(b) || p == ascii_upper(b))
    ||| t.ci() && p >= 0x80
}

/// Whether `op` records byte `p` (when `op_first` is `Some`).
pub open spec fn op_adds(reg: &RegexType, op: Operation, p: int) -> bool {
    match op.opcode {
        OpCode::Str1 | OpCode::Str2 | OpCode::Str3 | OpCode::Str4 | OpCode::Str5 => match op.payload {
            OperationPayload::Exact { s } => p == s@[0],
            _ => false,
        },
        OpCode::StrN => match op.payload {
            OperationPayload::ExactN { s, .. } => p == s@[0],
            _ => false,
        },
        OpCode::StrMb2n1 | OpCode::StrMb2n2 | OpCode::StrMb2n3 | OpCode::StrMb2n | OpCode::StrMb3n
        | OpCode::StrMbn => match op.payload {
            OperationPayload::ExactLenN { s, .. } => p == s@[0],
            _ => false,
        },
        OpCode::CClass | OpCode::CClassStar | OpCode::CClassStarPeekNext => match op.payload {
            OperationPayload::CClass { bsp } => bitset_has(bsp@, p),
            OperationPayload::CClassStarPeekNext { bsp, .. } => bitset_has(bsp@, p),
            _ => false,
        },
        OpCode::CClassNot | OpCode::CClassNotStar => match op.payload {
            OperationPayload::CClass { bsp } => !bitset_has(bsp@, p),
            _ => false,
        },
        OpCode::CClassMb | OpCode::CClassMbStar => p >= 0x80,
        OpCode::CClassMix | OpCode::CClassMixStar => match op.payload {
            OperationPayload::CClassMix { bsp, .. } => bitset_has(bsp@, p) || p >= 0x80,
            _ => false,
        },
        OpCode::CClassMixNot | OpCode::CClassMixNotStar => match op.payload {
            OperationPayload::CClassMix { bsp, .. } => !bitset_has(bsp@, p) || p >= 0x80,
            _ => false,
        },
        OpCode::WordAscii | OpCode::WordAsciiStar | OpCode::WordAsciiStarPeekNext => is_ascii_word_byte(p),
        OpCode::NoWordAscii => !is_ascii_word_byte(p),
        OpCode::CClassMbNot | OpCode::CClassMbNotStar | OpCode::Word | OpCode::NoWord
        | OpCode::AnyChar | OpCode::AnyCharMl | OpCode::WordStar | OpCode::AnyCharStar
        | OpCode::AnyCharMlStar | OpCode::AnyCharStarPeekNext | OpCode::AnyCharMlStarPeekNext => true,
        OpCode::AltLiterals => match op.payload {
            OperationPayload::AltLiterals { trie_idx } => match trie_of(reg, trie_idx) {
                Some(t) => trie_adds(t, p),
                None => false,
            },
            _ => false,
        },
        _ => false,
    }
}

/// Adds every byte.
fn add_all(map: &mut ByteMap)
    ensures
        forall|p: int| 0 <= p < 256 ==> #[trigger] in_map(*final(map), p),
{
    let mut i: usize = 0;
    while i < BITSET_REAL_SIZE
        invariant
            i <= 8,
            forall|j: int| 0 <= j < i ==> map@[j] == 0xffff_ffffu32,
        decreases 8 - i,
    {
        map[i] = 0xffff_ffffu32;
        i = i + 1;
    }
    proof {
        assert forall|p: int| 0 <= p < 256 implies #[trigger] in_map(*map, p) by {
            lemma_full_word((p % 32) as u32);
        }
    }
}

/// Adds `byte`.
fn add_exact(map: &mut ByteMap, byte: u8)
    ensures
        extends(*old(map), *final(map), |p: int| p == byte),
{
    bitset_set_bit(map, byte as usize);
}

/// Adds the members of `bitset`, or of its complement.
fn add_bitset(map: &mut ByteMap, bitset: &BitSet, inverted: bool)
    ensures
        extends(*old(map), *final(map), |p: int| bitset_has(bitset@, p) != inverted),
{
    let ghost before = *map;
    let mut i: usize = 0;
    while i < BITSET_REAL_SIZE
        invariant
            i <= 8,
            forall|j: int| 0 <= j < i ==> map@[j] == (before@[j] | if inverted { !bitset@[j] } else { bitset@[j] }),
            forall|j: int| i <= j < 8 ==> map@[j] == before@[j],
        decreases 8 - i,
    {
        let bits = bitset[i];
        map[i] = map[i] | if inverted { !bits } else { bits };
        i = i + 1;
    }
    proof {
        assert forall|p: int| 0 <= p < 256 implies #[trigger] in_map(*map, p) == (in_map(before, p) || (
        bitset_has(bitset@, p) != inverted)) by {
            let j = p / 32;
            lemma_or_word(before@[j], bitset@[j], inverted, (p % 32) as u32);
        }
    }
}

/// Adds every byte from 0x80 on: the lead and continuation bytes of
/// multibyte characters.
fn add_high_bytes(map: &mut ByteMap)
    ensures
        extends(*old(map), *final(map), |p: int| p >= 0x80),
{
    let ghost before = *map;
    let mut i: usize = 4;
    while i < BITSET_REAL_SIZE
        invariant
            4 <= i <= 8,
            forall|j: int| 4 <= j < i ==> map@[j] == 0xffff_ffffu32,
            forall|j: int| 0 <= j < 4 ==> map@[j] == before@[j],
            forall|j: int| i <= j < 8 ==> map@[j] == before@[j],
        decreases 8 - i,
    {
        map[i] = 0xffff_ffffu32;
        i = i + 1;
    }
    proof {
        assert forall|p: int| 0 <= p < 256 implies #[trigger] in_map(*map, p) == (in_map(before, p) || p >= 0x80) by {
            if p >= 0x80 {
                lemma_full_word((p % 32) as u32);
            }
        }
    }
}

/// Adds `[0-9A-Za-z_]`, or its complement.
fn add_ascii_word(map: &mut ByteMap, inverted: bool)
    ensures
        extends(*old(map), *final(map), |p: int| is_ascii_word_byte(p) != inverted),
{
    let mut word: BitSet = [0u32; 8];
    proof {
        assert forall|p: int| 0 <= p < 256 implies !bitset_has(word@, p) by {
            lemma_empty_word((p % 32) as u32);
        }
    }
    let mut b: usize = 0;
    while b < 0x80
        invariant
            b <= 0x80,
            forall|p: int| 0 <= p < 256 ==> #[trigger] bitset_has(word@, p) == (p < b && is_ascii_word_byte(p)),
        decreases 0x80 - b,
    {
        let c = b as u8;
        let wordy = (c >= 0x30 && c <= 0x39) || (c >= 0x41 && c <= 0x5a) || (c >= 0x61 && c <= 0x7a) || c == 0x5f;
        if wordy {
            bitset_set_bit(&mut word, b);
        }
        b = b + 1;
    }
    add_bitset(map, &word, inverted);
    proof {
        assert forall|p: int| 0 <= p < 256 implies (bitset_has(word@, p) != inverted) == (is_ascii_word_byte(p) != inverted) by {
            assert(bitset_has(word@, p) == (p < 0x80 && is_ascii_word_byte(p)));
        }
    }
}

/// The instruction `addr` away from `pc`, when it is one of the `len`
/// instructions.
pub open spec fn target_spec(pc: int, addr: i32, len: int) -> Option<int> {
    if 0 <= pc + addr < len { Some(pc + addr) } else { None }
}

/// The instruction `addr` away from `pc`, when there is one.
fn target(pc: usize, addr: i32, len: usize) -> (r: Option<usize>)
    ensures
        r matches Some(t) ==> t as int == pc + addr,
        r is Some <==> target_spec(pc as int, addr, len as int) is Some,
{
    if addr >= 0 {
        let a = addr as usize;
        if pc < len && a < len - pc {
            Some(pc + a)
        } else {
            None
        }
    } else {
        let back = if addr == i32::MIN { 0x8000_0000usize } else { (-addr) as usize };
        if back <= pc && pc - back < len {
            Some(pc - back)
        } else {
            None
        }
    }
}

/// Records the bytes `op` can consume first into `map`, and says what `op`
/// contributes. `None` when its operands do not fit the opcode; `map` is then
/// unchanged.
fn record_first_bytes(reg: &RegexType, op: &Operation, map: &mut ByteMap) -> (r: Option<FirstBytes>)
    ensures
        r == op_first(reg, *op),
        r is Some ==> extends(*old(map), *final(map), |p: int| op_adds(reg, *op, p)),
        r is None ==> *final(map) == *old(map),
{
    let ghost before = *map;
    match op.opcode {
        OpCode::Str1 | OpCode::Str2 | OpCode::Str3 | OpCode::Str4 | OpCode::Str5 => {
            match &op.payload {
                OperationPayload::Exact { s } => {
                    add_exact(map, s[0]);
                    Some(FirstBytes::Consumes)
                },
                _ => None,
            }
        },
        OpCode::StrN => {
            match &op.payload {
                OperationPayload::ExactN { s, .. } => {
                    if s.len() == 0 {
                        return None;
                    }
                    add_exact(map, s[0]);
                    Some(FirstBytes::Consumes)
                },
                _ => None,
            }
        },
        OpCode::StrMb2n1 | OpCode::StrMb2n2 | OpCode::StrMb2n3 | OpCode::StrMb2n | OpCode::StrMb3n
        | OpCode::StrMbn => {
            match &op.payload {
                OperationPayload::ExactLenN { s, .. } => {
                    if s.len() == 0 {
                        return None;
                    }
                    add_exact(map, s[0]);
                    Some(FirstBytes::Consumes)
                },
                _ => None,
            }
        },
        OpCode::CClass | OpCode::CClassNot => {
            match &op.payload {
                OperationPayload::CClass { bsp } => {
                    let inverted = match op.opcode {
                        OpCode::CClassNot => true,
                        _ => false,
                    };
                    add_bitset(map, bsp, inverted);
                    Some(FirstBytes::Consumes)
                },
                _ => None,
            }
        },
        OpCode::CClassMb => {
            add_high_bytes(map);
            Some(FirstBytes::Consumes)
        },
        OpCode::CClassMbNot => {
            add_all(map);
            Some(FirstBytes::Consumes)
        },
        OpCode::CClassMix | OpCode::CClassMixNot => {
            match &op.payload {
                OperationPayload::CClassMix { bsp, .. } => {
                    let inverted = match op.opcode {
                        OpCode::CClassMixNot => true,
                        _ => false,
                    };
                    add_bitset(map, bsp, inverted);
                    let ghost mid = *map;
                    add_high_bytes(map);
                    Some(FirstBytes::Consumes)
                },
                _ => None,
            }
        },
        OpCode::Word | OpCode::NoWord | OpCode::AnyChar | OpCode::AnyCharMl => {
            add_all(map);
            Some(FirstBytes::Consumes)
        },
        OpCode::WordAscii | OpCode::NoWordAscii => {
            let inverted = match op.opcode {
                OpCode::NoWordAscii => true,
                _ => false,
            };
            add_ascii_word(map, inverted);
            Some(FirstBytes::Consumes)
        },
        OpCode::CClassStar => {
            match &op.payload {
                OperationPayload::CClass { bsp } => {
                    add_bitset(map, bsp, false);
                    Some(FirstBytes::ConsumesOrFallsThrough)
                },
                _ => None,
            }
        },
        OpCode::CClassMixStar => {
            match &op.payload {
                OperationPayload::CClassMix { bsp, .. } => {
                    add_bitset(map, bsp, false);
                    add_high_bytes(map);
                    Some(FirstBytes::ConsumesOrFallsThrough)
                },
                _ => None,
            }
        },
        OpCode::CClassMbStar => {
            add_high_bytes(map);
            Some(FirstBytes::ConsumesOrFallsThrough)
        },
        OpCode::CClassNotStar => {
            match &op.payload {
                OperationPayload::CClass { bsp } => {
                    add_bitset(map, bsp, true);
                    Some(FirstBytes::ConsumesOrFallsThrough)
                },
                _ => None,
            }
        },
        OpCode::CClassMbNotStar => {
            add_all(map);
            Some(FirstBytes::ConsumesOrFallsThrough)
        },
        OpCode::CClassMixNotStar => {
            match &op.payload {
                OperationPayload::CClassMix { bsp, .. } => {
                    add_bitset(map, bsp, true);
                    add_high_bytes(map);
                    Some(FirstBytes::ConsumesOrFallsThrough)
                },
                _ => None,
            }
        },
        OpCode::WordStar => {
            add_all(map);
            Some(FirstBytes::ConsumesOrFallsThrough)
        },
        OpCode::WordAsciiStar => {
            add_ascii_word(map, false);
            Some(FirstBytes::ConsumesOrFallsThrough)
        },
        OpCode::CClassStarPeekNext => {
            match &op.payload {
                OperationPayload::CClassStarPeekNext { bsp, .. } => {
                    add_bitset(map, bsp, false);
                    Some(FirstBytes::ConsumesOrFallsThrough)
                },
                _ => None,
            }
        },
        OpCode::WordAsciiStarPeekNext => {
            add_ascii_word(map, false);
            Some(FirstBytes::ConsumesOrFallsThrough)
        },
        OpCode::AltLiterals => {
            let trie_idx = match &op.payload {
                OperationPayload::AltLiterals { trie_idx } => *trie_idx,
                _ => return None,
            };
            if trie_idx as usize >= reg.literal_tries.len() {
                return None;
            }
            let trie = &reg.literal_tries[trie_idx as usize];
            let bytes = match trie.first_bytes() {
                Some(b) => b,
                None => return None,
            };
            let ci = trie.is_case_insensitive();
            record_trie_bytes(map, &bytes, ci);
            proof {
                assert forall|p: int| 0 <= p < 256 implies #[trigger] in_map(*map, p) == (in_map(before, p)
                    || op_adds(reg, *op, p)) by {
                    assert(trie_of(reg, trie_idx) == Some(*trie));
                    assert forall|b: u8| bytes@.contains(b) <==> starts_with_byte(trie.keys(), b) by {}
                }
            }
            Some(FirstBytes::Consumes)
        },
        OpCode::AnyCharStar | OpCode::AnyCharMlStar | OpCode::AnyCharStarPeekNext
        | OpCode::AnyCharMlStarPeekNext => {
            add_all(map);
            Some(FirstBytes::Consumes)
        },
        _ => Some(FirstBytes::Passes),
    }
}

/// Records the first bytes of a literal alternation: each byte, its other
/// case for letters when case is ignored, and then every multibyte byte,
/// since case folding also admits non-ASCII input.
fn record_trie_bytes(map: &mut ByteMap, bytes: &Vec<u8>, ci: bool)
    ensures
        forall|p: int| 0 <= p < 256 ==> #[trigger] in_map(*final(map), p) == (in_map(*old(map), p)
            || (exists|b: u8| (b as int) == p && bytes@.contains(b))
            || (ci && exists|b: u8| #![trigger bytes@.contains(b)] bytes@.contains(b) && is_ascii_alpha(b)
                && (p == ascii_lower(b) || p == ascii_upper(b)))
            || (ci && p >= 0x80)),
{
    let ghost before = *map;
    let mut i: usize = 0;
    while i < bytes.len()
        invariant
            i <= bytes@.len(),
            forall|p: int| 0 <= p < 256 ==> #[trigger] in_map(*map, p) == (in_map(before, p)
                || (exists|k: int| 0 <= k < i && bytes@[k] as int == p)
                || (ci && exists|k: int| 0 <= k < i && is_ascii_alpha(#[trigger] bytes@[k])
                    && (p == ascii_lower(bytes@[k]) || p == ascii_upper(bytes@[k])))),
        decreases bytes@.len() - i,
    {
        let byte = bytes[i];
        let ghost m0 = *map;
        add_exact(map, byte);
        let alpha = (byte >= 0x41 && byte <= 0x5a) || (byte >= 0x61 && byte <= 0x7a);
        if ci && alpha {
            let lower = onigenc_ascii_code_to_lower_case(byte);
            let upper = if byte >= 0x61 && byte <= 0x7a { byte - 0x20 } else { byte };
            add_exact(map, lower);
            add_exact(map, upper);
        }
        proof {
            assert forall|p: int| 0 <= p < 256 implies #[trigger] in_map(*map, p) == (in_map(before, p)
                || (exists|k: int| 0 <= k < i + 1 && bytes@[k] as int == p)
                || (ci && exists|k: int| 0 <= k < i + 1 && is_ascii_alpha(#[trigger] bytes@[k])
                    && (p == ascii_lower(bytes@[k]) || p == ascii_upper(bytes@[k])))) by {
                assert(in_map(m0, p) == (in_map(before, p)
                    || (exists|k: int| 0 <= k < i && bytes@[k] as int == p)
                    || (ci && exists|k: int| 0 <= k < i && is_ascii_alpha(#[trigger] bytes@[k])
                        && (p == ascii_lower(bytes@[k]) || p == ascii_upper(bytes@[k])))));
                if exists|k: int| 0 <= k < i + 1 && bytes@[k] as int == p {
                    let k = choose|k: int| 0 <= k < i + 1 && bytes@[k] as int == p;
                    if k < i {
                        assert(exists|k2: int| 0 <= k2 < i && bytes@[k2] as int == p);
                    }
                }
                if ci && exists|k: int| 0 <= k < i + 1 && is_ascii_alpha(#[trigger] bytes@[k])
                    && (p == ascii_lower(bytes@[k]) || p == ascii_upper(bytes@[k])) {
                    let k = choose|k: int| 0 <= k < i + 1 && is_ascii_alpha(#[trigger] bytes@[k])
                        && (p == ascii_lower(bytes@[k]) || p == ascii_upper(bytes@[k]));
                    if k < i {
                        assert(is_ascii_alpha(bytes@[k]));
                    }
                }
                if exists|k: int| 0 <= k < i && bytes@[k] as int == p {
                    let k = choose|k: int| 0 <= k < i && bytes@[k] as int == p;
                    assert(0 <= k < i + 1 && bytes@[k] as int == p);
                }
                if ci && exists|k: int| 0 <= k < i && is_ascii_alpha(#[trigger] bytes@[k])
                    && (p == ascii_lower(bytes@[k]) || p == ascii_upper(bytes@[k])) {
                    let k = choose|k: int| 0 <= k < i && is_ascii_alpha(#[trigger] bytes@[k])
                        && (p == ascii_lower(bytes@[k]) || p == ascii_upper(bytes@[k]));
                    assert(0 <= k < i + 1 && is_ascii_alpha(bytes@[k]));
                }
                if p == byte {
                    assert(bytes@[i as int] as int == p);
                }
                if ci && alpha && (p == ascii_lower(byte) || p == ascii_upper(byte)) {
                    assert(is_ascii_alpha(bytes@[i as int]));
                }
            }
        }
        i = i + 1;
    }
    if ci {
        add_high_bytes(map);
    }
    proof {
        assert forall|p: int| 0 <= p < 256 implies #[trigger] in_map(*map, p) == (in_map(before, p)
            || (exists|b: u8| (b as int) == p && bytes@.contains(b))
            || (ci && exists|b: u8| #![trigger bytes@.contains(b)] bytes@.contains(b) && is_ascii_alpha(b)
                && (p == ascii_lower(b) || p == ascii_upper(b)))
            || (ci && p >= 0x80)) by {
            if exists|k: int| 0 <= k < bytes@.len() && bytes@[k] as int == p {
                let k = choose|k: int| 0 <= k < bytes@.len() && bytes@[k] as int == p;
                assert(bytes@.contains(bytes@[k]));
            }
            if exists|b: u8| (b as int) == p && bytes@.contains(b) {
                let b = choose|b: u8| (b as int) == p && bytes@.contains(b);
                let k = choose|k: int| 0 <= k < bytes@.len() && bytes@[k] == b;
                assert(bytes@[k] as int == p);
            }
            if ci && exists|k: int| 0 <= k < bytes@.len() && is_ascii_alpha(#[trigger] bytes@[k])
                && (p == ascii_lower(bytes@[k]) || p == ascii_upper(bytes@[k])) {
                let k = choose|k: int| 0 <= k < bytes@.len() && is_ascii_alpha(#[trigger] bytes@[k])
                    && (p == ascii_lower(bytes@[k]) || p == ascii_upper(bytes@[k]));
                assert(bytes@.contains(bytes@[k]));
            }
            if ci && exists|b: u8| #![trigger bytes@.contains(b)] bytes@.contains(b) && is_ascii_alpha(b)
                && (p == ascii_lower(b) || p == ascii_upper(b)) {
                let b = choose|b: u8| #![trigger bytes@.contains(b)] bytes@.contains(b) && is_ascii_alpha(b)
                    && (p == ascii_lower(b) || p == ascii_upper(b));
                let k = choose|k: int| 0 <= k < bytes@.len() && bytes@[k] == b;
                assert(is_ascii_alpha(bytes@[k]));
            }
        }
    }
}

proof fn lemma_full_word(k: u32)
    requires
        k < 32,
    ensures
        0xffff_ffffu32 & (1u32 << k) != 0,
{
    assert(0xffff_ffffu32 & (1u32 << k) != 0) by (bit_vector)
        requires
            k < 32,
    ;
}

proof fn lemma_empty_word(k: u32)
    requires
        k < 32,
    ensures
        0u32 & (1u32 << k) == 0,
{
    assert(0u32 & (1u32 << k) == 0) by (bit_vector);
}

proof fn lemma_or_word(a: u32, b: u32, inverted: bool, k: u32)
    requires
        k < 32,
    ensures
        (a | if inverted { !b } else { b }) & (1u32 << k) != 0 <==> (a & (1u32 << k) != 0 || ((b & (1u32
            << k) != 0) != inverted)),
{
    if inverted {
        assert((a | !b) & (1u32 << k) != 0 <==> (a & (1u32 << k) != 0 || b & (1u32 << k) == 0)) by (bit_vector)
            requires
                k < 32,
        ;
    } else {
        assert((a | b) & (1u32 << k) != 0 <==> (a & (1u32 << k) != 0 || b & (1u32 << k) != 0)) by (bit_vector)
            requires
                k < 32,
        ;
    }
}


/// The group id of a mark that does not save the position.
pub open spec fn unsaved_mark_id(op: Operation) -> Option<i32> {
    match op.payload {
        OperationPayload::Mark { id, save_pos } => if save_pos { None } else { Some(id) },
        _ => None,
    }
}

/// Whether `payload` pops to the mark `id`.
pub open spec fn pops_mark(payload: OperationPayload, id: i32) -> bool {
    match payload {
        OperationPayload::PopToMark { id: pop_id } => pop_id == id,
        _ => false,
    }
}

/// An instruction in `[lo, hi)` pops to the mark `id`.
pub open spec fn has_pop(ops: Seq<Operation>, lo: int, hi: int, id: i32) -> bool {
    exists|k: int| lo <= k < hi && #[trigger] pops_mark(ops[k].payload, id)
}

/// An instruction in `[lo, hi)` starts a step back.
pub open spec fn has_step_back(ops: Seq<Operation>, lo: int, hi: int) -> bool {
    exists|k: int| lo <= k < hi && #[trigger] ops[k].opcode == OpCode::StepBackStart
}

/// The push at `pc` opens a negative look-around whose failure continues at
/// `alt`: the instruction before `alt` fails, and a mark that does not save
/// the position right after the push (a look-ahead) or right before it (a
/// look-behind, which also steps back) is popped before `alt`.
pub open spec fn neg_assertion_push(reg: &RegexType, pc: int, alt: int) -> bool {
    let ops = reg.ops@;
    &&& alt > pc + 1
    &&& alt - 1 < ops.len()
    &&& ops[alt - 1].opcode == OpCode::Fail
    &&& {
        ||| (pc + 1 < ops.len() && (unsaved_mark_id(ops[pc + 1]) matches Some(id) && has_pop(ops, pc + 1, alt, id)))
        ||| (pc >= 1 && (unsaved_mark_id(ops[pc - 1]) matches Some(id) && has_pop(ops, pc + 1, alt, id)
            && has_step_back(ops, pc + 1, alt)))
    }
}

/// Whether some instruction in `[lo, hi)` pops to the mark `id`.
fn any_pop(reg: &RegexType, lo: usize, hi: usize, id: i32) -> (r: bool)
    requires
        lo <= hi <= reg.ops@.len(),
    ensures
        r == has_pop(reg.ops@, lo as int, hi as int, id),
{
    let mut k = lo;
    while k < hi
        invariant
            lo <= k <= hi <= reg.ops@.len(),
            forall|j: int| lo <= j < k ==> !#[trigger] pops_mark(reg.ops@[j].payload, id),
        decreases hi - k,
    {
        let hit = match &reg.ops[k].payload {
            OperationPayload::PopToMark { id: pop_id } => *pop_id == id,
            _ => false,
        };
        if hit {
            proof {
                assert(pops_mark(reg.ops@[k as int].payload, id));
            }
            return true;
        }
        k = k + 1;
    }
    false
}

/// Whether some instruction in `[lo, hi)` starts a step back.
fn any_step_back(reg: &RegexType, lo: usize, hi: usize) -> (r: bool)
    requires
        lo <= hi <= reg.ops@.len(),
    ensures
        r == has_step_back(reg.ops@, lo as int, hi as int),
{
    let mut k = lo;
    while k < hi
        invariant
            lo <= k <= hi <= reg.ops@.len(),
            forall|j: int| lo <= j < k ==> !(#[trigger] reg.ops@[j].opcode == OpCode::StepBackStart),
        decreases hi - k,
    {
        if reg.ops[k].opcode == OpCode::StepBackStart {
            return true;
        }
        k = k + 1;
    }
    false
}

/// The id of a mark at `at` that does not save the position.
fn unsaved_mark_at(reg: &RegexType, at: usize) -> (r: Option<i32>)
    requires
        at < reg.ops@.len(),
    ensures
        r == unsaved_mark_id(reg.ops@[at as int]),
{
    match &reg.ops[at].payload {
        OperationPayload::Mark { id, save_pos } => if *save_pos { None } else { Some(*id) },
        _ => None,
    }
}

/// Whether the push at `pc` opens a negative look-around whose failure
/// continues at `alt`.
fn is_negative_assertion_push(reg: &RegexType, pc: usize, alt: usize) -> (r: bool)
    requires
        pc < reg.ops@.len(),
    ensures
        r == neg_assertion_push(reg, pc as int, alt as int),
{
    let n = reg.ops.len();
    if alt <= pc + 1 || alt - 1 >= n {
        return false;
    }
    if reg.ops[alt - 1].opcode != OpCode::Fail {
        return false;
    }
    let lookahead_id = if pc + 1 < n { unsaved_mark_at(reg, pc + 1) } else { None };
    let lookbehind_id = if pc >= 1 { unsaved_mark_at(reg, pc - 1) } else { None };
    if let Some(id) = lookahead_id {
        if any_pop(reg, pc + 1, alt, id) {
            return true;
        }
    }
    match lookbehind_id {
        Some(id) => any_pop(reg, pc + 1, alt, id) && any_step_back(reg, pc + 1, alt),
        None => false,
    }
}

/// The instruction, inside a negative look-around, leaves no trace once the
/// look-around has decided: it consumes, checks, moves the position, or
/// pushes and pops stack entries. Captures without push, counters,
/// variables and callouts would outlive it.
pub open spec fn ends_with_look_around(reg: &RegexType, op: Operation) -> bool {
    ||| match op.opcode {
        OpCode::Jump | OpCode::Push | OpCode::PushOrJumpByteSet | OpCode::PushOrJumpExact1
        | OpCode::PushIfPeekNext | OpCode::Pop | OpCode::Mark | OpCode::PopToMark | OpCode::CutToMark
        | OpCode::Fail | OpCode::LookBehindOp | OpCode::StepBackStart | OpCode::StepBackNext
        | OpCode::MemStartPush | OpCode::MemEndPush | OpCode::EmptyCheckStart | OpCode::EmptyCheckEnd
        | OpCode::WordBoundary | OpCode::NoWordBoundary | OpCode::WordBegin | OpCode::WordEnd
        | OpCode::TextSegmentBoundary | OpCode::BeginBuf | OpCode::EndBuf | OpCode::BeginLine
        | OpCode::EndLine | OpCode::SemiEndBuf | OpCode::CheckPosition => true,
        _ => false,
    }
    ||| op_first(reg, op) == Some(FirstBytes::Consumes)
    ||| op_first(reg, op) == Some(FirstBytes::ConsumesOrFallsThrough)
}

/// Whether `op`, inside a negative look-around, leaves no trace once the
/// look-around has decided.
fn ends_with_the_look_around(reg: &RegexType, op: &Operation) -> (r: bool)
    ensures
        r == ends_with_look_around(reg, *op),
{
    let listed = match op.opcode {
        OpCode::Jump | OpCode::Push | OpCode::PushOrJumpByteSet | OpCode::PushOrJumpExact1
        | OpCode::PushIfPeekNext | OpCode::Pop | OpCode::Mark | OpCode::PopToMark | OpCode::CutToMark
        | OpCode::Fail | OpCode::LookBehindOp | OpCode::StepBackStart | OpCode::StepBackNext
        | OpCode::MemStartPush | OpCode::MemEndPush | OpCode::EmptyCheckStart | OpCode::EmptyCheckEnd
        | OpCode::WordBoundary | OpCode::NoWordBoundary | OpCode::WordBegin | OpCode::WordEnd
        | OpCode::TextSegmentBoundary | OpCode::BeginBuf | OpCode::EndBuf | OpCode::BeginLine
        | OpCode::EndLine | OpCode::SemiEndBuf | OpCode::CheckPosition => true,
        _ => false,
    };
    if listed {
        return true;
    }
    let mut scratch: ByteMap = [0u32; 8];
    match record_first_bytes(reg, op, &mut scratch) {
        Some(FirstBytes::Consumes) => true,
        Some(FirstBytes::ConsumesOrFallsThrough) => true,
        _ => false,
    }
}

/// Instructions a guard walk visits before giving up.
pub const MAX_STEPS: usize = 64;

/// The push-like `op` at `pc` opens a negative look-around the guard walk
/// skips: it only decides whether the path goes on at `alt`, at the same
/// position, and nothing in it outlives the look-around.
pub open spec fn skips_look_around(reg: &RegexType, pc: int, op: Operation, alt: int) -> bool {
    &&& op.opcode != OpCode::PushIfPeekNext
    &&& pc + 1 <= alt <= pc + MAX_STEPS
    &&& neg_assertion_push(reg, pc, alt)
    &&& forall|k: int| pc + 1 <= k < alt ==> #[trigger] ends_with_look_around(reg, reg.ops@[k])
}

/// Whether the guard walk skips the negative look-around that the push-like
/// `op` at `pc` opens.
fn skips_negative_look_around(reg: &RegexType, pc: usize, op: &Operation, alt: usize) -> (r: bool)
    requires
        pc < reg.ops@.len(),
    ensures
        r == skips_look_around(reg, pc as int, *op, alt as int),
{
    if op.opcode == OpCode::PushIfPeekNext {
        return false;
    }
    if alt <= pc || alt - pc > MAX_STEPS {
        return false;
    }
    if !is_negative_assertion_push(reg, pc, alt) {
        return false;
    }
    let mut k = pc + 1;
    while k < alt
        invariant
            pc + 1 <= k <= alt,
            alt <= reg.ops@.len(),
            forall|j: int| pc + 1 <= j < k ==> #[trigger] ends_with_look_around(reg, reg.ops@[j]),
        decreases alt - k,
    {
        if !ends_with_the_look_around(reg, &reg.ops[k]) {
            return false;
        }
        k = k + 1;
    }
    true
}


/// Nested look-aheads whose bodies are derived before giving up.
pub const MAX_LOOKAHEAD_DEPTH: u32 = 4;

/// Where the path goes on after the mark `id` at `pc` that saves the
/// position: past the first cut of that mark from `from` on when the cut
/// restores the position (a look-ahead), else right after the mark.
pub open spec fn mark_cont_from(ops: Seq<Operation>, pc: int, id: i32, from: int) -> Option<int>
    decreases ops.len() - from,
{
    if from >= ops.len() {
        None
    } else {
        match ops[from].payload {
            OperationPayload::CutToMark { id: cut_id, restore_pos } => if cut_id == id {
                Some(if restore_pos { from + 1 } else { pc + 1 })
            } else {
                mark_cont_from(ops, pc, id, from + 1)
            },
            _ => mark_cont_from(ops, pc, id, from + 1),
        }
    }
}

/// The jump distance of a push-like payload.
pub open spec fn push_addr(payload: OperationPayload) -> Option<i32> {
    match payload {
        OperationPayload::Push { addr } => Some(addr),
        OperationPayload::PushOrJumpByteSet { addr, .. } => Some(addr),
        OperationPayload::PushOrJumpExact1 { addr, .. } => Some(addr),
        _ => None,
    }
}

/// Instructions the start walk passes: checks, captures, empty checks, pops,
/// saved values and callouts consume nothing and fall through.
pub open spec fn passes_through(opcode: OpCode) -> bool {
    match opcode {
        OpCode::MemStart | OpCode::MemStartPush | OpCode::MemEnd | OpCode::MemEndPush
        | OpCode::MemEndRec | OpCode::MemEndPushRec | OpCode::WordBoundary | OpCode::NoWordBoundary
        | OpCode::WordBegin | OpCode::WordEnd | OpCode::TextSegmentBoundary | OpCode::BeginBuf
        | OpCode::EndBuf | OpCode::BeginLine | OpCode::EndLine | OpCode::SemiEndBuf
        | OpCode::CheckPosition | OpCode::BackRefCheck | OpCode::BackRefCheckWithLevel
        | OpCode::EmptyCheckStart | OpCode::EmptyCheckEnd | OpCode::EmptyCheckEndMemst
        | OpCode::EmptyCheckEndMemstPush | OpCode::Pop | OpCode::PopToMark | OpCode::SaveVal
        | OpCode::UpdateVar | OpCode::CalloutContents | OpCode::CalloutName => true,
        _ => false,
    }
}

/// The repeat range `id` names, when it exists.
pub open spec fn repeat_lower(reg: &RegexType, id: i32) -> Option<i32> {
    if 0 <= id < reg.repeat_range@.len() {
        Some(reg.repeat_range@[id as int].lower)
    } else {
        None
    }
}

/// The start walk gives up at the instruction at `pc`: its operands do not
/// fit, a jump leaves the pattern, a repeat names no range, a look-ahead has
/// no cut, the body of the look-ahead being derived matched empty, or the
/// instruction ends the pattern or is one the walk does not cover.
#[verifier::opaque]
pub open spec fn node_bad(reg: &RegexType, pc: int, la: Option<i32>) -> bool {
    let ops = reg.ops@;
    let op = ops[pc];
    let n = ops.len() as int;
    match op_first(reg, op) {
        None => true,
        Some(FirstBytes::Passes) => match op.opcode {
            OpCode::Jump => match op.payload {
                OperationPayload::Jump { addr } => target_spec(pc, addr, n) is None,
                _ => true,
            },
            OpCode::Push | OpCode::PushSuper | OpCode::PushOrJumpByteSet | OpCode::PushOrJumpExact1 => match push_addr(op.payload) {
                Some(addr) => target_spec(pc, addr, n) is None,
                None => true,
            },
            OpCode::PushIfPeekNext => match op.payload {
                OperationPayload::PushIfPeekNext { addr, .. } => target_spec(pc, addr, n) is None,
                _ => true,
            },
            OpCode::Repeat | OpCode::RepeatNg => match op.payload {
                OperationPayload::Repeat { id, addr } => match repeat_lower(reg, id) {
                    Some(lower) => lower == 0 && target_spec(pc, addr, n) is None,
                    None => true,
                },
                _ => true,
            },
            OpCode::Mark => match op.payload {
                OperationPayload::Mark { id, save_pos } => save_pos && mark_cont_from(ops, pc, id, pc + 1) is None,
                _ => true,
            },
            OpCode::CutToMark => match op.payload {
                OperationPayload::CutToMark { id, .. } => la == Some(id),
                _ => true,
            },
            OpCode::LookBehindOp | OpCode::StepBackStart | OpCode::StepBackNext | OpCode::Fail => false,
            _ => !passes_through(op.opcode),
        },
        _ => false,
    }
}

/// The maps of look-ahead bodies one level deeper, by body entry and
/// look-ahead id.
pub type SubMaps = spec_fn(int, Option<i32>) -> Option<Set<int>>;

/// No look-ahead body is derived.
pub open spec fn no_sub() -> SubMaps {
    |e: int, l: Option<i32>| None::<Set<int>>
}

/// The first-byte map of the body of the look-ahead whose mark is at `pc`,
/// when the walk derives it (from `deeper`): the mark saves the position, its
/// cut restores it, it is not a look-behind, and the nesting allows it.
#[verifier::opaque]
pub open spec fn mark_body_with(reg: &RegexType, pc: int, depth: u32, deeper: SubMaps) -> Option<Set<int>> {
    let ops = reg.ops@;
    match ops[pc].payload {
        OperationPayload::Mark { id, save_pos } => if save_pos && depth < MAX_LOOKAHEAD_DEPTH {
            match mark_cont_from(ops, pc, id, pc + 1) {
                Some(cont) => if cont != pc + 1 && !(pc + 1 < ops.len() && ops[pc + 1].opcode
                    == OpCode::StepBackStart) {
                    deeper(pc + 1, Some(id))
                } else {
                    None
                },
                None => None,
            }
        } else {
            None
        },
        _ => None,
    }
}

/// The walk goes on from the instruction at `pc` to `s` (`body` is the
/// derived map of the look-ahead body when `pc` opens one).
#[verifier::opaque]
pub open spec fn node_succ(reg: &RegexType, pc: int, la: Option<i32>, body: Option<Set<int>>, s: int) -> bool {
    let ops = reg.ops@;
    let op = ops[pc];
    let n = ops.len() as int;
    match op_first(reg, op) {
        Some(FirstBytes::ConsumesOrFallsThrough) => s == pc + 1,
        Some(FirstBytes::Passes) => match op.opcode {
            OpCode::Jump => match op.payload {
                OperationPayload::Jump { addr } => target_spec(pc, addr, n) == Some(s),
                _ => false,
            },
            OpCode::Push | OpCode::PushSuper | OpCode::PushOrJumpByteSet | OpCode::PushOrJumpExact1 => match push_addr(op.payload) {
                Some(addr) => match target_spec(pc, addr, n) {
                    Some(alt) => s == alt || (s == pc + 1 && !neg_assertion_push(reg, pc, alt)),
                    None => false,
                },
                None => false,
            },
            OpCode::PushIfPeekNext => match op.payload {
                OperationPayload::PushIfPeekNext { addr, .. } => s == pc + 1 || target_spec(pc, addr, n) == Some(s),
                _ => false,
            },
            OpCode::Repeat | OpCode::RepeatNg => match op.payload {
                OperationPayload::Repeat { id, addr } => s == pc + 1 || (repeat_lower(reg, id) == Some(0i32)
                    && target_spec(pc, addr, n) == Some(s)),
                _ => false,
            },
            OpCode::Mark => match op.payload {
                OperationPayload::Mark { id, save_pos } => if save_pos {
                    body is None && mark_cont_from(ops, pc, id, pc + 1) == Some(s)
                } else {
                    s == pc + 1
                },
                _ => false,
            },
            OpCode::LookBehindOp => s == pc + 2,
            OpCode::CutToMark => s == pc + 1,
            _ => passes_through(op.opcode) && s == pc + 1,
        },
        _ => false,
    }
}

/// The instruction at `pc` bounds the path with what it consumes: it
/// consumes, or it opens a look-ahead whose body's bytes were derived.
#[verifier::opaque]
pub open spec fn node_consumes(reg: &RegexType, pc: int, body: Option<Set<int>>) -> bool {
    let op = reg.ops@[pc];
    match op_first(reg, op) {
        Some(FirstBytes::Consumes) => true,
        Some(FirstBytes::ConsumesOrFallsThrough) => true,
        Some(FirstBytes::Passes) => op.opcode == OpCode::Mark && body is Some,
        None => false,
    }
}

/// The instruction at `pc` contributes byte `p`.
#[verifier::opaque]
pub open spec fn node_adds(reg: &RegexType, pc: int, body: Option<Set<int>>, p: int) -> bool {
    let op = reg.ops@[pc];
    match op_first(reg, op) {
        Some(FirstBytes::Consumes) => op_adds(reg, op, p),
        Some(FirstBytes::ConsumesOrFallsThrough) => op_adds(reg, op, p),
        Some(FirstBytes::Passes) => op.opcode == OpCode::Mark && match body {
            Some(b) => b.contains(p),
            None => false,
        },
        None => false,
    }
}

/// A path along `rel`: each element is related to the next.
pub open spec fn path_in(rel: spec_fn(int, int) -> bool, path: Seq<int>) -> bool {
    &&& path.len() >= 1
    &&& forall|i: int| 0 <= i < path.len() - 1 ==> rel(#[trigger] path[i], path[i + 1])
}

/// Following `rel` from `entry` leads to `q`.
pub open spec fn reaches(rel: spec_fn(int, int) -> bool, entry: int, q: int) -> bool {
    exists|path: Seq<int>| #[trigger] path_in(rel, path) && path[0] == entry && path.last() == q
}

/// One step of the start walk: from an instruction of the pattern where the
/// walk does not give up, to one of its successors.
pub open spec fn walk_rel(reg: &RegexType, la: Option<i32>, depth: u32, deeper: SubMaps) -> spec_fn(int, int) -> bool {
    |q: int, s: int| 0 <= q < reg.ops@.len() && !node_bad(reg, q, la) && node_succ(
        reg,
        q,
        la,
        mark_body_with(reg, q, depth, deeper),
        s,
    )
}

/// The bytes a match can start with when the matcher starts at `entry`,
/// with look-ahead bodies one level deeper derived by `deeper`: `None` when the
/// walk gives up at an instruction it reaches, or reaches no instruction
/// that consumes; else every byte a reached instruction contributes.
pub open spec fn map_with(reg: &RegexType, entry: int, la: Option<i32>, depth: u32, deeper: SubMaps) -> Option<Set<int>> {
    let n = reg.ops@.len() as int;
    let rel = walk_rel(reg, la, depth, deeper);
    if exists|q: int| 0 <= q < n && #[trigger] reaches(rel, entry, q) && node_bad(reg, q, la) {
        None
    } else if !exists|q: int| 0 <= q < n && #[trigger] reaches(rel, entry, q) && node_consumes(
        reg,
        q,
        mark_body_with(reg, q, depth, deeper),
    ) {
        None
    } else {
        Some(Set::new(|p: int| 0 <= p < 256 && exists|q: int| 0 <= q < n && #[trigger] reaches(rel, entry, q)
            && node_adds(reg, q, mark_body_with(reg, q, depth, deeper), p)))
    }
}

/// The map at the deepest look-ahead level: bodies are not derived.
pub open spec fn map_at4(reg: &RegexType, entry: int, la: Option<i32>) -> Option<Set<int>> {
    map_with(reg, entry, la, 4, no_sub())
}

/// The maps one level below the third.
pub open spec fn sub4(reg: &RegexType) -> SubMaps {
    |e: int, l: Option<i32>| map_at4(reg, e, l)
}

/// The map at look-ahead level three.
pub open spec fn map_at3(reg: &RegexType, entry: int, la: Option<i32>) -> Option<Set<int>> {
    map_with(reg, entry, la, 3, sub4(reg))
}

/// The maps one level below the second.
pub open spec fn sub3(reg: &RegexType) -> SubMaps {
    |e: int, l: Option<i32>| map_at3(reg, e, l)
}

/// The map at look-ahead level two.
pub open spec fn map_at2(reg: &RegexType, entry: int, la: Option<i32>) -> Option<Set<int>> {
    map_with(reg, entry, la, 2, sub3(reg))
}

/// The maps one level below the first.
pub open spec fn sub2(reg: &RegexType) -> SubMaps {
    |e: int, l: Option<i32>| map_at2(reg, e, l)
}

/// The map at look-ahead level one.
pub open spec fn map_at1(reg: &RegexType, entry: int, la: Option<i32>) -> Option<Set<int>> {
    map_with(reg, entry, la, 1, sub2(reg))
}

/// The maps one level below the top.
pub open spec fn sub1(reg: &RegexType) -> SubMaps {
    |e: int, l: Option<i32>| map_at1(reg, e, l)
}

/// The bytes a match can start with when the matcher starts at `entry`, at
/// look-ahead nesting `depth` (bodies nest at most four deep). With `la`,
/// `entry` is the body of that look-ahead.
pub open spec fn first_map(reg: &RegexType, entry: int, la: Option<i32>, depth: u32) -> Option<Set<int>> {
    if depth >= 4 {
        map_with(reg, entry, la, depth, no_sub())
    } else if depth == 3 {
        map_at3(reg, entry, la)
    } else if depth == 2 {
        map_at2(reg, entry, la)
    } else if depth == 1 {
        map_at1(reg, entry, la)
    } else {
        map_with(reg, entry, la, 0, sub1(reg))
    }
}

/// The maps of look-ahead bodies one level below `depth`.
pub open spec fn sub_of(reg: &RegexType, depth: u32) -> SubMaps {
    if depth >= 4 {
        no_sub()
    } else {
        |e: int, l: Option<i32>| first_map(reg, e, l, (depth + 1) as u32)
    }
}

/// The map at `depth` derives its bodies with the map one level deeper.
proof fn lemma_first_map_unfold(reg: &RegexType, entry: int, la: Option<i32>, depth: u32)
    ensures
        first_map(reg, entry, la, depth) == map_with(reg, entry, la, depth, sub_of(reg, depth)),
{
    if depth == 3 {
        assert(sub4(reg) =~= sub_of(reg, depth));
    } else if depth == 2 {
        assert(sub3(reg) =~= sub_of(reg, depth));
    } else if depth == 1 {
        assert(sub2(reg) =~= sub_of(reg, depth));
    } else if depth == 0 {
        assert(sub1(reg) =~= sub_of(reg, depth));
    }
}

/// The derived map of the look-ahead body at `pc`, at `depth`.
pub open spec fn body_at(reg: &RegexType, pc: int, depth: u32) -> Option<Set<int>> {
    mark_body_with(reg, pc, depth, sub_of(reg, depth))
}

/// Where the path goes on after the mark `id` at `pc` that saves the position.
fn mark_continuation(reg: &RegexType, pc: usize, id: i32) -> (r: Option<usize>)
    requires
        pc < reg.ops@.len(),
        reg.ops@.len() <= isize::MAX,
    ensures
        r is Some <==> mark_cont_from(reg.ops@, pc as int, id, pc + 1) is Some,
        r matches Some(c) ==> c as int == mark_cont_from(reg.ops@, pc as int, id, pc + 1)->0,
{
    let n = reg.ops.len();
    let mut at = pc + 1;
    while at < n
        invariant
            pc + 1 <= at <= n,
            n == reg.ops@.len(),
            n <= isize::MAX,
            mark_cont_from(reg.ops@, pc as int, id, pc + 1) == mark_cont_from(reg.ops@, pc as int, id, at as int),
        decreases n - at,
    {
        match &reg.ops[at].payload {
            OperationPayload::CutToMark { id: cut_id, restore_pos } => {
                if *cut_id == id {
                    return Some(if *restore_pos { at + 1 } else { pc + 1 });
                }
            },
            _ => {},
        }
        at = at + 1;
    }
    None
}

/// Visits the instruction at `pc` on the start walk: `None` when the walk
/// gives up there; else up to two instructions the walk goes on to, and
/// whether it consumes. `map` gains the bytes it contributes.
fn visit(reg: &RegexType, pc: usize, la: Option<i32>, depth: u32, map: &mut ByteMap) -> (r: Option<(Option<usize>, Option<usize>, bool)>)
    requires
        pc < reg.ops@.len(),
        reg.ops@.len() <= isize::MAX,
    ensures
        r is None <==> node_bad(reg, pc as int, la),
        r matches Some((a, b, c)) ==> {
            &&& c == node_consumes(reg, pc as int, body_at(reg, pc as int, depth))
            &&& forall|s: int| #[trigger] node_succ(reg, pc as int, la, body_at(reg, pc as int, depth), s) <==> ((a matches Some(x) && x == s) || (
                b matches Some(y) && y == s))
            &&& extends(*old(map), *final(map), |p: int| node_adds(reg, pc as int, body_at(reg, pc as int, depth), p))
        },
    decreases 4 - depth, 0int,
{
    proof {
        reveal(node_bad);
        reveal(node_succ);
        reveal(node_consumes);
        reveal(node_adds);
        reveal(mark_body_with);
    }
    let n = reg.ops.len();
    let op = &reg.ops[pc];
    let ghost before = *map;
    match record_first_bytes(reg, op, map) {
        None => {
            return None;
        },
        Some(FirstBytes::Consumes) => {
            return Some((None, None, true));
        },
        Some(FirstBytes::ConsumesOrFallsThrough) => {
            return Some((Some(pc + 1), None, true));
        },
        Some(FirstBytes::Passes) => {},
    }
    proof {
        reveal(node_bad);
        reveal(node_succ);
        reveal(node_consumes);
        assert forall|p: int| 0 <= p < 256 implies in_map(*map, p) == in_map(before, p) by {
            assert(!op_adds(reg, *op, p));
        }
    }
    match op.opcode {
        OpCode::Jump => {
            let addr = match &op.payload {
                OperationPayload::Jump { addr } => *addr,
                _ => return None,
            };
            match target(pc, addr, n) {
                Some(t) => Some((Some(t), None, false)),
                None => None,
            }
        },
        OpCode::Push | OpCode::PushSuper | OpCode::PushOrJumpByteSet | OpCode::PushOrJumpExact1 => {
            let addr = match &op.payload {
                OperationPayload::Push { addr } => *addr,
                OperationPayload::PushOrJumpByteSet { addr, .. } => *addr,
                OperationPayload::PushOrJumpExact1 { addr, .. } => *addr,
                _ => return None,
            };
            let alt = match target(pc, addr, n) {
                Some(t) => t,
                None => return None,
            };
            if !is_negative_assertion_push(reg, pc, alt) {
                Some((Some(alt), Some(pc + 1), false))
            } else {
                Some((Some(alt), None, false))
            }
        },
        OpCode::PushIfPeekNext => {
            let addr = match &op.payload {
                OperationPayload::PushIfPeekNext { addr, .. } => *addr,
                _ => return None,
            };
            match target(pc, addr, n) {
                Some(t) => Some((Some(pc + 1), Some(t), false)),
                None => None,
            }
        },
        OpCode::Repeat | OpCode::RepeatNg => {
            let (id, addr) = match &op.payload {
                OperationPayload::Repeat { id, addr } => (*id, *addr),
                _ => return None,
            };
            if id < 0 || id as usize >= reg.repeat_range.len() {
                return None;
            }
            let lower = reg.repeat_range[id as usize].lower;
            if lower == 0 {
                match target(pc, addr, n) {
                    Some(t) => Some((Some(pc + 1), Some(t), false)),
                    None => None,
                }
            } else {
                Some((Some(pc + 1), None, false))
            }
        },
        OpCode::Mark => {
            let (id, save_pos) = match &op.payload {
                OperationPayload::Mark { id, save_pos } => (*id, *save_pos),
                _ => return None,
            };
            if save_pos {
                let continuation = match mark_continuation(reg, pc, id) {
                    Some(c) => c,
                    None => return None,
                };
                let lookbehind = pc + 1 < n && reg.ops[pc + 1].opcode == OpCode::StepBackStart;
                let body = if continuation != pc + 1 && !lookbehind && depth < MAX_LOOKAHEAD_DEPTH {
                    first_byte_map_from(reg, pc + 1, Some(id), depth + 1)
                } else {
                    None
                };
                proof {
                    assert(body is Some <==> body_at(reg, pc as int, depth) is Some);
                }
                match body {
                    Some(b) => {
                        add_bitset(map, &b, false);
                        proof {
                            let mb = body_at(reg, pc as int, depth)->0;
                            assert(mb == first_map(reg, pc + 1, Some(id), (depth + 1) as u32)->0);
                            assert forall|p: int| 0 <= p < 256 implies #[trigger] in_map(*map, p) == (in_map(before, p)
                                || node_adds(reg, pc as int, body_at(reg, pc as int, depth), p)) by {
                                assert(in_map(b, p) == mb.contains(p));
                            }
                        }
                        Some((None, None, true))
                    },
                    None => Some((Some(continuation), None, false)),
                }
            } else {
                Some((Some(pc + 1), None, false))
            }
        },
        OpCode::LookBehindOp => Some((Some(pc + 2), None, false)),
        OpCode::StepBackStart | OpCode::StepBackNext | OpCode::Fail => Some((None, None, false)),
        OpCode::CutToMark => {
            let id = match &op.payload {
                OperationPayload::CutToMark { id, .. } => *id,
                _ => return None,
            };
            let own = match la {
                Some(l) => l == id,
                None => false,
            };
            if own {
                return None;
            }
            Some((Some(pc + 1), None, false))
        },
        OpCode::MemStart | OpCode::MemStartPush | OpCode::MemEnd | OpCode::MemEndPush
        | OpCode::MemEndRec | OpCode::MemEndPushRec | OpCode::WordBoundary | OpCode::NoWordBoundary
        | OpCode::WordBegin | OpCode::WordEnd | OpCode::TextSegmentBoundary | OpCode::BeginBuf
        | OpCode::EndBuf | OpCode::BeginLine | OpCode::EndLine | OpCode::SemiEndBuf
        | OpCode::CheckPosition | OpCode::BackRefCheck | OpCode::BackRefCheckWithLevel
        | OpCode::EmptyCheckStart | OpCode::EmptyCheckEnd | OpCode::EmptyCheckEndMemst
        | OpCode::EmptyCheckEndMemstPush | OpCode::Pop | OpCode::PopToMark | OpCode::SaveVal
        | OpCode::UpdateVar | OpCode::CalloutContents | OpCode::CalloutName => Some((Some(pc + 1), None, false)),
        _ => None,
    }
}

/// Every element reaches itself.
proof fn lemma_reaches_self(rel: spec_fn(int, int) -> bool, entry: int)
    ensures
        reaches(rel, entry, entry),
{
    let path = seq![entry];
    assert(path_in(rel, path));
    assert(path[0] == entry && path.last() == entry);
}

/// A step from a reached element reaches its successor.
proof fn lemma_reaches_step(rel: spec_fn(int, int) -> bool, entry: int, q: int, s: int)
    requires
        reaches(rel, entry, q),
        rel(q, s),
    ensures
        reaches(rel, entry, s),
{
    let path = choose|path: Seq<int>| #[trigger] path_in(rel, path) && path[0] == entry && path.last() == q;
    let path2 = path.push(s);
    assert forall|i: int| 0 <= i < path2.len() - 1 implies rel(#[trigger] path2[i], path2[i + 1]) by {
        if i < path.len() - 1 {
            assert(path2[i] == path[i] && path2[i + 1] == path[i + 1]);
            assert(rel(path[i], path[i + 1]));
        } else {
            assert(path2[i] == q && path2[i + 1] == s);
        }
    }
    assert(path_in(rel, path2));
    assert(path2[0] == entry && path2.last() == s);
}

/// A set that holds `entry` (when it is in `[0, n)`) and, for each member,
/// every successor in `[0, n)` holds every reached element of `[0, n)`,
/// when a step only leaves elements of `[0, n)`.
proof fn lemma_reaches_closed(rel: spec_fn(int, int) -> bool, n: int, entry: int, vis: Set<int>, q: int)
    requires
        0 <= entry < n ==> vis.contains(entry),
        forall|x: int, s: int| #[trigger] rel(x, s) ==> 0 <= x < n,
        forall|x: int, s: int| vis.contains(x) && 0 <= s < n && #[trigger] rel(x, s) ==> vis.contains(s),
        reaches(rel, entry, q),
        0 <= q < n,
    ensures
        vis.contains(q),
{
    let path = choose|path: Seq<int>| #[trigger] path_in(rel, path) && path[0] == entry && path.last() == q;
    lemma_path_in_closed(rel, n, entry, vis, path, path.len() - 1);
}

proof fn lemma_path_in_closed(rel: spec_fn(int, int) -> bool, n: int, entry: int, vis: Set<int>, path: Seq<int>, i: int)
    requires
        0 <= entry < n ==> vis.contains(entry),
        forall|x: int, s: int| #[trigger] rel(x, s) ==> 0 <= x < n,
        forall|x: int, s: int| vis.contains(x) && 0 <= s < n && #[trigger] rel(x, s) ==> vis.contains(s),
        path_in(rel, path),
        path[0] == entry,
        0 <= i < path.len(),
    ensures
        0 <= path[i] < n ==> vis.contains(path[i]),
    decreases i,
{
    if i > 0 {
        lemma_path_in_closed(rel, n, entry, vis, path, i - 1);
        assert(rel(path[i - 1], path[i]));
    }
}

/// `s` with `x` pushed when there is one.
pub open spec fn push_opt(s: Seq<usize>, x: Option<usize>) -> Seq<usize> {
    match x {
        Some(v) => s.push(v),
        None => s,
    }
}

/// The state of the start walk: the visited instructions are reached and
/// accepted, the pending ones reached, every successor of a visited one is
/// visited or pending, the entry too, and the map and the consumer flag
/// gather what the visited ones contribute.
#[verifier::opaque]
pub open spec fn walk_inv(
    reg: &RegexType,
    entry: int,
    la: Option<i32>,
    depth: u32,
    vis: Set<int>,
    pending: Seq<usize>,
    map: ByteMap,
    saw: bool,
) -> bool {
    let n = reg.ops@.len() as int;
    let rel = walk_rel(reg, la, depth, sub_of(reg, depth));
    &&& vis.finite()
    &&& forall|q: int| #[trigger] vis.contains(q) ==> 0 <= q < n && reaches(rel, entry, q) && !node_bad(reg, q, la)
    &&& forall|i: int| 0 <= i < pending.len() ==> reaches(rel, entry, #[trigger] pending[i] as int)
    &&& forall|x: int, s: int|
        vis.contains(x) && 0 <= s < n && #[trigger] node_succ(reg, x, la, body_at(reg, x, depth), s)
            ==> vis.contains(s) || pending.contains(s as usize)
    &&& 0 <= entry < n ==> vis.contains(entry) || pending.contains(entry as usize)
    &&& forall|p: int|
        0 <= p < 256 ==> (#[trigger] in_map(map, p) <==> exists|q: int| vis.contains(q) && node_adds(
            reg,
            q,
            body_at(reg, q, depth),
            p,
        ))
    &&& saw <==> exists|q: int| vis.contains(q) && node_consumes(reg, q, body_at(reg, q, depth))
}

proof fn lemma_walk_init(reg: &RegexType, entry: int, la: Option<i32>, depth: u32, map: ByteMap)
    requires
        forall|p: int| 0 <= p < 256 ==> !#[trigger] in_map(map, p),
        0 <= entry <= usize::MAX,
    ensures
        walk_inv(reg, entry, la, depth, Set::empty(), seq![entry as usize], map, false),
{
    reveal(walk_inv);
    lemma_reaches_self(walk_rel(reg, la, depth, sub_of(reg, depth)), entry);
    let pending = seq![entry as usize];
    assert(pending[0] == entry as usize);
    assert(pending.contains(entry as usize));
}

proof fn lemma_walk_skip(
    reg: &RegexType,
    entry: int,
    la: Option<i32>,
    depth: u32,
    vis: Set<int>,
    pending: Seq<usize>,
    map: ByteMap,
    saw: bool,
)
    requires
        walk_inv(reg, entry, la, depth, vis, pending, map, saw),
        reg.ops@.len() <= usize::MAX,
        pending.len() > 0,
        pending.last() >= reg.ops@.len() || vis.contains(pending.last() as int),
    ensures
        walk_inv(reg, entry, la, depth, vis, pending.drop_last(), map, saw),
{
    reveal(walk_inv);
    let n = reg.ops@.len() as int;
    let pc = pending.last();
    let rest = pending.drop_last();
    assert forall|s: usize| pending.contains(s) implies rest.contains(s) || s == pc by {
        let i = choose|i: int| 0 <= i < pending.len() && pending[i] == s;
        if i < pending.len() - 1 {
            assert(rest[i] == s);
        }
    }
    assert forall|i: int| 0 <= i < rest.len() implies reaches(walk_rel(reg, la, depth, sub_of(reg, depth)), entry, #[trigger] rest[i] as int) by {
        assert(rest[i] == pending[i]);
    }
    assert forall|x: int, s: int|
        vis.contains(x) && 0 <= s < n && #[trigger] node_succ(reg, x, la, body_at(reg, x, depth), s) implies vis.contains(s)
        || rest.contains(s as usize) by {
        let su = s as usize;
        assert(su as int == s);
        if !vis.contains(s) {
            assert(pending.contains(su));
            if su == pc {
                assert(vis.contains(pc as int));
            }
        }
    }
    if 0 <= entry < n && !vis.contains(entry) {
        let eu = entry as usize;
        assert(eu as int == entry);
        assert(pending.contains(eu));
        if eu == pc {
            assert(vis.contains(pc as int));
        }
    }
}

#[verifier::rlimit(60)]
proof fn lemma_walk_visit(
    reg: &RegexType,
    entry: int,
    la: Option<i32>,
    depth: u32,
    vis: Set<int>,
    pending: Seq<usize>,
    map0: ByteMap,
    saw0: bool,
    a: Option<usize>,
    b: Option<usize>,
    c: bool,
    map: ByteMap,
)
    requires
        walk_inv(reg, entry, la, depth, vis, pending, map0, saw0),
        reg.ops@.len() <= usize::MAX,
        pending.len() > 0,
        pending.last() < reg.ops@.len(),
        !vis.contains(pending.last() as int),
        !node_bad(reg, pending.last() as int, la),
        c == node_consumes(reg, pending.last() as int, body_at(reg, pending.last() as int, depth)),
        forall|s: int| #[trigger] node_succ(reg, pending.last() as int, la, body_at(reg, pending.last() as int, depth), s)
            <==> ((a matches Some(x) && x == s) || (b matches Some(y) && y == s)),
        extends(map0, map, |p: int| node_adds(reg, pending.last() as int, body_at(reg, pending.last() as int, depth), p)),
    ensures
        walk_inv(
            reg,
            entry,
            la,
            depth,
            vis.insert(pending.last() as int),
            push_opt(push_opt(pending.drop_last(), a), b),
            map,
            saw0 || c,
        ),
{
    reveal(walk_inv);
    let n = reg.ops@.len() as int;
    let rel = walk_rel(reg, la, depth, sub_of(reg, depth));
    let pc = pending.last() as int;
    let rest = pending.drop_last();
    let new_pending = push_opt(push_opt(rest, a), b);
    let vis2 = vis.insert(pc);
    assert(reaches(rel, entry, pc)) by {
        assert(pending[pending.len() - 1] == pending.last());
    }
    assert forall|s: usize| pending.contains(s) implies rest.contains(s) || s as int == pc by {
        let i = choose|i: int| 0 <= i < pending.len() && pending[i] == s;
        if i < pending.len() - 1 {
            assert(rest[i] == s);
        }
    }
    assert forall|s: usize| rest.contains(s) implies new_pending.contains(s) by {
        let i = choose|i: int| 0 <= i < rest.len() && rest[i] == s;
        assert(new_pending[i] == s);
    }
    assert forall|s: int| #[trigger] node_succ(reg, pc, la, body_at(reg, pc, depth), s) implies rel(pc, s) && new_pending.contains(s as usize) by {
        if a is Some && a->0 == s {
            assert(push_opt(rest, a)[rest.len() as int] == a->0);
            assert(push_opt(rest, a).contains(a->0));
            let i = choose|i: int| 0 <= i < push_opt(rest, a).len() && push_opt(rest, a)[i] == a->0;
            assert(new_pending[i] == a->0);
        } else {
            assert(b is Some && b->0 == s);
            assert(new_pending[new_pending.len() - 1] == b->0);
        }
    }
    assert forall|q: int| #[trigger] vis2.contains(q) implies 0 <= q < n && reaches(rel, entry, q) && !node_bad(reg, q, la) by {
        if q != pc {
            assert(vis.contains(q));
        }
    }
    assert forall|i: int| 0 <= i < new_pending.len() implies reaches(rel, entry, #[trigger] new_pending[i] as int) by {
        if i < rest.len() {
            assert(new_pending[i] == rest[i] && rest[i] == pending[i]);
        } else {
            let s = new_pending[i] as int;
            if a is Some && i == rest.len() {
                assert(new_pending[i] == a->0);
            } else {
                assert(b is Some && new_pending[i] == b->0);
            }
            assert(node_succ(reg, pc, la, body_at(reg, pc, depth), s));
            assert(rel(pc, s));
            lemma_reaches_step(rel, entry, pc, s);
        }
    }
    assert forall|x: int, s: int|
        vis2.contains(x) && 0 <= s < n && #[trigger] node_succ(reg, x, la, body_at(reg, x, depth), s) implies vis2.contains(s)
        || new_pending.contains(s as usize) by {
        let su = s as usize;
        assert(su as int == s);
        if x == pc {
        } else {
            assert(vis.contains(x));
            if !vis.contains(s) {
                assert(pending.contains(su));
                if s != pc {
                    assert(rest.contains(su));
                }
            }
        }
    }
    if 0 <= entry < n && !vis2.contains(entry) {
        let eu = entry as usize;
        assert(eu as int == entry);
        assert(pending.contains(eu));
        assert(rest.contains(eu));
    }
    assert forall|p: int| 0 <= p < 256 implies (#[trigger] in_map(map, p) <==> exists|q: int| vis2.contains(q) && node_adds(
        reg,
        q,
        body_at(reg, q, depth),
        p,
    )) by {
        assert(in_map(map, p) == (in_map(map0, p) || node_adds(reg, pc, body_at(reg, pc, depth), p)));
        if exists|q: int| vis2.contains(q) && node_adds(reg, q, body_at(reg, q, depth), p) {
            let q = choose|q: int| vis2.contains(q) && node_adds(reg, q, body_at(reg, q, depth), p);
            if q != pc {
                assert(vis.contains(q));
            }
        }
        if in_map(map0, p) {
            let q = choose|q: int| vis.contains(q) && node_adds(reg, q, body_at(reg, q, depth), p);
            assert(vis2.contains(q));
        }
    }
    if saw0 || c {
        if c {
            assert(vis2.contains(pc));
        } else {
            let q = choose|q: int| vis.contains(q) && node_consumes(reg, q, body_at(reg, q, depth));
            assert(vis2.contains(q));
        }
    }
    if exists|q: int| vis2.contains(q) && node_consumes(reg, q, body_at(reg, q, depth)) {
        let q = choose|q: int| vis2.contains(q) && node_consumes(reg, q, body_at(reg, q, depth));
        if q != pc {
            assert(vis.contains(q));
        }
    }
}

proof fn lemma_walk_bad(
    reg: &RegexType,
    entry: int,
    la: Option<i32>,
    depth: u32,
    vis: Set<int>,
    pending: Seq<usize>,
    map: ByteMap,
    saw: bool,
)
    requires
        walk_inv(reg, entry, la, depth, vis, pending, map, saw),
        pending.len() > 0,
        pending.last() < reg.ops@.len(),
        node_bad(reg, pending.last() as int, la),
    ensures
        first_map(reg, entry, la, depth) is None,
{
    reveal(walk_inv);
    lemma_first_map_unfold(reg, entry, la, depth);
    let rel = walk_rel(reg, la, depth, sub_of(reg, depth));
    let pc = pending.last() as int;
    assert(pending[pending.len() - 1] == pending.last());
    assert(reaches(rel, entry, pc));
}

proof fn lemma_walk_done(
    reg: &RegexType,
    entry: int,
    la: Option<i32>,
    depth: u32,
    vis: Set<int>,
    map: ByteMap,
    saw: bool,
)
    requires
        walk_inv(reg, entry, la, depth, vis, Seq::<usize>::empty(), map, saw),
    ensures
        saw <==> first_map(reg, entry, la, depth) is Some,
        saw ==> forall|p: int| 0 <= p < 256 ==> (#[trigger] in_map(map, p) <==> first_map(reg, entry, la, depth)->0.contains(p)),
{
    reveal(walk_inv);
    lemma_first_map_unfold(reg, entry, la, depth);
    let n = reg.ops@.len() as int;
    let rel = walk_rel(reg, la, depth, sub_of(reg, depth));
    assert forall|x: int, s: int| #[trigger] rel(x, s) implies 0 <= x < n by {}
    assert forall|x: int, s: int| vis.contains(x) && 0 <= s < n && #[trigger] rel(x, s) implies vis.contains(s) by {
        assert(node_succ(reg, x, la, body_at(reg, x, depth), s));
        assert(!Seq::<usize>::empty().contains(s as usize));
    }
    if 0 <= entry < n {
        assert(!Seq::<usize>::empty().contains(entry as usize));
    }
    assert forall|q: int| 0 <= q < n && #[trigger] reaches(rel, entry, q) implies vis.contains(q) by {
        lemma_reaches_closed(rel, n, entry, vis, q);
    }
    assert(!exists|q: int| 0 <= q < n && #[trigger] reaches(rel, entry, q) && node_bad(reg, q, la));
    assert(saw <==> exists|q: int| 0 <= q < n && #[trigger] reaches(rel, entry, q) && node_consumes(
        reg,
        q,
        mark_body_with(reg, q, depth, sub_of(reg, depth)),
    ));
    if saw {
        let m = first_map(reg, entry, la, depth)->0;
        assert forall|p: int| 0 <= p < 256 implies (#[trigger] in_map(map, p) <==> m.contains(p)) by {
            if in_map(map, p) {
                let q = choose|q: int| vis.contains(q) && node_adds(reg, q, body_at(reg, q, depth), p);
                assert(reaches(rel, entry, q));
            }
            if m.contains(p) {
                let q = choose|q: int| 0 <= q < n && #[trigger] reaches(rel, entry, q) && node_adds(
                    reg,
                    q,
                    mark_body_with(reg, q, depth, sub_of(reg, depth)),
                    p,
                );
                assert(vis.contains(q));
            }
        }
    }
}

/// The bytes a match can start with when the matcher starts at `entry`.
/// With `lookahead` set, `entry` is the body of that positive look-ahead and
/// reaching its closing cut means the body matched empty, so no byte is
/// fixed. `None` whenever some path can match without consuming input, or
/// the walk meets an instruction it does not cover.
fn first_byte_map_from(reg: &RegexType, entry: usize, lookahead: Option<i32>, depth: u32) -> (r: Option<ByteMap>)
    requires
        reg.ops@.len() <= isize::MAX,
    ensures
        r is Some <==> first_map(reg, entry as int, lookahead, depth) is Some,
        r matches Some(m) ==> forall|p: int| 0 <= p < 256 ==> (#[trigger] in_map(m, p) <==> first_map(
            reg,
            entry as int,
            lookahead,
            depth,
        )->0.contains(p)),
    decreases 4 - depth, 1int,
{
    let n = reg.ops.len();
    let mut map: ByteMap = [0u32; 8];
    let mut pending: Vec<usize> = Vec::new();
    pending.push(entry);
    let mut visited: Vec<bool> = Vec::new();
    let mut k: usize = 0;
    while k < n
        invariant
            k <= n,
            visited@.len() == k,
            forall|q: int| 0 <= q < k ==> !(#[trigger] visited@[q]),
        decreases n - k,
    {
        visited.push(false);
        k = k + 1;
    }
    let mut saw_consumer = false;
    let ghost mut vis: Set<int> = Set::empty();
    proof {
        assert forall|p: int| 0 <= p < 256 implies !(#[trigger] in_map(map, p)) by {
            lemma_empty_word((p % 32) as u32);
        }
        lemma_walk_init(reg, entry as int, lookahead, depth, map);
        assert(pending@ =~= seq![entry]);
    }
    while pending.len() > 0
        invariant
            n == reg.ops@.len(),
            n <= isize::MAX,
            visited@.len() == n,
            forall|q: int| 0 <= q < n ==> (#[trigger] visited@[q] <==> vis.contains(q)),
            forall|q: int| vis.contains(q) ==> 0 <= q < n,
            vis.finite(),
            walk_inv(reg, entry as int, lookahead, depth, vis, pending@, map, saw_consumer),
        decreases n - vis.len(), pending@.len(),
    {
        let ghost old_pending = pending@;
        let ghost vis0 = vis;
        let ghost map0 = map;
        let ghost saw0 = saw_consumer;
        proof {
            vstd::set_lib::lemma_int_range(0, n as int);
            vstd::set_lib::lemma_len_subset(vis, vstd::set_lib::set_int_range(0, n as int));
        }
        let pc = match pending.pop() {
            Some(p) => p,
            None => 0,
        };
        proof {
            assert(pc == old_pending.last());
            assert(pending@ == old_pending.drop_last());
        }
        if pc >= n || visited[pc] {
            proof {
                lemma_walk_skip(reg, entry as int, lookahead, depth, vis, old_pending, map, saw_consumer);
            }
            continue;
        }
        visited.set(pc, true);
        match visit(reg, pc, lookahead, depth, &mut map) {
            None => {
                proof {
                    lemma_walk_bad(reg, entry as int, lookahead, depth, vis0, old_pending, map0, saw0);
                }
                return None;
            },
            Some((a, b, c)) => {
                if c {
                    saw_consumer = true;
                }
                match a {
                    Some(x) => {
                        pending.push(x);
                    },
                    None => {},
                }
                match b {
                    Some(y) => {
                        pending.push(y);
                    },
                    None => {},
                }
                proof {
                    lemma_walk_visit(reg, entry as int, lookahead, depth, vis0, old_pending, map0, saw0, a, b, c, map);
                    assert(pending@ =~= push_opt(push_opt(old_pending.drop_last(), a), b));
                    vis = vis.insert(pc as int);
                    vstd::set_lib::lemma_len_subset(vis, vstd::set_lib::set_int_range(0, n as int));
                }
            },
        }
    }
    proof {
        assert(pending@ =~= Seq::<usize>::empty());
        lemma_walk_done(reg, entry as int, lookahead, depth, vis, map, saw_consumer);
    }
    if saw_consumer {
        Some(map)
    } else {
        None
    }
}

/// Derives a conservative map of the bytes a match can start with, from the
/// compiled bytecode: one entry per byte, 1 for a possible first byte.
/// `None` is deliberate: any control flow that cannot be shown safe keeps
/// the search on its other filters.
pub fn derive_start_byte_map(reg: &RegexType) -> (r: Option<[u8; 256]>)
    requires
        reg.ops@.len() <= isize::MAX,
    ensures
        r is Some <==> first_map(reg, 0, None, 0) is Some,
        r matches Some(m) ==> forall|b: int| 0 <= b < 256 ==> #[trigger] m@[b] == if first_map(reg, 0, None, 0)->0.contains(b) {
            1u8
        } else {
            0u8
        },
{
    let bits = match first_byte_map_from(reg, 0, None, 0) {
        Some(b) => b,
        None => return None,
    };
    let mut map = [0u8; 256];
    let mut byte: usize = 0;
    while byte < 256
        invariant
            byte <= 256,
            forall|b: int| 0 <= b < byte ==> #[trigger] map@[b] == if in_map(bits, b) { 1u8 } else { 0u8 },
            forall|b: int| byte <= b < 256 ==> #[trigger] map@[b] == 0u8,
        decreases 256 - byte,
    {
        if bitset_at(&bits, byte) {
            map[byte] = 1;
        }
        byte = byte + 1;
    }
    Some(map)
}

/// Scratch buffers for [`guard_byte_map`], reused across a pattern's pushes.
pub struct GuardWalk {
    pending: Vec<usize>,
    visited: Vec<usize>,
}

impl GuardWalk {
    /// Both buffers hold nothing.
    pub closed spec fn is_clear(&self) -> bool {
        self.pending@.len() == 0 && self.visited@.len() == 0
    }

    /// Empty buffers.
    pub fn new() -> (r: GuardWalk)
        ensures
            r.is_clear(),
    {
        GuardWalk { pending: Vec::new(), visited: Vec::new() }
    }
}

/// The jump distance of a push-like payload, the peeking push included.
pub open spec fn guard_push_addr(payload: OperationPayload) -> Option<i32> {
    match payload {
        OperationPayload::Push { addr } => Some(addr),
        OperationPayload::PushOrJumpByteSet { addr, .. } => Some(addr),
        OperationPayload::PushOrJumpExact1 { addr, .. } => Some(addr),
        OperationPayload::PushIfPeekNext { addr, .. } => Some(addr),
        _ => None,
    }
}

/// Checks, and stack entries that backtracking pops again: the guard walk
/// passes them and goes on at the next instruction.
pub open spec fn guard_passes(opcode: OpCode) -> bool {
    match opcode {
        OpCode::MemStartPush | OpCode::MemEndPush | OpCode::EmptyCheckStart | OpCode::WordBoundary
        | OpCode::NoWordBoundary | OpCode::WordBegin | OpCode::WordEnd | OpCode::TextSegmentBoundary
        | OpCode::BeginBuf | OpCode::EndBuf | OpCode::BeginLine | OpCode::EndLine | OpCode::SemiEndBuf
        | OpCode::CheckPosition => true,
        _ => false,
    }
}

/// The payload is a mark with number `id`.
pub open spec fn marks_id(payload: OperationPayload, id: i32) -> bool {
    payload matches OperationPayload::Mark { id: m, .. } && m == id
}

/// The guard walk gives up at `pc`: it is no instruction of the pattern, its
/// operands do not fit, a jump leaves the pattern, or the walk does not
/// cover the instruction.
pub open spec fn guard_bad(reg: &RegexType, pc: int) -> bool {
    let ops = reg.ops@;
    let n = ops.len() as int;
    if !(0 <= pc < n) {
        true
    } else {
        let op = ops[pc];
        match op_first(reg, op) {
            None => true,
            Some(FirstBytes::Passes) => match op.opcode {
                OpCode::Jump => match op.payload {
                    OperationPayload::Jump { addr } => target_spec(pc, addr, n) is None,
                    _ => true,
                },
                OpCode::Push | OpCode::PushOrJumpByteSet | OpCode::PushOrJumpExact1
                | OpCode::PushIfPeekNext => match guard_push_addr(op.payload) {
                    Some(addr) => target_spec(pc, addr, n) is None,
                    None => true,
                },
                OpCode::CutToMark => !(op.payload is CutToMark),
                OpCode::Mark | OpCode::LookBehindOp | OpCode::Fail => false,
                _ => !guard_passes(op.opcode),
            },
            _ => false,
        }
    }
}

/// The guard walk goes on from the instruction at `pc` to `s`: past a loop
/// that may consume nothing, to the target of a jump, to both paths of a
/// push (only the alternative of a negative look-around it skips), past a
/// mark, cut or check, and past the body instruction of a look-behind.
pub open spec fn guard_succ(reg: &RegexType, pc: int, s: int) -> bool {
    let op = reg.ops@[pc];
    match op_first(reg, op) {
        Some(FirstBytes::ConsumesOrFallsThrough) => s == pc + 1,
        Some(FirstBytes::Passes) => match op.opcode {
            OpCode::Jump => match op.payload {
                OperationPayload::Jump { addr } => s == pc + addr,
                _ => false,
            },
            OpCode::Push | OpCode::PushOrJumpByteSet | OpCode::PushOrJumpExact1
            | OpCode::PushIfPeekNext => match guard_push_addr(op.payload) {
                Some(addr) => s == pc + addr || (s == pc + 1 && !skips_look_around(reg, pc, op, pc + addr)),
                None => false,
            },
            OpCode::LookBehindOp => s == pc + 2,
            OpCode::Mark | OpCode::CutToMark => s == pc + 1,
            _ => guard_passes(op.opcode) && s == pc + 1,
        },
        _ => false,
    }
}

/// The instruction at `pc` consumes the current byte, or may.
pub open spec fn guard_consumes(reg: &RegexType, pc: int) -> bool {
    op_first(reg, reg.ops@[pc]) matches Some(f) && f != FirstBytes::Passes
}

/// One step of the guard walk: from an instruction it accepts to one of its
/// successors.
pub open spec fn guard_rel(reg: &RegexType) -> spec_fn(int, int) -> bool {
    |q: int, s: int| !guard_bad(reg, q) && guard_succ(reg, q, s)
}

/// The instructions the guard walk reaches from `entry`.
pub open spec fn guard_reach(reg: &RegexType, entry: int) -> Set<int> {
    Set::new(|q: int| reaches(guard_rel(reg), entry, q))
}

/// A cut at `c` with number `id` follows a mark of that number among `vis`,
/// from `entry` on.
pub open spec fn cut_marked(reg: &RegexType, entry: int, vis: Set<int>, c: int) -> bool {
    reg.ops@[c].opcode == OpCode::CutToMark ==> match reg.ops@[c].payload {
        OperationPayload::CutToMark { id, .. } => exists|at: int|
            vis.contains(at) && entry <= at < c && #[trigger] marks_id(reg.ops@[at].payload, id),
        _ => true,
    }
}

/// The guard walk from `entry` ends: it reaches at most `MAX_STEPS`
/// instructions, accepts each, and one of them consumes.
pub open spec fn guard_found(reg: &RegexType, entry: int) -> bool {
    let r = guard_reach(reg, entry);
    &&& r.finite()
    &&& r.len() <= MAX_STEPS
    &&& forall|q: int| #[trigger] r.contains(q) ==> !guard_bad(reg, q)
    &&& exists|q: int| #[trigger] r.contains(q) && guard_consumes(reg, q)
}

/// Byte `p` is one the instruction at `q` consumes first.
#[verifier::opaque]
pub open spec fn adds_at(reg: &RegexType, q: int, p: int) -> bool {
    op_adds(reg, reg.ops@[q], p)
}

/// The state of the guard walk: the visited instructions are reached and
/// accepted, the pending ones reached, every successor of a visited one is
/// visited or pending, the entry too, each visited cut follows a visited
/// mark, and the map and the consumer flag gather what the visited ones
/// contribute.
#[verifier::opaque]
pub open spec fn guard_inv(reg: &RegexType, entry: int, vis: Set<int>, pending: Seq<usize>, map: ByteMap, saw: bool) -> bool {
    let rel = guard_rel(reg);
    &&& vis.finite()
    &&& forall|q: int| #[trigger] vis.contains(q) ==> reaches(rel, entry, q) && !guard_bad(reg, q)
    &&& forall|i: int| 0 <= i < pending.len() ==> reaches(rel, entry, #[trigger] pending[i] as int)
    &&& forall|x: int, s: int|
        vis.contains(x) && #[trigger] guard_succ(reg, x, s) ==> vis.contains(s) || pending.contains(s as usize)
    &&& vis.contains(entry) || pending.contains(entry as usize)
    &&& forall|c: int| #[trigger] vis.contains(c) ==> cut_marked(reg, entry, vis, c)
    &&& forall|p: int|
        0 <= p < 256 ==> (#[trigger] in_map(map, p) <==> exists|q: int| vis.contains(q) && adds_at(reg, q, p))
    &&& saw <==> exists|q: int| vis.contains(q) && guard_consumes(reg, q)
}

/// Every element of a path from `entry` lies in a set that holds `entry`
/// and every successor of its members.
proof fn lemma_path_closed(rel: spec_fn(int, int) -> bool, entry: int, vis: Set<int>, path: Seq<int>, i: int)
    requires
        vis.contains(entry),
        forall|x: int, s: int| vis.contains(x) && #[trigger] rel(x, s) ==> vis.contains(s),
        path_in(rel, path),
        path[0] == entry,
        0 <= i < path.len(),
    ensures
        vis.contains(path[i]),
    decreases i,
{
    if i > 0 {
        lemma_path_closed(rel, entry, vis, path, i - 1);
        assert(rel(path[i - 1], path[i]));
    }
}

proof fn lemma_guard_init(reg: &RegexType, entry: int, map: ByteMap)
    requires
        forall|p: int| 0 <= p < 256 ==> !#[trigger] in_map(map, p),
        0 <= entry <= usize::MAX,
    ensures
        guard_inv(reg, entry, Set::empty(), seq![entry as usize], map, false),
{
    reveal(guard_inv);
    lemma_reaches_self(guard_rel(reg), entry);
    let pending = seq![entry as usize];
    assert(pending[0] == entry as usize);
    assert(pending.contains(entry as usize));
}

proof fn lemma_guard_skip(reg: &RegexType, entry: int, vis: Set<int>, pending: Seq<usize>, map: ByteMap, saw: bool)
    requires
        guard_inv(reg, entry, vis, pending, map, saw),
        pending.len() > 0,
        vis.contains(pending.last() as int),
        reg.ops@.len() < usize::MAX,
        0 <= entry <= usize::MAX,
    ensures
        guard_inv(reg, entry, vis, pending.drop_last(), map, saw),
{
    reveal(guard_inv);
    let pc = pending.last();
    let rest = pending.drop_last();
    assert forall|s: usize| pending.contains(s) implies rest.contains(s) || s == pc by {
        let i = choose|i: int| 0 <= i < pending.len() && pending[i] == s;
        if i < pending.len() - 1 {
            assert(rest[i] == s);
        }
    }
    assert forall|i: int| 0 <= i < rest.len() implies reaches(guard_rel(reg), entry, #[trigger] rest[i] as int) by {
        assert(rest[i] == pending[i]);
    }
    assert forall|x: int, s: int| vis.contains(x) && #[trigger] guard_succ(reg, x, s) implies vis.contains(s)
        || rest.contains(s as usize) by {
        if !vis.contains(s) {
            lemma_guard_succ_nonneg(reg, x, s);
            assert(pending.contains(s as usize));
            if s as usize == pc {
                assert(vis.contains(pc as int));
            }
        }
    }
    if !vis.contains(entry) {
        assert(pending.contains(entry as usize));
    }
}

/// A successor of an instruction the guard walk accepts is never negative.
proof fn lemma_guard_succ_nonneg(reg: &RegexType, x: int, s: int)
    requires
        !guard_bad(reg, x),
        guard_succ(reg, x, s),
    ensures
        0 <= s <= reg.ops@.len() + 1,
{
}

#[verifier::rlimit(60)]
#[verifier::spinoff_prover]
proof fn lemma_guard_visit(
    reg: &RegexType,
    entry: int,
    vis: Set<int>,
    pending: Seq<usize>,
    map0: ByteMap,
    saw0: bool,
    a: Option<usize>,
    b: Option<usize>,
    c: bool,
    map: ByteMap,
)
    requires
        guard_inv(reg, entry, vis, pending, map0, saw0),
        pending.len() > 0,
        reg.ops@.len() < usize::MAX,
        0 <= entry <= usize::MAX,
        !vis.contains(pending.last() as int),
        !guard_bad(reg, pending.last() as int),
        cut_marked(reg, entry, vis, pending.last() as int),
        c == guard_consumes(reg, pending.last() as int),
        forall|s: int| #[trigger] guard_succ(reg, pending.last() as int, s)
            <==> ((a matches Some(x) && x == s) || (b matches Some(y) && y == s)),
        extends(map0, map, |p: int| adds_at(reg, pending.last() as int, p)),
    ensures
        guard_inv(reg, entry, vis.insert(pending.last() as int), push_opt(push_opt(pending.drop_last(), a), b), map, saw0 || c),
{
    reveal(guard_inv);
    let rel = guard_rel(reg);
    let pc = pending.last() as int;
    let rest = pending.drop_last();
    let new_pending = push_opt(push_opt(rest, a), b);
    let vis2 = vis.insert(pc);
    assert(reaches(rel, entry, pc)) by {
        assert(pending[pending.len() - 1] == pending.last());
    }
    assert forall|s: usize| pending.contains(s) implies rest.contains(s) || s as int == pc by {
        let i = choose|i: int| 0 <= i < pending.len() && pending[i] == s;
        if i < pending.len() - 1 {
            assert(rest[i] == s);
        }
    }
    assert forall|s: usize| rest.contains(s) implies new_pending.contains(s) by {
        let i = choose|i: int| 0 <= i < rest.len() && rest[i] == s;
        assert(new_pending[i] == s);
    }
    assert forall|s: int| #[trigger] guard_succ(reg, pc, s) implies rel(pc, s) && new_pending.contains(s as usize) by {
        if a is Some && a->0 == s {
            assert(push_opt(rest, a)[rest.len() as int] == a->0);
            let i = rest.len() as int;
            assert(new_pending[i] == a->0);
        } else {
            assert(b is Some && b->0 == s);
            assert(new_pending[new_pending.len() - 1] == b->0);
        }
    }
    assert forall|q: int| #[trigger] vis2.contains(q) implies reaches(rel, entry, q) && !guard_bad(reg, q) by {
        if q != pc {
            assert(vis.contains(q));
        }
    }
    assert forall|i: int| 0 <= i < new_pending.len() implies reaches(rel, entry, #[trigger] new_pending[i] as int) by {
        if i < rest.len() {
            assert(new_pending[i] == rest[i] && rest[i] == pending[i]);
        } else {
            let s = new_pending[i] as int;
            if a is Some && i == rest.len() {
                assert(new_pending[i] == a->0);
            } else {
                assert(b is Some && new_pending[i] == b->0);
            }
            assert(guard_succ(reg, pc, s));
            assert(rel(pc, s));
            lemma_reaches_step(rel, entry, pc, s);
        }
    }
    assert forall|x: int, s: int| vis2.contains(x) && #[trigger] guard_succ(reg, x, s) implies vis2.contains(s)
        || new_pending.contains(s as usize) by {
        if x != pc {
            assert(vis.contains(x));
            if !vis.contains(s) {
                lemma_guard_succ_nonneg(reg, x, s);
                assert(pending.contains(s as usize));
                if s != pc {
                    assert(rest.contains(s as usize));
                }
            }
        }
    }
    if !vis2.contains(entry) {
        assert(pending.contains(entry as usize));
        assert(rest.contains(entry as usize));
    }
    assert forall|cc: int| #[trigger] vis2.contains(cc) implies cut_marked(reg, entry, vis2, cc) by {
        if cc != pc {
            assert(vis.contains(cc));
            assert(cut_marked(reg, entry, vis, cc));
        }
        if reg.ops@[cc].opcode == OpCode::CutToMark {
            if let OperationPayload::CutToMark { id, .. } = reg.ops@[cc].payload {
                let at = choose|at: int| vis.contains(at) && entry <= at < cc && #[trigger] marks_id(reg.ops@[at].payload, id);
                assert(vis2.contains(at));
            }
        }
    }
    lemma_guard_visit_map(reg, vis, pc, map0, map);
    if saw0 || c {
        if c {
            assert(vis2.contains(pc));
        } else {
            let q = choose|q: int| vis.contains(q) && guard_consumes(reg, q);
            assert(vis2.contains(q));
        }
    }
    if exists|q: int| vis2.contains(q) && guard_consumes(reg, q) {
        let q = choose|q: int| vis2.contains(q) && guard_consumes(reg, q);
        if q != pc {
            assert(vis.contains(q));
        }
    }
}

/// The map after a visit gathers what the visited instructions add.
#[verifier::spinoff_prover]
proof fn lemma_guard_visit_map(reg: &RegexType, vis: Set<int>, pc: int, map0: ByteMap, map: ByteMap)
    requires
        forall|p: int| 0 <= p < 256 ==> (#[trigger] in_map(map0, p) <==> exists|q: int| vis.contains(q) && adds_at(reg, q, p)),
        extends(map0, map, |p: int| adds_at(reg, pc, p)),
    ensures
        forall|p: int| 0 <= p < 256 ==> (#[trigger] in_map(map, p) <==> exists|q: int| vis.insert(pc).contains(q) && adds_at(reg, q, p)),
{
    let vis2 = vis.insert(pc);
    assert forall|p: int| 0 <= p < 256 implies (#[trigger] in_map(map, p) <==> exists|q: int| vis2.contains(q) && adds_at(reg, q, p)) by {
        assert(in_map(map, p) == (in_map(map0, p) || adds_at(reg, pc, p)));
        if exists|q: int| vis2.contains(q) && adds_at(reg, q, p) {
            let q = choose|q: int| vis2.contains(q) && adds_at(reg, q, p);
            if q != pc {
                assert(vis.contains(q));
            }
        }
        if in_map(map0, p) {
            let q = choose|q: int| vis.contains(q) && adds_at(reg, q, p);
            assert(vis2.contains(q) && adds_at(reg, q, p));
        }
        if adds_at(reg, pc, p) {
            assert(vis2.contains(pc) && adds_at(reg, pc, p));
        }
    }
}

/// The last pending instruction is reached.
proof fn lemma_guard_pending_reached(reg: &RegexType, entry: int, vis: Set<int>, pending: Seq<usize>, map: ByteMap, saw: bool)
    requires
        guard_inv(reg, entry, vis, pending, map, saw),
        pending.len() > 0,
    ensures
        guard_reach(reg, entry).contains(pending.last() as int),
        vis.subset_of(guard_reach(reg, entry)),
{
    reveal(guard_inv);
    assert(pending[pending.len() - 1] == pending.last());
}

/// The walk gives up when it meets one more instruction after visiting
/// `MAX_STEPS`: more are reached.
proof fn lemma_guard_cap(reg: &RegexType, entry: int, vis: Set<int>, pending: Seq<usize>, map: ByteMap, saw: bool)
    requires
        guard_inv(reg, entry, vis, pending, map, saw),
        pending.len() > 0,
        !vis.contains(pending.last() as int),
        vis.len() == MAX_STEPS,
    ensures
        !guard_found(reg, entry),
{
    lemma_guard_pending_reached(reg, entry, vis, pending, map, saw);
    reveal(guard_inv);
    let r = guard_reach(reg, entry);
    let pc = pending.last() as int;
    if r.finite() {
        vstd::set_lib::lemma_len_subset(vis.insert(pc), r);
    }
}

proof fn lemma_guard_done(reg: &RegexType, entry: int, vis: Set<int>, map: ByteMap, saw: bool)
    requires
        guard_inv(reg, entry, vis, Seq::<usize>::empty(), map, saw),
        vis.len() <= MAX_STEPS,
    ensures
        guard_reach(reg, entry) == vis,
        saw <==> guard_found(reg, entry),
        forall|c: int| #[trigger] vis.contains(c) ==> cut_marked(reg, entry, vis, c),
        forall|p: int| 0 <= p < 256 ==> (#[trigger] in_map(map, p) <==> exists|q: int| vis.contains(q) && adds_at(reg, q, p)),
{
    reveal(guard_inv);
    let rel = guard_rel(reg);
    let r = guard_reach(reg, entry);
    assert(vis.contains(entry)) by {
        assert(!Seq::<usize>::empty().contains(entry as usize));
    }
    assert forall|x: int, s: int| vis.contains(x) && #[trigger] rel(x, s) implies vis.contains(s) by {
        assert(guard_succ(reg, x, s));
        assert(!Seq::<usize>::empty().contains(s as usize));
    }
    assert forall|q: int| #[trigger] r.contains(q) implies vis.contains(q) by {
        let path = choose|path: Seq<int>| #[trigger] path_in(rel, path) && path[0] == entry && path.last() == q;
        lemma_path_closed(rel, entry, vis, path, path.len() - 1);
    }
    assert(r =~= vis);
}

/// Whether `v` holds `x`.
fn holds(v: &Vec<usize>, x: usize) -> (r: bool)
    ensures
        r == v@.contains(x),
{
    let mut i: usize = 0;
    while i < v.len()
        invariant
            i <= v@.len(),
            forall|j: int| 0 <= j < i ==> v@[j] != x,
        decreases v@.len() - i,
    {
        if v[i] == x {
            assert(v@[i as int] == x);
            return true;
        }
        i = i + 1;
    }
    false
}

/// Whether one of the `visited` instructions from `entry` up to `pc` is a
/// mark with number `id`.
fn mark_on_path(reg: &RegexType, visited: &Vec<usize>, entry: usize, pc: usize, id: i32) -> (r: bool)
    requires
        forall|i: int| 0 <= i < visited@.len() ==> #[trigger] visited@[i] < reg.ops@.len(),
    ensures
        r == exists|i: int|
            0 <= i < visited@.len() && entry <= #[trigger] visited@[i] < pc && marks_id(reg.ops@[visited@[i] as int].payload, id),
{
    let mut i: usize = 0;
    while i < visited.len()
        invariant
            i <= visited@.len(),
            forall|i: int| 0 <= i < visited@.len() ==> #[trigger] visited@[i] < reg.ops@.len(),
            forall|j: int|
                0 <= j < i ==> !(entry <= #[trigger] visited@[j] < pc && marks_id(reg.ops@[visited@[j] as int].payload, id)),
        decreases visited@.len() - i,
    {
        let at = visited[i];
        if entry <= at && at < pc {
            match &reg.ops[at].payload {
                OperationPayload::Mark { id: mark, .. } => {
                    if *mark == id {
                        return true;
                    }
                },
                _ => {},
            }
        }
        i = i + 1;
    }
    false
}

/// Every path of the guard walk from `entry` to `c` passes `at`.
pub open spec fn guard_passes_through(reg: &RegexType, entry: int, at: int, c: int) -> bool {
    forall|path: Seq<int>|
        #[trigger] path_in(guard_rel(reg), path) && path[0] == entry && path.last() == c ==> path.contains(at)
}

/// A cut at `c` follows, on every path of the guard walk from `entry` to it,
/// a mark of its number at or after `entry`.
pub open spec fn cut_dominated(reg: &RegexType, entry: int, c: int) -> bool {
    reg.ops@[c].opcode == OpCode::CutToMark ==> match reg.ops@[c].payload {
        OperationPayload::CutToMark { id, .. } => exists|at: int|
            entry <= at < c && #[trigger] marks_id(reg.ops@[at].payload, id) && guard_passes_through(reg, entry, at, c),
        _ => true,
    }
}

/// `q` is reached from `entry` along a path whose instructions before `q`
/// are all in `vis`.
pub open spec fn visited_path(reg: &RegexType, entry: int, vis: Set<int>, q: int) -> bool {
    exists|path: Seq<int>|
        #[trigger] path_in(guard_rel(reg), path) && path[0] == entry && path.last() == q && forall|k: int|
            0 <= k < path.len() - 1 ==> vis.contains(#[trigger] path[k])
}

/// Each pending instruction of the guard walk was reached through visited ones.
pub open spec fn pending_paths(reg: &RegexType, entry: int, vis: Set<int>, pending: Seq<usize>) -> bool {
    forall|i: int| 0 <= i < pending.len() ==> visited_path(reg, entry, vis, #[trigger] pending[i] as int)
}

proof fn lemma_pending_paths_init(reg: &RegexType, entry: int)
    requires
        0 <= entry <= usize::MAX,
    ensures
        pending_paths(reg, entry, Set::empty(), seq![entry as usize]),
{
    let path = seq![entry];
    assert(path_in(guard_rel(reg), path));
    assert(seq![entry as usize][0] as int == entry);
}

proof fn lemma_pending_paths_pop(reg: &RegexType, entry: int, vis: Set<int>, pending: Seq<usize>)
    requires
        pending_paths(reg, entry, vis, pending),
        pending.len() > 0,
    ensures
        pending_paths(reg, entry, vis, pending.drop_last()),
        visited_path(reg, entry, vis, pending.last() as int),
{
    assert(pending[pending.len() - 1] == pending.last());
    assert forall|i: int| 0 <= i < pending.drop_last().len() implies visited_path(reg, entry, vis, #[trigger] pending.drop_last()[i] as int) by {
        assert(pending.drop_last()[i] == pending[i]);
    }
}

proof fn lemma_pending_paths_visit(
    reg: &RegexType,
    entry: int,
    vis: Set<int>,
    pending: Seq<usize>,
    a: Option<usize>,
    b: Option<usize>,
)
    requires
        pending_paths(reg, entry, vis, pending),
        pending.len() > 0,
        !guard_bad(reg, pending.last() as int),
        forall|s: int| #[trigger] guard_succ(reg, pending.last() as int, s)
            <==> ((a matches Some(x) && x == s) || (b matches Some(y) && y == s)),
    ensures
        pending_paths(reg, entry, vis.insert(pending.last() as int), push_opt(push_opt(pending.drop_last(), a), b)),
{
    let pc = pending.last() as int;
    let vis2 = vis.insert(pc);
    let rest = pending.drop_last();
    let np = push_opt(push_opt(rest, a), b);
    lemma_pending_paths_pop(reg, entry, vis, pending);
    let p0 = choose|path: Seq<int>|
        #[trigger] path_in(guard_rel(reg), path) && path[0] == entry && path.last() == pc && forall|k: int|
            0 <= k < path.len() - 1 ==> vis.contains(#[trigger] path[k]);
    assert forall|i: int| 0 <= i < np.len() implies visited_path(reg, entry, vis2, #[trigger] np[i] as int) by {
        if i < rest.len() {
            assert(np[i] == rest[i]);
            let q = rest[i] as int;
            assert(visited_path(reg, entry, vis, q));
            let p1 = choose|path: Seq<int>|
                #[trigger] path_in(guard_rel(reg), path) && path[0] == entry && path.last() == q && forall|k: int|
                    0 <= k < path.len() - 1 ==> vis.contains(#[trigger] path[k]);
            assert forall|k: int| 0 <= k < p1.len() - 1 implies vis2.contains(#[trigger] p1[k]) by {
                assert(vis.contains(p1[k]));
            }
        } else {
            let s = np[i] as int;
            if a is Some && i == rest.len() {
                assert(np[i] == a->0);
            } else {
                assert(b is Some && np[i] == b->0);
            }
            assert(guard_succ(reg, pc, s));
            let p2 = p0.push(s);
            assert forall|k: int| 0 <= k < p2.len() - 1 implies guard_rel(reg)(#[trigger] p2[k], p2[k + 1]) by {
                if k < p0.len() - 1 {
                    assert(p2[k] == p0[k] && p2[k + 1] == p0[k + 1]);
                } else {
                    assert(p2[k] == pc && p2[k + 1] == s);
                }
            }
            assert(path_in(guard_rel(reg), p2));
            assert(p2[0] == entry);
            assert forall|k: int| 0 <= k < p2.len() - 1 implies vis2.contains(#[trigger] p2[k]) by {
                if k < p0.len() - 1 {
                    assert(p2[k] == p0[k]);
                    assert(vis.contains(p0[k]));
                } else {
                    assert(p2[k] == pc);
                }
            }
            assert(p2.last() == s);
        }
    }
}

/// When every path to the cut at `pc` passes its mark, and `pc` was reached
/// through visited instructions, the mark was visited.
proof fn lemma_dominated_mark_visited(reg: &RegexType, entry: int, vis: Set<int>, pc: int, at: int)
    requires
        visited_path(reg, entry, vis, pc),
        guard_passes_through(reg, entry, at, pc),
        at != pc,
    ensures
        vis.contains(at),
{
    let p = choose|path: Seq<int>|
        #[trigger] path_in(guard_rel(reg), path) && path[0] == entry && path.last() == pc && forall|k: int|
            0 <= k < path.len() - 1 ==> vis.contains(#[trigger] path[k]);
    assert(p.contains(at));
    let k = choose|k: int| 0 <= k < p.len() && p[k] == at;
    assert(k != p.len() - 1);
    assert(vis.contains(p[k]));
}

/// The bytes the main path of a push can consume first, when it starts at
/// `entry`; a push can be skipped when the current byte is not among them.
///
/// Unlike the start map, this walk begins inside the pattern, where
/// look-arounds, captures and counters may already be in progress. It only
/// passes instructions whose effects backtracking undoes. A byte outside the
/// map therefore means that every path from `entry` fails before it moves
/// the position, changes state that backtracking keeps, or reshapes the
/// stack.
///
/// `Some` only when the walk ends: it reaches at most `MAX_STEPS`
/// instructions, accepts each and meets one that consumes, and every cut it
/// reaches follows a mark of the same number that it reached from `entry` on;
/// the map then holds exactly the bytes the reached instructions consume
/// first. Such a walk always gives `Some` when each cut it reaches follows,
/// on every path to it, a mark of its number from `entry` on.
pub fn guard_byte_map(reg: &RegexType, entry: usize, walk: &mut GuardWalk) -> (r: Option<ByteMap>)
    requires
        reg.ops@.len() <= isize::MAX,
    ensures
        r is Some ==> guard_found(reg, entry as int),
        r is Some ==> forall|c: int| #[trigger] guard_reach(reg, entry as int).contains(c) ==> cut_marked(
            reg,
            entry as int,
            guard_reach(reg, entry as int),
            c,
        ),
        r matches Some(m) ==> forall|p: int| 0 <= p < 256 ==> (#[trigger] in_map(m, p) <==> exists|q: int|
            guard_reach(reg, entry as int).contains(q) && op_adds(reg, reg.ops@[q], p)),
        guard_found(reg, entry as int) && (forall|c: int| #[trigger] guard_reach(reg, entry as int).contains(c)
            ==> cut_dominated(reg, entry as int, c)) ==> r is Some,
{
    let n = reg.ops.len();
    let mut map: ByteMap = [0u32; 8];
    let mut saw_consumer = false;
    walk.pending.clear();
    walk.visited.clear();
    walk.pending.push(entry);
    let ghost mut vis: Set<int> = Set::empty();
    proof {
        assert forall|p: int| 0 <= p < 256 implies !(#[trigger] in_map(map, p)) by {
            lemma_empty_word((p % 32) as u32);
        }
        lemma_guard_init(reg, entry as int, map);
        assert(walk.pending@ =~= seq![entry]);
        lemma_pending_paths_init(reg, entry as int);
    }
    while walk.pending.len() > 0
        invariant
            n == reg.ops@.len(),
            n <= isize::MAX,
            guard_inv(reg, entry as int, vis, walk.pending@, map, saw_consumer),
            pending_paths(reg, entry as int, vis, walk.pending@),
            forall|q: int| #[trigger] vis.contains(q) <==> exists|i: int| 0 <= i < walk.visited@.len() && walk.visited@[i] == q,
            forall|i: int| 0 <= i < walk.visited@.len() ==> #[trigger] walk.visited@[i] < n,
            vis.len() == walk.visited@.len(),
            vis.len() <= MAX_STEPS,
        decreases MAX_STEPS - vis.len(), walk.pending@.len(),
    {
        let ghost old_pending = walk.pending@;
        let ghost map0 = map;
        let ghost saw0 = saw_consumer;
        let ghost vis0 = vis;
        let ghost vseq0 = walk.visited@;
        proof {
            reveal(guard_inv);
        }
        let pc = match walk.pending.pop() {
            Some(p) => p,
            None => 0,
        };
        proof {
            assert(pc == old_pending.last());
            assert(walk.pending@ == old_pending.drop_last());
            lemma_pending_paths_pop(reg, entry as int, vis, old_pending);
        }
        if holds(&walk.visited, pc) {
            proof {
                let i = choose|i: int| 0 <= i < walk.visited@.len() && walk.visited@[i] == pc;
                assert(vis.contains(pc as int));
                lemma_guard_skip(reg, entry as int, vis, old_pending, map, saw_consumer);
            }
            continue;
        }
        proof {
            if vis.contains(pc as int) {
                let i = choose|i: int| 0 <= i < walk.visited@.len() && walk.visited@[i] == pc as int;
                assert(walk.visited@.contains(pc));
            }
        }
        if walk.visited.len() == MAX_STEPS {
            proof {
                lemma_guard_cap(reg, entry as int, vis, old_pending, map, saw_consumer);
            }
            return None;
        }
        if pc >= n {
            proof {
                lemma_guard_pending_reached(reg, entry as int, vis, old_pending, map, saw_consumer);
            }
            return None;
        }
        let ghost cut_ok = cut_marked(reg, entry as int, vis, pc as int);
        let op = &reg.ops[pc];
        let mut a: Option<usize> = None;
        let mut b: Option<usize> = None;
        let fb = match record_first_bytes(reg, op, &mut map) {
            Some(f) => f,
            None => {
                proof {
                    lemma_guard_pending_reached(reg, entry as int, vis, old_pending, map0, saw0);
                }
                return None;
            },
        };
        match fb {
            FirstBytes::Consumes => {},
            FirstBytes::ConsumesOrFallsThrough => {
                a = Some(pc + 1);
            },
            FirstBytes::Passes => {
                match op.opcode {
                    OpCode::Jump => {
                        let addr = match &op.payload {
                            OperationPayload::Jump { addr } => *addr,
                            _ => {
                                proof {
                                    lemma_guard_pending_reached(reg, entry as int, vis, old_pending, map0, saw0);
                                }
                                return None;
                            },
                        };
                        match target(pc, addr, n) {
                            Some(t) => {
                                a = Some(t);
                            },
                            None => {
                                proof {
                                    lemma_guard_pending_reached(reg, entry as int, vis, old_pending, map0, saw0);
                                }
                                return None;
                            },
                        }
                    },
                    OpCode::Push | OpCode::PushOrJumpByteSet | OpCode::PushOrJumpExact1 | OpCode::PushIfPeekNext => {
                        let addr = match &op.payload {
                            OperationPayload::Push { addr } => *addr,
                            OperationPayload::PushOrJumpByteSet { addr, .. } => *addr,
                            OperationPayload::PushOrJumpExact1 { addr, .. } => *addr,
                            OperationPayload::PushIfPeekNext { addr, .. } => *addr,
                            _ => {
                                proof {
                                    lemma_guard_pending_reached(reg, entry as int, vis, old_pending, map0, saw0);
                                }
                                return None;
                            },
                        };
                        let alt = match target(pc, addr, n) {
                            Some(t) => t,
                            None => {
                                proof {
                                    lemma_guard_pending_reached(reg, entry as int, vis, old_pending, map0, saw0);
                                }
                                return None;
                            },
                        };
                        a = Some(alt);
                        // A negative look-around only decides whether the
                        // path goes on at `alt`, at the same position.
                        // Skipping it is exact if nothing in it outlives the
                        // look-around; otherwise its body is walked like any
                        // other branch, which only adds bytes.
                        if !skips_negative_look_around(reg, pc, op, alt) {
                            b = Some(pc + 1);
                        }
                    },
                    // Pushes a mark entry that backtracking pops.
                    OpCode::Mark => {
                        a = Some(pc + 1);
                    },
                    // Cutting to a mark this path pushed only drops what the
                    // path pushed since, and restores a position it has not
                    // consumed from. A mark from before `entry` would drop
                    // the push itself.
                    OpCode::CutToMark => {
                        let id = match &op.payload {
                            OperationPayload::CutToMark { id, .. } => *id,
                            _ => {
                                proof {
                                    lemma_guard_pending_reached(reg, entry as int, vis, old_pending, map0, saw0);
                                }
                                return None;
                            },
                        };
                        if !mark_on_path(reg, &walk.visited, entry, pc, id) {
                            proof {
                                lemma_guard_pending_reached(reg, entry as int, vis, old_pending, map0, saw0);
                                let rch = guard_reach(reg, entry as int);
                                if guard_found(reg, entry as int) && (forall|c: int| #[trigger] rch.contains(c)
                                    ==> cut_dominated(reg, entry as int, c)) {
                                    assert(rch.contains(pc as int));
                                    assert(cut_dominated(reg, entry as int, pc as int));
                                    let at = choose|at: int|
                                        entry <= at < pc && #[trigger] marks_id(reg.ops@[at].payload, id)
                                            && guard_passes_through(reg, entry as int, at, pc as int);
                                    lemma_dominated_mark_visited(reg, entry as int, vis, pc as int, at);
                                    let i = choose|i: int| 0 <= i < walk.visited@.len() && walk.visited@[i] == at;
                                    assert(entry <= walk.visited@[i] < pc && marks_id(
                                        reg.ops@[walk.visited@[i] as int].payload,
                                        id,
                                    ));
                                    assert(false);
                                }
                            }
                            return None;
                        }
                        proof {
                            let i = choose|i: int|
                                0 <= i < walk.visited@.len() && entry <= #[trigger] walk.visited@[i] < pc && marks_id(
                                    reg.ops@[walk.visited@[i] as int].payload,
                                    id,
                                );
                            let at = walk.visited@[i] as int;
                            assert(vis.contains(at));
                            assert(marks_id(reg.ops@[at].payload, id));
                        }
                        a = Some(pc + 1);
                    },
                    // A look-behind consumes nothing; its body instruction
                    // follows.
                    OpCode::LookBehindOp => {
                        a = Some(pc + 2);
                    },
                    OpCode::MemStartPush | OpCode::MemEndPush | OpCode::EmptyCheckStart | OpCode::WordBoundary
                    | OpCode::NoWordBoundary | OpCode::WordBegin | OpCode::WordEnd | OpCode::TextSegmentBoundary
                    | OpCode::BeginBuf | OpCode::EndBuf | OpCode::BeginLine | OpCode::EndLine | OpCode::SemiEndBuf
                    | OpCode::CheckPosition => {
                        a = Some(pc + 1);
                    },
                    OpCode::Fail => {},
                    _ => {
                        proof {
                            lemma_guard_pending_reached(reg, entry as int, vis, old_pending, map0, saw0);
                        }
                        return None;
                    },
                }
            },
        }
        let c = fb != FirstBytes::Passes;
        if c {
            saw_consumer = true;
        }
        proof {
            assert(extends(map0, map, |p: int| adds_at(reg, pc as int, p))) by {
                reveal(adds_at);
            }
        }
        walk.visited.push(pc);
        match a {
            Some(x) => {
                walk.pending.push(x);
            },
            None => {},
        }
        match b {
            Some(y) => {
                walk.pending.push(y);
            },
            None => {},
        }
        proof {
            lemma_guard_visit(reg, entry as int, vis, old_pending, map0, saw0, a, b, c, map);
            lemma_pending_paths_visit(reg, entry as int, vis, old_pending, a, b);
            assert(walk.pending@ =~= push_opt(push_opt(old_pending.drop_last(), a), b));
            vis = vis.insert(pc as int);
            assert(walk.visited@ == vseq0.push(pc));
            assert forall|q: int| #[trigger] vis.contains(q) <==> exists|i: int|
                0 <= i < walk.visited@.len() && walk.visited@[i] == q by {
                if vis0.contains(q) {
                    let i = choose|i: int| 0 <= i < vseq0.len() && vseq0[i] == q;
                    assert(walk.visited@[i] == q);
                }
                if q == pc as int {
                    assert(walk.visited@[vseq0.len() as int] == pc);
                }
                if exists|i: int| 0 <= i < walk.visited@.len() && walk.visited@[i] == q {
                    let i = choose|i: int| 0 <= i < walk.visited@.len() && walk.visited@[i] == q;
                    if i < vseq0.len() {
                        assert(vseq0[i] == q);
                    }
                }
            }
        }
    }
    proof {
        assert(walk.pending@ =~= Seq::<usize>::empty());
        lemma_guard_done(reg, entry as int, vis, map, saw_consumer);
        reveal(adds_at);
    }
    if saw_consumer {
        Some(map)
    } else {
        None
    }
}

/// Instructions one run of the backtracking model may execute.
pub const MAX_RUN_STEPS: usize = 4096;

/// Checks whose outcomes the backtracking model combines.
pub const MAX_CHECKS: usize = 6;

/// An entry of the modelled backtracking stack.
pub enum RetryEntry {
    /// The alternative of a push.
    Alt(usize),
    /// A mark with its number.
    Mark(i32),
}

/// Where `x` first stands in `s` from `i` on; `s.len()` when nowhere.
pub open spec fn first_pos(s: Seq<usize>, x: usize, i: int) -> int
    decreases s.len() - i,
{
    if i >= s.len() || i < 0 {
        s.len() as int
    } else if s[i] == x {
        i
    } else {
        first_pos(s, x, i + 1)
    }
}

/// The outcome of the check at `at` in the run `passes` (bit `i` for the
/// check that came `i`-th), and the checks seen so far with `at` among them;
/// no outcome past `MAX_CHECKS`.
pub open spec fn check_spec(at: usize, passes: u32, checks: Seq<usize>) -> (Option<bool>, Seq<usize>) {
    let found = first_pos(checks, at, 0);
    let (index, seen) = if found < checks.len() {
        (found, checks)
    } else {
        (checks.len() as int, checks.push(at))
    };
    (if index < MAX_CHECKS { Some(passes & (1u32 << (index as u32)) != 0u32) } else { None }, seen)
}

/// The stack above the topmost alternative, popped, and that alternative;
/// `None` when there is none.
pub open spec fn pop_alt(st: Seq<RetryEntry>) -> Option<(usize, Seq<RetryEntry>)>
    decreases st.len(),
{
    if st.len() == 0 {
        None
    } else {
        match st.last() {
            RetryEntry::Alt(alt) => Some((alt, st.drop_last())),
            RetryEntry::Mark(_) => pop_alt(st.drop_last()),
        }
    }
}

/// The stack below the topmost mark `id`; `None` when there is none.
pub open spec fn pop_mark(st: Seq<RetryEntry>, id: i32) -> Option<Seq<RetryEntry>>
    decreases st.len(),
{
    if st.len() == 0 {
        None
    } else {
        match st.last() {
            RetryEntry::Mark(m) => if m == id {
                Some(st.drop_last())
            } else {
                pop_mark(st.drop_last(), id)
            },
            RetryEntry::Alt(_) => pop_mark(st.drop_last(), id),
        }
    }
}

/// Checks whose outcome depends on the position.
pub open spec fn check_opcode(opcode: OpCode) -> bool {
    match opcode {
        OpCode::WordBoundary | OpCode::NoWordBoundary | OpCode::WordBegin | OpCode::WordEnd
        | OpCode::TextSegmentBoundary | OpCode::BeginBuf | OpCode::EndBuf | OpCode::BeginLine
        | OpCode::EndLine | OpCode::SemiEndBuf | OpCode::CheckPosition => true,
        _ => false,
    }
}

/// A step of the model that goes on at `next` after a check with outcome
/// `outcome`, or fails.
pub open spec fn after_check(outcome: (Option<bool>, Seq<usize>), next: int, st: Seq<RetryEntry>) -> Option<(Option<int>, Seq<RetryEntry>, Seq<usize>)> {
    match outcome.0 {
        None => None,
        Some(true) => Some((Some(next), st, outcome.1)),
        Some(false) => Some((None, st, outcome.1)),
    }
}

/// A plain push, or a guard that jumps and counts what the push takes: it
/// stacks its alternative and goes on; a negative look-around the guard
/// walk skips is not modelled.
pub open spec fn push_step(reg: &RegexType, pc: int, op: Operation, addr: i32, st: Seq<RetryEntry>, ch: Seq<usize>) -> Option<(Option<int>, Seq<RetryEntry>, Seq<usize>)> {
    match target_spec(pc, addr, reg.ops@.len() as int) {
        None => None,
        Some(alt) => if skips_look_around(reg, pc, op, alt) {
            None
        } else {
            Some((Some(pc + 1), st.push(RetryEntry::Alt(alt as usize)), ch))
        },
    }
}

/// One instruction of the backtracking model, at `pc` with the stack `st`
/// and the checks seen `ch`, when the current byte is outside `map`: `None`
/// when the model does not cover it; else where it goes on (`None` when it
/// fails), the stack and the checks after it. String and class instructions
/// fail, pushes and marks stack up, cuts drop what their mark covers, checks
/// and fused look-behinds take their outcome from `passes`.
pub open spec fn model_step(reg: &RegexType, map: ByteMap, passes: u32, pc: int, st: Seq<RetryEntry>, ch: Seq<usize>) -> Option<(Option<int>, Seq<RetryEntry>, Seq<usize>)> {
    let n = reg.ops@.len() as int;
    if !(0 <= pc < n) {
        None
    } else {
        let op = reg.ops@[pc];
        match op_first(reg, op) {
            None => None,
            Some(FirstBytes::Consumes) => Some((None, st, ch)),
            Some(FirstBytes::ConsumesOrFallsThrough) => Some((Some(pc + 1), st, ch)),
            Some(FirstBytes::Passes) => match op.opcode {
                OpCode::Jump => match op.payload {
                    OperationPayload::Jump { addr } => match target_spec(pc, addr, n) {
                        Some(t) => Some((Some(t), st, ch)),
                        None => None,
                    },
                    _ => None,
                },
                // The byte is not `c`: the instruction jumps without pushing.
                OpCode::PushOrJumpExact1 => match op.payload {
                    OperationPayload::PushOrJumpExact1 { addr, c } => if !in_map(map, c as int) {
                        None
                    } else {
                        match target_spec(pc, addr, n) {
                            Some(t) => Some((Some(t), st, ch)),
                            None => None,
                        }
                    },
                    OperationPayload::Push { addr } => push_step(reg, pc, op, addr, st, ch),
                    OperationPayload::PushOrJumpByteSet { addr, .. } => push_step(reg, pc, op, addr, st, ch),
                    _ => None,
                },
                // Pushes only when the byte is `c`.
                OpCode::PushIfPeekNext => match op.payload {
                    OperationPayload::PushIfPeekNext { c, .. } => if !in_map(map, c as int) {
                        None
                    } else {
                        Some((Some(pc + 1), st, ch))
                    },
                    _ => None,
                },
                OpCode::Push | OpCode::PushOrJumpByteSet => match push_addr(op.payload) {
                    Some(addr) => push_step(reg, pc, op, addr, st, ch),
                    None => None,
                },
                OpCode::Mark => match op.payload {
                    OperationPayload::Mark { id, .. } => Some((Some(pc + 1), st.push(RetryEntry::Mark(id)), ch)),
                    _ => None,
                },
                OpCode::CutToMark => match op.payload {
                    OperationPayload::CutToMark { id, .. } => match pop_mark(st, id) {
                        Some(rest) => Some((Some(pc + 1), rest, ch)),
                        None => None,
                    },
                    _ => None,
                },
                OpCode::MemStartPush | OpCode::MemEndPush | OpCode::EmptyCheckStart => Some((Some(pc + 1), st, ch)),
                OpCode::LookBehindOp => after_check(check_spec(pc as usize, passes, ch), pc + 2, st),
                OpCode::Fail => Some((None, st, ch)),
                _ => if check_opcode(op.opcode) {
                    after_check(check_spec(pc as usize, passes, ch), pc + 1, st)
                } else {
                    None
                },
            },
        }
    }
}

/// The rest of a run of the model with `fuel` instructions left, after
/// `failures` failures: the failures when the stack runs out of
/// alternatives, and the checks seen; `None` when the model gives up or the
/// fuel runs out.
pub open spec fn run_from(
    reg: &RegexType,
    map: ByteMap,
    passes: u32,
    pc: int,
    st: Seq<RetryEntry>,
    failures: nat,
    ch: Seq<usize>,
    fuel: nat,
) -> Option<(u32, Seq<usize>)>
    decreases fuel,
{
    if fuel == 0 {
        None
    } else {
        match model_step(reg, map, passes, pc, st, ch) {
            None => None,
            Some((Some(next), st2, ch2)) => run_from(reg, map, passes, next, st2, failures, ch2, (fuel - 1) as nat),
            Some((None, st2, ch2)) => if failures + 1 > u32::MAX {
                None
            } else {
                match pop_alt(st2) {
                    None => Some(((failures + 1) as u32, ch2)),
                    Some((alt, rest)) => run_from(reg, map, passes, alt as int, rest, failures + 1, ch2, (fuel - 1) as nat),
                }
            },
        }
    }
}

/// One run of the model from `entry` with the check outcomes in `passes`.
pub open spec fn model_run(reg: &RegexType, entry: int, map: ByteMap, passes: u32, ch: Seq<usize>) -> Option<(u32, Seq<usize>)> {
    run_from(reg, map, passes, entry, Seq::empty(), 0, ch, MAX_RUN_STEPS as nat)
}

/// The runs from `passes` on, each combination of check outcomes once, the
/// earlier ones having failed `count` times: the common count once every
/// combination has run, `None` when two runs differ or one gives up.
pub open spec fn retries_from(reg: &RegexType, entry: int, map: ByteMap, passes: u32, ch: Seq<usize>, count: Option<u32>) -> Option<u32>
    decreases 64 - passes,
{
    if passes >= 64 {
        None
    } else {
        match model_run(reg, entry, map, passes, ch) {
            None => None,
            Some((f, ch2)) => if count is Some && count != Some(f) {
                None
            } else if ch2.len() > MAX_CHECKS {
                None
            } else if passes + 1 >= vstd::arithmetic::power2::pow2(ch2.len()) {
                Some(f)
            } else {
                retries_from(reg, entry, map, (passes + 1) as u32, ch2, Some(f))
            },
        }
    }
}

/// Where `x` first stands in `s`; `s.len()` when nowhere.
fn first_position(s: &Vec<usize>, x: usize) -> (r: usize)
    ensures
        r as int == first_pos(s@, x, 0),
{
    let mut i: usize = 0;
    while i < s.len()
        invariant
            i <= s@.len(),
            first_pos(s@, x, 0) == first_pos(s@, x, i as int),
        decreases s@.len() - i,
    {
        if s[i] == x {
            return i;
        }
        i = i + 1;
    }
    i
}

/// The outcome of the check at `at` in the run `passes`; records `at` among
/// the checks when it is new.
fn check_outcome(at: usize, passes: u32, checks: &mut Vec<usize>) -> (r: Option<bool>)
    ensures
        (r, final(checks)@) == check_spec(at, passes, old(checks)@),
{
    let found = first_position(checks, at);
    let index = if found < checks.len() {
        found
    } else {
        checks.push(at);
        checks.len() - 1
    };
    if index < MAX_CHECKS {
        Some(passes & (1u32 << (index as u32)) != 0u32)
    } else {
        None
    }
}

/// Pops the stack down to its topmost alternative and gives it; `None` when
/// there is none.
fn pop_to_alt(stack: &mut Vec<RetryEntry>) -> (r: Option<usize>)
    ensures
        match pop_alt(old(stack)@) {
            Some((alt, rest)) => r == Some(alt) && final(stack)@ == rest,
            None => r is None,
        },
{
    let ghost start = stack@;
    loop
        invariant
            start == old(stack)@,
            pop_alt(start) == pop_alt(stack@),
        decreases stack@.len(),
    {
        let ghost before = stack@;
        match stack.pop() {
            None => {
                return None;
            },
            Some(RetryEntry::Alt(alt)) => {
                proof {
                    assert(stack@ == before.drop_last());
                }
                return Some(alt);
            },
            Some(RetryEntry::Mark(_)) => {
                proof {
                    assert(stack@ == before.drop_last());
                }
            },
        }
    }
}

/// Pops the stack down to below its topmost mark `id`; `false` when there
/// is none.
fn pop_to_mark(stack: &mut Vec<RetryEntry>, id: i32) -> (r: bool)
    ensures
        match pop_mark(old(stack)@, id) {
            Some(rest) => r && final(stack)@ == rest,
            None => !r,
        },
{
    let ghost start = stack@;
    loop
        invariant
            start == old(stack)@,
            pop_mark(start, id) == pop_mark(stack@, id),
        decreases stack@.len(),
    {
        let ghost before = stack@;
        match stack.pop() {
            None => {
                return false;
            },
            Some(RetryEntry::Mark(mark)) => {
                proof {
                    assert(stack@ == before.drop_last());
                }
                if mark == id {
                    return true;
                }
            },
            Some(RetryEntry::Alt(_)) => {
                proof {
                    assert(stack@ == before.drop_last());
                }
            },
        }
    }
}

/// A plain push of the model: stacks the alternative `addr` away unless the
/// push opens a negative look-around the guard walk skips.
fn model_push(reg: &RegexType, pc: usize, op: &Operation, addr: i32, stack: &mut Vec<RetryEntry>) -> (r: Option<usize>)
    requires
        pc < reg.ops@.len() <= isize::MAX,
    ensures
        match push_step(reg, pc as int, *op, addr, old(stack)@, Seq::empty()) {
            Some((nx, st, _)) => r is Some && nx == Some(r->0 as int) && final(stack)@ == st,
            None => r is None,
        },
{
    let alt = match target(pc, addr, reg.ops.len()) {
        Some(t) => t,
        None => return None,
    };
    if skips_negative_look_around(reg, pc, op, alt) {
        return None;
    }
    stack.push(RetryEntry::Alt(alt));
    Some(pc + 1)
}

/// Runs the instruction at `pc` on the model: where the run goes on
/// (`Some(None)` when it fails), the stack and the checks updated; `None`
/// when the model does not cover it.
fn model_instr(
    reg: &RegexType,
    map: &ByteMap,
    passes: u32,
    pc: usize,
    stack: &mut Vec<RetryEntry>,
    checks: &mut Vec<usize>,
) -> (r: Option<Option<usize>>)
    requires
        reg.ops@.len() <= isize::MAX,
    ensures
        match model_step(reg, *map, passes, pc as int, old(stack)@, old(checks)@) {
            Some((nx, st, ch)) => r is Some && (match r->0 {
                Some(x) => nx == Some(x as int),
                None => nx is None,
            }) && final(stack)@ == st && final(checks)@ == ch,
            None => r is None,
        },
{
    let n = reg.ops.len();
    if pc >= n {
        return None;
    }
    let op = &reg.ops[pc];
    let mut scratch: ByteMap = [0u32; 8];
    let fb = match record_first_bytes(reg, op, &mut scratch) {
        Some(f) => f,
        None => return None,
    };
    match fb {
        // Cannot consume the current byte.
        FirstBytes::Consumes => Some(None),
        // Consumes nothing and pushes nothing.
        FirstBytes::ConsumesOrFallsThrough => Some(Some(pc + 1)),
        FirstBytes::Passes => match op.opcode {
            OpCode::Jump => match &op.payload {
                OperationPayload::Jump { addr } => match target(pc, *addr, n) {
                    Some(t) => Some(Some(t)),
                    None => None,
                },
                _ => None,
            },
            OpCode::PushOrJumpExact1 => match &op.payload {
                // The current byte is not `c`, so it jumps without pushing.
                OperationPayload::PushOrJumpExact1 { addr, c } => {
                    if !bitset_at(map, *c as usize) {
                        return None;
                    }
                    match target(pc, *addr, n) {
                        Some(t) => Some(Some(t)),
                        None => None,
                    }
                },
                OperationPayload::Push { addr } => match model_push(reg, pc, op, *addr, stack) {
                    Some(x) => Some(Some(x)),
                    None => None,
                },
                OperationPayload::PushOrJumpByteSet { addr, .. } => match model_push(reg, pc, op, *addr, stack) {
                    Some(x) => Some(Some(x)),
                    None => None,
                },
                _ => None,
            },
            // Pushes only when the current byte is `c`.
            OpCode::PushIfPeekNext => match &op.payload {
                OperationPayload::PushIfPeekNext { c, .. } => {
                    if !bitset_at(map, *c as usize) {
                        return None;
                    }
                    Some(Some(pc + 1))
                },
                _ => None,
            },
            OpCode::Push | OpCode::PushOrJumpByteSet => {
                let addr = match &op.payload {
                    OperationPayload::Push { addr } => *addr,
                    OperationPayload::PushOrJumpByteSet { addr, .. } => *addr,
                    OperationPayload::PushOrJumpExact1 { addr, .. } => *addr,
                    _ => return None,
                };
                match model_push(reg, pc, op, addr, stack) {
                    Some(x) => Some(Some(x)),
                    None => None,
                }
            },
            OpCode::Mark => match &op.payload {
                OperationPayload::Mark { id, .. } => {
                    stack.push(RetryEntry::Mark(*id));
                    Some(Some(pc + 1))
                },
                _ => None,
            },
            // Drops what the path pushed since its mark; a mark from before
            // `entry` would drop the push itself.
            OpCode::CutToMark => match &op.payload {
                OperationPayload::CutToMark { id, .. } => {
                    if pop_to_mark(stack, *id) {
                        Some(Some(pc + 1))
                    } else {
                        None
                    }
                },
                _ => None,
            },
            OpCode::MemStartPush | OpCode::MemEndPush | OpCode::EmptyCheckStart => Some(Some(pc + 1)),
            OpCode::LookBehindOp => match check_outcome(pc, passes, checks) {
                None => None,
                Some(true) => Some(Some(pc + 2)),
                Some(false) => Some(None),
            },
            OpCode::Fail => Some(None),
            OpCode::WordBoundary | OpCode::NoWordBoundary | OpCode::WordBegin | OpCode::WordEnd
            | OpCode::TextSegmentBoundary | OpCode::BeginBuf | OpCode::EndBuf | OpCode::BeginLine
            | OpCode::EndLine | OpCode::SemiEndBuf | OpCode::CheckPosition => match check_outcome(pc, passes, checks) {
                None => None,
                Some(true) => Some(Some(pc + 1)),
                Some(false) => Some(None),
            },
            _ => None,
        },
    }
}

/// One run of the model from `entry` with the check outcomes in `passes`:
/// the failures it takes until the stack has no alternative left.
fn run_model(reg: &RegexType, entry: usize, map: &ByteMap, passes: u32, checks: &mut Vec<usize>) -> (r: Option<u32>)
    requires
        reg.ops@.len() <= isize::MAX,
    ensures
        match model_run(reg, entry as int, *map, passes, old(checks)@) {
            Some((f, ch)) => r == Some(f) && final(checks)@ == ch,
            None => r is None,
        },
{
    let mut stack: Vec<RetryEntry> = Vec::new();
    let mut pc = entry;
    let mut failures: u32 = 0;
    let mut steps: usize = 0;
    while steps < MAX_RUN_STEPS
        invariant
            steps <= MAX_RUN_STEPS,
            reg.ops@.len() <= isize::MAX,
            model_run(reg, entry as int, *map, passes, old(checks)@) == run_from(
                reg,
                *map,
                passes,
                pc as int,
                stack@,
                failures as nat,
                checks@,
                (MAX_RUN_STEPS - steps) as nat,
            ),
        decreases MAX_RUN_STEPS - steps,
    {
        let next = match model_instr(reg, map, passes, pc, &mut stack, checks) {
            Some(x) => x,
            None => return None,
        };
        match next {
            Some(x) => {
                pc = x;
            },
            None => {
                if failures == u32::MAX {
                    return None;
                }
                failures = failures + 1;
                match pop_to_alt(&mut stack) {
                    // The push's own alternative: the main path is done.
                    None => return Some(failures),
                    Some(alt) => {
                        pc = alt;
                    },
                }
            },
        }
        steps = steps + 1;
    }
    None
}

/// `2` to the power `k`, for the combinations of `k` checks.
fn combinations(k: usize) -> (r: u32)
    requires
        k <= MAX_CHECKS,
    ensures
        r as nat == vstd::arithmetic::power2::pow2(k as nat),
        r <= 64,
{
    proof {
        vstd::arithmetic::power2::lemma2_to64();
    }
    let mut r: u32 = 1;
    let mut i: usize = 0;
    while i < k
        invariant
            i <= k <= MAX_CHECKS,
            r as nat == vstd::arithmetic::power2::pow2(i as nat),
            vstd::arithmetic::power2::pow2(0) == 1 && vstd::arithmetic::power2::pow2(1) == 2
                && vstd::arithmetic::power2::pow2(2) == 4 && vstd::arithmetic::power2::pow2(3) == 8
                && vstd::arithmetic::power2::pow2(4) == 16 && vstd::arithmetic::power2::pow2(5) == 32
                && vstd::arithmetic::power2::pow2(6) == 64,
        decreases k - i,
    {
        r = r * 2;
        i = i + 1;
    }
    r
}

/// The backtracks an unguarded push takes when the current byte is outside
/// `map`, the guard byte map of its main path starting at `entry`. Every
/// path from `entry` then fails without consuming, and each failure is one
/// backtrack: a guard that jumps instead counts them itself, so that the
/// retry limits trip where they do without the guard.
///
/// Runs the main path on a model of the backtracking stack: string and class
/// instructions fail, pushes and marks stack up, cuts drop what their mark
/// covers. Checks and fused look-behinds depend on the position, so every
/// combination of their outcomes is run, and the count must not depend on
/// them. `None` when it does, or for instructions the model does not cover;
/// such a push stays unguarded.
pub fn guard_skipped_retries(reg: &RegexType, entry: usize, map: &ByteMap) -> (r: Option<u32>)
    requires
        reg.ops@.len() <= isize::MAX,
    ensures
        r == retries_from(reg, entry as int, *map, 0, Seq::empty(), None),
{
    let mut checks: Vec<usize> = Vec::new();
    let mut count: Option<u32> = None;
    let mut passes: u32 = 0;
    loop
        invariant
            passes < 64,
            reg.ops@.len() <= isize::MAX,
            retries_from(reg, entry as int, *map, 0, Seq::empty(), None) == retries_from(
                reg,
                entry as int,
                *map,
                passes,
                checks@,
                count,
            ),
        decreases 64 - passes,
    {
        let failures = match run_model(reg, entry, map, passes, &mut checks) {
            Some(f) => f,
            None => return None,
        };
        match count {
            Some(c) => {
                if c != failures {
                    return None;
                }
            },
            None => {},
        }
        count = Some(failures);
        if checks.len() > MAX_CHECKS {
            return None;
        }
        let total = combinations(checks.len());
        if passes + 1 >= total {
            return count;
        }
        passes = passes + 1;
    }
}

} // verus!
