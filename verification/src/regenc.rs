//! The encoding interface and the encoding helpers shared by the encodings.
use vstd::prelude::*;

use crate::encodings::ascii::AsciiEncoding;
use crate::encodings::utf8::Utf8Encoding;
use crate::oniguruma::{
    OnigCaseFoldCodeItem, OnigCaseFoldType, OnigCodePoint, OnigPairCaseFoldCodes,
    ONIGENC_CASE_FOLD_ASCII_ONLY, ONIGENC_CTYPE_GRAPH, ONIGENC_CTYPE_LOWER, ONIGENC_CTYPE_NEWLINE,
    ONIGENC_CTYPE_PRINT, ONIGENC_CTYPE_UPPER, ONIGENC_CTYPE_WORD, ONIGERR_INVALID_CHAR_PROPERTY_NAME,
    ONIGERR_INVALID_CODE_POINT_VALUE, ONIG_NORMAL,
};

verus! {

// === Encoding flags ===
pub const ENC_FLAG_ASCII_COMPATIBLE: u32 = 0x1;
pub const ENC_FLAG_UNICODE: u32 = 0x2;
pub const ENC_FLAG_SKIP_OFFSET_MASK: u32 = 0x1c;
pub const ENC_FLAG_SKIP_OFFSET_0: u32 = 0;
pub const ENC_FLAG_SKIP_OFFSET_1: u32 = 0x4;
pub const ENC_FLAG_SKIP_OFFSET_2: u32 = 0x8;
pub const ENC_FLAG_SKIP_OFFSET_3: u32 = 0xc;
pub const ENC_FLAG_SKIP_OFFSET_4: u32 = 0x10;
pub const ENC_SKIP_OFFSET_1_OR_0: u32 = 7;
pub const ENC_FLAG_SKIP_OFFSET_1_OR_0: u32 = 0x1c;

pub const MAX_CODE_POINT: OnigCodePoint = 0xffff_ffff;
pub const ASCII_LIMIT: OnigCodePoint = 127;
pub const NEWLINE_CODE: OnigCodePoint = 0x0a;

/// A character encoding as the engine sees it.
///
/// The spec functions name what each method answers; every implementation
/// fixes them and proves its methods against them.
pub trait Encoding {
    /// The length the encoding gives the character that `p` starts with.
    spec fn enc_len_spec(&self, p: Seq<u8>) -> nat;

    /// The code point of the character that `p` starts with.
    spec fn code_spec(&self, p: Seq<u8>) -> OnigCodePoint;

    /// The start of the character that holds byte `s`, looking no further back than `start`.
    spec fn left_adjust_spec(&self, start: int, s: int, data: Seq<u8>) -> int;

    /// Whether `code` has character type `ctype`.
    spec fn ctype_spec(&self, code: OnigCodePoint, ctype: u32) -> bool;

    /// Whether `s` is a valid string of the encoding.
    spec fn valid_spec(&self, s: Seq<u8>) -> bool;

    /// The encoding's flags.
    spec fn flag_spec(&self) -> u32;

    /// The longest character the encoding has, in bytes.
    spec fn max_len_spec(&self) -> nat;

    /// The number of bytes `code_to_mbc` writes for `code`.
    spec fn code_len_spec(&self, code: OnigCodePoint) -> nat;

    /// The case-folded bytes of the character at `p` of `source` (which
    /// ends at `end`), and where the next character starts.
    spec fn fold_spec(&self, source: Seq<u8>, p: int, end: int) -> (Seq<u8>, int);

    /// Character lengths are at least one byte and at most the maximum.
    proof fn lemma_enc_len_bounds(&self, p: Seq<u8>)
        requires
            p.len() > 0,
        ensures
            1 <= self.enc_len_spec(p) <= self.max_len_spec(),
            self.max_len_spec() <= 4,
    ;

    /// Left adjustment stays between `start` and `s` when `s` is not before `start`.
    proof fn lemma_left_adjust_bounds(&self, start: int, s: int, data: Seq<u8>)
        requires
            0 <= start <= s < data.len(),
        ensures
            start <= self.left_adjust_spec(start, s, data) <= s,
    ;

    /// Returns the byte length of the character `p` starts with.
    fn mbc_enc_len(&self, p: &[u8]) -> (r: usize)
        requires
            p@.len() > 0,
        ensures
            r == self.enc_len_spec(p@),
    ;

    /// The encoding's name.
    fn name(&self) -> &str;

    /// The longest character in bytes.
    fn max_enc_len(&self) -> (r: usize)
        ensures
            r == self.max_len_spec(),
    ;

    /// The shortest character in bytes.
    fn min_enc_len(&self) -> usize;

    /// Whether `p` starts with a newline.
    fn is_mbc_newline(&self, p: &[u8], end: usize) -> bool;

    /// The code point of the character `p` starts with.
    fn mbc_to_code(&self, p: &[u8], end: usize) -> (r: OnigCodePoint)
        requires
            p@.len() > 0,
        ensures
            r == self.code_spec(p@),
    ;

    /// The byte length needed to encode `code`, or an error code.
    fn code_to_mbclen(&self, code: OnigCodePoint) -> i32;

    /// Writes the encoding of `code` to `buf`; returns the number of bytes written.
    fn code_to_mbc(&self, code: OnigCodePoint, buf: &mut [u8]) -> i32
        requires
            old(buf)@.len() >= self.code_len_spec(code),
    ;

    /// Folds the character at `*pp` of `source` into `fold_buf` and moves `*pp` past it.
    fn mbc_case_fold(
        &self,
        flag: OnigCaseFoldType,
        pp: &mut usize,
        end: usize,
        source: &[u8],
        fold_buf: &mut [u8],
    ) -> (r: i32)
        requires
            *old(pp) < source@.len(),
            *old(pp) < end <= source@.len(),
            old(fold_buf)@.len() >= self.max_len_spec(),
        ensures
            *final(pp) == self.fold_spec(source@, *old(pp) as int, end as int).1,
            *old(pp) < *final(pp) <= end,
            r == self.fold_spec(source@, *old(pp) as int, end as int).0.len(),
            0 < r <= self.max_len_spec(),
            final(fold_buf)@.len() == old(fold_buf)@.len(),
            final(fold_buf)@.subrange(0, r as int) == self.fold_spec(source@, *old(pp) as int, end as int).0,
    ;

    /// Calls `f` with every pair of code points that fold to each other (the
    /// ASCII letter pairs), stopping at the first non-zero answer and
    /// returning it, or 0.
    fn apply_all_case_fold<F: FnMut(OnigCodePoint, &[OnigCodePoint]) -> i32>(
        &self,
        flag: OnigCaseFoldType,
        f: &mut F,
    ) -> (r: i32)
        requires
            forall|a: OnigCodePoint, b: &[OnigCodePoint]| call_requires(*old(f), (a, b)),
        ensures
            ascii_fold_outcome(*old(f), r),
    ;

    /// Writes the case variants of the character `p` starts with (the other
    /// case of an ASCII letter) to `items`; returns their number.
    fn get_case_fold_codes_by_str(
        &self,
        flag: OnigCaseFoldType,
        p: &[u8],
        end: usize,
        items: &mut [OnigCaseFoldCodeItem],
    ) -> (r: i32)
        requires
            p@.len() > 0,
            old(items)@.len() >= 1,
        ensures
            final(items)@.len() == old(items)@.len(),
            0x41 <= p@[0] <= 0x5a ==> r == 1 && final(items)@[0].byte_len == 1 && final(items)@[0].code_len
                == 1 && final(items)@[0].code@[0] == p@[0] + 0x20,
            0x61 <= p@[0] <= 0x7a ==> r == 1 && final(items)@[0].byte_len == 1 && final(items)@[0].code_len
                == 1 && final(items)@[0].code@[0] == p@[0] - 0x20,
            !(0x41 <= p@[0] <= 0x5a || 0x61 <= p@[0] <= 0x7a) ==> r == 0 && final(items)@ == old(items)@,
            forall|i: int| 1 <= i < old(items)@.len() ==> final(items)@[i] == old(items)@[i],
    ;

    /// The character type a property name stands for, or an error code.
    fn property_name_to_ctype(&self, p: &[u8]) -> i32;

    /// Whether `code` has character type `ctype`.
    fn is_code_ctype(&self, code: OnigCodePoint, ctype: u32) -> (r: bool)
        ensures
            r == self.ctype_spec(code, ctype),
    ;

    /// The code point ranges of a character type, where the encoding has them.
    fn get_ctype_code_range(&self, ctype: u32, sb_out: &mut OnigCodePoint) -> Option<
        &'static [OnigCodePoint],
    >;

    /// The start of the character that holds byte `s`, looking no further back than `start`.
    fn left_adjust_char_head(&self, start: usize, s: usize, data: &[u8]) -> (r: usize)
        requires
            s < data@.len(),
        ensures
            r == self.left_adjust_spec(start as int, s as int, data@),
    ;

    /// Whether a backward match may stop at `p`.
    fn is_allowed_reverse_match(&self, p: &[u8]) -> bool;

    /// Sets the encoding up.
    fn init(&self) -> i32;

    /// Whether the encoding has been set up.
    fn is_initialized(&self) -> bool;

    /// Whether `s` is a valid string of the encoding.
    fn is_valid_mbc_string(&self, s: &[u8]) -> (r: bool)
        ensures
            r == self.valid_spec(s@),
    ;

    /// The encoding's flags.
    fn flag(&self) -> (r: u32)
        ensures
            r == self.flag_spec(),
    ;

    /// The bound below which code points are single bytes (0 where none is set).
    fn sb_range(&self) -> OnigCodePoint;

    /// The encoding's index among the encodings.
    fn index(&self) -> i32;
}

/// The encodings a pattern can be compiled for.
#[derive(Clone, Copy, Debug, PartialEq, Eq, Structural)]
pub enum OnigEncoding {
    Ascii,
    Utf8,
}

impl Encoding for OnigEncoding {
    open spec fn enc_len_spec(&self, p: Seq<u8>) -> nat {
        match self {
            OnigEncoding::Ascii => AsciiEncoding.enc_len_spec(p),
            OnigEncoding::Utf8 => Utf8Encoding.enc_len_spec(p),
        }
    }

    open spec fn code_spec(&self, p: Seq<u8>) -> OnigCodePoint {
        match self {
            OnigEncoding::Ascii => AsciiEncoding.code_spec(p),
            OnigEncoding::Utf8 => Utf8Encoding.code_spec(p),
        }
    }

    open spec fn left_adjust_spec(&self, start: int, s: int, data: Seq<u8>) -> int {
        match self {
            OnigEncoding::Ascii => AsciiEncoding.left_adjust_spec(start, s, data),
            OnigEncoding::Utf8 => Utf8Encoding.left_adjust_spec(start, s, data),
        }
    }

    open spec fn ctype_spec(&self, code: OnigCodePoint, ctype: u32) -> bool {
        match self {
            OnigEncoding::Ascii => AsciiEncoding.ctype_spec(code, ctype),
            OnigEncoding::Utf8 => Utf8Encoding.ctype_spec(code, ctype),
        }
    }

    open spec fn valid_spec(&self, s: Seq<u8>) -> bool {
        match self {
            OnigEncoding::Ascii => AsciiEncoding.valid_spec(s),
            OnigEncoding::Utf8 => Utf8Encoding.valid_spec(s),
        }
    }

    open spec fn flag_spec(&self) -> u32 {
        match self {
            OnigEncoding::Ascii => AsciiEncoding.flag_spec(),
            OnigEncoding::Utf8 => Utf8Encoding.flag_spec(),
        }
    }

    open spec fn max_len_spec(&self) -> nat {
        match self {
            OnigEncoding::Ascii => AsciiEncoding.max_len_spec(),
            OnigEncoding::Utf8 => Utf8Encoding.max_len_spec(),
        }
    }

    open spec fn code_len_spec(&self, code: OnigCodePoint) -> nat {
        match self {
            OnigEncoding::Ascii => AsciiEncoding.code_len_spec(code),
            OnigEncoding::Utf8 => Utf8Encoding.code_len_spec(code),
        }
    }

    open spec fn fold_spec(&self, source: Seq<u8>, p: int, end: int) -> (Seq<u8>, int) {
        match self {
            OnigEncoding::Ascii => AsciiEncoding.fold_spec(source, p, end),
            OnigEncoding::Utf8 => Utf8Encoding.fold_spec(source, p, end),
        }
    }

    proof fn lemma_enc_len_bounds(&self, p: Seq<u8>) {
        match self {
            OnigEncoding::Ascii => AsciiEncoding.lemma_enc_len_bounds(p),
            OnigEncoding::Utf8 => Utf8Encoding.lemma_enc_len_bounds(p),
        }
    }

    proof fn lemma_left_adjust_bounds(&self, start: int, s: int, data: Seq<u8>) {
        match self {
            OnigEncoding::Ascii => AsciiEncoding.lemma_left_adjust_bounds(start, s, data),
            OnigEncoding::Utf8 => Utf8Encoding.lemma_left_adjust_bounds(start, s, data),
        }
    }

    fn mbc_enc_len(&self, p: &[u8]) -> (r: usize) {
        match self {
            OnigEncoding::Ascii => AsciiEncoding.mbc_enc_len(p),
            OnigEncoding::Utf8 => Utf8Encoding.mbc_enc_len(p),
        }
    }

    fn name(&self) -> (r: &str)
        ensures
            r@ == (match self {
                OnigEncoding::Ascii => "US-ASCII"@,
                OnigEncoding::Utf8 => "UTF-8"@,
            }),
    {
        match self {
            OnigEncoding::Ascii => "US-ASCII",
            OnigEncoding::Utf8 => "UTF-8",
        }
    }

    fn max_enc_len(&self) -> (r: usize) {
        match self {
            OnigEncoding::Ascii => AsciiEncoding.max_enc_len(),
            OnigEncoding::Utf8 => Utf8Encoding.max_enc_len(),
        }
    }

    fn min_enc_len(&self) -> (r: usize)
        ensures
            r == 1,
    {
        match self {
            OnigEncoding::Ascii => AsciiEncoding.min_enc_len(),
            OnigEncoding::Utf8 => Utf8Encoding.min_enc_len(),
        }
    }

    fn is_mbc_newline(&self, p: &[u8], end: usize) -> (r: bool)
        ensures
            r == (p@.len() > 0 && end > 0 && p@[0] == 0x0a),
    {
        match self {
            OnigEncoding::Ascii => AsciiEncoding.is_mbc_newline(p, end),
            OnigEncoding::Utf8 => Utf8Encoding.is_mbc_newline(p, end),
        }
    }

    fn mbc_to_code(&self, p: &[u8], end: usize) -> (r: OnigCodePoint) {
        match self {
            OnigEncoding::Ascii => AsciiEncoding.mbc_to_code(p, end),
            OnigEncoding::Utf8 => Utf8Encoding.mbc_to_code(p, end),
        }
    }

    fn code_to_mbclen(&self, code: OnigCodePoint) -> (r: i32)
        ensures
            r == (match self {
                OnigEncoding::Ascii => AsciiEncoding::mbclen_spec(code),
                OnigEncoding::Utf8 => Utf8Encoding::mbclen_spec(code),
            }),
    {
        match self {
            OnigEncoding::Ascii => AsciiEncoding.code_to_mbclen(code),
            OnigEncoding::Utf8 => Utf8Encoding.code_to_mbclen(code),
        }
    }

    fn code_to_mbc(&self, code: OnigCodePoint, buf: &mut [u8]) -> (r: i32)
        ensures
            final(buf)@.len() == old(buf)@.len(),
            match self {
                OnigEncoding::Ascii => r == 1 && final(buf)@[0] == (code & 0xff) as u8,
                OnigEncoding::Utf8 => match Utf8Encoding::encode_spec(code) {
                    Some(bytes) => r == bytes.len() && final(buf)@.subrange(0, r as int) == bytes,
                    None => r == crate::oniguruma::ONIGERR_TOO_BIG_WIDE_CHAR_VALUE,
                },
            },
    {
        match self {
            OnigEncoding::Ascii => AsciiEncoding.code_to_mbc(code, buf),
            OnigEncoding::Utf8 => Utf8Encoding.code_to_mbc(code, buf),
        }
    }

    fn mbc_case_fold(
        &self,
        flag: OnigCaseFoldType,
        pp: &mut usize,
        end: usize,
        source: &[u8],
        fold_buf: &mut [u8],
    ) -> (r: i32) {
        match self {
            OnigEncoding::Ascii => AsciiEncoding.mbc_case_fold(flag, pp, end, source, fold_buf),
            OnigEncoding::Utf8 => Utf8Encoding.mbc_case_fold(flag, pp, end, source, fold_buf),
        }
    }

    fn apply_all_case_fold<F: FnMut(OnigCodePoint, &[OnigCodePoint]) -> i32>(
        &self,
        flag: OnigCaseFoldType,
        f: &mut F,
    ) -> i32 {
        match self {
            OnigEncoding::Ascii => AsciiEncoding.apply_all_case_fold(flag, f),
            OnigEncoding::Utf8 => Utf8Encoding.apply_all_case_fold(flag, f),
        }
    }

    fn get_case_fold_codes_by_str(
        &self,
        flag: OnigCaseFoldType,
        p: &[u8],
        end: usize,
        items: &mut [OnigCaseFoldCodeItem],
    ) -> i32 {
        match self {
            OnigEncoding::Ascii => AsciiEncoding.get_case_fold_codes_by_str(flag, p, end, items),
            OnigEncoding::Utf8 => Utf8Encoding.get_case_fold_codes_by_str(flag, p, end, items),
        }
    }

    fn property_name_to_ctype(&self, p: &[u8]) -> (r: i32)
        ensures
            r == ONIGERR_INVALID_CHAR_PROPERTY_NAME,
    {
        match self {
            OnigEncoding::Ascii => AsciiEncoding.property_name_to_ctype(p),
            OnigEncoding::Utf8 => Utf8Encoding.property_name_to_ctype(p),
        }
    }

    fn is_code_ctype(&self, code: OnigCodePoint, ctype: u32) -> (r: bool) {
        match self {
            OnigEncoding::Ascii => AsciiEncoding.is_code_ctype(code, ctype),
            OnigEncoding::Utf8 => Utf8Encoding.is_code_ctype(code, ctype),
        }
    }

    fn get_ctype_code_range(&self, ctype: u32, sb_out: &mut OnigCodePoint) -> (r: Option<
        &'static [OnigCodePoint],
    >)
        ensures
            r is None,
            *final(sb_out) == (match self {
                OnigEncoding::Ascii => *old(sb_out),
                OnigEncoding::Utf8 => 0x80,
            }),
    {
        match self {
            OnigEncoding::Ascii => AsciiEncoding.get_ctype_code_range(ctype, sb_out),
            OnigEncoding::Utf8 => Utf8Encoding.get_ctype_code_range(ctype, sb_out),
        }
    }

    fn left_adjust_char_head(&self, start: usize, s: usize, data: &[u8]) -> (r: usize) {
        match self {
            OnigEncoding::Ascii => AsciiEncoding.left_adjust_char_head(start, s, data),
            OnigEncoding::Utf8 => Utf8Encoding.left_adjust_char_head(start, s, data),
        }
    }

    fn is_allowed_reverse_match(&self, p: &[u8]) -> (r: bool)
        ensures
            r,
    {
        match self {
            OnigEncoding::Ascii => AsciiEncoding.is_allowed_reverse_match(p),
            OnigEncoding::Utf8 => Utf8Encoding.is_allowed_reverse_match(p),
        }
    }

    fn init(&self) -> (r: i32)
        ensures
            r == ONIG_NORMAL,
    {
        match self {
            OnigEncoding::Ascii => AsciiEncoding.init(),
            OnigEncoding::Utf8 => Utf8Encoding.init(),
        }
    }

    fn is_initialized(&self) -> (r: bool)
        ensures
            r == (self == OnigEncoding::Utf8),
    {
        match self {
            OnigEncoding::Ascii => AsciiEncoding.is_initialized(),
            OnigEncoding::Utf8 => Utf8Encoding.is_initialized(),
        }
    }

    fn is_valid_mbc_string(&self, s: &[u8]) -> (r: bool) {
        match self {
            OnigEncoding::Ascii => AsciiEncoding.is_valid_mbc_string(s),
            OnigEncoding::Utf8 => Utf8Encoding.is_valid_mbc_string(s),
        }
    }

    fn flag(&self) -> (r: u32) {
        match self {
            OnigEncoding::Ascii => AsciiEncoding.flag(),
            OnigEncoding::Utf8 => Utf8Encoding.flag(),
        }
    }

    fn sb_range(&self) -> (r: OnigCodePoint)
        ensures
            r == 0,
    {
        match self {
            OnigEncoding::Ascii => AsciiEncoding.sb_range(),
            OnigEncoding::Utf8 => Utf8Encoding.sb_range(),
        }
    }

    fn index(&self) -> (r: i32)
        ensures
            r == 0,
    {
        match self {
            OnigEncoding::Ascii => AsciiEncoding.index(),
            OnigEncoding::Utf8 => Utf8Encoding.index(),
        }
    }
}

// === Encoding queries ===
/// The skip offset field of the encoding's flags.
pub fn enc_get_skip_offset(enc: OnigEncoding) -> (r: u32)
    ensures
        r == (enc.flag_spec() & ENC_FLAG_SKIP_OFFSET_MASK) >> 2,
{
    (enc.flag() & ENC_FLAG_SKIP_OFFSET_MASK) >> 2
}

/// Whether the encoding is a Unicode encoding.
pub fn onigenc_is_unicode_encoding(enc: OnigEncoding) -> (r: bool)
    ensures
        r == (enc.flag_spec() & ENC_FLAG_UNICODE != 0),
{
    (enc.flag() & ENC_FLAG_UNICODE) != 0
}

/// Whether ASCII bytes stand for themselves in the encoding.
pub fn onigenc_is_ascii_compatible_encoding(enc: OnigEncoding) -> (r: bool)
    ensures
        r == (enc.flag_spec() & ENC_FLAG_ASCII_COMPATIBLE != 0),
{
    (enc.flag() & ENC_FLAG_ASCII_COMPATIBLE) != 0
}

/// Whether every character of the encoding is one byte.
pub fn onigenc_is_singlebyte(enc: OnigEncoding) -> (r: bool)
    ensures
        r == (enc.max_len_spec() == 1),
{
    enc.max_enc_len() == 1
}

/// Whether `p` starts with a character longer than one byte.
pub fn onigenc_is_mbc_head(enc: OnigEncoding, p: &[u8]) -> (r: bool)
    requires
        p@.len() > 0,
    ensures
        r == (enc.enc_len_spec(p@) != 1),
{
    enc.mbc_enc_len(p) != 1
}

/// Whether `p` starts with an ASCII byte.
pub fn onigenc_is_mbc_ascii(p: &[u8]) -> (r: bool)
    requires
        p@.len() > 0,
    ensures
        r == (p@[0] < 128),
{
    p[0] < 128
}

/// Whether `code` is an ASCII code point.
pub fn onigenc_is_code_ascii(code: OnigCodePoint) -> (r: bool)
    ensures
        r == (code < 128),
{
    code < 128
}

/// Whether `code` is a word character of the encoding.
pub fn onigenc_is_code_word(enc: OnigEncoding, code: OnigCodePoint) -> (r: bool)
    ensures
        r == enc.ctype_spec(code, ONIGENC_CTYPE_WORD),
{
    enc.is_code_ctype(code, ONIGENC_CTYPE_WORD)
}

/// Whether `code` is a newline of the encoding.
pub fn onigenc_is_code_newline(enc: OnigEncoding, code: OnigCodePoint) -> (r: bool)
    ensures
        r == enc.ctype_spec(code, ONIGENC_CTYPE_NEWLINE),
{
    enc.is_code_ctype(code, ONIGENC_CTYPE_NEWLINE)
}

// === Case fold flags ===
/// Whether case folding is restricted to ASCII.
pub fn case_fold_is_ascii_only(flag: OnigCaseFoldType) -> (r: bool)
    ensures
        r == (flag & ONIGENC_CASE_FOLD_ASCII_ONLY != 0),
{
    (flag & ONIGENC_CASE_FOLD_ASCII_ONLY) != 0
}

/// Whether case folding reaches beyond ASCII.
pub fn case_fold_is_not_ascii_only(flag: OnigCaseFoldType) -> (r: bool)
    ensures
        r == (flag & ONIGENC_CASE_FOLD_ASCII_ONLY == 0),
{
    (flag & ONIGENC_CASE_FOLD_ASCII_ONLY) == 0
}

// === Character type bits ===
pub const BIT_CTYPE_NEWLINE: u32 = 0x1;
pub const BIT_CTYPE_ALPHA: u32 = 0x2;
pub const BIT_CTYPE_BLANK: u32 = 0x4;
pub const BIT_CTYPE_CNTRL: u32 = 0x8;
pub const BIT_CTYPE_DIGIT: u32 = 0x10;
pub const BIT_CTYPE_GRAPH: u32 = 0x20;
pub const BIT_CTYPE_LOWER: u32 = 0x40;
pub const BIT_CTYPE_PRINT: u32 = 0x80;
pub const BIT_CTYPE_PUNCT: u32 = 0x100;
pub const BIT_CTYPE_SPACE: u32 = 0x200;
pub const BIT_CTYPE_UPPER: u32 = 0x400;
pub const BIT_CTYPE_XDIGIT: u32 = 0x800;
pub const BIT_CTYPE_WORD: u32 = 0x1000;
pub const BIT_CTYPE_ALNUM: u32 = 0x2000;
pub const BIT_CTYPE_ASCII: u32 = 0x4000;

/// The bit that stands for character type `ctype`.
pub fn ctype_to_bit(ctype: u32) -> (r: u32)
    requires
        ctype < 32,
    ensures
        r == 1u32 << ctype,
{
    1u32 << ctype
}

/// Whether `ctype` is the word, graph or print type.
pub fn ctype_is_word_graph_print(ctype: u32) -> (r: bool)
    ensures
        r == (ctype == ONIGENC_CTYPE_WORD || ctype == ONIGENC_CTYPE_GRAPH || ctype
            == ONIGENC_CTYPE_PRINT),
{
    ctype == ONIGENC_CTYPE_WORD || ctype == ONIGENC_CTYPE_GRAPH || ctype == ONIGENC_CTYPE_PRINT
}

// === ASCII tables ===
/// The character type bits of each byte (zero from 0x80 on).
pub open spec fn ascii_ctype_table(c: int) -> u16 {
    if 0 <= c <= 7 {
        0x4008
    } else if 8 <= c <= 9 {
        0x420c
    } else if c == 10 {
        0x4209
    } else if 11 <= c <= 13 {
        0x4208
    } else if 14 <= c <= 31 {
        0x4008
    } else if c == 32 {
        0x4284
    } else if 33 <= c <= 47 {
        0x41a0
    } else if 48 <= c <= 57 {
        0x78b0
    } else if 58 <= c <= 64 {
        0x41a0
    } else if 65 <= c <= 70 {
        0x7ca2
    } else if 71 <= c <= 90 {
        0x74a2
    } else if 91 <= c <= 94 {
        0x41a0
    } else if c == 95 {
        0x51a0
    } else if c == 96 {
        0x41a0
    } else if 97 <= c <= 102 {
        0x78e2
    } else if 103 <= c <= 122 {
        0x70e2
    } else if 123 <= c <= 126 {
        0x41a0
    } else if c == 127 {
        0x4008
    } else {
        0
    }
}

/// The lower case of an ASCII byte; every other byte stays.
pub open spec fn ascii_lower(c: u8) -> u8 {
    if 0x41 <= c <= 0x5a { (c + 0x20) as u8 } else { c }
}

/// Whether code point `code` has ASCII character type `ctype`.
pub open spec fn ascii_has_ctype(code: u32, ctype: u32) -> bool {
    code < 256 && ctype < 32 && ascii_ctype_table(code as int) & ((1u32 << ctype) as u16) != 0
}

/// The character type bits of byte `c`.
pub fn ascii_ctype_bits(c: u8) -> (r: u16)
    ensures
        r == ascii_ctype_table(c as int),
{
    if c <= 7 {
        0x4008
    } else if c <= 9 {
        0x420c
    } else if c == 10 {
        0x4209
    } else if c <= 13 {
        0x4208
    } else if c <= 31 {
        0x4008
    } else if c == 32 {
        0x4284
    } else if c <= 47 {
        0x41a0
    } else if c <= 57 {
        0x78b0
    } else if c <= 64 {
        0x41a0
    } else if c <= 70 {
        0x7ca2
    } else if c <= 90 {
        0x74a2
    } else if c <= 94 {
        0x41a0
    } else if c == 95 {
        0x51a0
    } else if c == 96 {
        0x41a0
    } else if c <= 102 {
        0x78e2
    } else if c <= 122 {
        0x70e2
    } else if c <= 126 {
        0x41a0
    } else if c == 127 {
        0x4008
    } else {
        0
    }
}

/// Whether code point `code` has ASCII character type `ctype` (false from 256 on).
pub fn onigenc_is_ascii_code_ctype(code: u32, ctype: u32) -> (r: bool)
    requires
        ctype < 32,
    ensures
        r == ascii_has_ctype(code, ctype),
{
    if code < 256 {
        (ascii_ctype_bits(code as u8) & (ctype_to_bit(ctype) as u16)) != 0
    } else {
        false
    }
}

/// The lower case of an ASCII byte.
pub fn onigenc_ascii_code_to_lower_case(c: u8) -> (r: u8)
    ensures
        r == ascii_lower(c),
{
    if c >= 0x41 && c <= 0x5a {
        c + 0x20
    } else {
        c
    }
}

/// Whether `code` is an ASCII letter (upper or lower case).
pub fn onigenc_is_ascii_code_case_ambig(code: u32) -> (r: bool)
    ensures
        r == (ascii_has_ctype(code, ONIGENC_CTYPE_UPPER) || ascii_has_ctype(code, ONIGENC_CTYPE_LOWER)),
{
    onigenc_is_ascii_code_ctype(code, ONIGENC_CTYPE_UPPER) || onigenc_is_ascii_code_ctype(
        code,
        ONIGENC_CTYPE_LOWER,
    )
}

/// The case fold pair A-Z -> a-z at `i`.
pub fn onig_ascii_lower_map(i: usize) -> (r: OnigPairCaseFoldCodes)
    requires
        i < 26,
    ensures
        r.from == 0x41 + i,
        r.to == 0x61 + i,
{
    OnigPairCaseFoldCodes { from: 0x41 + i as u32, to: 0x61 + i as u32 }
}

// === Helpers shared by the encodings ===
/// A single-byte encoding's characters are one byte long.
pub fn onigenc_single_byte_mbc_enc_len(_p: &[u8]) -> (r: usize)
    ensures
        r == 1,
{
    1
}

/// A single-byte encoding's code point is the byte.
pub fn onigenc_single_byte_mbc_to_code(p: &[u8], _end: usize) -> (r: OnigCodePoint)
    requires
        p@.len() > 0,
    ensures
        r == p@[0] as u32,
{
    p[0] as OnigCodePoint
}

/// A code point below 256 takes one byte; others are invalid.
pub fn onigenc_single_byte_code_to_mbclen(code: OnigCodePoint) -> (r: i32)
    ensures
        r == (if code < 256 { 1 } else { ONIGERR_INVALID_CODE_POINT_VALUE }),
{
    if code < 256 {
        1
    } else {
        ONIGERR_INVALID_CODE_POINT_VALUE
    }
}

/// Writes the low byte of `code`.
pub fn onigenc_single_byte_code_to_mbc(code: OnigCodePoint, buf: &mut [u8]) -> (r: i32)
    requires
        old(buf)@.len() >= 1,
    ensures
        r == 1,
        final(buf)@ == old(buf)@.update(0, (code & 0xff) as u8),
{
    buf[0] = (code & 0xff) as u8;
    1
}

/// Every byte starts a character of a single-byte encoding.
pub fn onigenc_single_byte_left_adjust_char_head(_start: usize, s: usize, _data: &[u8]) -> (r: usize)
    ensures
        r == s,
{
    s
}

/// Reverse matching is allowed everywhere.
pub fn onigenc_always_true_is_allowed_reverse_match(_p: &[u8]) -> (r: bool)
    ensures
        r,
{
    true
}

/// Reverse matching is allowed nowhere.
pub fn onigenc_always_false_is_allowed_reverse_match(_p: &[u8]) -> (r: bool)
    ensures
        !r,
{
    false
}

/// Every string is valid.
pub fn onigenc_always_true_is_valid_mbc_string(_s: &[u8]) -> (r: bool)
    ensures
        r,
{
    true
}

/// Whether `p` starts with byte 0x0a and `end` is not zero.
pub fn onigenc_is_mbc_newline_0x0a(p: &[u8], end: usize) -> (r: bool)
    ensures
        r == (p@.len() > 0 && end > 0 && p@[0] == 0x0a),
{
    p.len() > 0 && end > 0 && p[0] == 0x0a
}

/// Folds the ASCII byte at `*pp` to lower case into `fold_buf[0]` and steps past it.
pub fn onigenc_ascii_mbc_case_fold(
    _flag: OnigCaseFoldType,
    pp: &mut usize,
    _end: usize,
    source: &[u8],
    fold_buf: &mut [u8],
) -> (r: i32)
    requires
        *old(pp) < source@.len(),
        old(fold_buf)@.len() >= 1,
    ensures
        r == 1,
        *final(pp) == *old(pp) + 1,
        final(fold_buf)@ == old(fold_buf)@.update(0, ascii_lower(source@[*old(pp) as int])),
{
    fold_buf[0] = onigenc_ascii_code_to_lower_case(source[*pp]);
    *pp = *pp + 1;
    1
}

/// The code points of call `k` of the ASCII case-fold walk: for letter
/// `k / 2`, first (upper, lower), then (lower, upper).
pub open spec fn ascii_fold_call(k: int) -> (OnigCodePoint, OnigCodePoint) {
    let i = k / 2;
    if k % 2 == 0 {
        ((0x41 + i) as OnigCodePoint, (0x61 + i) as OnigCodePoint)
    } else {
        ((0x61 + i) as OnigCodePoint, (0x41 + i) as OnigCodePoint)
    }
}

/// `f` may answer `out` to call `k` of the ASCII case-fold walk:
/// `f(from, [to])`.
pub open spec fn ascii_fold_answer<F: FnMut(OnigCodePoint, &[OnigCodePoint]) -> i32>(f: F, k: int, out: i32) -> bool {
    exists|b: &[OnigCodePoint]| b@ == seq![ascii_fold_call(k).1] && #[trigger] call_ensures(f, (ascii_fold_call(k).0, b), out)
}

/// What the ASCII case-fold walk over `f` returns: 0 when all 52 calls
/// answered 0; otherwise the first non-zero answer, every earlier call having
/// answered 0.
pub open spec fn ascii_fold_outcome<F: FnMut(OnigCodePoint, &[OnigCodePoint]) -> i32>(f: F, r: i32) -> bool {
    &&& r == 0 ==> forall|k: int| 0 <= k < 52 ==> #[trigger] ascii_fold_answer(f, k, 0)
    &&& r != 0 ==> exists|k: int|
        0 <= k < 52 && #[trigger] ascii_fold_answer(f, k, r) && forall|j: int| 0 <= j < k ==> #[trigger] ascii_fold_answer(f, j, 0)
}

/// Calls `f(upper, [lower])` and `f(lower, [upper])` for each ASCII letter,
/// stopping at the first call that returns non-zero and returning its result.
pub fn onigenc_ascii_apply_all_case_fold<F: FnMut(OnigCodePoint, &[OnigCodePoint]) -> i32>(
    _flag: OnigCaseFoldType,
    f: &mut F,
) -> (r: i32)
    requires
        forall|a: OnigCodePoint, b: &[OnigCodePoint]| call_requires(*old(f), (a, b)),
    ensures
        ascii_fold_outcome(*old(f), r),
{
    let ghost f0 = *f;
    let mut i: usize = 0;
    while i < 26
        invariant
            i <= 26,
            *f == f0,
            f0 == *old(f),
            forall|a: OnigCodePoint, b: &[OnigCodePoint]| call_requires(*f, (a, b)),
            forall|k: int| 0 <= k < 2 * i ==> #[trigger] ascii_fold_answer(f0, k, 0),
        decreases 26 - i,
    {
        let pair = onig_ascii_lower_map(i);
        let to = [pair.to];
        let ts: &[OnigCodePoint] = &to;
        let r = f(pair.from, ts);
        proof {
            assert(ts@ =~= seq![ascii_fold_call(2 * i).1]);
            assert(pair.from == ascii_fold_call(2 * i).0);
            assert(call_ensures(*f, (pair.from, ts), r));
            assert(call_ensures(f0, (ascii_fold_call(2 * i).0, ts), r));
            assert(ascii_fold_answer(f0, 2 * i, r));
        }
        if r != 0 {
            return r;
        }
        let from = [pair.from];
        let fs: &[OnigCodePoint] = &from;
        let r = f(pair.to, fs);
        proof {
            assert(fs@ =~= seq![ascii_fold_call(2 * i + 1).1]);
            assert(pair.to == ascii_fold_call(2 * i + 1).0);
            assert(call_ensures(*f, (pair.to, fs), r));
            assert(call_ensures(f0, (ascii_fold_call(2 * i + 1).0, fs), r));
            assert(ascii_fold_answer(f0, 2 * i + 1, r));
        }
        if r != 0 {
            return r;
        }
        i = i + 1;
    }
    0
}

/// The other case of the ASCII letter `p` starts with, written to `items[0]`;
/// returns 1 for a letter and 0 (writing nothing) otherwise.
pub fn onigenc_ascii_get_case_fold_codes_by_str(
    _flag: OnigCaseFoldType,
    p: &[u8],
    _end: usize,
    items: &mut [OnigCaseFoldCodeItem],
) -> (r: i32)
    requires
        p@.len() > 0,
        old(items)@.len() >= 1,
    ensures
        final(items)@.len() == old(items)@.len(),
        0x41 <= p@[0] <= 0x5a ==> r == 1 && final(items)@[0].byte_len == 1 && final(items)@[0].code_len
            == 1 && final(items)@[0].code@[0] == p@[0] + 0x20,
        0x61 <= p@[0] <= 0x7a ==> r == 1 && final(items)@[0].byte_len == 1 && final(items)@[0].code_len
            == 1 && final(items)@[0].code@[0] == p@[0] - 0x20,
        !(0x41 <= p@[0] <= 0x5a || 0x61 <= p@[0] <= 0x7a) ==> r == 0 && final(items)@ == old(items)@,
        forall|i: int| 1 <= i < old(items)@.len() ==> final(items)@[i] == old(items)@[i],
{
    let c = p[0];
    if c >= 0x41 && c <= 0x5a {
        let mut item = items[0].clone();
        item.byte_len = 1;
        item.code_len = 1;
        item.code[0] = (c + 0x20) as OnigCodePoint;
        items[0] = item;
        1
    } else if c >= 0x61 && c <= 0x7a {
        let mut item = items[0].clone();
        item.byte_len = 1;
        item.code_len = 1;
        item.code[0] = (c - 0x20) as OnigCodePoint;
        items[0] = item;
        1
    } else {
        0
    }
}

/// No property names beyond the standard types: every name is refused.
pub fn onigenc_minimum_property_name_to_ctype(_p: &[u8]) -> (r: i32)
    ensures
        r == ONIGERR_INVALID_CHAR_PROPERTY_NAME,
{
    ONIGERR_INVALID_CHAR_PROPERTY_NAME
}

/// No code point ranges for character types.
pub fn onigenc_not_support_get_ctype_code_range(_ctype: u32, _sb_out: &mut OnigCodePoint) -> (r:
    Option<&'static [OnigCodePoint]>)
    ensures
        r is None,
        *final(_sb_out) == *old(_sb_out),
{
    None
}

// === Walking characters ===
/// The position reached from `s` by stepping back `n` characters, or None when
/// a step would start at or before `start`.
pub open spec fn step_back_spec(enc: OnigEncoding, start: int, s: int, data: Seq<u8>, n: nat) -> Option<int>
    decreases n,
{
    if n == 0 {
        Some(s)
    } else if s <= start {
        None
    } else {
        step_back_spec(enc, start, enc.left_adjust_spec(start, s - 1, data), data, (n - 1) as nat)
    }
}

/// Steps back `n` characters from `s`, never before `start`.
pub fn onigenc_step_back(enc: OnigEncoding, start: usize, s: usize, data: &[u8], n: usize) -> (r:
    Option<usize>)
    requires
        s <= data@.len(),
    ensures
        match r {
            Some(p) => step_back_spec(enc, start as int, s as int, data@, n as nat) == Some(p as int),
            None => step_back_spec(enc, start as int, s as int, data@, n as nat) is None,
        },
{
    let mut cur = s;
    let mut i: usize = 0;
    while i < n
        invariant
            i <= n,
            cur <= data@.len(),
            step_back_spec(enc, start as int, s as int, data@, n as nat) == step_back_spec(
                enc,
                start as int,
                cur as int,
                data@,
                (n - i) as nat,
            ),
        decreases n - i,
    {
        if cur <= start {
            assert(step_back_spec(enc, start as int, cur as int, data@, (n - i) as nat) is None);
            return None;
        }
        proof {
            enc.lemma_left_adjust_bounds(start as int, cur - 1, data@);
        }
        cur = enc.left_adjust_char_head(start, cur - 1, data);
        i = i + 1;
    }
    Some(cur)
}

/// The position reached from `p` after `n` characters.
pub open spec fn step_spec(enc: OnigEncoding, p: int, data: Seq<u8>, n: nat) -> int
    decreases n,
{
    if n == 0 {
        p
    } else {
        let q = step_spec(enc, p, data, (n - 1) as nat);
        q + enc.enc_len_spec(data.subrange(q, data.len() as int))
    }
}

/// Steps forward `n` characters from `p`; None when that passes `end`.
pub fn onigenc_step(enc: OnigEncoding, p: usize, end: usize, data: &[u8], n: usize) -> (r: Option<
    usize,
>)
    requires
        forall|k: nat| k < n ==> step_spec(enc, p as int, data@, k) < data@.len(),
        data@.len() + 4 <= usize::MAX,
    ensures
        r == (if step_spec(enc, p as int, data@, n as nat) <= end {
            Some(step_spec(enc, p as int, data@, n as nat) as usize)
        } else {
            None
        }),
{
    let mut q = p;
    let mut i: usize = 0;
    while i < n
        invariant
            i <= n,
            q == step_spec(enc, p as int, data@, i as nat),
            forall|k: nat| k < n ==> step_spec(enc, p as int, data@, k) < data@.len(),
            data@.len() + 4 <= usize::MAX,
        decreases n - i,
    {
        assert(q < data@.len());
        proof {
            enc.lemma_enc_len_bounds(data@.subrange(q as int, data@.len() as int));
        }
        q = q + enc.mbc_enc_len(slice_from(data, q));
        i = i + 1;
    }
    if q <= end {
        Some(q)
    } else {
        None
    }
}

/// The bytes of `data` from `at` on.
pub fn slice_from(data: &[u8], at: usize) -> (r: &[u8])
    requires
        at <= data@.len(),
    ensures
        r@ == data@.subrange(at as int, data@.len() as int),
{
    vstd::slice::slice_subrange(data, at, data.len())
}

/// The number of characters that start in `[p, end)`.
pub open spec fn strlen_spec(enc: OnigEncoding, data: Seq<u8>, p: int, end: int) -> nat
    decreases (if end > p { end - p } else { 0 }),
{
    if p >= end || p < 0 || p >= data.len() || enc.enc_len_spec(data.subrange(p, data.len() as int))
        == 0 {
        0
    } else {
        1 + strlen_spec(enc, data, p + enc.enc_len_spec(data.subrange(p, data.len() as int)), end)
    }
}

/// Counts the characters in `[p, end)`.
pub fn onigenc_strlen(enc: OnigEncoding, data: &[u8], p: usize, end: usize) -> (r: usize)
    requires
        end <= data@.len(),
        data@.len() + 4 <= usize::MAX,
    ensures
        r == strlen_spec(enc, data@, p as int, end as int),
{
    let mut n: usize = 0;
    let mut q = p;
    while q < end
        invariant
            end <= data@.len(),
            data@.len() + 4 <= usize::MAX,
            n + strlen_spec(enc, data@, q as int, end as int) == strlen_spec(enc, data@, p as int, end as int),
            n <= q,
        decreases (if end > q { end - q } else { 0 }),
    {
        proof {
            enc.lemma_enc_len_bounds(data@.subrange(q as int, data@.len() as int));
        }
        q = q + enc.mbc_enc_len(slice_from(data, q));
        n = n + 1;
    }
    n
}

/// The start of the character before `s`, or None at or before `start`.
pub fn onigenc_get_prev_char_head(enc: OnigEncoding, start: usize, s: usize, data: &[u8]) -> (r:
    Option<usize>)
    requires
        s <= data@.len(),
    ensures
        r == (if s <= start {
            None
        } else {
            Some(enc.left_adjust_spec(start as int, s - 1, data@) as usize)
        }),
{
    if s <= start {
        None
    } else {
        proof {
            enc.lemma_left_adjust_bounds(start as int, s - 1, data@);
        }
        Some(enc.left_adjust_char_head(start, s - 1, data))
    }
}

/// The first character start at or after `s`.
pub fn onigenc_get_right_adjust_char_head(enc: OnigEncoding, start: usize, s: usize, data: &[u8]) -> (r:
    usize)
    requires
        start <= s < data@.len(),
        data@.len() + 4 <= usize::MAX,
    ensures
        ({
            let p = enc.left_adjust_spec(start as int, s as int, data@);
            r == (if p < s { p + enc.enc_len_spec(data@.subrange(p, data@.len() as int)) } else { p })
        }),
{
    proof {
        enc.lemma_left_adjust_bounds(start as int, s as int, data@);
    }
    let p = enc.left_adjust_char_head(start, s, data);
    if p < s {
        proof {
            enc.lemma_enc_len_bounds(data@.subrange(p as int, data@.len() as int));
        }
        p + enc.mbc_enc_len(slice_from(data, p))
    } else {
        p
    }
}

/// The position of the first zero byte of `data`, or its length when it has none.
pub open spec fn first_zero(data: Seq<u8>) -> int
    decreases data.len(),
{
    if data.len() == 0 {
        0
    } else if data[0] == 0 {
        0
    } else {
        1 + first_zero(data.drop_first())
    }
}

/// Counts the characters before the first zero byte.
pub fn onigenc_strlen_null(enc: OnigEncoding, data: &[u8]) -> (r: usize)
    requires
        data@.len() + 4 <= usize::MAX,
    ensures
        r == strlen_spec(enc, data@, 0, first_zero(data@)),
{
    let mut i: usize = 0;
    while i < data.len() && data[i] != 0
        invariant
            i <= data@.len(),
            forall|j: int| 0 <= j < i ==> data@[j] != 0,
        decreases data@.len() - i,
    {
        i = i + 1;
    }
    proof {
        lemma_first_zero(data@, i as int);
    }
    onigenc_strlen(enc, data, 0, i)
}

proof fn lemma_first_zero(data: Seq<u8>, i: int)
    requires
        0 <= i <= data.len(),
        forall|j: int| 0 <= j < i ==> data[j] != 0,
        i == data.len() || data[i] == 0,
    ensures
        first_zero(data) == i,
    decreases data.len(),
{
    if data.len() > 0 && i > 0 {
        let rest = data.drop_first();
        assert forall|j: int| 0 <= j < i - 1 implies rest[j] != 0 by {
            assert(rest[j] == data[j + 1]);
        }
        if i < data.len() {
            assert(rest[i - 1] == data[i]);
        }
        lemma_first_zero(rest, i - 1);
    }
}

/// Whether `data` is a valid string of the encoding.
pub fn onigenc_is_valid_mbc_string(enc: OnigEncoding, data: &[u8]) -> (r: bool)
    ensures
        r == enc.valid_spec(data@),
{
    enc.is_valid_mbc_string(data)
}

/// The start of the character that holds byte `s`.
pub fn onigenc_get_left_adjust_char_head(enc: OnigEncoding, start: usize, s: usize, data: &[u8]) -> (r:
    usize)
    requires
        s < data@.len(),
    ensures
        r == enc.left_adjust_spec(start as int, s as int, data@),
{
    enc.left_adjust_char_head(start, s, data)
}

/// Whether the character at `s` is an ASCII word character.
pub fn onigenc_is_mbc_word_ascii(enc: OnigEncoding, data: &[u8], s: usize, _end: usize) -> (r: bool)
    requires
        s < data@.len(),
    ensures
        r == (data@[s as int] < 128 && enc.ctype_spec(
            enc.code_spec(data@.subrange(s as int, data@.len() as int)),
            ONIGENC_CTYPE_WORD,
        )),
{
    if data[s] < 128 {
        let code = enc.mbc_to_code(slice_from(data, s), data.len());
        onigenc_is_code_word(enc, code)
    } else {
        false
    }
}

} // verus!
