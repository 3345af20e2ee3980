//! The UTF-8 encoding (RFC 3629: U+0000 to U+10FFFF).
use vstd::prelude::*;
use vstd::string::StringSliceAdditionalSpecFns;
use vstd::utf8::valid_utf8;

use crate::oniguruma::{
    OnigCaseFoldCodeItem, OnigCaseFoldType, OnigCodePoint, ONIGENC_MAX_STD_CTYPE,
    ONIGERR_INVALID_CHAR_PROPERTY_NAME, ONIGERR_INVALID_CODE_POINT_VALUE,
    ONIGERR_TOO_BIG_WIDE_CHAR_VALUE, ONIG_NORMAL,
};
use crate::regenc::{
    ascii_has_ctype, ascii_lower, onigenc_ascii_apply_all_case_fold,
    onigenc_ascii_code_to_lower_case, onigenc_ascii_get_case_fold_codes_by_str,
    onigenc_is_ascii_code_ctype, onigenc_is_mbc_newline_0x0a, Encoding, ENC_FLAG_ASCII_COMPATIBLE,
    ENC_FLAG_SKIP_OFFSET_1_OR_0, ENC_FLAG_UNICODE,
};

verus! {

/// Whether `c` starts a character (is not a continuation byte).
pub open spec fn utf8_lead(c: u8) -> bool {
    c & 0xc0 != 0x80
}

/// The character length the lead byte `c` announces.
pub open spec fn utf8_len_table(c: u8) -> nat {
    if 0xc2 <= c <= 0xdf {
        2
    } else if 0xe0 <= c <= 0xef {
        3
    } else if 0xf0 <= c <= 0xf4 {
        4
    } else {
        1
    }
}

fn utf8_islead(c: u8) -> (r: bool)
    ensures
        r == utf8_lead(c),
{
    (c & 0xc0) != 0x80
}

fn utf8_istail(c: u8) -> (r: bool)
    ensures
        r == !utf8_lead(c),
{
    (c & 0xc0) == 0x80
}

/// The character length the lead byte `c` announces.
pub fn enc_len_utf8(c: u8) -> (r: usize)
    ensures
        r == utf8_len_table(c),
{
    if c >= 0xc2 && c <= 0xdf {
        2
    } else if c >= 0xe0 && c <= 0xef {
        3
    } else if c >= 0xf0 && c <= 0xf4 {
        4
    } else {
        1
    }
}

/// Folds continuation bytes `p[i..len]` into the code point `n`, six bits each.
pub open spec fn utf8_fold(p: Seq<u8>, n: u32, i: nat, len: nat) -> u32
    decreases len - i,
{
    if i >= len {
        n
    } else {
        utf8_fold(p, (n << 6u32) | (p[i as int] as u32 & 0x3f), i + 1, len)
    }
}

/// The number of bytes decoded for the character `p` starts with: the announced
/// length, cut to the bytes there are.
pub open spec fn utf8_decoded_len(p: Seq<u8>) -> nat {
    if utf8_len_table(p[0]) > p.len() { p.len() } else { utf8_len_table(p[0]) }
}

/// The code point of the character `p` starts with.
pub open spec fn utf8_code(p: Seq<u8>) -> u32 {
    let len = utf8_decoded_len(p);
    if len > 1 {
        utf8_fold(p, (p[0] as u32) & ((1u32 << ((6 - (len - 1)) as u32)) - 1) as u32, 1, len)
    } else {
        p[0] as u32
    }
}

/// The start of the character that holds byte `s`: back over continuation
/// bytes, but not before `start`.
pub open spec fn utf8_left_adjust(start: int, s: int, data: Seq<u8>) -> int
    decreases s - start,
{
    if s <= start || s < 0 || s >= data.len() || utf8_lead(data[s]) {
        s
    } else {
        utf8_left_adjust(start, s - 1, data)
    }
}

/// Whether `s` from position `p` on is a sequence of well-formed characters:
/// lead bytes 0x00-0x7f or 0xc2-0xf4, each followed by the continuation bytes it announces.
pub open spec fn utf8_valid_from(s: Seq<u8>, p: int) -> bool
    decreases s.len() - p,
{
    if p >= s.len() || p < 0 {
        true
    } else {
        let c = s[p];
        let len = utf8_len_table(c) as int;
        &&& !(c > 0xf4 || (c > 0x7f && c < 0xc2))
        &&& p + len <= s.len()
        &&& forall|k: int| p + 1 <= k < p + len ==> !utf8_lead(#[trigger] s[k])
        &&& utf8_valid_from(s, p + len)
    }
}

/// The UTF-8 encoding.
pub struct Utf8Encoding;

/// The UTF-8 encoding.
pub const ONIG_ENCODING_UTF8: Utf8Encoding = Utf8Encoding;

impl Utf8Encoding {
    /// The number of bytes UTF-8 takes for `code`, or an error code above 0x1fffff.
    pub open spec fn mbclen_spec(code: OnigCodePoint) -> i32 {
        if code < 0x80 {
            1
        } else if code < 0x800 {
            2
        } else if code < 0x1_0000 {
            3
        } else if code < 0x20_0000 {
            4
        } else {
            ONIGERR_INVALID_CODE_POINT_VALUE
        }
    }

    /// The UTF-8 bytes of `code`, or None above 0x1fffff.
    pub open spec fn encode_spec(code: OnigCodePoint) -> Option<Seq<u8>> {
        if code < 0x80 {
            Some(seq![code as u8])
        } else if code < 0x800 {
            Some(seq![(((code >> 6u32) & 0x1f) as u8 | 0xc0) as u8, ((code & 0x3f) as u8 | 0x80) as u8])
        } else if code < 0x1_0000 {
            Some(
                seq![
                    (((code >> 12u32) & 0x0f) as u8 | 0xe0) as u8,
                    (((code >> 6u32) & 0x3f) as u8 | 0x80) as u8,
                    ((code & 0x3f) as u8 | 0x80) as u8,
                ],
            )
        } else if code < 0x20_0000 {
            Some(
                seq![
                    (((code >> 18u32) & 0x07) as u8 | 0xf0) as u8,
                    (((code >> 12u32) & 0x3f) as u8 | 0x80) as u8,
                    (((code >> 6u32) & 0x3f) as u8 | 0x80) as u8,
                    ((code & 0x3f) as u8 | 0x80) as u8,
                ],
            )
        } else {
            None
        }
    }
}

/// Decoding the UTF-8 bytes of a code point gives the code point back, and
/// the lead byte announces all of them. Code points from 0x140000 on get a
/// lead byte that announces no character.
pub proof fn lemma_utf8_decode_encode(code: OnigCodePoint)
    requires
        code < 0x14_0000,
    ensures
        Utf8Encoding::encode_spec(code) is Some,
        utf8_len_table(Utf8Encoding::encode_spec(code)->0[0]) == Utf8Encoding::encode_spec(code)->0.len(),
        utf8_decoded_len(Utf8Encoding::encode_spec(code)->0) == Utf8Encoding::encode_spec(code)->0.len(),
        utf8_code(Utf8Encoding::encode_spec(code)->0) == code,
{
    let bytes = Utf8Encoding::encode_spec(code)->0;
    if code < 0x80 {
        assert(0 <= code as u8 <= 0x7f);
    } else if code < 0x800 {
        let b0: u8 = (((code >> 6u32) & 0x1f) as u8 | 0xc0) as u8;
        let b1: u8 = ((code & 0x3f) as u8 | 0x80) as u8;
        assert(0xc2 <= b0 <= 0xdf && (((b0 as u32) & 0x1fu32) << 6u32) | ((b1 as u32) & 0x3fu32) == code) by (bit_vector)
            requires
                0x80 <= code < 0x800,
                b0 == (((code >> 6u32) & 0x1f) as u8 | 0xc0) as u8,
                b1 == ((code & 0x3f) as u8 | 0x80) as u8,
        ;
        assert(((1u32 << 5u32) - 1) as u32 == 0x1fu32) by (bit_vector);
        assert(bytes[0] == b0 && bytes[1] == b1);
        reveal_with_fuel(utf8_fold, 3);
    } else if code < 0x1_0000 {
        let b0: u8 = (((code >> 12u32) & 0x0f) as u8 | 0xe0) as u8;
        let b1: u8 = (((code >> 6u32) & 0x3f) as u8 | 0x80) as u8;
        let b2: u8 = ((code & 0x3f) as u8 | 0x80) as u8;
        assert(0xe0 <= b0 <= 0xef && (((((b0 as u32) & 0x0fu32) << 6u32) | ((b1 as u32) & 0x3fu32)) << 6u32) | ((b2 as u32)
            & 0x3fu32) == code) by (bit_vector)
            requires
                0x800 <= code < 0x1_0000,
                b0 == (((code >> 12u32) & 0x0f) as u8 | 0xe0) as u8,
                b1 == (((code >> 6u32) & 0x3f) as u8 | 0x80) as u8,
                b2 == ((code & 0x3f) as u8 | 0x80) as u8,
        ;
        assert(((1u32 << 4u32) - 1) as u32 == 0x0fu32) by (bit_vector);
        assert(bytes[0] == b0 && bytes[1] == b1 && bytes[2] == b2);
        reveal_with_fuel(utf8_fold, 4);
    } else {
        let b0: u8 = (((code >> 18u32) & 0x07) as u8 | 0xf0) as u8;
        let b1: u8 = (((code >> 12u32) & 0x3f) as u8 | 0x80) as u8;
        let b2: u8 = (((code >> 6u32) & 0x3f) as u8 | 0x80) as u8;
        let b3: u8 = ((code & 0x3f) as u8 | 0x80) as u8;
        assert(0xf0 <= b0 <= 0xf4 && (((((((b0 as u32) & 0x07u32) << 6u32) | ((b1 as u32) & 0x3fu32)) << 6u32) | ((b2 as u32)
            & 0x3fu32)) << 6u32) | ((b3 as u32) & 0x3fu32) == code) by (bit_vector)
            requires
                0x1_0000 <= code < 0x14_0000,
                b0 == (((code >> 18u32) & 0x07) as u8 | 0xf0) as u8,
                b1 == (((code >> 12u32) & 0x3f) as u8 | 0x80) as u8,
                b2 == (((code >> 6u32) & 0x3f) as u8 | 0x80) as u8,
                b3 == ((code & 0x3f) as u8 | 0x80) as u8,
        ;
        assert(((1u32 << 3u32) - 1) as u32 == 0x07u32) by (bit_vector);
        assert(bytes[0] == b0 && bytes[1] == b1 && bytes[2] == b2 && bytes[3] == b3);
        reveal_with_fuel(utf8_fold, 5);
    }
}

impl Encoding for Utf8Encoding {
    open spec fn enc_len_spec(&self, p: Seq<u8>) -> nat {
        utf8_len_table(p[0])
    }

    open spec fn code_spec(&self, p: Seq<u8>) -> OnigCodePoint {
        utf8_code(p)
    }

    open spec fn left_adjust_spec(&self, start: int, s: int, data: Seq<u8>) -> int {
        utf8_left_adjust(start, s, data)
    }

    /// Character types of ASCII code points; the Unicode property tables are not part of this library.
    open spec fn ctype_spec(&self, code: OnigCodePoint, ctype: u32) -> bool {
        code < 128 && ctype <= ONIGENC_MAX_STD_CTYPE && ascii_has_ctype(code, ctype)
    }

    open spec fn valid_spec(&self, s: Seq<u8>) -> bool {
        utf8_valid_from(s, 0)
    }

    open spec fn flag_spec(&self) -> u32 {
        ENC_FLAG_ASCII_COMPATIBLE | ENC_FLAG_UNICODE | ENC_FLAG_SKIP_OFFSET_1_OR_0
    }

    open spec fn max_len_spec(&self) -> nat {
        4
    }

    open spec fn code_len_spec(&self, code: OnigCodePoint) -> nat {
        match Utf8Encoding::encode_spec(code) {
            Some(bytes) => bytes.len(),
            None => 0,
        }
    }

    open spec fn fold_spec(&self, source: Seq<u8>, p: int, end: int) -> (Seq<u8>, int) {
        if source[p] < 128 {
            (seq![ascii_lower(source[p])], p + 1)
        } else {
            let len = if utf8_len_table(source[p]) > end - p { end - p } else { utf8_len_table(source[p]) as int };
            (source.subrange(p, p + len), p + len)
        }
    }

    proof fn lemma_enc_len_bounds(&self, p: Seq<u8>) {
    }

    proof fn lemma_left_adjust_bounds(&self, start: int, s: int, data: Seq<u8>)
        decreases s - start,
    {
        if s > start && !utf8_lead(data[s]) {
            self.lemma_left_adjust_bounds(start, s - 1, data);
        }
    }

    fn mbc_enc_len(&self, p: &[u8]) -> (r: usize) {
        enc_len_utf8(p[0])
    }

    fn name(&self) -> (r: &str)
        ensures
            r@ == "UTF-8"@,
    {
        "UTF-8"
    }

    fn max_enc_len(&self) -> (r: usize) {
        4
    }

    fn min_enc_len(&self) -> (r: usize)
        ensures
            r == 1,
    {
        1
    }

    fn is_mbc_newline(&self, p: &[u8], end: usize) -> (r: bool)
        ensures
            r == (p@.len() > 0 && end > 0 && p@[0] == 0x0a),
    {
        onigenc_is_mbc_newline_0x0a(p, end)
    }

    fn mbc_to_code(&self, p: &[u8], _end: usize) -> (r: OnigCodePoint) {
        let mut len = enc_len_utf8(p[0]);
        if len > p.len() {
            len = p.len();
        }
        let c = p[0] as u32;
        if len > 1 {
            let remaining = len - 1;
            assert(remaining <= 3);
            let sh = (6 - remaining) as u32;
            assert(1u32 << sh >= 1u32) by (bit_vector)
                requires
                    3 <= sh <= 6,
            ;
            let mut n = c & ((1u32 << sh) - 1);
            let mut i: usize = 1;
            assert(len == utf8_decoded_len(p@));
            while i < len
                invariant
                    1 <= i <= len,
                    len <= p@.len(),
                    len == utf8_decoded_len(p@),
                    utf8_fold(p@, n, i as nat, len as nat) == utf8_code(p@),
                decreases len - i,
            {
                n = (n << 6u32) | ((p[i] as u32) & 0x3f);
                i = i + 1;
            }
            n
        } else {
            c
        }
    }

    fn code_to_mbclen(&self, code: OnigCodePoint) -> (r: i32)
        ensures
            r == Utf8Encoding::mbclen_spec(code),
    {
        assert((code & 0xffffff80u32 == 0) == (code < 0x80)) by (bit_vector);
        assert((code & 0xfffff800u32 == 0) == (code < 0x800)) by (bit_vector);
        assert((code & 0xffff0000u32 == 0) == (code < 0x1_0000)) by (bit_vector);
        assert((code & 0xffe00000u32 == 0) == (code < 0x20_0000)) by (bit_vector);
        if (code & 0xffffff80) == 0 {
            1
        } else if (code & 0xfffff800) == 0 {
            2
        } else if (code & 0xffff0000) == 0 {
            3
        } else if (code & 0xffe00000) == 0 {
            4
        } else {
            ONIGERR_INVALID_CODE_POINT_VALUE
        }
    }

    fn code_to_mbc(&self, code: OnigCodePoint, buf: &mut [u8]) -> (r: i32)
        ensures
            final(buf)@.len() == old(buf)@.len(),
            match Utf8Encoding::encode_spec(code) {
                Some(bytes) => r == bytes.len() && final(buf)@.subrange(0, r as int) == bytes,
                None => r == ONIGERR_TOO_BIG_WIDE_CHAR_VALUE && final(buf)@ == old(buf)@,
            },
    {
        assert((code & 0xffffff80u32 == 0) == (code < 0x80)) by (bit_vector);
        assert((code & 0xfffff800u32 == 0) == (code < 0x800)) by (bit_vector);
        assert((code & 0xffff0000u32 == 0) == (code < 0x1_0000)) by (bit_vector);
        assert((code & 0xffe00000u32 == 0) == (code < 0x20_0000)) by (bit_vector);
        if (code & 0xffffff80) == 0 {
            buf[0] = code as u8;
            assert(buf@.subrange(0, 1) =~= seq![code as u8]);
            1
        } else if (code & 0xfffff800) == 0 {
            buf[0] = ((code >> 6) & 0x1f) as u8 | 0xc0;
            buf[1] = (code & 0x3f) as u8 | 0x80;
            assert(buf@.subrange(0, 2) =~= Utf8Encoding::encode_spec(code).unwrap());
            2
        } else if (code & 0xffff0000) == 0 {
            buf[0] = ((code >> 12) & 0x0f) as u8 | 0xe0;
            buf[1] = ((code >> 6) & 0x3f) as u8 | 0x80;
            buf[2] = (code & 0x3f) as u8 | 0x80;
            assert(buf@.subrange(0, 3) =~= Utf8Encoding::encode_spec(code).unwrap());
            3
        } else if (code & 0xffe00000) == 0 {
            buf[0] = ((code >> 18) & 0x07) as u8 | 0xf0;
            buf[1] = ((code >> 12) & 0x3f) as u8 | 0x80;
            buf[2] = ((code >> 6) & 0x3f) as u8 | 0x80;
            buf[3] = (code & 0x3f) as u8 | 0x80;
            assert(buf@.subrange(0, 4) =~= Utf8Encoding::encode_spec(code).unwrap());
            4
        } else {
            ONIGERR_TOO_BIG_WIDE_CHAR_VALUE
        }
    }

    /// ASCII folds to lower case; another character is copied as it stands
    /// (the Unicode case tables are not part of this library).
    fn mbc_case_fold(
        &self,
        flag: OnigCaseFoldType,
        pp: &mut usize,
        end: usize,
        source: &[u8],
        fold_buf: &mut [u8],
    ) -> (r: i32)
        ensures
            source@[*old(pp) as int] < 128 ==> r == 1 && *final(pp) == *old(pp) + 1 && final(fold_buf)@
                == old(fold_buf)@.update(0, ascii_lower(source@[*old(pp) as int])),
            source@[*old(pp) as int] >= 128 ==> ({
                let len = if utf8_len_table(source@[*old(pp) as int]) > end - *old(pp) {
                    end - *old(pp)
                } else {
                    utf8_len_table(source@[*old(pp) as int]) as int
                };
                &&& r == len
                &&& *final(pp) == *old(pp) + len
                &&& final(fold_buf)@.len() == old(fold_buf)@.len()
                &&& final(fold_buf)@.subrange(0, len) == source@.subrange(
                    *old(pp) as int,
                    *old(pp) + len,
                )
            }),
    {
        if source[*pp] < 128 {
            fold_buf[0] = onigenc_ascii_code_to_lower_case(source[*pp]);
            *pp = *pp + 1;
            assert(fold_buf@.subrange(0, 1) =~= seq![ascii_lower(source@[*old(pp) as int])]);
            1
        } else {
            let p0 = *pp;
            let mut len = enc_len_utf8(source[p0]);
            if len > end - p0 {
                len = end - p0;
            }
            let slen = source.len();
            let mut i: usize = 0;
            while i < len
                invariant
                    slen == source@.len(),
                    i <= len,
                    len <= 4,
                    p0 + len <= source@.len(),
                    fold_buf@.len() == old(fold_buf)@.len(),
                    fold_buf@.len() >= 4,
                    forall|k: int| 0 <= k < i ==> fold_buf@[k] == source@[p0 + k],
                decreases len - i,
            {
                assert(p0 + i < p0 + len);
                fold_buf[i] = source[p0 + i];
                i = i + 1;
            }
            assert(fold_buf@.subrange(0, len as int) =~= source@.subrange(p0 as int, p0 + len));
            *pp = p0 + len;
            len as i32
        }
    }

    /// The ASCII case pairs (the Unicode case tables are not part of this library).
    fn apply_all_case_fold<F: FnMut(OnigCodePoint, &[OnigCodePoint]) -> i32>(
        &self,
        flag: OnigCaseFoldType,
        f: &mut F,
    ) -> i32 {
        onigenc_ascii_apply_all_case_fold(flag, f)
    }

    /// The other case of an ASCII letter; 0 for every other character
    /// (the Unicode case tables are not part of this library).
    fn get_case_fold_codes_by_str(
        &self,
        flag: OnigCaseFoldType,
        p: &[u8],
        end: usize,
        items: &mut [OnigCaseFoldCodeItem],
    ) -> (r: i32)
        ensures
            final(items)@.len() == old(items)@.len(),
            0x41 <= p@[0] <= 0x5a ==> r == 1 && final(items)@[0].code@[0] == p@[0] + 0x20,
            0x61 <= p@[0] <= 0x7a ==> r == 1 && final(items)@[0].code@[0] == p@[0] - 0x20,
            !(0x41 <= p@[0] <= 0x5a || 0x61 <= p@[0] <= 0x7a) ==> r == 0 && final(items)@ == old(items)@,
    {
        onigenc_ascii_get_case_fold_codes_by_str(flag, p, end, items)
    }

    /// Property names are refused (the Unicode property tables are not part of this library).
    fn property_name_to_ctype(&self, p: &[u8]) -> (r: i32)
        ensures
            r == ONIGERR_INVALID_CHAR_PROPERTY_NAME,
    {
        ONIGERR_INVALID_CHAR_PROPERTY_NAME
    }

    fn is_code_ctype(&self, code: OnigCodePoint, ctype: u32) -> (r: bool) {
        if code < 128 && ctype <= ONIGENC_MAX_STD_CTYPE {
            onigenc_is_ascii_code_ctype(code, ctype)
        } else {
            false
        }
    }

    /// Sets `*sb_out` to 0x80; no ranges (the Unicode property tables are not part of this library).
    fn get_ctype_code_range(&self, ctype: u32, sb_out: &mut OnigCodePoint) -> (r: Option<
        &'static [OnigCodePoint],
    >)
        ensures
            r is None,
            *final(sb_out) == 0x80,
    {
        *sb_out = 0x80;
        None
    }

    fn left_adjust_char_head(&self, start: usize, s: usize, data: &[u8]) -> (r: usize) {
        if s <= start {
            return s;
        }
        let mut p = s;
        while !utf8_islead(data[p]) && p > start
            invariant
                start <= p <= s < data@.len(),
                utf8_left_adjust(start as int, p as int, data@) == utf8_left_adjust(
                    start as int,
                    s as int,
                    data@,
                ),
            decreases p,
        {
            p = p - 1;
        }
        p
    }

    fn is_allowed_reverse_match(&self, _p: &[u8]) -> (r: bool)
        ensures
            r,
    {
        true
    }

    fn init(&self) -> (r: i32)
        ensures
            r == ONIG_NORMAL,
    {
        ONIG_NORMAL
    }

    fn is_initialized(&self) -> (r: bool)
        ensures
            r,
    {
        true
    }

    fn is_valid_mbc_string(&self, s: &[u8]) -> (r: bool) {
        let mut p: usize = 0;
        while p < s.len()
            invariant
                p <= s@.len(),
                utf8_valid_from(s@, 0) == utf8_valid_from(s@, p as int),
            decreases s@.len() - p,
        {
            let c = s[p];
            if c > 0xf4 || (c > 0x7f && c < 0xc2) {
                assert(!utf8_valid_from(s@, p as int));
                return false;
            }
            let len = enc_len_utf8(c);
            let p0 = p;
            p = p + 1;
            if len > 1 {
                let mut k: usize = 1;
                while k < len
                    invariant
                        1 <= k <= len,
                        len == utf8_len_table(c),
                        p == p0 + k,
                        p0 < s@.len(),
                        s@[p0 as int] == c,
                        !(c > 0xf4 || (c > 0x7f && c < 0xc2)),
                        utf8_valid_from(s@, 0) == utf8_valid_from(s@, p0 as int),
                        forall|j: int| p0 + 1 <= j < p ==> !utf8_lead(#[trigger] s@[j]),
                        p <= s@.len(),
                    decreases len - k,
                {
                    if p >= s.len() {
                        assert(!utf8_valid_from(s@, p0 as int));
                        return false;
                    }
                    if !utf8_istail(s[p]) {
                        assert(!utf8_lead(s@[p as int]) == false);
                        assert(!utf8_valid_from(s@, p0 as int));
                        return false;
                    }
                    p = p + 1;
                    k = k + 1;
                }
            }
        }
        true
    }

    fn flag(&self) -> (r: u32) {
        ENC_FLAG_ASCII_COMPATIBLE | ENC_FLAG_UNICODE | ENC_FLAG_SKIP_OFFSET_1_OR_0
    }

    fn sb_range(&self) -> (r: OnigCodePoint)
        ensures
            r == 0,
    {
        0
    }

    fn index(&self) -> (r: i32)
        ensures
            r == 0,
    {
        0
    }
}


/// Calls `std::str::from_utf8`: the bytes as a string exactly when they are
/// valid UTF-8 (RFC 3629: no overlong forms, no surrogates, nothing above
/// U+10FFFF, as vstd's `valid_utf8` defines it), and then that string is
/// those very bytes, as the documentation says (the same bytes, viewed as a
/// string, without copying).
#[verifier::external_body]
pub fn std_from_utf8(bytes: &[u8]) -> (r: Option<&str>)
    ensures
        r is Some <==> valid_utf8(bytes@),
        r matches Some(s) ==> s.spec_bytes() == bytes@,
{
    std::str::from_utf8(bytes).ok()
}


/// A continuation byte: 0x80 to 0xbf.
proof fn lemma_lead_bits(c: u8)
    ensures
        !utf8_lead(c) <==> (0x80 <= c <= 0xbf),
{
    assert(!(c & 0xc0 != 0x80) <==> (0x80 <= c && c <= 0xbf)) by (bit_vector);
}

/// The byte at `i` of `s`, when 0xc0 or above, is a lead byte from 0xc2 to
/// 0xf4 followed within `s` by the continuation bytes (0x80 to 0xbf) its
/// length announces: one after 0xc2 to 0xdf, two after 0xe0 to 0xef, three
/// after 0xf0 to 0xf4.
pub open spec fn lead_well_formed(s: Seq<u8>, i: int) -> bool {
    s[i] >= 0xc0 ==> {
        &&& 0xc2 <= s[i] <= 0xf4
        &&& 0xc2 <= s[i] <= 0xdf ==> i + 2 <= s.len() && 0x80 <= s[i + 1] <= 0xbf
        &&& 0xe0 <= s[i] <= 0xef ==> i + 3 <= s.len() && 0x80 <= s[i + 1] <= 0xbf && 0x80 <= s[i + 2] <= 0xbf
        &&& 0xf0 <= s[i] <= 0xf4 ==> i + 4 <= s.len() && 0x80 <= s[i + 1] <= 0xbf && 0x80 <= s[i + 2] <= 0xbf
            && 0x80 <= s[i + 3] <= 0xbf
    }
}

proof fn lemma_lead_at(s: Seq<u8>, p: int)
    requires
        0 <= p < s.len(),
        utf8_valid_from(s, p),
    ensures
        lead_well_formed(s, p),
        !(0x80 <= s[p] <= 0xbf),
{
    let c = s[p];
    let len = utf8_len_table(c) as int;
    if len >= 2 {
        lemma_lead_bits(s[p + 1]);
    }
    if len >= 3 {
        lemma_lead_bits(s[p + 2]);
    }
    if len >= 4 {
        lemma_lead_bits(s[p + 3]);
    }
}

proof fn lemma_valid_structure_from(s: Seq<u8>, p: int)
    requires
        0 <= p,
        utf8_valid_from(s, p),
    ensures
        forall|i: int| p <= i < s.len() ==> #[trigger] lead_well_formed(s, i),
    decreases s.len() - p,
{
    if p < s.len() {
        let c = s[p];
        let len = utf8_len_table(c) as int;
        lemma_valid_structure_from(s, p + len);
        lemma_lead_at(s, p);
        assert forall|i: int| p <= i < s.len() implies #[trigger] lead_well_formed(s, i) by {
            if p < i < p + len {
                lemma_lead_bits(s[i]);
            }
        }
    }
}

/// A string the UTF-8 encoding accepts is well formed: it does not start
/// with a continuation byte (0x80 to 0xbf), and every byte from 0xc0 on is
/// a lead byte followed by the continuation bytes its length announces
/// (see `lead_well_formed`).
pub proof fn lemma_utf8_valid_structure(s: Seq<u8>)
    requires
        Utf8Encoding.valid_spec(s),
    ensures
        s.len() > 0 ==> !(0x80 <= s[0] <= 0xbf),
        forall|i: int| 0 <= i < s.len() ==> #[trigger] lead_well_formed(s, i),
{
    lemma_valid_structure_from(s, 0);
    if s.len() > 0 {
        lemma_lead_at(s, 0);
    }
}

} // verus!
