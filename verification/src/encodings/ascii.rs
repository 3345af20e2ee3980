//! The US-ASCII encoding.
use vstd::prelude::*;

use crate::oniguruma::{
    OnigCaseFoldCodeItem, OnigCaseFoldType, OnigCodePoint, ONIGENC_MAX_STD_CTYPE,
    ONIGERR_INVALID_CHAR_PROPERTY_NAME, ONIGERR_INVALID_CODE_POINT_VALUE, ONIG_NORMAL,
};
use crate::regenc::{
    ascii_has_ctype, ascii_lower, onigenc_always_true_is_allowed_reverse_match,
    onigenc_always_true_is_valid_mbc_string, onigenc_ascii_apply_all_case_fold,
    onigenc_ascii_get_case_fold_codes_by_str, onigenc_ascii_mbc_case_fold,
    onigenc_is_ascii_code_ctype, onigenc_is_mbc_newline_0x0a,
    onigenc_minimum_property_name_to_ctype, onigenc_not_support_get_ctype_code_range,
    onigenc_single_byte_code_to_mbc, onigenc_single_byte_code_to_mbclen,
    onigenc_single_byte_left_adjust_char_head, onigenc_single_byte_mbc_enc_len,
    onigenc_single_byte_mbc_to_code, Encoding, ENC_FLAG_ASCII_COMPATIBLE, ENC_FLAG_SKIP_OFFSET_1,
};

verus! {

/// The US-ASCII encoding: one byte per character.
pub struct AsciiEncoding;

/// The US-ASCII encoding.
pub const ONIG_ENCODING_ASCII: AsciiEncoding = AsciiEncoding;

impl AsciiEncoding {
    /// The byte length of `code`: 1 below 256, else an error code.
    pub open spec fn mbclen_spec(code: OnigCodePoint) -> i32 {
        if code < 256 { 1 } else { ONIGERR_INVALID_CODE_POINT_VALUE }
    }
}

impl Encoding for AsciiEncoding {
    open spec fn enc_len_spec(&self, p: Seq<u8>) -> nat {
        1
    }

    open spec fn code_spec(&self, p: Seq<u8>) -> OnigCodePoint {
        p[0] as u32
    }

    open spec fn left_adjust_spec(&self, start: int, s: int, data: Seq<u8>) -> int {
        s
    }

    open spec fn ctype_spec(&self, code: OnigCodePoint, ctype: u32) -> bool {
        code < 128 && ctype <= ONIGENC_MAX_STD_CTYPE && ascii_has_ctype(code, ctype)
    }

    open spec fn valid_spec(&self, s: Seq<u8>) -> bool {
        true
    }

    open spec fn flag_spec(&self) -> u32 {
        ENC_FLAG_ASCII_COMPATIBLE | ENC_FLAG_SKIP_OFFSET_1
    }

    open spec fn max_len_spec(&self) -> nat {
        1
    }

    open spec fn code_len_spec(&self, code: OnigCodePoint) -> nat {
        1
    }

    open spec fn fold_spec(&self, source: Seq<u8>, p: int, end: int) -> (Seq<u8>, int) {
        (seq![ascii_lower(source[p])], p + 1)
    }

    proof fn lemma_enc_len_bounds(&self, p: Seq<u8>) {
    }

    proof fn lemma_left_adjust_bounds(&self, start: int, s: int, data: Seq<u8>) {
    }

    fn mbc_enc_len(&self, p: &[u8]) -> (r: usize) {
        onigenc_single_byte_mbc_enc_len(p)
    }

    fn name(&self) -> (r: &str)
        ensures
            r@ == "US-ASCII"@,
    {
        "US-ASCII"
    }

    fn max_enc_len(&self) -> (r: usize) {
        1
    }

    fn min_enc_len(&self) -> (r: usize)
        ensures
            r == 1,
    {
        1
    }

    fn is_mbc_newline(&self, p: &[u8], end: usize) -> (r: bool)
        ensures
            r == (p@.len() > 0 && end > 0 && p@[0] == 0x0a),
    {
        onigenc_is_mbc_newline_0x0a(p, end)
    }

    fn mbc_to_code(&self, p: &[u8], end: usize) -> (r: OnigCodePoint) {
        onigenc_single_byte_mbc_to_code(p, end)
    }

    fn code_to_mbclen(&self, code: OnigCodePoint) -> (r: i32)
        ensures
            r == AsciiEncoding::mbclen_spec(code),
    {
        onigenc_single_byte_code_to_mbclen(code)
    }

    fn code_to_mbc(&self, code: OnigCodePoint, buf: &mut [u8]) -> (r: i32)
        ensures
            r == 1,
            final(buf)@ == old(buf)@.update(0, (code & 0xff) as u8),
    {
        onigenc_single_byte_code_to_mbc(code, buf)
    }

    fn mbc_case_fold(
        &self,
        flag: OnigCaseFoldType,
        pp: &mut usize,
        end: usize,
        source: &[u8],
        fold_buf: &mut [u8],
    ) -> (r: i32)
        ensures
            r == 1,
            *final(pp) == *old(pp) + 1,
            final(fold_buf)@ == old(fold_buf)@.update(0, ascii_lower(source@[*old(pp) as int])),
    {
        let r = onigenc_ascii_mbc_case_fold(flag, pp, end, source, fold_buf);
        assert(fold_buf@.subrange(0, 1) =~= seq![ascii_lower(source@[*old(pp) as int])]);
        r
    }

    fn apply_all_case_fold<F: FnMut(OnigCodePoint, &[OnigCodePoint]) -> i32>(
        &self,
        flag: OnigCaseFoldType,
        f: &mut F,
    ) -> i32 {
        onigenc_ascii_apply_all_case_fold(flag, f)
    }

    fn get_case_fold_codes_by_str(
        &self,
        flag: OnigCaseFoldType,
        p: &[u8],
        end: usize,
        items: &mut [OnigCaseFoldCodeItem],
    ) -> (r: i32)
        ensures
            final(items)@.len() == old(items)@.len(),
            0x41 <= p@[0] <= 0x5a ==> r == 1 && final(items)@[0].byte_len == 1 && final(items)@[0].code_len
                == 1 && final(items)@[0].code@[0] == p@[0] + 0x20,
            0x61 <= p@[0] <= 0x7a ==> r == 1 && final(items)@[0].byte_len == 1 && final(items)@[0].code_len
                == 1 && final(items)@[0].code@[0] == p@[0] - 0x20,
            !(0x41 <= p@[0] <= 0x5a || 0x61 <= p@[0] <= 0x7a) ==> r == 0 && final(items)@ == old(items)@,
    {
        onigenc_ascii_get_case_fold_codes_by_str(flag, p, end, items)
    }

    fn property_name_to_ctype(&self, p: &[u8]) -> (r: i32)
        ensures
            r == ONIGERR_INVALID_CHAR_PROPERTY_NAME,
    {
        onigenc_minimum_property_name_to_ctype(p)
    }

    fn is_code_ctype(&self, code: OnigCodePoint, ctype: u32) -> (r: bool) {
        if code < 128 {
            if ctype > ONIGENC_MAX_STD_CTYPE {
                false
            } else {
                onigenc_is_ascii_code_ctype(code, ctype)
            }
        } else {
            false
        }
    }

    fn get_ctype_code_range(&self, ctype: u32, sb_out: &mut OnigCodePoint) -> (r: Option<
        &'static [OnigCodePoint],
    >)
        ensures
            r is None,
            *final(sb_out) == *old(sb_out),
    {
        onigenc_not_support_get_ctype_code_range(ctype, sb_out)
    }

    fn left_adjust_char_head(&self, start: usize, s: usize, data: &[u8]) -> (r: usize) {
        onigenc_single_byte_left_adjust_char_head(start, s, data)
    }

    fn is_allowed_reverse_match(&self, p: &[u8]) -> (r: bool)
        ensures
            r,
    {
        onigenc_always_true_is_allowed_reverse_match(p)
    }

    fn init(&self) -> (r: i32)
        ensures
            r == ONIG_NORMAL,
    {
        ONIG_NORMAL
    }

    /// Whether built-in callouts were registered; this encoding cannot tell, so it answers no.
    fn is_initialized(&self) -> (r: bool)
        ensures
            !r,
    {
        false
    }

    fn is_valid_mbc_string(&self, s: &[u8]) -> (r: bool) {
        onigenc_always_true_is_valid_mbc_string(s)
    }

    fn flag(&self) -> (r: u32) {
        ENC_FLAG_ASCII_COMPATIBLE | ENC_FLAG_SKIP_OFFSET_1
    }

    fn sb_range(&self) -> (r: OnigCodePoint)
        ensures
            r == 0,
    {
        0
    }

    fn index(&self) -> (r: i32)
        ensures
            r == 0,
    {
        0
    }
}

} // verus!
