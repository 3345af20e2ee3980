use ferroni::encodings::utf8::ONIG_ENCODING_UTF8;
use ferroni::regenc::Encoding;

fn encode(code: u32) -> Vec<u8> {
    let mut buf = [0u8; 6];
    let len = ONIG_ENCODING_UTF8.code_to_mbc(code, &mut buf);
    assert!(len > 0);
    buf[..len as usize].to_vec()
}

#[test]
fn decoding_an_encoded_code_point_gives_it_back() {
    for &code in &[0x41u32, 0x7f, 0x80, 0xe9, 0x7ff, 0x800, 0x20ac, 0xffff, 0x1_0000, 0x1f600, 0x10_ffff, 0x13_ffff] {
        let bytes = encode(code);
        assert_eq!(ONIG_ENCODING_UTF8.mbc_enc_len(&bytes), bytes.len());
        assert_eq!(ONIG_ENCODING_UTF8.mbc_to_code(&bytes, bytes.len()), code);
        assert_eq!(ONIG_ENCODING_UTF8.code_to_mbclen(code), bytes.len() as i32);
    }
}

#[test]
fn encodings_of_known_characters() {
    assert_eq!(encode(0xe9), vec![0xc3, 0xa9]);
    assert_eq!(encode(0x20ac), vec![0xe2, 0x82, 0xac]);
    assert_eq!(encode(0x1f600), vec![0xf0, 0x9f, 0x98, 0x80]);
}

#[test]
fn code_points_past_the_lead_bytes_do_not_come_back() {
    let bytes = encode(0x15_0000);
    assert_eq!(bytes[0], 0xf5);
    assert_eq!(ONIG_ENCODING_UTF8.mbc_enc_len(&bytes), 1);
    assert_ne!(ONIG_ENCODING_UTF8.mbc_to_code(&bytes, bytes.len()), 0x15_0000);
}
