use snowpack::hex_text::{decode_key, HexKeyError};

#[test]
fn decode_key_reads_both_cases() {
    let text = "0123456789abcdefABCDEF".repeat(3);
    let bytes = decode_key(&text[..64]).unwrap();
    assert_eq!(&bytes[..11], &[0x01, 0x23, 0x45, 0x67, 0x89, 0xAB, 0xCD, 0xEF, 0xAB, 0xCD, 0xEF]);
}

#[test]
fn decode_key_tells_bad_text_from_wrong_length() {
    let Err(HexKeyError::NotHex(bad_digit)) = decode_key("0g") else { panic!("0g is not hex") };
    assert_eq!(bad_digit, hex::FromHexError::InvalidHexCharacter { c: 'g', index: 1 });
    let Err(HexKeyError::NotHex(odd)) = decode_key("abc") else { panic!("abc is not hex") };
    assert_eq!(odd, hex::FromHexError::OddLength);
    assert!(matches!(decode_key("é"), Err(HexKeyError::NotHex(_))));
    assert!(matches!(decode_key(""), Err(HexKeyError::WrongLength)));
    assert!(matches!(decode_key(&"00".repeat(33)), Err(HexKeyError::WrongLength)));
}
