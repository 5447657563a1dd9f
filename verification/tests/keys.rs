//! Hexadecimal keys.
use yggstack::keys::{keypair_text, public_key_text, HexError};
use yggstack::resolver::{NameResolver, Plan};

#[test]
fn keys_are_written_in_hexadecimal() {
    let mut key = [0u8; 32];
    key[0] = 0xab;
    key[31] = 0x0f;
    let t = public_key_text(&key);
    assert_eq!(t.len(), 64);
    assert!(t.starts_with("ab00"));
    assert!(t.ends_with("000f"));
}

#[test]
fn key_names_read_back() {
    let key = [0x5a_u8; 32];
    let name = format!("{}.pk.ygg", public_key_text(&key));
    let r = NameResolver::new("");
    assert!(matches!(r.resolve(&name), Ok(Plan::Key(k)) if k == key));
}

#[test]
fn hex_errors_say_what_is_wrong() {
    assert_eq!(HexError::OddLength.describe(), "Odd number of digits");
    assert_eq!(HexError::InvalidLength.describe(), "Invalid string length");
    assert_eq!(
        HexError::InvalidCharacter { c: 'g', index: 3 }.describe(),
        "Invalid character 'g' at position 3"
    );
    assert_eq!(
        HexError::InvalidCharacter { c: '\n', index: 0 }.describe(),
        "Invalid character '\\n' at position 0"
    );
}

#[test]
fn key_pairs_are_written_in_hexadecimal() {
    assert_eq!(keypair_text(&[0x1f; 64]), "1f".repeat(64));
}
