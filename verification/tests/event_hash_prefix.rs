use eks::event::{EventHash, GENESIS_HASH};
use eks::event_hash_prefix::{EventHashPrefix, ValidationError};

fn hash(first: u8) -> EventHash {
    let mut hash = [0xAAu8; 32];
    hash[0] = first;
    hash
}

#[test]
fn renders_as_lowercase_hex_of_the_leading_bytes() {
    assert_eq!(EventHashPrefix::of(&hash(0xF3)).to_string(), "f3aaaaaaaaaaaaaa");
}

#[test]
fn round_trips_through_its_own_spelling() {
    let prefix = EventHashPrefix::of(&hash(0x01));

    assert_eq!(prefix.to_string().parse(), Ok(prefix));
    // The rendered form is what a URL carries, so parsing must accept the
    // uppercase spelling a hand-typed URL may use.
    assert_eq!(prefix.to_string().to_uppercase().parse(), Ok(prefix));
}

#[test]
fn matches_only_the_hash_it_names() {
    let prefix = EventHashPrefix::of(&hash(0x01));

    assert!(prefix.matches(&hash(0x01)));
    assert!(!prefix.matches(&hash(0x02)));
    // Differing only past the prefix still matches: the prefix is all the
    // URL carries.
    let mut tail_differs = hash(0x01);
    tail_differs[31] = 0x00;
    assert!(prefix.matches(&tail_differs));
}

#[test]
fn rejects_anything_but_its_exact_spelling() {
    for input in [
        "",
        "f3aaaaaaaaaaaa",          // a byte short
        "f3aaaaaaaaaaaaaaa",       // odd length
        "f3aaaaaaaaaaaaaaaa",      // a byte long
        "f3aaaaaaaaaaaaag",        // non-hex
        "+f+f+f+f+f+f+f+f",        // signs are not hex digits
        "f3 aa aa aa aa aa aa aa", // the spaced form the UI renders
        "f3aaaaaaaaaaaa\u{e9}",    // 16 bytes, but not 16 hex digits
    ] {
        assert_eq!(
            input.parse::<EventHashPrefix>(),
            Err(ValidationError::InvalidValue),
            "{input}"
        );
    }
}

#[test]
fn the_genesis_prefix_is_recognised() {
    assert!(EventHashPrefix::of(&GENESIS_HASH).is_genesis());
    assert!(!EventHashPrefix::of(&hash(0x01)).is_genesis());
}

#[test]
fn hex_digits_cover_both_cases() {
    assert_eq!(eks::event_hash_prefix::hex_digit(b'0'), Some(0));
    assert_eq!(eks::event_hash_prefix::hex_digit(b'a'), Some(10));
    assert_eq!(eks::event_hash_prefix::hex_digit(b'F'), Some(15));
    assert_eq!(eks::event_hash_prefix::hex_digit(b'g'), None);
}
