use xbind::props::{
    decode_text_payload, first_property_word, payload_words, require_known_atom, ResolveError,
};

#[test]
fn payload_words_reads_full_native_words() {
    let bytes: Vec<u8> = vec![1, 2, 3, 4, 5, 6, 7, 8, 9];
    let words = payload_words(&bytes);
    assert_eq!(words.len(), 2);
    assert_eq!(words[0], u32::from_ne_bytes([1, 2, 3, 4]));
    assert_eq!(words[1], u32::from_ne_bytes([5, 6, 7, 8]));
}

#[test]
fn payload_shorter_than_one_word_has_no_words() {
    let bytes: Vec<u8> = vec![7, 8, 9];
    let words = payload_words(&bytes);
    assert!(words.is_empty());
    let e = first_property_word("WM_STATE", 3, &words).unwrap_err();
    assert!(matches!(e, ResolveError::EmptyProperty { .. }));
}

#[test]
fn text_payload_round_trips() {
    let payload = "hello".as_bytes().to_vec();
    let s = decode_text_payload("WM_NAME", payload).unwrap();
    assert_eq!(s, "hello");
}

#[test]
fn empty_text_payload_is_empty_string() {
    let s = decode_text_payload("WM_NAME", Vec::new()).unwrap();
    assert_eq!(s, "");
}

#[test]
fn invalid_utf8_payload_is_a_decode_error() {
    let e = decode_text_payload("WM_NAME", vec![0xff, 0xfe, 0x20]).unwrap_err();
    match e {
        ResolveError::Utf8Decode { name } => assert_eq!(name, "WM_NAME"),
        other => panic!("wrong error: {:?}", other),
    }
}

#[test]
fn word_payload_round_trips() {
    let words: Vec<u32> = vec![99, 7, 3];
    assert_eq!(first_property_word("_NET_WM_DESKTOP", 12, &words).unwrap(), 99);
}

#[test]
fn empty_word_payload_is_an_error_not_zero() {
    let words: Vec<u32> = Vec::new();
    let e = first_property_word("_NET_WM_DESKTOP", 12, &words).unwrap_err();
    match e {
        ResolveError::EmptyProperty { name, id } => {
            assert_eq!(name, "_NET_WM_DESKTOP");
            assert_eq!(id, 12);
        },
        other => panic!("wrong error: {:?}", other),
    }
}

#[test]
fn empty_word_payload_error_message() {
    let words: Vec<u32> = Vec::new();
    let e = first_property_word("_NET_WM_DESKTOP", 12, &words).unwrap_err();
    assert_eq!(e.message(), "property '_NET_WM_DESKTOP' was empty for id: 12");
}

#[test]
fn decode_error_message_names_the_property() {
    let e = decode_text_payload("WM_NAME", vec![0x80]).unwrap_err();
    assert_eq!(e.message(), "invalid utf8 response for property 'WM_NAME'");
}

#[test]
fn zero_atom_from_lookup_only_interning_is_an_atom_error() {
    let e = require_known_atom("_NOT_A_REAL_ATOM", 0).unwrap_err();
    match e {
        ResolveError::AtomLookup { name, detail } => {
            assert_eq!(name, "_NOT_A_REAL_ATOM");
            assert!(!detail.is_empty());
        },
        other => panic!("wrong error: {:?}", other),
    }
}

#[test]
fn nonzero_atom_from_lookup_only_interning_passes_through() {
    assert_eq!(require_known_atom("WM_CLASS", 67).unwrap(), 67);
}
