use shamir::{decode_message, encode_message, Error};

#[test]
fn message_round_trip_through_hex_fragments() {
    let fragments = encode_message("This", 6, 4).unwrap();
    assert_eq!(fragments.len(), 6);
    for f in fragments.iter() {
        // one x byte and four y bytes, two lowercase hex digits each
        assert_eq!(f.len(), 10);
        assert!(f.chars().all(|c| c.is_ascii_hexdigit()));
        assert!(!f.chars().any(|c| c.is_ascii_uppercase()));
    }
    let subset = vec![
        fragments[5].clone(),
        fragments[1].clone(),
        fragments[4].clone(),
        fragments[2].clone(),
    ];
    assert_eq!(decode_message(subset), Some("This".to_string()));
}

#[test]
fn message_encoding_rejects_bad_thresholds() {
    assert_eq!(encode_message("hi", 5, 6), Err(Error::InvalidThreshold));
    assert_eq!(encode_message("hi", 256, 2), Err(Error::InvalidThreshold));
}

#[test]
fn undecodable_fragments_give_nothing() {
    // odd length
    assert_eq!(decode_message(vec!["abc".to_string()]), None);
    // not hex
    assert_eq!(decode_message(vec!["zz".to_string()]), None);
    // no fragments
    assert_eq!(decode_message(Vec::new()), None);
    // empty fragment: no x-coordinate byte
    assert_eq!(decode_message(vec![String::new()]), None);
    // duplicated x-coordinate
    let fragments = encode_message("This", 6, 4).unwrap();
    let dup = vec![
        fragments[0].clone(),
        fragments[1].clone(),
        fragments[2].clone(),
        fragments[2].clone(),
    ];
    assert_eq!(decode_message(dup), None);
}
