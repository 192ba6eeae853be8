use command_server::ids::{parse_uuid, uuid_string};

#[test]
fn test_uuid_string_matches_canonical_form() {
    let cases: Vec<u128> = vec![
        0,
        1,
        u128::MAX,
        0x67e55044_10b1_426f_9247_bb680e5fe0c8,
        uuid::Uuid::new_v4().as_u128(),
        uuid::Uuid::new_v4().as_u128(),
    ];
    for x in cases {
        let expected = uuid::Uuid::from_u128(x).hyphenated().to_string();
        assert_eq!(uuid_string(x), expected);
    }
}

#[test]
fn test_uuid_round_trip() {
    let cases: Vec<u128> = vec![0, 0xdead_beef, u128::MAX, uuid::Uuid::new_v4().as_u128()];
    for x in cases {
        assert_eq!(parse_uuid(&uuid_string(x)), Some(x));
    }
}

#[test]
fn test_parse_uuid_accepts_either_case() {
    let x = uuid::Uuid::new_v4().as_u128();
    let lower = uuid_string(x);
    assert_eq!(parse_uuid(&lower.to_uppercase()), Some(x));
    assert_eq!(parse_uuid(&lower), Some(x));
}

#[test]
fn test_parse_uuid_rejects_malformed_text() {
    assert_eq!(parse_uuid(""), None);
    assert_eq!(parse_uuid("67e55044-10b1-426f-9247"), None);
    assert_eq!(parse_uuid("67e5504410b1426f9247bb680e5fe0c8"), None);
    assert_eq!(parse_uuid("67e55044-10b1-426f-9247-bb680e5fe0c!"), None);
    assert_eq!(parse_uuid("67e55044x10b1-426f-9247-bb680e5fe0c8"), None);
    assert_eq!(parse_uuid("67e55044-10b1-426f-9247-bb680e5fe0c80"), None);
    assert_eq!(parse_uuid("g7e55044-10b1-426f-9247-bb680e5fe0c8"), None);
}
