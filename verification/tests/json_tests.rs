use steiger::canon::sort_kvs;
use steiger::digest::{sha256_digest, split_algo_hash};
use steiger::json::{parse_json, Json};

fn s(text: &str) -> Vec<u8> {
    text.as_bytes().to_vec()
}

#[test]
fn known_digests_come_out_exactly() {
    assert_eq!(
        sha256_digest(b""),
        s("sha256:e3b0c44298fc1c149afbf4c8996fb92427ae41e4649b934ca495991b7852b855")
    );
    assert_eq!(
        sha256_digest(b"abc"),
        s("sha256:ba7816bf8f01cfea414140de5dae2223b00361a396177a9cb410ff61f20015ad")
    );
}

#[test]
fn digests_split_at_the_first_colon() {
    let (algo, hash) = split_algo_hash(b"sha256:abcd");
    assert_eq!(algo, s("sha256"));
    assert_eq!(hash, s("abcd"));
    let (algo, hash) = split_algo_hash(b"nocolon");
    assert_eq!(algo, s(""));
    assert_eq!(hash, s(""));
}

fn text_of(j: &Json) -> Vec<u8> {
    match j {
        Json::Text(t) => t.clone(),
        _ => panic!("expected a string"),
    }
}

#[test]
fn parses_scalars() {
    assert!(matches!(parse_json(b"null"), Ok(Json::Null)));
    assert!(matches!(parse_json(b"true"), Ok(Json::Bool(true))));
    assert!(matches!(parse_json(b"false"), Ok(Json::Bool(false))));
    assert!(matches!(parse_json(b"42"), Ok(Json::UInt(42))));
    assert!(matches!(parse_json(b" 7 "), Ok(Json::UInt(7))));
}

#[test]
fn parses_strings_and_escapes() {
    assert_eq!(text_of(&parse_json(br#""hello""#).unwrap()), s("hello"));
    assert_eq!(text_of(&parse_json(br#""a\"b\\c\/d""#).unwrap()), s("a\"b\\c/d"));
    assert_eq!(text_of(&parse_json(br#""a\nb\tc""#).unwrap()), s("a\nb\tc"));
    assert_eq!(text_of(&parse_json(br#""A""#).unwrap()), s("A"));
    // A surrogate pair encodes one four-byte scalar.
    assert_eq!(
        text_of(&parse_json(b"\"\\uD83D\\uDE00\"").unwrap()),
        vec![0xF0, 0x9F, 0x98, 0x80]
    );
}

#[test]
fn parses_arrays_and_objects() {
    match parse_json(br#"[1, "two", null]"#).unwrap() {
        Json::Arr(items) => {
            assert_eq!(items.len(), 3);
            assert!(matches!(items[0], Json::UInt(1)));
            assert_eq!(text_of(&items[1]), s("two"));
            assert!(matches!(items[2], Json::Null));
        },
        _ => panic!("expected an array"),
    }
    match parse_json(br#"{"a": 1, "b": {"c": []}}"#).unwrap() {
        Json::Obj(members) => {
            assert_eq!(members.len(), 2);
            assert_eq!(members[0].0, s("a"));
            assert_eq!(members[1].0, s("b"));
        },
        _ => panic!("expected an object"),
    }
}

#[test]
fn rejects_malformed_documents() {
    assert!(parse_json(b"").is_err());
    assert!(parse_json(b"{").is_err());
    assert!(parse_json(b"[1,]").is_err());
    assert!(parse_json(b"nul").is_err());
    assert!(parse_json(br#""unterminated"#).is_err());
    assert!(parse_json(b"1 2").is_err());
    assert!(parse_json(br#""\q""#).is_err());
    // A lone surrogate has no scalar value.
    assert!(parse_json(br#""\ud83d""#).is_err());
    // Numbers beyond the supported range are refused, not wrapped.
    assert!(parse_json(b"99999999999999999999999").is_err());
    // Negative numbers and fractions are outside the supported
    // documents.
    assert!(parse_json(b"-1").is_err());
}

#[test]
fn keys_sort_lexicographically() {
    let kvs = vec![
        (s("zeta"), s("1")),
        (s("alpha"), s("2")),
        (s("beta"), s("3")),
    ];
    let sorted = sort_kvs(kvs).unwrap();
    assert_eq!(sorted[0].0, s("alpha"));
    assert_eq!(sorted[1].0, s("beta"));
    assert_eq!(sorted[2].0, s("zeta"));
}

#[test]
fn a_prefix_sorts_before_its_extension() {
    let sorted = sort_kvs(vec![(s("ab"), s("1")), (s("a"), s("2"))]).unwrap();
    assert_eq!(sorted[0].0, s("a"));
    assert_eq!(sorted[1].0, s("ab"));
}

#[test]
fn duplicate_keys_fail_the_sort() {
    assert!(sort_kvs(vec![(s("a"), s("1")), (s("a"), s("2"))]).is_none());
}
