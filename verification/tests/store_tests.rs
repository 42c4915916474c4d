use url_shortener::store::ShortLinkError;
use url_shortener::store::ShortLinkStore;

fn is_alphabet_char(c: char) -> bool {
    c.is_ascii_uppercase() || c.is_ascii_lowercase() || c.is_ascii_digit()
}

#[test]
fn generated_create_and_resolve() {
    let mut store = ShortLinkStore::new();
    let code = store
        .create("https://example.com".to_string(), None)
        .expect("generated create on an empty store succeeds");
    assert_eq!(code.chars().count(), 6);
    assert!(code.chars().all(is_alphabet_char));
    let url = store.resolve(&code).expect("the fresh code resolves");
    assert_eq!(url, "https://example.com");
}

#[test]
fn custom_code_round_trip() {
    let mut store = ShortLinkStore::new();
    let code = store
        .create("https://a.com".to_string(), Some("mm".to_string()))
        .expect("a free custom code is accepted");
    assert_eq!(code, "mm");
    assert_eq!(store.resolve(&"mm".to_string()), Ok("https://a.com".to_string()));
}

#[test]
fn no_overwrite_on_duplicate_code() {
    let mut store = ShortLinkStore::new();
    assert_eq!(
        store.create("https://a.com".to_string(), Some("abc".to_string())),
        Ok("abc".to_string())
    );
    assert_eq!(
        store.create("https://b.com".to_string(), Some("abc".to_string())),
        Err(ShortLinkError::CodeAlreadyExists)
    );
    assert_eq!(store.resolve(&"abc".to_string()), Ok("https://a.com".to_string()));
}

#[test]
fn unknown_code_not_found() {
    let mut store = ShortLinkStore::new();
    assert_eq!(
        store.resolve(&"doesnotexist".to_string()),
        Err(ShortLinkError::NotFound)
    );
    store
        .create("https://a.com".to_string(), Some("aaa".to_string()))
        .expect("free code");
    store
        .create("https://b.com".to_string(), Some("bbb".to_string()))
        .expect("free code");
    assert_eq!(
        store.resolve(&"doesnotexist".to_string()),
        Err(ShortLinkError::NotFound)
    );
}

#[test]
fn generated_codes_are_distinct_and_both_live() {
    let mut store = ShortLinkStore::new();
    let c1 = store
        .create("https://one.example".to_string(), None)
        .expect("generated create succeeds");
    let c2 = store
        .create("https://two.example".to_string(), None)
        .expect("generated create succeeds");
    assert_ne!(c1, c2);
    assert_eq!(store.resolve(&c1), Ok("https://one.example".to_string()));
    assert_eq!(store.resolve(&c2), Ok("https://two.example".to_string()));
}

#[test]
fn distinct_requested_codes_all_succeed_and_resolve() {
    let mut store = ShortLinkStore::new();
    let codes = vec!["a1", "b2", "c3", "d4", "e5", "f6", "g7", "h8", "i9", "j0"];
    for (n, code) in codes.iter().enumerate() {
        let url = format!("https://site{}.example", n);
        assert_eq!(store.create(url, Some(code.to_string())), Ok(code.to_string()));
    }
    for (n, code) in codes.iter().enumerate() {
        let expected = format!("https://site{}.example", n);
        assert_eq!(store.resolve(&code.to_string()), Ok(expected));
    }
}

#[test]
fn same_requested_code_exactly_one_success() {
    let mut store = ShortLinkStore::new();
    let mut successes = 0;
    let mut failures = 0;
    for n in 0..5 {
        let url = format!("https://caller{}.example", n);
        match store.create(url, Some("shared".to_string())) {
            Ok(code) => {
                assert_eq!(code, "shared");
                successes += 1;
            }
            Err(e) => {
                assert_eq!(e, ShortLinkError::CodeAlreadyExists);
                failures += 1;
            }
        }
    }
    assert_eq!(successes, 1);
    assert_eq!(failures, 4);
    assert_eq!(store.resolve(&"shared".to_string()), Ok("https://caller0.example".to_string()));
}

#[test]
fn empty_long_url_rejected() {
    let mut store = ShortLinkStore::new();
    assert_eq!(
        store.create(String::new(), None),
        Err(ShortLinkError::InvalidInput)
    );
    assert_eq!(
        store.create(String::new(), Some("ok".to_string())),
        Err(ShortLinkError::InvalidInput)
    );
    assert_eq!(store.resolve(&"ok".to_string()), Err(ShortLinkError::NotFound));
}

#[test]
fn invalid_requested_code_rejected() {
    let mut store = ShortLinkStore::new();
    for bad in ["", "a/b", "a b", "x%20", "Ümlaut", "semi;colon", "quest?ion"] {
        assert_eq!(
            store.create("https://a.com".to_string(), Some(bad.to_string())),
            Err(ShortLinkError::InvalidInput),
            "code {:?} must be rejected",
            bad
        );
    }
}

#[test]
fn unreserved_punctuation_accepted() {
    let mut store = ShortLinkStore::new();
    assert_eq!(
        store.create("https://a.com".to_string(), Some("my-code_1.x~".to_string())),
        Ok("my-code_1.x~".to_string())
    );
    assert_eq!(
        store.resolve(&"my-code_1.x~".to_string()),
        Ok("https://a.com".to_string())
    );
}

#[test]
fn contains_code_tracks_creates() {
    let mut store = ShortLinkStore::new();
    assert!(!store.contains_code(&"zzz".to_string()));
    store
        .create("https://a.com".to_string(), Some("zzz".to_string()))
        .expect("free code");
    assert!(store.contains_code(&"zzz".to_string()));
    assert!(!store.contains_code(&"zz".to_string()));
}

#[test]
fn exhausted_candidates_reported() {
    let mut store = ShortLinkStore::new();
    store
        .create("https://a.com".to_string(), Some("AAAAAA".to_string()))
        .expect("free code");
    store
        .create("https://b.com".to_string(), Some("BBBBBB".to_string()))
        .expect("free code");
    let candidates = vec!["AAAAAA".to_string(), "BBBBBB".to_string()];
    assert_eq!(
        store.create_with_candidates("https://c.com".to_string(), &candidates),
        Err(ShortLinkError::CodeSpaceExhausted)
    );
    assert_eq!(store.resolve(&"AAAAAA".to_string()), Ok("https://a.com".to_string()));
    assert_eq!(store.resolve(&"BBBBBB".to_string()), Ok("https://b.com".to_string()));
}

#[test]
fn first_free_candidate_taken() {
    let mut store = ShortLinkStore::new();
    store
        .create("https://a.com".to_string(), Some("taken1".to_string()))
        .expect("free code");
    let candidates = vec!["taken1".to_string(), "free22".to_string(), "free33".to_string()];
    assert_eq!(
        store.create_with_candidates("https://c.com".to_string(), &candidates),
        Ok("free22".to_string())
    );
    assert_eq!(store.resolve(&"free22".to_string()), Ok("https://c.com".to_string()));
    assert_eq!(store.resolve(&"free33".to_string()), Err(ShortLinkError::NotFound));
}

#[test]
fn exhausted_with_empty_url_is_invalid_input() {
    let mut store = ShortLinkStore::new();
    let candidates = vec!["abc".to_string()];
    assert_eq!(
        store.create_with_candidates(String::new(), &candidates),
        Err(ShortLinkError::InvalidInput)
    );
}

#[test]
fn stored_url_returned_byte_for_byte() {
    let mut store = ShortLinkStore::new();
    let odd_url = "https://example.com/path?q=a%20b&x=%2F#frag".to_string();
    let code = store
        .create(odd_url.clone(), Some("odd".to_string()))
        .expect("free code");
    assert_eq!(store.resolve(&code), Ok(odd_url));
}
