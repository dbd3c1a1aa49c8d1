use tokalign::rtok::RTok;
use tokalign::utf16::{substring, utf16_len, SubstringError};

#[test]
fn overlap_at_edge() {
    assert!(RTok {
        s: 0,
        e: 10,
        text: "".to_string()
    }
    .is_overlap(&RTok {
        s: 10,
        e: 20,
        text: "".to_string()
    }));
}

#[test]
fn disjoint_spans_do_not_overlap() {
    let a = RTok {
        s: 0,
        e: 3,
        text: "abc".to_string(),
    };
    let b = RTok {
        s: 4,
        e: 6,
        text: "de".to_string(),
    };
    assert!(!a.is_overlap(&b));
    assert!(!b.is_overlap(&a));
}

#[test]
fn utf16_len_counts_code_units() {
    assert_eq!(utf16_len(""), 0);
    assert_eq!(utf16_len("abc"), 3);
    // A combining mark is its own unit; a supplementary-plane code point
    // (here U+1D11E) takes a surrogate pair.
    assert_eq!(utf16_len("a\u{0301}"), 2);
    assert_eq!(utf16_len("a\u{1D11E}b"), 4);
    assert_eq!(utf16_len("\u{0E14}\u{0E33}"), 2);
}

#[test]
fn substring_by_code_units() {
    assert_eq!(substring("AB C", 0, 2).unwrap(), "AB");
    assert_eq!(substring("AB C", 2, 3).unwrap(), " ");
    assert_eq!(substring("abc", 1, 1).unwrap(), "");
    // The supplementary-plane code point occupies units 1 and 2.
    assert_eq!(substring("a\u{1D11E}b", 1, 3).unwrap(), "\u{1D11E}");
    assert_eq!(substring("a\u{1D11E}b", 3, 4).unwrap(), "b");
}

#[test]
fn substring_split_surrogate_pair_fails() {
    assert!(matches!(
        substring("a\u{1D11E}b", 1, 2),
        Err(SubstringError::EncodeUtf16)
    ));
    assert!(matches!(
        substring("a\u{1D11E}b", 2, 4),
        Err(SubstringError::EncodeUtf16)
    ));
}
