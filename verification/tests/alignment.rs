use tokalign::rtok::RTok;
use tokalign::rtoks_builder::{CharAlignError, RToksBuilder};
use tokalign::utf16::{substring, utf16_len};

#[test]
fn align_text_toks_simple() {
    let builder = RToksBuilder::new();
    let text = "AB C";
    let toks = vec![String::from("AB"), String::from(" "), String::from("C")];
    let rtoks = builder.align_text_toks(text, &toks).unwrap();
    let expected = vec![
        RTok {
            text: String::from("AB"),
            s: 0,
            e: 2,
        },
        RTok {
            text: String::from(" "),
            s: 2,
            e: 3,
        },
        RTok {
            text: String::from("C"),
            s: 3,
            e: 4,
        },
    ];
    assert_eq!(rtoks, expected);
}

#[test]
fn align_text_toks_f112() {
    let builder = RToksBuilder::new();
    let text = "AB\u{F112}C";
    let toks = vec![String::from("AB"), String::from(" "), String::from("C")];
    let rtoks = builder.align_text_toks(text, &toks).unwrap();
    let expected = vec![
        RTok {
            text: String::from("AB"),
            s: 0,
            e: 2,
        },
        RTok {
            text: String::from("\u{F112}"),
            s: 2,
            e: 3,
        },
        RTok {
            text: String::from("C"),
            s: 3,
            e: 4,
        },
    ];
    assert_eq!(rtoks, expected);
}

#[test]
fn align_empty_tokens_succeeds_trivially() {
    let builder = RToksBuilder::new();
    let rtoks = builder.align_text_toks("whatever text", &[]).unwrap();
    assert_eq!(rtoks, vec![]);
    let rtoks = builder.align_text_toks("", &[]).unwrap();
    assert_eq!(rtoks, vec![]);
}

#[test]
fn align_spans_are_ordered_and_exact() {
    let builder = RToksBuilder::new();
    let text = "one two  three";
    let toks = vec![
        String::from("one"),
        String::from("two"),
        String::from("three"),
    ];
    let rtoks = builder.align_text_toks(text, &toks).unwrap();
    for w in rtoks.windows(2) {
        assert!(w[0].e <= w[1].s);
    }
    for t in &rtoks {
        assert!(t.s <= t.e);
        assert_eq!(substring(text, t.s, t.e).unwrap(), t.text);
    }
}

#[test]
fn align_is_deterministic() {
    let builder = RToksBuilder::new();
    let text = "a\u{F112}B &amp; c";
    let toks = vec![
        String::from("A"),
        String::from("b"),
        String::from("&amp;"),
        String::from("c"),
    ];
    let first = builder.align_text_toks(text, &toks).unwrap();
    let second = builder.align_text_toks(text, &toks).unwrap();
    assert_eq!(first, second);
}

#[test]
fn align_unmatched_reports_first_stuck_token() {
    let builder = RToksBuilder::new();
    let text = "AB";
    let toks = vec![String::from("AB"), String::from("ZZ")];
    let err = builder.align_text_toks(text, &toks).unwrap_err();
    match err {
        CharAlignError::CannotMatchSomeToks {
            original_text,
            remaining_tokens,
            token_index,
            cursor,
            original_length,
        } => {
            assert_eq!(original_text, "AB");
            assert_eq!(remaining_tokens, vec![String::from("ZZ")]);
            assert_eq!(token_index, 1);
            assert_eq!(cursor, utf16_len(text));
            assert_eq!(original_length, utf16_len(text));
        }
    }
}

#[test]
fn align_unescapes_entities() {
    let builder = RToksBuilder::new();
    let text = "x'\"&[]";
    let toks = vec![
        String::from("x"),
        String::from("&apos;"),
        String::from("&quot;"),
        String::from("&amp;"),
        String::from("&#91;"),
        String::from("&#93;"),
    ];
    let rtoks = builder.align_text_toks(text, &toks).unwrap();
    let texts: Vec<&str> = rtoks.iter().map(|t| t.text.as_str()).collect();
    assert_eq!(texts, vec!["x", "'", "\"", "&", "[", "]"]);
}

#[test]
fn align_folds_ascii_case_only() {
    let builder = RToksBuilder::new();
    let rtoks = builder
        .align_text_toks("AbC", &[String::from("aBc")])
        .unwrap();
    assert_eq!(
        rtoks,
        vec![RTok {
            s: 0,
            e: 3,
            text: String::from("AbC")
        }]
    );
    // Non-ASCII case is compared as it stands.
    assert!(builder
        .align_text_toks("\u{00C9}", &[String::from("\u{00E9}")])
        .is_err());
}

#[test]
fn align_skips_unmatched_units_between_tokens() {
    let builder = RToksBuilder::new();
    let text = "a,, b";
    let toks = vec![String::from("a"), String::from("b")];
    let rtoks = builder.align_text_toks(text, &toks).unwrap();
    assert_eq!(
        rtoks,
        vec![
            RTok {
                s: 0,
                e: 1,
                text: String::from("a")
            },
            RTok {
                s: 4,
                e: 5,
                text: String::from("b")
            },
        ]
    );
}

#[test]
fn align_spans_surrogate_pairs() {
    let builder = RToksBuilder::new();
    // U+1D11E occupies two code units, so the second token starts at 3.
    let text = "a\u{1D11E} b";
    let toks = vec![String::from("a\u{1D11E}"), String::from("b")];
    let rtoks = builder.align_text_toks(text, &toks).unwrap();
    assert_eq!(
        rtoks,
        vec![
            RTok {
                s: 0,
                e: 3,
                text: String::from("a\u{1D11E}")
            },
            RTok {
                s: 4,
                e: 5,
                text: String::from("b")
            },
        ]
    );
}
