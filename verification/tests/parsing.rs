use tokalign::link::Link;
use tokalign::reader::{ParsingError, Reader};

#[test]
fn parse_simple_links() {
    assert_eq!(
        Reader::parse_links("1-2 3-4").unwrap(),
        vec![
            Link {
                source: 1,
                target: 2
            },
            Link {
                source: 3,
                target: 4
            }
        ]
    )
}

#[test]
fn parse_simple_link() {
    assert_eq!(
        Reader::parse_link("1-2").unwrap(),
        Link {
            source: 1,
            target: 2
        }
    )
}

#[test]
fn parse_link_large_numbers() {
    assert_eq!(
        Reader::parse_link("12-3456").unwrap(),
        Link {
            source: 12,
            target: 3456
        }
    );
}

#[test]
fn parse_link_missing_hyphen() {
    assert_eq!(Reader::parse_link("12").unwrap_err(), ParsingError::ParseLink);
}

#[test]
fn parse_link_empty_side() {
    assert_eq!(Reader::parse_link("1-").unwrap_err(), ParsingError::ParseLink);
    assert_eq!(Reader::parse_link("-2").unwrap_err(), ParsingError::ParseLink);
}

#[test]
fn parse_link_non_numeric() {
    assert_eq!(Reader::parse_link("a-2").unwrap_err(), ParsingError::ParseLink);
    assert_eq!(Reader::parse_link("1-b").unwrap_err(), ParsingError::ParseLink);
    assert_eq!(Reader::parse_link("1-2x").unwrap_err(), ParsingError::ParseLink);
    assert_eq!(Reader::parse_link("1-2-3").unwrap_err(), ParsingError::ParseLink);
}

#[test]
fn parse_link_number_too_large() {
    assert_eq!(
        Reader::parse_link("99999999999999999999999999-1").unwrap_err(),
        ParsingError::ParseNumber
    );
}

#[test]
fn parse_links_blank_line_is_empty() {
    assert_eq!(Reader::parse_links("").unwrap(), vec![]);
    assert_eq!(Reader::parse_links("   ").unwrap(), vec![]);
}

#[test]
fn parse_links_first_error_wins() {
    // The malformed second token decides the error, not the third.
    assert_eq!(
        Reader::parse_links("1-2 x-y 99999999999999999999999999-1").unwrap_err(),
        ParsingError::ParseLink
    );
    assert_eq!(
        Reader::parse_links("1-2 99999999999999999999999999-1 x-y").unwrap_err(),
        ParsingError::ParseNumber
    );
}

#[test]
fn parse_toks_splits_on_whitespace() {
    assert_eq!(
        Reader::parse_toks("ab cd  ef"),
        vec![
            String::from("ab"),
            String::from("cd"),
            String::from("ef")
        ]
    );
}

#[test]
fn parse_toks_trims_and_handles_unicode_whitespace() {
    assert_eq!(Reader::parse_toks(""), Vec::<String>::new());
    assert_eq!(
        Reader::parse_toks("  a\u{3000}b "),
        vec![String::from("a"), String::from("b")]
    );
}

#[test]
fn parse_links_lines_in_order() {
    let lines = vec![String::from("1-2 5-10"), String::from("70-100")];
    let lists = Reader::parse_links_lines(&lines).unwrap();
    assert_eq!(
        lists,
        vec![
            vec![
                Link {
                    source: 1,
                    target: 2
                },
                Link {
                    source: 5,
                    target: 10
                }
            ],
            vec![Link {
                source: 70,
                target: 100
            }]
        ]
    );
}

#[test]
fn parse_links_lines_first_bad_line_aborts() {
    let lines = vec![
        String::from("1-2"),
        String::from("oops"),
        String::from("99999999999999999999999999-1"),
    ];
    assert_eq!(
        Reader::parse_links_lines(&lines).unwrap_err(),
        ParsingError::ParseLink
    );
}
