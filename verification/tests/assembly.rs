use tokalign::bi_rtoks::BiRToks;
use tokalign::config::{Config, Langs};
use tokalign::lang::LangKey;
use tokalign::link::Link;
use tokalign::reader::Reader;
use tokalign::rtok::RTok;
use tokalign::rtoks_builder::RToksBuilder;
use tokalign::textunit::{Textunit, TextunitLoadingError};

fn toks(line: &str) -> Vec<String> {
    Reader::parse_toks(line)
}

#[test]
fn load_simple_textunits() {
    let rtoks_builder = RToksBuilder::new();
    let links_list = vec![vec![Link {
        source: 0,
        target: 1,
    }]];
    let source_toks_list = vec![toks("AB C")];
    // "แมวดำ" tokenized as "แมว" + "ดำ": five one-unit Thai characters.
    let target_toks_list = vec![toks("\u{0E41}\u{0E21}\u{0E27} \u{0E14}\u{0E33}")];
    let source_text_list = vec![String::from("AB C")];
    let target_text_list = vec![String::from("\u{0E41}\u{0E21}\u{0E27}\u{0E14}\u{0E33}")];
    let textunits = Textunit::load(
        &rtoks_builder,
        links_list,
        source_toks_list,
        target_toks_list,
        source_text_list,
        target_text_list,
    )
    .unwrap();
    let rtok = RTok {
        s: 3,
        e: 5,
        text: String::from("\u{0E14}\u{0E33}"),
    };
    assert_eq!(textunits[0].bi_rtoks.target[1], rtok);
}

#[test]
fn load_pairs_lines_across_all_sources() {
    let rtoks_builder = RToksBuilder::new();
    let links_list = vec![vec![Link { source: 0, target: 0 }], vec![]];
    let source_toks_list = vec![toks("a b"), toks("c")];
    let target_toks_list = vec![toks("x"), toks("y z")];
    let source_text_list = vec![String::from("a b"), String::from("c")];
    let target_text_list = vec![String::from("x"), String::from("y z")];
    let units = Textunit::load(
        &rtoks_builder,
        links_list,
        source_toks_list,
        target_toks_list,
        source_text_list,
        target_text_list,
    )
    .unwrap();
    assert_eq!(units.len(), 2);
    assert_eq!(units[0].bi_text.source, "a b");
    assert_eq!(units[0].bi_text.target, "x");
    assert_eq!(units[0].links, vec![Link { source: 0, target: 0 }]);
    assert_eq!(units[1].bi_text.source, "c");
    assert_eq!(units[1].bi_text.target, "y z");
    assert_eq!(units[1].links, vec![]);
    assert_eq!(units[1].bi_rtoks.source[0].text, "c");
}

#[test]
fn load_reports_failing_line_and_side() {
    let rtoks_builder = RToksBuilder::new();
    let links_list = vec![vec![], vec![]];
    let source_toks_list = vec![toks("a"), toks("c")];
    let target_toks_list = vec![toks("x"), toks("nope")];
    let source_text_list = vec![String::from("a"), String::from("c")];
    let target_text_list = vec![String::from("x"), String::from("y")];
    let err = Textunit::load(
        &rtoks_builder,
        links_list,
        source_toks_list,
        target_toks_list,
        source_text_list,
        target_text_list,
    )
    .unwrap_err();
    match err {
        TextunitLoadingError::CannotAlignToks { lang, line_no, .. } => {
            assert_eq!(lang, LangKey::TARGET);
            assert_eq!(line_no, 2);
        }
    }
}

#[test]
fn window_takes_offset_and_limit_consistently() {
    // A two-line corpus with offset 0 and a large limit keeps both lines in
    // every source, so exactly two records come out.
    let config = Config {
        corpus_dir: String::new(),
        tok_prefix: String::new(),
        langs: Langs {
            source: String::from("en"),
            target: String::from("th"),
        },
        alignment_file_path: String::new(),
        orig_prefix: String::new(),
        output_amphigram_path: String::new(),
        textunit_limit: 100,
        textunit_offset: 0,
    };
    let reader = Reader { config };
    let rtoks_builder = RToksBuilder::new();

    let link_lines = reader.window(vec![String::from("0-0"), String::from("")]);
    let source_lines = reader.window(vec![String::from("a b"), String::from("c")]);
    let target_lines = reader.window(vec![String::from("x"), String::from("y z")]);
    assert_eq!(link_lines.len(), 2);
    assert_eq!(source_lines.len(), 2);
    assert_eq!(target_lines.len(), 2);

    let links_list = Reader::parse_links_lines(&link_lines).unwrap();
    let source_toks_list: Vec<Vec<String>> =
        source_lines.iter().map(|l| toks(l)).collect();
    let target_toks_list: Vec<Vec<String>> =
        target_lines.iter().map(|l| toks(l)).collect();
    let units = Textunit::load(
        &rtoks_builder,
        links_list,
        source_toks_list,
        target_toks_list,
        source_lines,
        target_lines,
    )
    .unwrap();
    assert_eq!(units.len(), 2);
}

#[test]
fn window_skips_and_caps_lines() {
    let config = Config {
        corpus_dir: String::new(),
        tok_prefix: String::new(),
        langs: Langs {
            source: String::from("en"),
            target: String::from("th"),
        },
        alignment_file_path: String::new(),
        orig_prefix: String::new(),
        output_amphigram_path: String::new(),
        textunit_limit: 2,
        textunit_offset: 1,
    };
    let reader = Reader { config };
    let lines = vec![
        String::from("l0"),
        String::from("l1"),
        String::from("l2"),
        String::from("l3"),
    ];
    assert_eq!(
        reader.window(lines),
        vec![String::from("l1"), String::from("l2")]
    );
    assert_eq!(reader.window(vec![String::from("only")]), Vec::<String>::new());
}

#[test]
fn rtoks_picks_the_requested_side() {
    let source = vec![RTok {
        s: 0,
        e: 1,
        text: String::from("a"),
    }];
    let target = vec![RTok {
        s: 0,
        e: 2,
        text: String::from("xy"),
    }];
    let bi = BiRToks {
        source: source.clone(),
        target: target.clone(),
    };
    assert_eq!(bi.rtoks(LangKey::SOURCE), source);
    assert_eq!(bi.rtoks(LangKey::TARGET), target);
}

#[test]
fn lang_key_to_lang_reads_config() {
    let config = Config {
        corpus_dir: String::new(),
        tok_prefix: String::new(),
        langs: Langs {
            source: String::from("en"),
            target: String::from("th"),
        },
        alignment_file_path: String::new(),
        orig_prefix: String::new(),
        output_amphigram_path: String::new(),
        textunit_limit: 0,
        textunit_offset: 0,
    };
    let reader = Reader { config };
    assert_eq!(reader.lang_key_to_lang(LangKey::SOURCE), "en");
    assert_eq!(reader.lang_key_to_lang(LangKey::TARGET), "th");
}
