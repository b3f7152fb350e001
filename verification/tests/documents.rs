use rrgen::directive::{
    decode_front_matter, decode_injection, single_mode, FrontMatter, RawFrontMatter, RawInjection,
};
use rrgen::filters::{camel_case, kebab_case, lower_camel_case, pascal_case, plural, snake_case};
use rrgen::inject::{Injection, InsertionPoint, MatchPositions, Mode};
use rrgen::outcome::{merge_results, Error, GenResult};
use rrgen::split::{is_blank, normalize, paired_parts, parse_template, split_parts};

fn pair(header: &str, body: &str) -> (String, String) {
    (header.to_string(), body.to_string())
}

fn raw_rule() -> RawInjection {
    RawInjection {
        into: "target.txt".to_string(),
        content: "text".to_string(),
        inline: false,
        skip_if: None,
        before: None,
        before_all: None,
        before_last: None,
        after: None,
        after_all: None,
        after_last: None,
        remove_lines: None,
        replace: None,
        replace_all: None,
        prepend: false,
        append: false,
    }
}

fn expected(mode: Mode) -> Injection {
    Injection {
        into: "target.txt".to_string(),
        content: "text".to_string(),
        inline: false,
        skip_if: None,
        mode,
    }
}

#[test]
fn one_header_and_body_is_one_document() {
    assert_eq!(
        parse_template("to: a.txt\n---\nbody text\n"),
        Ok(vec![pair("to: a.txt\n", "body text\n")])
    );
}

#[test]
fn one_separator_keeps_blank_pieces() {
    assert_eq!(parse_template("---\nbody"), Ok(vec![pair("", "body")]));
    assert_eq!(parse_template("to: a\n---\n"), Ok(vec![pair("to: a\n", "")]));
    assert_eq!(parse_template("---\n"), Ok(vec![pair("", "")]));
}

#[test]
fn leading_separator_is_dropped_with_its_blank_piece() {
    assert_eq!(
        parse_template("---\nto: a\n---\nbody\n"),
        Ok(vec![pair("to: a\n", "body\n")])
    );
}

#[test]
fn several_documents_pair_up_in_order() {
    assert_eq!(
        parse_template("---\nto: a\n---\nbody a\n---\nto: b\n---\nbody b\n"),
        Ok(vec![pair("to: a\n", "body a\n"), pair("to: b\n", "body b\n")])
    );
}

#[test]
fn odd_number_of_pieces_is_a_parse_error() {
    let r = parse_template("a\n---\nb\n---\nc\n");
    assert_eq!(
        r,
        Err(Error::Parse("cannot split document into pair(s) of frontmatter and body".to_string()))
    );
    assert!(matches!(parse_template("no separator at all"), Err(Error::Parse(_))));
}

#[test]
fn paired_parts_drop_blank_pieces_unless_there_are_two() {
    assert_eq!(paired_parts("---\nbody"), vec!["".to_string(), "body".to_string()]);
    assert_eq!(
        paired_parts("---\na\n---\nb\n---\n\t\n---\nc"),
        vec!["a\n".to_string(), "b\n".to_string(), "c".to_string()]
    );
    assert_eq!(paired_parts("\n"), Vec::<String>::new());
}

#[test]
fn text_without_content_has_no_documents() {
    assert_eq!(parse_template(""), Ok(Vec::new()));
    assert_eq!(parse_template("\n\t\n"), Ok(Vec::new()));
}

#[test]
fn line_endings_are_normalized_before_splitting() {
    assert_eq!(
        parse_template("to: a\r\n---\r\nbody\r\n"),
        Ok(vec![pair("to: a\n", "body\n")])
    );
    assert_eq!(normalize("a\r\nb\rc\r\r\n"), "a\nb\rc\r\n".chars().collect::<Vec<char>>());
}

#[test]
fn separator_is_found_after_extra_dashes() {
    let text: Vec<char> = "x----\ny".chars().collect();
    assert_eq!(split_parts(&text), vec!["x-".to_string(), "y".to_string()]);
    let none: Vec<char> = "a---b\n--\n".chars().collect();
    assert_eq!(split_parts(&none), vec!["a---b\n--\n".to_string()]);
    let twice: Vec<char> = "---\n---\n".chars().collect();
    assert_eq!(split_parts(&twice), vec!["".to_string(), "".to_string(), "".to_string()]);
}

#[test]
fn blank_means_only_newlines_and_tabs() {
    assert!(is_blank(""));
    assert!(is_blank("\n\t\n"));
    assert!(!is_blank(" "));
    assert!(!is_blank("\n a"));
}

#[test]
fn rule_without_a_mode_is_accepted_and_does_nothing() {
    assert_eq!(decode_injection(&raw_rule()), Ok(expected(Mode::Nothing)));
}

#[test]
fn each_mode_field_selects_its_mode() {
    let p = || Some("re+".to_string());
    let pattern = "re+".to_string();
    let mut raw = raw_rule();
    raw.prepend = true;
    assert_eq!(decode_injection(&raw), Ok(expected(Mode::Prepend)));
    let mut raw = raw_rule();
    raw.append = true;
    assert_eq!(decode_injection(&raw), Ok(expected(Mode::Append)));
    let insert = |position, select| Mode::Insert { position, select, pattern: pattern.clone() };
    let mut raw = raw_rule();
    raw.before = p();
    assert_eq!(
        decode_injection(&raw),
        Ok(expected(insert(InsertionPoint::Before, MatchPositions::First)))
    );
    let mut raw = raw_rule();
    raw.before_all = p();
    assert_eq!(
        decode_injection(&raw),
        Ok(expected(insert(InsertionPoint::Before, MatchPositions::All)))
    );
    let mut raw = raw_rule();
    raw.before_last = p();
    assert_eq!(
        decode_injection(&raw),
        Ok(expected(insert(InsertionPoint::Before, MatchPositions::Last)))
    );
    let mut raw = raw_rule();
    raw.after = p();
    assert_eq!(
        decode_injection(&raw),
        Ok(expected(insert(InsertionPoint::After, MatchPositions::First)))
    );
    let mut raw = raw_rule();
    raw.after_all = p();
    assert_eq!(
        decode_injection(&raw),
        Ok(expected(insert(InsertionPoint::After, MatchPositions::All)))
    );
    let mut raw = raw_rule();
    raw.after_last = p();
    assert_eq!(
        decode_injection(&raw),
        Ok(expected(insert(InsertionPoint::After, MatchPositions::Last)))
    );
    let mut raw = raw_rule();
    raw.remove_lines = p();
    assert_eq!(
        decode_injection(&raw),
        Ok(expected(Mode::RemoveLines { pattern: pattern.clone() }))
    );
    let mut raw = raw_rule();
    raw.replace = p();
    assert_eq!(decode_injection(&raw), Ok(expected(Mode::Replace { pattern: pattern.clone() })));
    let mut raw = raw_rule();
    raw.replace_all = p();
    assert_eq!(
        decode_injection(&raw),
        Ok(expected(Mode::ReplaceAll { pattern: pattern.clone() }))
    );
}

#[test]
fn two_modes_on_one_rule_are_refused() {
    let mut raw = raw_rule();
    raw.prepend = true;
    raw.append = true;
    assert!(matches!(decode_injection(&raw), Err(Error::Parse(_))));
    let mut raw = raw_rule();
    raw.before = Some("a".to_string());
    raw.replace_all = Some("b".to_string());
    assert!(matches!(decode_injection(&raw), Err(Error::Parse(_))));
}

#[test]
fn single_mode_counts_the_modes_and_ignores_the_patterns() {
    let mut raw = raw_rule();
    assert_eq!(single_mode(&raw), Ok(Mode::Nothing));
    raw.replace = Some("(unclosed".to_string());
    assert_eq!(single_mode(&raw), Ok(Mode::Replace { pattern: "(unclosed".to_string() }));
    raw.prepend = true;
    assert_eq!(
        single_mode(&raw),
        Err(Error::Parse("an injection sets more than one mode".to_string()))
    );
    assert_eq!(
        decode_injection(&raw),
        Err(Error::Parse("an injection sets more than one mode".to_string()))
    );
    raw.prepend = false;
    assert_eq!(
        decode_injection(&raw),
        Err(Error::Parse("an injection holds an invalid regex".to_string()))
    );
}

#[test]
fn guard_is_no_mode() {
    let mut raw = raw_rule();
    raw.skip_if = Some("done".to_string());
    raw.append = true;
    let mut want = expected(Mode::Append);
    want.skip_if = Some("done".to_string());
    assert_eq!(decode_injection(&raw), Ok(want));
}

#[test]
fn invalid_regex_is_refused() {
    let mut raw = raw_rule();
    raw.after = Some("(unclosed".to_string());
    assert!(matches!(decode_injection(&raw), Err(Error::Parse(_))));
    let mut raw = raw_rule();
    raw.skip_if = Some("[".to_string());
    raw.prepend = true;
    assert!(matches!(decode_injection(&raw), Err(Error::Parse(_))));
}

#[test]
fn header_keeps_its_fields_and_checks_its_rules() {
    let mut rule = raw_rule();
    rule.append = true;
    let raw = RawFrontMatter {
        to: Some("out.txt".to_string()),
        skip_exists: true,
        skip_glob: Some("*.txt".to_string()),
        message: Some("done".to_string()),
        injections: Some(vec![raw_rule(), rule.clone()]),
    };
    assert_eq!(
        decode_front_matter(&raw),
        Ok(FrontMatter {
            to: Some("out.txt".to_string()),
            skip_exists: true,
            skip_glob: Some("*.txt".to_string()),
            message: Some("done".to_string()),
            injections: vec![expected(Mode::Nothing), expected(Mode::Append)],
        })
    );
    let mut bad = rule.clone();
    bad.prepend = true;
    let refused = RawFrontMatter {
        to: None,
        skip_exists: false,
        skip_glob: None,
        message: None,
        injections: Some(vec![rule, bad]),
    };
    assert!(matches!(decode_front_matter(&refused), Err(Error::Parse(_))));
    let empty = RawFrontMatter {
        to: None,
        skip_exists: false,
        skip_glob: None,
        message: None,
        injections: None,
    };
    assert_eq!(
        decode_front_matter(&empty),
        Ok(FrontMatter {
            to: None,
            skip_exists: false,
            skip_glob: None,
            message: None,
            injections: Vec::new(),
        })
    );
}

#[test]
fn summary_joins_the_messages_of_generated_documents() {
    let results = vec![
        GenResult::Generated { message: Some("first".to_string()) },
        GenResult::Skipped,
        GenResult::Generated { message: None },
        GenResult::Generated { message: Some("".to_string()) },
        GenResult::Generated { message: Some("second".to_string()) },
    ];
    assert_eq!(
        merge_results(&results),
        GenResult::Generated { message: Some("first\nsecond".to_string()) }
    );
}

#[test]
fn summary_of_skipped_documents_is_generated_and_empty() {
    assert_eq!(
        merge_results(&vec![GenResult::Skipped, GenResult::Skipped]),
        GenResult::Generated { message: Some("".to_string()) }
    );
    assert_eq!(merge_results(&Vec::new()), GenResult::Generated { message: Some("".to_string()) });
}

#[test]
fn error_messages() {
    assert_eq!(Error::Parse("bad header".to_string()).message(), "bad header");
    assert_eq!(
        Error::MissingInjectionTarget("src/lib.rs".to_string()).message(),
        "cannot inject into src/lib.rs: file does not exist"
    );
    assert_eq!(Error::InvalidGlobPattern("[".to_string()).message(), "invalid glob pattern: [");
    assert_eq!(Error::Io("disk full".to_string()).message(), "disk full");
}

#[test]
fn case_filters() {
    assert_eq!(snake_case("HelloWorld example".to_string()), "hello_world_example");
    assert_eq!(camel_case("hello_world".to_string()), "helloWorld");
    assert_eq!(lower_camel_case("Hello world".to_string()), "helloWorld");
    assert_eq!(kebab_case("HelloWorld".to_string()), "hello-world");
    assert_eq!(pascal_case("hello_world".to_string()), "HelloWorld");
}

#[test]
fn plural_filter() {
    assert_eq!(plural("cat".to_string()), "cats");
    assert_eq!(plural("geometry".to_string()), "geometries");
    assert_eq!(plural("ox".to_string()), "oxen");
}
