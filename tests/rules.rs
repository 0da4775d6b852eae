use collation::collation_rules::{
    before, cldr, escaped_char, quoted_chars, rule, rules, sequence, CollationRules, ParseError,
    Rule, SequenceElement,
};

#[test]
fn collation_rules_test_escaped_char() {
    assert_eq!(escaped_char(r"\u012345"), Ok(("45", '\u{0123}')));
    assert_eq!(escaped_char(r"\U00012345"), Ok(("", '\u{012345}')));
}

#[test]
fn collation_rules_test_quoted_chars() {
    assert_eq!(
        quoted_chars(r"'\u1111\u2222\U00000101' some other text"),
        Ok((" some other text", "\u{1111}\u{2222}\u{101}".into()))
    );

    assert_eq!(
        quoted_chars(r"' \u1111hello<'"),
        Ok(("", " \u{1111}hello<".into()))
    );
}

#[test]
fn collation_rules_test_sequence() {
    assert_eq!(
        sequence(r"hello'\u1111 \''world"),
        Ok(("", "hello\u{1111} 'world".into()))
    );

    assert_eq!(sequence("hello world"), Ok((" world", "hello".into())));
}

#[test]
fn collation_rules_test_single_rules() {
    assert_eq!(
        rule("& a"),
        Ok((
            "",
            Rule::SetContext {
                before: None,
                sequence: "a".into()
            },
        ))
    );

    assert_eq!(
        rule("< a"),
        Ok((
            "",
            Rule::Increment {
                level: 1,
                prefix: None,
                extension: None,
                sequence: "a".into()
            }
        ))
    );

    assert_eq!(
        rule("<* abc-z"),
        Ok((
            "",
            Rule::MultiIncrement {
                level: 1,
                multisequence: vec![
                    SequenceElement::Char('a'),
                    SequenceElement::Char('b'),
                    SequenceElement::Range('c'..='z'),
                ]
            }
        ))
    );

    assert_eq!(
        rule("=* abc-z"),
        Ok((
            "",
            Rule::MultiEqual {
                multisequence: vec![
                    SequenceElement::Char('a'),
                    SequenceElement::Char('b'),
                    SequenceElement::Range('c'..='z'),
                ]
            }
        ))
    )
}

fn abcdef_rules() -> Vec<Rule> {
    vec![
        Rule::SetContext {
            before: None,
            sequence: "a".into(),
        },
        Rule::Increment {
            level: 1,
            prefix: None,
            extension: None,
            sequence: "b".into(),
        },
        Rule::Increment {
            level: 2,
            prefix: None,
            extension: None,
            sequence: "c".into(),
        },
        Rule::Increment {
            level: 3,
            prefix: None,
            extension: None,
            sequence: "d".into(),
        },
        Rule::Increment {
            level: 4,
            prefix: None,
            extension: None,
            sequence: "e".into(),
        },
        Rule::Equal {
            sequence: "f".into(),
        },
    ]
}

#[test]
fn collation_rules_test_rules() {
    assert_eq!(
        rules("& a < b"),
        Ok((
            "",
            vec![
                Rule::SetContext {
                    before: None,
                    sequence: "a".into(),
                },
                Rule::Increment {
                    level: 1,
                    prefix: None,
                    extension: None,
                    sequence: "b".into(),
                },
            ]
        ))
    );

    assert_eq!(
        rules("& a < b\n<< c\n\t\t\t\t<<<\nd <<<< e = f"),
        Ok(("", abcdef_rules()))
    );
}

fn increment(level: u8, prefix: Option<&str>, extension: Option<&str>, sequence: &str) -> Rule {
    Rule::Increment {
        level,
        prefix: prefix.map(|s| s.into()),
        extension: extension.map(|s| s.into()),
        sequence: sequence.into(),
    }
}

#[test]
fn collation_rules_test_prefix_and_extension() {
    assert_eq!(
        rule("<<< ab | cd / ef"),
        Ok(("", increment(3, Some("cd"), Some("ef"), "ab"))),
    );
    assert_eq!(
        rule("<<< ab|cd/ef"),
        Ok(("", increment(3, Some("cd"), Some("ef"), "ab"))),
    );
    assert_eq!(rule("<<ab|cd"), Ok(("", increment(2, Some("cd"), None, "ab"))));
    assert_eq!(rule("<<ab/cd"), Ok(("", increment(2, None, Some("cd"), "ab"))));
}

#[test]
fn collation_rules_test_before() {
    assert_eq!(before("[before 2]"), Ok(("", 2)),);

    assert_eq!(
        rule("&[before 2] a"),
        Ok((
            "",
            Rule::SetContext {
                before: Some(2),
                sequence: "a".into(),
            }
        ))
    );

    assert_eq!(
        rule("&    [before      1] a"),
        Ok((
            "",
            Rule::SetContext {
                before: Some(1),
                sequence: "a".into(),
            }
        ))
    );

    assert_eq!(
        rule("&[before 3]a"),
        Ok((
            "",
            Rule::SetContext {
                before: Some(3),
                sequence: "a".into(),
            }
        ))
    );
}

#[test]
fn test_comment() {
    assert_eq!(
        rule("<< # comment 1\n   ab  # comment 2\n/#comment 3\ncd"),
        Ok(("", increment(2, None, Some("cd"), "ab"))),
    )
}

#[test]
fn parse_cldr_test_escaped_char() {
    assert_eq!(escaped_char(r"\u012345"), Ok(("45", '\u{0123}')));
    assert_eq!(escaped_char(r"\U00012345"), Ok(("", '\u{012345}')));
}

#[test]
fn parse_cldr_test_quoted_chars() {
    assert_eq!(
        quoted_chars(r"'\u1111\u2222\U00000101' some other text"),
        Ok((" some other text", "\u{1111}\u{2222}\u{101}".into()))
    );
    assert_eq!(
        quoted_chars(r"' \u1111hello<'"),
        Ok(("", " \u{1111}hello<".into()))
    );
}

#[test]
fn parse_cldr_test_sequence() {
    assert_eq!(
        sequence(r"hello'\u1111 \''world"),
        Ok(("", "hello\u{1111} 'world".into()))
    );
    assert_eq!(sequence("hello world"), Ok((" world", "hello".into())));
}

#[test]
fn parse_cldr_test_single_rules() {
    assert_eq!(
        rule("& a"),
        Ok((
            "",
            Rule::SetContext {
                before: None,
                sequence: "a".into()
            }
        ))
    );
    assert_eq!(rule("< a"), Ok(("", increment(1, None, None, "a"))));
}

#[test]
fn parse_cldr_test_rules() {
    assert_eq!(
        rules("& a < b"),
        Ok((
            "",
            vec![
                Rule::SetContext {
                    before: None,
                    sequence: "a".into(),
                },
                increment(1, None, None, "b"),
            ]
        ))
    );
    assert_eq!(
        rules("& a < b\n<< c\n\t\t\t\t<<<\nd <<<< e = f"),
        Ok(("", abcdef_rules()))
    );
}

#[test]
fn parse_cldr_test_prefix_and_extension() {
    assert_eq!(
        rule("<<< ab | cd / ef"),
        Ok(("", increment(3, Some("cd"), Some("ef"), "ab")))
    );
    assert_eq!(
        rule("<<< ab|cd/ef"),
        Ok(("", increment(3, Some("cd"), Some("ef"), "ab")))
    );
    assert_eq!(rule("<<ab|cd"), Ok(("", increment(2, Some("cd"), None, "ab"))));
    assert_eq!(rule("<<ab/cd"), Ok(("", increment(2, None, Some("cd"), "ab"))));
}

#[test]
fn parse_cldr_test_before() {
    assert_eq!(before("[before 2]"), Ok(("", 2)));
    for (text, n) in [("&[before 2] a", 2), ("&    [before      1] a", 1), ("&[before 3]a", 3)] {
        assert_eq!(
            rule(text),
            Ok((
                "",
                Rule::SetContext {
                    before: Some(n),
                    sequence: "a".into(),
                }
            ))
        );
    }
}

#[test]
fn every_escape_in_quotes_reads_its_character() {
    let table = [
        ('a', '\u{7}'),
        ('b', '\u{8}'),
        ('t', '\t'),
        ('n', '\n'),
        ('v', '\u{B}'),
        ('f', '\u{C}'),
        ('r', '\r'),
        ('e', '\u{1B}'),
        ('"', '"'),
        ('\'', '\''),
        ('?', '?'),
        ('\\', '\\'),
        ('x', 'x'),
        ('#', '#'),
    ];
    for (x, c) in table {
        let text = format!("'\\{}'", x);
        assert_eq!(sequence(&text), Ok(("", c.to_string())), "escape {:?}", x);
    }
    assert_eq!(sequence(r"'\u00e9'"), Ok(("", "\u{e9}".to_string())));
    assert_eq!(sequence(r"'\U0001F600'"), Ok(("", "\u{1F600}".to_string())));
}

#[test]
fn invalid_escapes_fail() {
    // a surrogate is no character
    assert!(escaped_char(r"\uD800").is_err());
    // beyond U+10FFFF
    assert!(escaped_char(r"\U00110000").is_err());
    // too few digits
    assert!(escaped_char(r"\u12").is_err());
    // a backslash at the end
    assert!(escaped_char("\\").is_err());
    // a bad escape ends the quoted span, which then is unterminated
    assert!(quoted_chars(r"'\uD800'").is_err());
    assert_eq!(sequence(r"ab'\uD800'"), Ok((r"'\uD800'", "ab".into())));
}

#[test]
fn quoting_edge_cases() {
    // an empty quoted span is none
    assert!(quoted_chars("''").is_err());
    // an unterminated one neither
    assert!(quoted_chars("'abc").is_err());
    // a sequence needs at least one character
    assert_eq!(sequence("<a"), Err(ParseError { position: 0 }));
}

#[test]
fn forms_are_told_apart_by_their_operators() {
    assert!(matches!(rule("<*ab"), Ok((_, Rule::MultiIncrement { level: 1, .. }))));
    assert!(matches!(rule("<<<<*ab"), Ok((_, Rule::MultiIncrement { level: 4, .. }))));
    assert!(matches!(rule("<ab"), Ok((_, Rule::Increment { level: 1, .. }))));
    assert!(matches!(rule("=*ab"), Ok((_, Rule::MultiEqual { .. }))));
    assert!(matches!(rule("=ab"), Ok((_, Rule::Equal { .. }))));
    // five `<` are no level
    assert!(rule("<<<<<a").is_err());
    assert_eq!(rule("  ?"), Err(ParseError { position: 2 }));
}

#[test]
fn whole_tailoring() {
    let parsed = cldr("[strength 2] [alternate shifted]\n&a < b # the end\n").unwrap();
    assert_eq!(
        parsed,
        CollationRules {
            settings: vec![
                ("strength".into(), "2".into()),
                ("alternate".into(), "shifted".into())
            ],
            rules: vec![
                Rule::SetContext {
                    before: None,
                    sequence: "a".into()
                },
                increment(1, None, None, "b"),
            ],
        }
    );
    // settings may follow one another directly, and repeat
    let parsed = cldr("[a b][a c]&x").unwrap();
    assert_eq!(parsed.settings.len(), 2);
    assert_eq!(parsed.rules.len(), 1);
    // an empty text is an empty tailoring
    assert_eq!(
        cldr("  \n"),
        Ok(CollationRules {
            settings: vec![],
            rules: vec![]
        })
    );
    // the error holds where reading stopped
    assert_eq!(cldr("&a < b ?"), Err(ParseError { position: 7 }));
    // a comment needs its line ending
    assert_eq!(cldr("&a # no end"), Err(ParseError { position: 3 }));
}

#[test]
fn error_gives_the_rest_of_the_input() {
    let text = "&a < b ?";
    let e = cldr(text).unwrap_err();
    assert_eq!(e.remaining(text), "?");
    assert_eq!(ParseError { position: 99 }.remaining(text), "");
}
