use collation::collation_rules::{Collation, CollationRules, Rule};
use collation::ldml::{self, IdentityTag, Language, Version, LDML};
use collation::locale::{Error, Identity, Locale};

fn document(rules: Vec<&str>) -> LDML {
    LDML {
        identity: IdentityTag {
            version: Version {
                number: "$Revision$".into(),
            },
            language: Language { kind: "af".into() },
            territory: None,
        },
        collations: ldml::Collations {
            collation: vec![ldml::Collation {
                kind: "standard".into(),
                rules: rules.into_iter().map(|s| s.to_string()).collect(),
            }],
        },
    }
}

#[test]
fn locale_test_tailoring() {
    assert_eq!(
        Locale::try_from(document(vec!["&N<<<\u{149}"])).unwrap(),
        Locale {
            identity: Identity {
                version: "$Revision$".into(),
                language: "af".into(),
                territory: None,
            },
            collations: vec![Collation {
                kind: "standard".into(),
                rules: CollationRules {
                    settings: vec![],
                    rules: vec![
                        Rule::SetContext {
                            sequence: "N".into(),
                            before: None,
                        },
                        Rule::Increment {
                            level: 3,
                            sequence: "\u{149}".into(),
                            prefix: None,
                            extension: None,
                        }
                    ],
                },
            }]
        }
    )
}

#[test]
fn rule_strings_are_joined_without_separator() {
    let locale = Locale::try_from(document(vec!["&N<", "<<x"])).unwrap();
    assert_eq!(
        locale.collations[0].rules.rules[1],
        Rule::Increment {
            level: 3,
            sequence: "x".into(),
            prefix: None,
            extension: None,
        }
    );
}

#[test]
fn bad_rules_fail_the_locale() {
    assert_eq!(Locale::try_from(document(vec!["&N<<<"])), Err(Error::RuleParseError));
}
