use blarg::tokens::ArgumentConfig;
use blarg::tokens::Narg;
use blarg::tokens::OptionConfig;
use blarg::tokens::Parameter;
use blarg::tokens::TokenParser;
use std::collections::HashSet;

fn set(parameters: Vec<Parameter>) -> HashSet<Parameter> {
    parameters.into_iter().collect()
}

#[test]
fn tokens_option_unmatched() {
        let options = vec![OptionConfig {
            name: "verbose".to_string(),
            short: None,
            limit: 0,
        }];
        let mut tp = TokenParser::new(options, Vec::new());

        assert_eq!(tp.feed("--moot"), Err(()));
}

#[test]
fn tokens_option_repeat() {
        let options = vec![OptionConfig {
            name: "verbose".to_string(),
            short: None,
            limit: 0,
        }];
        let mut tp = TokenParser::new(options, Vec::new());

        tp.feed("--verbose").unwrap();
        assert_eq!(tp.feed("--verbose"), Err(()));
}

#[test]
fn tokens_option_short() {
        let options = vec![OptionConfig {
            name: "verbose".to_string(),
            short: Some('v'),
            limit: 0,
        }];
        let mut tp = TokenParser::new(options, Vec::new());

        tp.feed("-v").unwrap();

        assert_eq!(
            set(tp.parameters().unwrap()),
            HashSet::from([Parameter {
                name: "verbose".to_string(),
                values: Vec::default(),
            }])
        );
}

#[test]
fn option_short_combined_too_few() {
        let options = vec![
            OptionConfig {
                name: "verbose".to_string(),
                short: Some('v'),
                limit: 0,
            },
            OptionConfig {
                name: "flag".to_string(),
                short: Some('f'),
                limit: 1,
            },
        ];
        let mut tp = TokenParser::new(options, Vec::new());

        // Execute
        tp.feed("-vf").unwrap();

        // Verify
        assert_eq!(tp.parameters(), Err(()));
}

#[test]
fn option_short_combined_multiple() {
        let options = vec![
            OptionConfig {
                name: "verbose".to_string(),
                short: Some('v'),
                limit: 0,
            },
            OptionConfig {
                name: "flag".to_string(),
                short: Some('f'),
                limit: 1,
            },
            OptionConfig {
                name: "other".to_string(),
                short: Some('o'),
                limit: 1,
            },
        ];
        let mut tp = TokenParser::new(options, Vec::new());

        // Execute
        tp.feed("-vfo").unwrap();

        // Verify
        assert_eq!(
            set(tp.parameters().unwrap()),
            HashSet::from([
                Parameter {
                    name: "verbose".to_string(),
                    values: Vec::default(),
                },
                Parameter {
                    name: "flag".to_string(),
                    values: vec!["o".to_string()],
                }
            ])
        );
}

#[test]
fn option_short_unmatcedh() {
        let options = vec![OptionConfig {
            name: "verbose".to_string(),
            short: Some('v'),
            limit: 0,
        }];
        let mut tp = TokenParser::new(options, Vec::new());

        assert_eq!(tp.feed("-f"), Err(()));
}

#[test]
fn tokens_option_short_repeat() {
        let options = vec![OptionConfig {
            name: "verbose".to_string(),
            short: Some('v'),
            limit: 0,
        }];
        let mut tp = TokenParser::new(options, Vec::new());

        tp.feed("-v").unwrap();
        assert_eq!(tp.feed("-v"), Err(()));
}

#[test]
fn argument_limit_zero() {
        // Setup
        let arguments = vec![ArgumentConfig {
            name: "item".to_string(),
            narg: Narg::Limit(0),
        }];
        let mut tp = TokenParser::new(Vec::new(), arguments);

        // Execute & verify
        assert_eq!(tp.parameters(), Err(()));
}

#[test]
fn argument_unlimited_without_value() {
        let arguments = vec![ArgumentConfig {
            name: "arg2".to_string(),
            narg: Narg::Unlimited,
        }];
        let mut tp = TokenParser::new(Vec::new(), arguments);

        assert_eq!(tp.parameters(), Err(()));
}

#[test]
fn tokens_arguments_with_preceeding_unlimited() {
        let arguments = vec![
            ArgumentConfig {
                name: "arg1".to_string(),
                narg: Narg::Unlimited,
            },
            ArgumentConfig {
                name: "arg2".to_string(),
                narg: Narg::Limit(1),
            },
        ];
        let mut tp = TokenParser::new(Vec::new(), arguments);

        tp.feed("value1").unwrap();
        tp.feed("value2").unwrap();

        assert_eq!(tp.parameters(), Err(()));
}

#[test]
fn arguments_with_multiple_unlimited() {
        let arguments = vec![
            ArgumentConfig {
                name: "arg1".to_string(),
                narg: Narg::Unlimited,
            },
            ArgumentConfig {
                name: "arg2".to_string(),
                narg: Narg::Unlimited,
            },
        ];
        let mut tp = TokenParser::new(Vec::new(), arguments);

        tp.feed("value1").unwrap();
        tp.feed("value2").unwrap();

        assert_eq!(tp.parameters(), Err(()));
}

#[test]
fn tokens_arguments_option_breaker() {
        let options = vec![OptionConfig {
            name: "verbose".to_string(),
            short: None,
            limit: 0,
        }];
        let arguments = vec![
            ArgumentConfig {
                name: "arg1".to_string(),
                narg: Narg::Limit(2),
            },
            ArgumentConfig {
                name: "arg2".to_string(),
                narg: Narg::Unlimited,
            },
        ];
        let mut tp = TokenParser::new(options, arguments);

        for token in vec!["x", "--verbose", "z"] {
            tp.feed(token).unwrap();
        }

        assert_eq!(
            set(tp.parameters().unwrap()),
            HashSet::from([
                Parameter {
                    name: "verbose".to_string(),
                    values: Vec::default(),
                },
                Parameter {
                    name: "arg1".to_string(),
                    values: vec!["x".to_string()],
                },
                Parameter {
                    name: "arg2".to_string(),
                    values: vec!["z".to_string()],
                },
            ])
        );
}

fn short_pair(limit: usize) -> Vec<OptionConfig> {
    vec![
        OptionConfig {
            name: "verbose".to_string(),
            short: Some('v'),
            limit: 0,
        },
        OptionConfig {
            name: "flag".to_string(),
            short: Some('f'),
            limit,
        },
    ]
}

#[test]
fn token_parser_short_cluster_values() {
    let cases: Vec<(Vec<&str>, Vec<&str>)> = vec![
        (vec!["-vfa"], vec!["a"]),
        (vec!["-vfab"], vec!["ab"]),
        (vec!["-vf="], vec![""]),
        (vec!["-vf=ab"], vec!["ab"]),
        (vec!["-vf", "ab"], vec!["ab"]),
        (vec!["-vf", "a", "b"], vec!["a", "b"]),
    ];
    for (tokens, expected) in cases {
        let mut tp = TokenParser::new(short_pair(2), Vec::new());
        for token in &tokens {
            tp.feed(token).unwrap();
        }
        assert_eq!(
            set(tp.parameters().unwrap()),
            HashSet::from([
                Parameter {
                    name: "verbose".to_string(),
                    values: Vec::new(),
                },
                Parameter {
                    name: "flag".to_string(),
                    values: expected.iter().map(|e| e.to_string()).collect(),
                },
            ])
        );
    }
}

#[test]
fn token_parser_option_with_equals() {
    for (token, expected) in [("--initial=", ""), ("--initial=a", "a"), ("--initial=a b ", "a b "), ("--initial=a=b", "a=b")] {
        let options = vec![OptionConfig {
            name: "initial".to_string(),
            short: None,
            limit: 1,
        }];
        let mut tp = TokenParser::new(options, Vec::new());
        tp.feed(token).unwrap();
        assert_eq!(
            tp.parameters().unwrap(),
            vec![Parameter {
                name: "initial".to_string(),
                values: vec![expected.to_string()],
            }]
        );
    }
}

#[test]
fn token_parser_option_limit_too_many() {
    let options = vec![OptionConfig {
        name: "initial".to_string(),
        short: None,
        limit: 1,
    }];
    let arguments = vec![ArgumentConfig {
        name: "item".to_string(),
        narg: Narg::Limit(1),
    }];
    let mut tp = TokenParser::new(options, arguments);
    tp.feed("--initial").unwrap();
    tp.feed("0").unwrap();
    tp.feed("1").unwrap();
    assert_eq!(tp.feed("2"), Err(()));
}

#[test]
fn token_parser_one_mix() {
    let cases: Vec<Vec<&str>> = vec![
        vec!["--switch", "a", "x", "y", "z"],
        vec!["--switch=a", "x", "y", "z"],
        vec!["-sa", "x", "y", "z"],
        vec!["-s=a", "x", "y", "z"],
        vec!["x", "y", "-s", "a", "z"],
        vec!["x", "y", "z", "-sa"],
    ];
    for tokens in cases {
        let options = vec![OptionConfig {
            name: "switch".to_string(),
            short: Some('s'),
            limit: 1,
        }];
        let arguments = vec![
            ArgumentConfig {
                name: "arg1".to_string(),
                narg: Narg::Limit(2),
            },
            ArgumentConfig {
                name: "arg2".to_string(),
                narg: Narg::Unlimited,
            },
        ];
        let mut tp = TokenParser::new(options, arguments);
        for token in &tokens {
            tp.feed(token).unwrap();
        }
        assert_eq!(
            set(tp.parameters().unwrap()),
            HashSet::from([
                Parameter {
                    name: "arg1".to_string(),
                    values: vec!["x".to_string(), "y".to_string()],
                },
                Parameter {
                    name: "arg2".to_string(),
                    values: vec!["z".to_string()],
                },
                Parameter {
                    name: "switch".to_string(),
                    values: vec!["a".to_string()],
                },
            ])
        );
    }
}

#[test]
fn token_parser_two_too_few_closes() {
    for tokens in [vec!["--switch=a", "x"], vec!["-s=a", "x"], vec!["-sa", "x"]] {
        let options = vec![OptionConfig {
            name: "switch".to_string(),
            short: Some('s'),
            limit: 2,
        }];
        let arguments = vec![ArgumentConfig {
            name: "arg".to_string(),
            narg: Narg::Unlimited,
        }];
        let mut tp = TokenParser::new(options, arguments);
        for token in &tokens {
            tp.feed(token).unwrap();
        }
        assert_eq!(
            tp.parameters().unwrap(),
            vec![
                Parameter {
                    name: "switch".to_string(),
                    values: vec!["a".to_string()],
                },
                Parameter {
                    name: "arg".to_string(),
                    values: vec!["x".to_string()],
                },
            ]
        );
    }
}

#[test]
fn token_parser_last_configuration_of_a_name_wins() {
    let options = vec![
        OptionConfig {
            name: "initial".to_string(),
            short: None,
            limit: 0,
        },
        OptionConfig {
            name: "initial".to_string(),
            short: None,
            limit: 2,
        },
    ];
    let mut tp = TokenParser::new(options, Vec::new());
    tp.feed("--initial").unwrap();
    tp.feed("a").unwrap();
    tp.feed("b").unwrap();
    assert_eq!(
        tp.parameters().unwrap(),
        vec![Parameter {
            name: "initial".to_string(),
            values: vec!["a".to_string(), "b".to_string()],
        }]
    );
}
