use blarg::Nargs;
use blarg::matcher::api::ArgumentConfig;
use blarg::matcher::api::Bound;
use blarg::matcher::api::OptionConfig;
use blarg::matcher::model::MatchTokens;
use blarg::matcher::token_matcher::MatchError;
use blarg::matcher::token_matcher::TokenMatcher;
use blarg::matcher::token_matcher::TokenMatcherError;

#[test]
fn from_nargs() {
        assert_eq!(Bound::from(Nargs::Precisely(0)), Bound::Range(0, 0));
        assert_eq!(Bound::from(Nargs::Precisely(1)), Bound::Range(1, 1));
        assert_eq!(Bound::from(Nargs::Any), Bound::Lower(0));
        assert_eq!(Bound::from(Nargs::AtLeastOne), Bound::Lower(1));
}


#[test]
fn option_duplicate() {
        let options = Vec::from([
            OptionConfig::new("abc".to_string(), None, Bound::Range(1, 1)),
            OptionConfig::new("abc".to_string(), Some('a'), Bound::Range(1, 1)),
        ]);
        let error = TokenMatcher::new(options, Vec::new()).unwrap_err();
        assert_eq!(error, TokenMatcherError::DuplicateOption("abc".to_string()));
}

#[test]
fn core_option_unmatched() {
        let options = Vec::from([OptionConfig::new(
            "verbose".to_string(),
            None,
            Bound::Lower(0),
        )]);
        let mut tp = TokenMatcher::new(options, Vec::new()).unwrap();

        assert_eq!(
            tp.feed("--moot").unwrap_err(),
            MatchError::InvalidOption("moot".to_string())
        );
}

#[test]
fn core_option_repeat() {
        let options = Vec::from([OptionConfig::new(
            "verbose".to_string(),
            None,
            Bound::Lower(0),
        )]);
        let mut tp = TokenMatcher::new(options, Vec::new()).unwrap();

        tp.feed("--verbose").unwrap();
        assert_eq!(
            tp.feed("--verbose").unwrap_err(),
            MatchError::InvalidOption("verbose".to_string())
        );
}

#[test]
fn core_option_short_too_few() {
        let options = Vec::from([
            OptionConfig::new("verbose".to_string(), Some('v'), Bound::Lower(1)),
            OptionConfig::new("flag".to_string(), Some('f'), Bound::Lower(0)),
        ]);
        let mut tp = TokenMatcher::new(options, Vec::new()).unwrap();

        // Execute & verify
        assert_eq!(
            tp.feed("-vf").unwrap_err(),
            MatchError::Undercomplete("verbose".to_string())
        );
}

#[test]
fn core_option_short_duplicate() {
        let options = Vec::from([
            OptionConfig::new("verbose".to_string(), Some('v'), Bound::Lower(0)),
            OptionConfig::new("item".to_string(), Some('v'), Bound::Lower(0)),
        ]);
        let error = TokenMatcher::new(options, Vec::new()).unwrap_err();
        assert_eq!(error, TokenMatcherError::DuplicateShortOption('v'));
}

#[test]
fn core_option_short_unmatched() {
        let options = Vec::from([OptionConfig::new(
            "verbose".to_string(),
            Some('v'),
            Bound::Lower(0),
        )]);
        let mut tp = TokenMatcher::new(options, Vec::new()).unwrap();

        assert_eq!(
            tp.feed("-f").unwrap_err(),
            MatchError::InvalidShortOption('f')
        );
}

#[test]
fn core_option_short_repeat() {
        let options = Vec::from([OptionConfig::new(
            "verbose".to_string(),
            Some('v'),
            Bound::Lower(0),
        )]);
        let mut tp = TokenMatcher::new(options, Vec::new()).unwrap();

        tp.feed("-v").unwrap();
        assert_eq!(
            tp.feed("-v").unwrap_err(),
            MatchError::InvalidShortOption('v')
        );
}

#[test]
fn core_arguments_multiple() {
        // Setup
        let arguments = Vec::from([
            ArgumentConfig::new("arg1".to_string(), Bound::Range(1, 2)),
            ArgumentConfig::new("arg2".to_string(), Bound::Lower(1)),
        ]);
        let mut tp = TokenMatcher::new(Vec::new(), arguments).unwrap();

        // Execute
        tp.feed("a").unwrap();
        tp.feed("b").unwrap();
        tp.feed("c").unwrap();

        // Verify
        assert_eq!(
            tp.close().unwrap().values,
            vec![
                MatchTokens {
                    name: "arg1".to_string(),
                    values: vec![(0, "a".to_string()), (1, "b".to_string())],
                },
                MatchTokens {
                    name: "arg2".to_string(),
                    values: vec![(2, "c".to_string())],
                },
            ]
        );
}

#[test]
fn core_arguments_with_preceeding_unlimited() {
        let arguments = Vec::from([
            ArgumentConfig::new("arg1".to_string(), Bound::Lower(1)),
            ArgumentConfig::new("arg2".to_string(), Bound::Range(1, 1)),
        ]);
        let mut tp = TokenMatcher::new(Vec::new(), arguments).unwrap();

        tp.feed("value1").unwrap();
        tp.feed("value2").unwrap();

        let (offset, error, matches) = tp.close().unwrap_err();
        assert_eq!(offset, 12);
        assert_eq!(error, MatchError::Undercomplete("arg2".to_string()));
        assert_eq!(
            matches.values,
            vec![MatchTokens {
                name: "arg1".to_string(),
                values: vec![(0, "value1".to_string()), (6, "value2".to_string())],
            }]
        );
}

#[test]
fn core_arguments_option_breaker() {
        let options = Vec::from([OptionConfig::new(
            "verbose".to_string(),
            None,
            Bound::Range(0, 0),
        )]);
        let arguments = Vec::from([
            ArgumentConfig::new("arg1".to_string(), Bound::Range(1, 2)),
            ArgumentConfig::new("arg2".to_string(), Bound::Lower(1)),
        ]);
        let mut tp = TokenMatcher::new(options, arguments).unwrap();

        for token in vec!["x", "--verbose", "z"] {
            tp.feed(token).unwrap();
        }

        assert_eq!(
            tp.close().unwrap().values,
            vec![
                MatchTokens {
                    name: "arg1".to_string(),
                    values: vec![(0, "x".to_string())],
                },
                MatchTokens {
                    name: "verbose".to_string(),
                    values: Vec::default(),
                },
                MatchTokens {
                    name: "arg2".to_string(),
                    values: vec![(10, "z".to_string())],
                },
            ]
        );
}


fn value_sets(values: Vec<MatchTokens>) -> std::collections::HashSet<(String, Vec<String>)> {
    values
        .into_iter()
        .map(|m| (m.name, m.values.into_iter().map(|(_, v)| v).collect()))
        .collect()
}

#[test]
fn matcher_option_unmatched() {
    let options = vec![OptionConfig::new("verbose".to_string(), None, Bound::Lower(0))];
    let mut tp = TokenMatcher::new(options, Vec::new()).unwrap();

    assert!(tp.feed("--moot").is_err());
}

#[test]
fn matcher_option_repeat() {
    let options = vec![OptionConfig::new("verbose".to_string(), None, Bound::Lower(0))];
    let mut tp = TokenMatcher::new(options, Vec::new()).unwrap();

    tp.feed("--verbose").unwrap();
    assert!(tp.feed("--verbose").is_err());
}

#[test]
fn matcher_option_short_too_few() {
    let options = vec![
        OptionConfig::new("verbose".to_string(), Some('v'), Bound::Lower(1)),
        OptionConfig::new("flag".to_string(), Some('f'), Bound::Lower(0)),
    ];
    let mut tp = TokenMatcher::new(options, Vec::new()).unwrap();

    assert!(tp.feed("-vf").is_err());
}

#[test]
fn matcher_option_short_unmatched() {
    let options = vec![OptionConfig::new("verbose".to_string(), Some('v'), Bound::Lower(0))];
    let mut tp = TokenMatcher::new(options, Vec::new()).unwrap();

    assert!(tp.feed("-f").is_err());
}

#[test]
fn matcher_option_short_repeat() {
    let options = vec![OptionConfig::new("verbose".to_string(), Some('v'), Bound::Lower(0))];
    let mut tp = TokenMatcher::new(options, Vec::new()).unwrap();

    tp.feed("-v").unwrap();
    assert!(tp.feed("-v").is_err());
}

#[test]
fn matcher_arguments_multiple() {
    let arguments = vec![
        ArgumentConfig::new("arg1".to_string(), Bound::Range(1, 2)),
        ArgumentConfig::new("arg2".to_string(), Bound::Lower(1)),
    ];
    let mut tp = TokenMatcher::new(Vec::new(), arguments).unwrap();

    tp.feed("a").unwrap();
    tp.feed("b").unwrap();
    tp.feed("c").unwrap();

    assert_eq!(
        value_sets(tp.close().unwrap().values),
        std::collections::HashSet::from([
            ("arg1".to_string(), vec!["a".to_string(), "b".to_string()]),
            ("arg2".to_string(), vec!["c".to_string()]),
        ])
    );
}

#[test]
fn matcher_arguments_with_preceeding_unlimited() {
    let arguments = vec![
        ArgumentConfig::new("arg1".to_string(), Bound::Lower(1)),
        ArgumentConfig::new("arg2".to_string(), Bound::Range(1, 1)),
    ];
    let mut tp = TokenMatcher::new(Vec::new(), arguments).unwrap();

    tp.feed("value1").unwrap();
    tp.feed("value2").unwrap();

    assert!(tp.close().is_err());
}

#[test]
fn matcher_arguments_option_breaker() {
    let options = vec![OptionConfig::new("verbose".to_string(), None, Bound::Range(0, 0))];
    let arguments = vec![
        ArgumentConfig::new("arg1".to_string(), Bound::Range(1, 2)),
        ArgumentConfig::new("arg2".to_string(), Bound::Lower(1)),
    ];
    let mut tp = TokenMatcher::new(options, arguments).unwrap();

    for token in vec!["x", "--verbose", "z"] {
        tp.feed(token).unwrap();
    }

    assert_eq!(
        value_sets(tp.close().unwrap().values),
        std::collections::HashSet::from([
            ("verbose".to_string(), Vec::new()),
            ("arg1".to_string(), vec!["x".to_string()]),
            ("arg2".to_string(), vec!["z".to_string()]),
        ])
    );
}

#[test]
fn matcher_offsets_count_refused_tokens() {
    let arguments = Vec::from([ArgumentConfig::new("items".to_string(), Bound::Lower(1))]);
    let mut tp = TokenMatcher::new(Vec::new(), arguments).unwrap();

    tp.feed("x").unwrap();
    assert!(tp.feed("--nope").is_err());
    tp.feed("zz").unwrap();

    assert_eq!(
        tp.close().unwrap().values,
        vec![MatchTokens {
            name: "items".to_string(),
            values: vec![(0, "x".to_string()), (7, "zz".to_string())],
        }]
    );
}

#[test]
fn matcher_short_cluster_value_offset() {
    let options = vec![
        OptionConfig::new("ex".to_string(), Some('x'), Bound::Range(0, 0)),
        OptionConfig::new("why".to_string(), Some('y'), Bound::Range(1, 1)),
    ];
    let arguments = Vec::from([ArgumentConfig::new("item".to_string(), Bound::Range(1, 1))]);
    let mut tp = TokenMatcher::new(options, arguments).unwrap();

    tp.feed("abc").unwrap();
    tp.feed("-xy=val").unwrap();

    assert_eq!(
        tp.close().unwrap().values,
        vec![
            MatchTokens { name: "ex".to_string(), values: Vec::default() },
            MatchTokens { name: "why".to_string(), values: vec![(7, "val".to_string())] },
            MatchTokens { name: "item".to_string(), values: vec![(0, "abc".to_string())] },
        ]
    );
}
