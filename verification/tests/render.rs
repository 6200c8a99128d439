use blarg::render::ColumnRenderer;
use blarg::render::LeftWidth;
use blarg::render::MINIMUM_MIDDLE_WIDTH;
use blarg::render::MiddleWidth;
use blarg::render::PaddingWidth;
use blarg::render::RightWidth;
use blarg::render::TotalWidth;

#[test]
fn column_renderer_simple() {
        let cr = ColumnRenderer::new(
            PaddingWidth::new(4).unwrap(),
            LeftWidth::new(5).unwrap(),
            MiddleWidth::new(23).unwrap(),
            vec![],
        );

        assert_eq!(
            cr.render(0, "abc", "something", &vec![]),
            vec!["abc      something".to_string()]
        );
        assert_eq!(
            cr.render(0, "abc", "  something  ", &vec![]),
            vec!["abc      something".to_string()]
        );

        assert_eq!(
            cr.render(0, "abc12", "something pieces full", &vec![]),
            vec!["abc12    something pieces full".to_string()]
        );
        assert_eq!(
            cr.render(0, "abc", "something pieces full more stuff", &vec![]),
            vec![
                "abc      something pieces full".to_string(),
                "         more stuff".to_string(),
            ]
        );

        assert_eq!(
            cr.render(0, "abc", "something pieces fully more stuff", &vec![]),
            vec![
                "abc      something pieces fully".to_string(),
                "         more stuff".to_string(),
            ]
        );
        assert_eq!(
            cr.render(0, "abc", "something pieces fuller more stuff", &vec![]),
            vec![
                "abc      something pieces fuller".to_string(),
                "         more stuff".to_string(),
            ]
        );
        assert_eq!(
            cr.render(
                0,
                "abc",
                "something pieces fullest more stuff extra     ",
                &vec![]
            ),
            vec![
                "abc      something pieces".to_string(),
                "         fullest more stuff".to_string(),
                "         extra".to_string(),
            ]
        );
}

#[test]
fn column_renderer() {
        let cr = ColumnRenderer::new(
            PaddingWidth::new(4).unwrap(),
            LeftWidth::new(5).unwrap(),
            MiddleWidth::new(8).unwrap(),
            vec![
                RightWidth::new(5).unwrap(),
                RightWidth::new(2).unwrap(),
                RightWidth::new(5).unwrap(),
            ],
        );

        assert_eq!(
            cr.render(
                0,
                "abc",
                "my stuff",
                &vec!["a".to_string(), "b".to_string(), "c".to_string()]
            ),
            vec!["abc      my stuff    a        b     c".to_string()]
        );
        assert_eq!(
            cr.render(
                0,
                "abc",
                "my stuff",
                &vec!["a".to_string(), "".to_string(), "c".to_string()]
            ),
            vec!["abc      my stuff    a              c".to_string()]
        );
        assert_eq!(
            cr.render(
                0,
                "abc12",
                "my stuff",
                &vec!["abcde".to_string(), "bc".to_string(), "cdefg".to_string()]
            ),
            vec!["abc12    my stuff    abcde    bc    cdefg".to_string()]
        );

        assert_eq!(
            cr.render(
                0,
                "abc",
                "my stuff and some",
                &vec!["a".to_string(), "b".to_string(), "c".to_string()]
            ),
            vec![
                "abc      my stuff    a        b     c".to_string(),
                "         and some".to_string(),
            ]
        );
        assert_eq!(
            cr.render(
                0,
                "abc",
                "my stuff and some",
                &vec!["a".to_string(), "".to_string(), "c".to_string()]
            ),
            vec![
                "abc      my stuff    a              c".to_string(),
                "         and some".to_string(),
            ]
        );
        assert_eq!(
            cr.render(
                0,
                "abc12",
                "my stuff and some",
                &vec!["abcde".to_string(), "bc".to_string(), "cdefg".to_string()]
            ),
            vec![
                "abc12    my stuff    abcde    bc    cdefg".to_string(),
                "         and some".to_string(),
            ]
        );
}

#[test]
fn column_renderer_middle_overflow() {
        let cr = ColumnRenderer::new(
            PaddingWidth::new(4).unwrap(),
            LeftWidth::new(5).unwrap(),
            MiddleWidth::new(23).unwrap(),
            vec![],
        );

        assert_eq!(
            cr.render(0, "abc", "somethingxpiecesxfuller", &vec![]),
            vec!["abc      somethingxpiecesxfuller".to_string()]
        );
        assert_eq!(
            cr.render(
                0,
                "abc",
                "somethingxpiecesxfullerandthenwecontinueforalongtime",
                &vec![]
            ),
            vec![
                "abc      somethingxpiecesxfulle-".to_string(),
                "         randthenwecontinuefora-".to_string(),
                "         longtime".to_string(),
            ]
        );
        assert_eq!(
            cr.render(
                0,
                "abc",
                "somethingxpiecesxfullerandthenwecontinueforalongtimeuntildonexxxxxx",
                &vec![]
            ),
            vec![
                "abc      somethingxpiecesxfulle-".to_string(),
                "         randthenwecontinuefora-".to_string(),
                "         longtimeuntildonexxxxxx".to_string(),
            ]
        );

        assert_eq!(
            cr.render(0, "abc", "something pieces fuller", &vec![]),
            vec!["abc      something pieces fuller".to_string()]
        );
        assert_eq!(
            cr.render(
                0,
                "abc",
                "something pieces fullerandthenwecontinueforalongtime",
                &vec![]
            ),
            vec![
                "abc      something pieces".to_string(),
                "         fullerandthenwecontinu-".to_string(),
                "         eforalongtime".to_string(),
            ]
        );
}

#[test]
fn column_renderer_middle_empty() {
        let cr = ColumnRenderer::new(
            PaddingWidth::new(4).unwrap(),
            LeftWidth::new(5).unwrap(),
            MiddleWidth::new(8).unwrap(),
            vec![
                RightWidth::new(5).unwrap(),
                RightWidth::new(2).unwrap(),
                RightWidth::new(5).unwrap(),
            ],
        );

        assert_eq!(cr.render(0, "abc", "", &vec![]), vec!["abc  ".to_string()]);
        assert_eq!(
            cr.render(
                0,
                "abc",
                "",
                &vec!["a".to_string(), "b".to_string(), "c".to_string()]
            ),
            vec!["abc                  a        b     c".to_string()]
        );
        assert_eq!(
            cr.render(
                0,
                "abc",
                "",
                &vec!["a".to_string(), "".to_string(), "c".to_string()]
            ),
            vec!["abc                  a              c".to_string()]
        );
        assert_eq!(
            cr.render(
                0,
                "abc12",
                "",
                &vec!["abcde".to_string(), "bc".to_string(), "cdefg".to_string()]
            ),
            vec!["abc12                abcde    bc    cdefg".to_string()]
        );
}

#[test]
fn column_renderer_indent() {
        let cr = ColumnRenderer::new(
            PaddingWidth::new(4).unwrap(),
            LeftWidth::new(5).unwrap(),
            MiddleWidth::new(10).unwrap(),
            vec![
                RightWidth::new(5).unwrap(),
                RightWidth::new(2).unwrap(),
                RightWidth::new(5).unwrap(),
            ],
        );

        assert_eq!(
            cr.render(1, "abc", "something", &vec![]),
            vec![" abc      something".to_string()]
        );
        assert_eq!(
            cr.render(1, "abc", "somethingx", &vec![]),
            vec![
                " abc      somethin-".to_string(),
                "          gx".to_string(),
            ]
        );
        assert_eq!(
            cr.render(2, "abc", "somethin", &vec![]),
            vec!["  abc      somethin".to_string()]
        );

        assert_eq!(
            cr.render(
                1,
                "abc",
                "something",
                &vec!["a".to_string(), "b".to_string(), "c".to_string()]
            ),
            vec![" abc      something    a        b     c".to_string()]
        );
        assert_eq!(
            cr.render(
                1,
                "abc",
                "somethingx",
                &vec!["a".to_string(), "b".to_string(), "c".to_string()]
            ),
            vec![
                " abc      somethin-    a        b     c".to_string(),
                "          gx".to_string(),
            ]
        );
        assert_eq!(
            cr.render(
                2,
                "abc",
                "somethi",
                &vec!["a".to_string(), "b".to_string(), "c".to_string()]
            ),
            vec!["  abc      somethi     a        b     c".to_string(),]
        );

        assert_eq!(
            cr.render(
                1,
                "abc12",
                "something",
                &vec!["abcde".to_string(), "bc".to_string(), "cdefg".to_string()]
            ),
            vec![" abc12    something    abcde    bc    cdefg".to_string()]
        );
        assert_eq!(
            cr.render(
                1,
                "abc12",
                "somethingx",
                &vec!["abcde".to_string(), "bc".to_string(), "cdefg".to_string()]
            ),
            vec![
                " abc12    somethin-    abcde    bc    cdefg".to_string(),
                "          gx".to_string(),
            ]
        );
        assert_eq!(
            cr.render(
                2,
                "abc12",
                "somethin",
                &vec!["abcde".to_string(), "bc".to_string(), "cdefg".to_string()]
            ),
            vec!["  abc12    somethin    abcde    bc    cdefg".to_string()]
        );
}

#[test]
fn column_renderer_guided() {
        //
        // When the total width is too short (for even the non middle).
        //
        let cr = ColumnRenderer::guided(
            PaddingWidth::new(2).unwrap(),
            LeftWidth::new(5).unwrap(),
            MiddleWidth::new(2).unwrap(),
            vec![],
            TotalWidth(7),
        );
        assert_eq!(cr.middle_width(), MINIMUM_MIDDLE_WIDTH);

        //
        // When the total width is too short (for it all).
        //
        let cr = ColumnRenderer::guided(
            PaddingWidth::new(2).unwrap(),
            LeftWidth::new(5).unwrap(),
            MiddleWidth::new(2).unwrap(),
            vec![],
            TotalWidth(15),
        );
        assert_eq!(cr.middle_width(), MINIMUM_MIDDLE_WIDTH);

        let cr = ColumnRenderer::guided(
            PaddingWidth::new(2).unwrap(),
            LeftWidth::new(5).unwrap(),
            MiddleWidth::new(MINIMUM_MIDDLE_WIDTH + 1).unwrap(),
            vec![],
            TotalWidth(15),
        );
        assert_eq!(cr.middle_width(), MINIMUM_MIDDLE_WIDTH);

        //
        // When the total width is just right.
        //
        let cr = ColumnRenderer::guided(
            PaddingWidth::new(2).unwrap(),
            LeftWidth::new(5).unwrap(),
            MiddleWidth::new(MINIMUM_MIDDLE_WIDTH).unwrap(),
            vec![],
            TotalWidth(26),
        );
        assert_eq!(cr.middle_width(), MINIMUM_MIDDLE_WIDTH);

        let cr = ColumnRenderer::guided(
            PaddingWidth::new(2).unwrap(),
            LeftWidth::new(5).unwrap(),
            MiddleWidth::new(MINIMUM_MIDDLE_WIDTH + 1).unwrap(),
            vec![],
            TotalWidth(27),
        );
        assert_eq!(cr.middle_width(), MINIMUM_MIDDLE_WIDTH + 1);

        let cr = ColumnRenderer::guided(
            PaddingWidth::new(2).unwrap(),
            LeftWidth::new(5).unwrap(),
            MiddleWidth::new(MINIMUM_MIDDLE_WIDTH + 2).unwrap(),
            vec![],
            TotalWidth(27),
        );
        assert_eq!(cr.middle_width(), MINIMUM_MIDDLE_WIDTH + 3);

        //
        // When the total width is too long.
        //
        let cr = ColumnRenderer::guided(
            PaddingWidth::new(2).unwrap(),
            LeftWidth::new(5).unwrap(),
            MiddleWidth::new(MINIMUM_MIDDLE_WIDTH).unwrap(),
            vec![],
            TotalWidth(50),
        );
        assert_eq!(cr.middle_width(), MINIMUM_MIDDLE_WIDTH);

        let cr = ColumnRenderer::guided(
            PaddingWidth::new(2).unwrap(),
            LeftWidth::new(5).unwrap(),
            MiddleWidth::new(MINIMUM_MIDDLE_WIDTH + 10).unwrap(),
            vec![],
            TotalWidth(50),
        );
        assert_eq!(cr.middle_width(), MINIMUM_MIDDLE_WIDTH + 10);
}

#[test]
fn column_renderer_guided_right() {
        //
        // When the total width is too short (for even the non middle).
        //
        let cr = ColumnRenderer::guided(
            PaddingWidth::new(2).unwrap(),
            LeftWidth::new(5).unwrap(),
            MiddleWidth::new(2).unwrap(),
            vec![RightWidth::new(1).unwrap()],
            TotalWidth(10),
        );
        assert_eq!(cr.middle_width(), MINIMUM_MIDDLE_WIDTH);

        //
        // When the total width is too short (for it all).
        //
        let cr = ColumnRenderer::guided(
            PaddingWidth::new(2).unwrap(),
            LeftWidth::new(5).unwrap(),
            MiddleWidth::new(2).unwrap(),
            vec![RightWidth::new(1).unwrap()],
            TotalWidth(15),
        );
        assert_eq!(cr.middle_width(), MINIMUM_MIDDLE_WIDTH);

        let cr = ColumnRenderer::guided(
            PaddingWidth::new(2).unwrap(),
            LeftWidth::new(5).unwrap(),
            MiddleWidth::new(MINIMUM_MIDDLE_WIDTH + 1).unwrap(),
            vec![RightWidth::new(1).unwrap()],
            TotalWidth(15),
        );
        assert_eq!(cr.middle_width(), MINIMUM_MIDDLE_WIDTH);

        //
        // When the total width is just right.
        //
        let cr = ColumnRenderer::guided(
            PaddingWidth::new(2).unwrap(),
            LeftWidth::new(5).unwrap(),
            MiddleWidth::new(MINIMUM_MIDDLE_WIDTH).unwrap(),
            vec![RightWidth::new(1).unwrap()],
            TotalWidth(29),
        );
        assert_eq!(cr.middle_width(), MINIMUM_MIDDLE_WIDTH);

        let cr = ColumnRenderer::guided(
            PaddingWidth::new(2).unwrap(),
            LeftWidth::new(5).unwrap(),
            MiddleWidth::new(MINIMUM_MIDDLE_WIDTH + 1).unwrap(),
            vec![RightWidth::new(1).unwrap()],
            TotalWidth(30),
        );
        assert_eq!(cr.middle_width(), MINIMUM_MIDDLE_WIDTH + 1);

        let cr = ColumnRenderer::guided(
            PaddingWidth::new(2).unwrap(),
            LeftWidth::new(5).unwrap(),
            MiddleWidth::new(MINIMUM_MIDDLE_WIDTH + 2).unwrap(),
            vec![RightWidth::new(1).unwrap()],
            TotalWidth(30),
        );
        assert_eq!(cr.middle_width(), MINIMUM_MIDDLE_WIDTH + 3);

        //
        // When the total width is too long.
        //
        let cr = ColumnRenderer::guided(
            PaddingWidth::new(2).unwrap(),
            LeftWidth::new(5).unwrap(),
            MiddleWidth::new(MINIMUM_MIDDLE_WIDTH).unwrap(),
            vec![RightWidth::new(1).unwrap()],
            TotalWidth(50),
        );
        assert_eq!(cr.middle_width(), MINIMUM_MIDDLE_WIDTH);

        let cr = ColumnRenderer::guided(
            PaddingWidth::new(2).unwrap(),
            LeftWidth::new(5).unwrap(),
            MiddleWidth::new(MINIMUM_MIDDLE_WIDTH + 10).unwrap(),
            vec![RightWidth::new(1).unwrap()],
            TotalWidth(50),
        );
        assert_eq!(cr.middle_width(), MINIMUM_MIDDLE_WIDTH + 10);
}


fn chunked(text: &str, width: usize) -> Vec<String> {
    let chars: Vec<char> = text.chars().collect();
    blarg::render::chunk(&chars, width)
        .into_iter()
        .map(|line| line.into_iter().collect())
        .collect()
}

#[test]
fn chunk_wraps_words() {
    assert_eq!(chunked("the quick brown fox", 10), vec!["the quick", "brown fox"]);
    assert_eq!(chunked("  a  b ", 3), vec!["a b"]);
    assert_eq!(chunked("", 5), Vec::<String>::new());
    assert_eq!(chunked("ab cd", 5), vec!["ab cd"]);
    assert_eq!(chunked("ab cde", 5), vec!["ab", "cde"]);
}

#[test]
fn chunk_hyphenates_long_words() {
    assert_eq!(chunked("abcdefghijkl", 5), vec!["abcd-", "efgh-", "ijkl"]);
    assert_eq!(chunked("ab abcdefghijkl", 5), vec!["ab", "abcd-", "efgh-", "ijkl"]);
    assert_eq!(chunked("abc", 2), vec!["a-", "bc"]);
}

#[test]
fn guided_middle_width() {
    let widths = |total: usize, middle: usize| {
        ColumnRenderer::guided(
            PaddingWidth::new(3).unwrap(),
            LeftWidth::new(10).unwrap(),
            MiddleWidth::new(middle).unwrap(),
            vec![],
            TotalWidth(total),
        )
        .middle_width()
    };
    assert_eq!(widths(120, 33), 33);
    assert_eq!(widths(40, 33), 27);
    assert_eq!(widths(12, 33), MINIMUM_MIDDLE_WIDTH);
    assert_eq!(widths(120, 5), MINIMUM_MIDDLE_WIDTH);
    assert_eq!(widths(20, 5), MINIMUM_MIDDLE_WIDTH);
}

#[test]
fn render_narrowed_to_one_character() {
    let cr = ColumnRenderer::new(
        PaddingWidth::new(1).unwrap(),
        LeftWidth::new(1).unwrap(),
        MiddleWidth::new(2).unwrap(),
        vec![],
    );
    assert_eq!(
        cr.render(1, "a", "x y", &vec![]),
        vec![" a x".to_string(), "   y".to_string()]
    );
}

#[test]
fn render_narrowed_to_nothing_with_no_text() {
    let cr = ColumnRenderer::new(
        PaddingWidth::new(1).unwrap(),
        LeftWidth::new(1).unwrap(),
        MiddleWidth::new(2).unwrap(),
        vec![],
    );
    assert_eq!(cr.render(2, "a", "", &vec![]), vec!["  a".to_string()]);
}
