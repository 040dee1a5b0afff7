use shelly::syntax::v2::muncher::{Location, Muncher, Span};
use shelly::syntax::v2::stage1::{parse, Delimiter, Spacing, TokenTree};

#[test]
fn test_parens() {
    assert!(parse("()()()").is_ok());
    assert!(parse("()[]{}").is_ok());
    assert!(parse("([{}])").is_ok());
    assert!(parse("(()").is_err());
    assert!(parse("())").is_err());
    assert!(parse("(][)").is_err());
}

#[test]
fn words_nums_symbols() {
    let word = parse("word").unwrap();
    assert!(matches!(&word[..], [TokenTree::Word { .. }]));
    let nan = parse("nan").unwrap();
    assert!(!matches!(&nan[..], [TokenTree::Number { .. }]));
    let item = parse("New-Item").unwrap();
    assert!(matches!(
        &item[..],
        [TokenTree::Word { .. }, TokenTree::Symbol { .. }, TokenTree::Word { .. }]
    ));
    let vars = parse("$foo-$bar").unwrap();
    assert!(matches!(
        &vars[..],
        [
            TokenTree::Symbol { .. },
            TokenTree::Word { .. },
            TokenTree::Symbol { .. },
            TokenTree::Symbol { .. },
            TokenTree::Word { .. }
        ]
    ));
    let continued = parse("foo `\nbar").unwrap();
    assert!(matches!(
        &continued[..],
        [
            TokenTree::Word { spacing: Spacing::Alone, .. },
            TokenTree::Symbol { symbol: '`', spacing: Spacing::Joined, .. },
            TokenTree::Symbol { symbol: '\n', spacing: Spacing::Joined, .. },
            TokenTree::Word { spacing: Spacing::Alone, .. }
        ]
    ));
}

fn is_one_string(source: &str) -> bool {
    match parse(source) {
        Ok(stream) => matches!(&stream[..], [TokenTree::String { .. }]),
        Err(_) => false,
    }
}

#[test]
fn strings() {
    assert!(is_one_string(r#" "foo" "#));
    assert!(is_one_string(r#" 'foo' "#));
    assert!(is_one_string(r#" "foo'" "#));
    assert!(is_one_string(r#" "hello ""friend """ "#));
    assert!(is_one_string(r#" "`"" "#));
    assert!(is_one_string(r#" '`' "#));
    assert!(!is_one_string(r#" " "#));
    assert!(is_one_string(
        r#" @'
sialala `"'"'`$foo
here: @'lol'@
'@ "#
    ));
}

#[test]
fn comments() {
    let line = parse("foo # nieprawda\nbar").unwrap();
    assert!(matches!(
        &line[..],
        [TokenTree::Word { .. }, TokenTree::Symbol { .. }, TokenTree::Word { .. }]
    ));
    let block = parse("foo <# # > #> bar").unwrap();
    assert!(matches!(&block[..], [TokenTree::Word { .. }, TokenTree::Word { .. }]));
    let only = parse("# komentarz\n").unwrap();
    assert!(matches!(&only[..], [TokenTree::Symbol { symbol: '\n', .. }]));
}

#[test]
fn comment_without_line_feed_ends_with_the_text() {
    let stream = parse("foo # the rest").unwrap();
    assert!(matches!(&stream[..], [TokenTree::Word { .. }]));
}

#[test]
fn unclosed_block_comment_is_an_error() {
    let err = parse("foo <# never closed").unwrap_err();
    assert_eq!(err.what, "Unclosed long comment");
    assert_eq!(err.where_, Location { byte: 19, line: 1, col: 20 });
}

#[test]
fn block_comment_closes_at_the_first_closer() {
    let stream = parse("<# a ##> b").unwrap();
    assert!(matches!(&stream[..], [TokenTree::Word { .. }]));
}

#[test]
fn errors_name_the_delimiters() {
    let err = parse("(]").unwrap_err();
    assert_eq!(err.what, "Expected `)`, but found `]`");
    assert_eq!(err.where_, Location { byte: 1, line: 1, col: 2 });
    let err = parse("{ foo").unwrap_err();
    assert_eq!(err.what, "Expected `}`, but found end of file");
    assert_eq!(err.where_, Location { byte: 5, line: 1, col: 6 });
    let err = parse("foo )").unwrap_err();
    assert_eq!(err.what, "Unexpected closing `)`");
    assert_eq!(err.where_, Location { byte: 4, line: 1, col: 5 });
    let err = parse("a\n 'open").unwrap_err();
    assert_eq!(err.what, "Unclosed string");
    assert_eq!(err.where_, Location { byte: 3, line: 2, col: 2 });
}

#[test]
fn spans_count_bytes_lines_and_columns() {
    let stream = parse("ab\n  cd").unwrap();
    match &stream[..] {
        [TokenTree::Word { span: first, .. }, TokenTree::Symbol { span: feed, .. }, TokenTree::Word { span: second, .. }] =>
        {
            assert_eq!(first.start, Location { byte: 0, line: 1, col: 1 });
            assert_eq!(first.end, Location { byte: 2, line: 1, col: 3 });
            assert_eq!(feed.start, Location { byte: 2, line: 1, col: 3 });
            assert_eq!(feed.end, Location { byte: 3, line: 2, col: 1 });
            assert_eq!(second.start, Location { byte: 5, line: 2, col: 3 });
            assert_eq!(second.end, Location { byte: 7, line: 2, col: 5 });
        }
        other => panic!("unexpected stream: {:?}", other),
    }
}

#[test]
fn carriage_return_belongs_to_the_line_feed() {
    let mut muncher = Muncher::new("a\r\nb");
    assert_eq!(muncher.peek_char(), Some('a'));
    let (a, a_span) = muncher.next_char().unwrap();
    assert_eq!(a, 'a');
    assert_eq!(a_span.end, Location { byte: 1, line: 1, col: 2 });
    assert_eq!(muncher.peek_char(), Some('\n'));
    assert_eq!(muncher.peek_2nd_char(), Some('b'));
    let (feed, feed_span) = muncher.next_char().unwrap();
    assert_eq!(feed, '\n');
    assert_eq!(feed_span.start, Location { byte: 1, line: 1, col: 2 });
    assert_eq!(feed_span.end, Location { byte: 3, line: 2, col: 1 });
    assert_eq!(muncher.current_location(), Location { byte: 3, line: 2, col: 1 });
    let (b, _) = muncher.next_char().unwrap();
    assert_eq!(b, 'b');
    assert_eq!(muncher.next_char(), None);
    assert_eq!(muncher.peek_char(), None);
}

#[test]
fn characters_of_several_bytes_move_the_byte_offset_by_their_width() {
    let stream = parse("é x").unwrap();
    match &stream[..] {
        [TokenTree::Symbol { symbol, span, .. }, TokenTree::Word { span: word, .. }] => {
            assert_eq!(*symbol, 'é');
            assert_eq!(span.end, Location { byte: 2, line: 1, col: 3 });
            assert_eq!(word.start, Location { byte: 3, line: 1, col: 4 });
        }
        other => panic!("unexpected stream: {:?}", other),
    }
}

#[test]
fn strings_hold_their_interpolations() {
    let stream = parse(r#""a $foo $(bar) ${baz} `$not""#).unwrap();
    match &stream[..] {
        [TokenTree::String { subtrees, span }] => {
            assert_eq!(span.start.byte, 0);
            assert_eq!(span.end.byte, 28);
            assert!(matches!(
                &subtrees[..],
                [
                    TokenTree::Word { .. },
                    TokenTree::Group { delimiter: Delimiter::Parenthesis, .. },
                    TokenTree::Group { delimiter: Delimiter::Brace, .. }
                ]
            ));
        }
        other => panic!("unexpected stream: {:?}", other),
    }
    let single = parse("'a $foo'").unwrap();
    match &single[..] {
        [TokenTree::String { subtrees, .. }] => assert!(subtrees.is_empty()),
        other => panic!("unexpected stream: {:?}", other),
    }
}

#[test]
fn here_string_ends_only_at_column_one() {
    let stream = parse("@\"\n \"@ still inside\n\"@ after").unwrap();
    assert!(matches!(&stream[..], [TokenTree::String { .. }, TokenTree::Word { .. }]));
    assert!(parse("@\"\n \"@ never ends").is_err());
}

#[test]
fn backtick_escapes_in_double_quoted_here_string() {
    let stream = parse("@\"\n`$foo\n\"@").unwrap();
    match &stream[..] {
        [TokenTree::String { subtrees, .. }] => assert!(subtrees.is_empty()),
        other => panic!("unexpected stream: {:?}", other),
    }
}

#[test]
fn dummy_span_is_at_the_start() {
    let span = Span::dummy();
    assert_eq!(span.start, Location::start());
    assert_eq!(span.end, Location { byte: 0, line: 1, col: 1 });
    let joined = span.to(Span {
        start: Location { byte: 3, line: 1, col: 4 },
        end: Location { byte: 5, line: 1, col: 6 },
    });
    assert_eq!(joined.start.byte, 0);
    assert_eq!(joined.end.byte, 5);
}
