use schema_lexer::lexer::{tokenize, Token, TokenType};

/// The tokens a parser would keep: everything but whitespace and the end marker.
fn significant(tokens: &[Token]) -> Vec<Token> {
    tokens
        .iter()
        .filter(|t| t.token_type != TokenType::Whitespace && t.token_type != TokenType::EOF)
        .cloned()
        .collect()
}

fn kinds(tokens: &[Token]) -> Vec<TokenType> {
    tokens.iter().map(|t| t.token_type).collect()
}

#[test]
fn tokenize_line_break() {
    let source = "\n\r\n\r";
    let all = tokenize(source);
    assert_eq!(all.len(), 5);
    assert_eq!(all[4].token_type, TokenType::EOF);
    let tokens = significant(&all);

    assert_eq!(tokens.len(), 4);
    if tokens.len() >= 2 {
        assert_eq!(tokens[0].token_type, TokenType::LineBreak);
        assert_eq!(tokens[0].value, "\n");

        assert_eq!(tokens[1].token_type, TokenType::LineBreak);
        assert_eq!(tokens[1].value, "\r");

        assert_eq!(tokens[2].token_type, TokenType::LineBreak);
        assert_eq!(tokens[2].value, "\n");

        assert_eq!(tokens[3].token_type, TokenType::LineBreak);
        assert_eq!(tokens[3].value, "\r");
    }
}

#[test]
fn tokenize_keywords() {
    let source = "plugin use prop enum type model String Number Boolean Text Date";
    let all = tokenize(source);
    assert_eq!(all.len(), 22);
    let tokens = significant(&all);

    println!("{:#?}", tokens);

    assert_eq!(tokens.len(), 11);
    if tokens.len() >= 11 {
        assert_eq!(tokens[0].token_type, TokenType::PluginKeyword);
        assert_eq!(tokens[0].value, "plugin");

        assert_eq!(tokens[1].token_type, TokenType::UseKeyword);
        assert_eq!(tokens[1].value, "use");

        assert_eq!(tokens[2].token_type, TokenType::PropKeyword);
        assert_eq!(tokens[2].value, "prop");

        assert_eq!(tokens[3].token_type, TokenType::EnumKeyword);
        assert_eq!(tokens[3].value, "enum");

        assert_eq!(tokens[4].token_type, TokenType::TypeKeyword);
        assert_eq!(tokens[4].value, "type");

        assert_eq!(tokens[5].token_type, TokenType::ModelKeyword);
        assert_eq!(tokens[5].value, "model");

        assert_eq!(tokens[6].token_type, TokenType::StringType);
        assert_eq!(tokens[6].value, "String");

        assert_eq!(tokens[7].token_type, TokenType::NumberType);
        assert_eq!(tokens[7].value, "Number");

        assert_eq!(tokens[8].token_type, TokenType::BooleanType);
        assert_eq!(tokens[8].value, "Boolean");

        assert_eq!(tokens[9].token_type, TokenType::TextType);
        assert_eq!(tokens[9].value, "Text");

        assert_eq!(tokens[10].token_type, TokenType::DateType);
        assert_eq!(tokens[10].value, "Date");
    }
    for i in 0..10 {
        assert_eq!(all[2 * i + 1].token_type, TokenType::Whitespace);
        assert_eq!(all[2 * i + 1].value, " ");
    }
}

#[test]
fn tokenize_identifiers() {
    let source = "Shirts sizes street city User Address customType";
    let all = tokenize(source);
    assert_eq!(all.len(), 14);
    let tokens = significant(&all);

    assert_eq!(tokens.len(), 7);
    if tokens.len() >= 7 {
        assert_eq!(tokens[0].token_type, TokenType::Identifier);
        assert_eq!(tokens[0].value, "Shirts");

        assert_eq!(tokens[1].token_type, TokenType::Identifier);
        assert_eq!(tokens[1].value, "sizes");

        assert_eq!(tokens[2].token_type, TokenType::Identifier);
        assert_eq!(tokens[2].value, "street");

        assert_eq!(tokens[3].token_type, TokenType::Identifier);
        assert_eq!(tokens[3].value, "city");

        assert_eq!(tokens[4].token_type, TokenType::Identifier);
        assert_eq!(tokens[4].value, "User");

        assert_eq!(tokens[5].token_type, TokenType::Identifier);
        assert_eq!(tokens[5].value, "Address");

        assert_eq!(tokens[6].token_type, TokenType::Identifier);
        assert_eq!(tokens[6].value, "customType");
    }
}

#[test]
fn tokenize_string_literals() {
    let source = "\"hello\" \"world\" \"This is a string with spaces\"";
    let all = tokenize(source);
    assert_eq!(all.len(), 6);
    let tokens = significant(&all);

    println!("{:#?}", source);
    println!("{:#?}", tokens);

    assert_eq!(tokens.len(), 3);
    if tokens.len() >= 2 {
        assert_eq!(tokens[0].token_type, TokenType::StringLiteral);
        assert_eq!(tokens[0].value, "\"hello\"");

        assert_eq!(tokens[1].token_type, TokenType::StringLiteral);
        assert_eq!(tokens[1].value, "\"world\"");

        assert_eq!(tokens[2].token_type, TokenType::StringLiteral);
        assert_eq!(tokens[2].value, "\"This is a string with spaces\"");
    }
}

#[test]
fn tokenize_integers() {
    let source = "4 44 444 -4 -44";
    let all = tokenize(source);
    assert_eq!(all.len(), 10);
    let tokens = significant(&all);

    assert_eq!(tokens.len(), 5);
    if tokens.len() >= 4 {
        assert_eq!(tokens[0].token_type, TokenType::NumberLiteral);
        assert_eq!(tokens[0].value, "4");

        assert_eq!(tokens[1].token_type, TokenType::NumberLiteral);
        assert_eq!(tokens[1].value, "44");

        assert_eq!(tokens[2].token_type, TokenType::NumberLiteral);
        assert_eq!(tokens[2].value, "444");

        assert_eq!(tokens[3].token_type, TokenType::NumberLiteral);
        assert_eq!(tokens[3].value, "-4");

        assert_eq!(tokens[4].token_type, TokenType::NumberLiteral);
        assert_eq!(tokens[4].value, "-44");
    }
}

#[test]
fn empty_input_is_one_eof() {
    let tokens = tokenize("");
    assert_eq!(tokens.len(), 1);
    assert_eq!(tokens[0].token_type, TokenType::EOF);
    assert_eq!(tokens[0].value, "");
    assert_eq!((tokens[0].start, tokens[0].end), (0, 0));
}

#[test]
fn keyword_alone_is_keyword() {
    let tokens = tokenize("model");
    assert_eq!(kinds(&tokens), vec![TokenType::ModelKeyword, TokenType::EOF]);
    assert_eq!(tokens[0].value, "model");
    assert_eq!((tokens[0].start, tokens[0].end), (0, 5));
    assert_eq!((tokens[1].start, tokens[1].end), (5, 5));
}

#[test]
fn keyword_prefix_of_identifier_is_identifier() {
    let tokens = tokenize("modelName");
    assert_eq!(kinds(&tokens), vec![TokenType::Identifier, TokenType::EOF]);
    assert_eq!(tokens[0].value, "modelName");

    let tokens = tokenize("pluginX");
    assert_eq!(kinds(&tokens), vec![TokenType::Identifier, TokenType::EOF]);
    assert_eq!(tokens[0].value, "pluginX");

    let tokens = tokenize("model_");
    assert_eq!(kinds(&tokens), vec![TokenType::Identifier, TokenType::EOF]);

    let tokens = tokenize("type9");
    assert_eq!(kinds(&tokens), vec![TokenType::Identifier, TokenType::EOF]);
}

#[test]
fn keyword_then_identifier() {
    let tokens = tokenize("model Name");
    assert_eq!(
        kinds(&tokens),
        vec![
            TokenType::ModelKeyword,
            TokenType::Whitespace,
            TokenType::Identifier,
            TokenType::EOF
        ]
    );
    assert_eq!(tokens[2].value, "Name");
    assert_eq!((tokens[2].start, tokens[2].end), (6, 10));
}

#[test]
fn keyword_before_symbol_is_keyword() {
    let tokens = tokenize("enum{");
    assert_eq!(
        kinds(&tokens),
        vec![TokenType::EnumKeyword, TokenType::OpenBrace, TokenType::EOF]
    );
}

#[test]
fn keywords_are_case_sensitive() {
    let tokens = tokenize("Plugin string");
    assert_eq!(
        kinds(&tokens),
        vec![
            TokenType::Identifier,
            TokenType::Whitespace,
            TokenType::Identifier,
            TokenType::EOF
        ]
    );
}

#[test]
fn quoted_keyword_is_string_literal() {
    let tokens = tokenize("\"plugin\"");
    assert_eq!(kinds(&tokens), vec![TokenType::StringLiteral, TokenType::EOF]);
    assert_eq!(tokens[0].value, "\"plugin\"");
    assert_eq!((tokens[0].start, tokens[0].end), (0, 8));
}

#[test]
fn string_literal_may_span_lines() {
    let tokens = tokenize("\"a\nb\"");
    assert_eq!(kinds(&tokens), vec![TokenType::StringLiteral, TokenType::EOF]);
    assert_eq!(tokens[0].value, "\"a\nb\"");
}

#[test]
fn empty_string_literal_is_two_errors() {
    let tokens = tokenize("\"\"");
    assert_eq!(
        kinds(&tokens),
        vec![TokenType::Error, TokenType::Error, TokenType::EOF]
    );
    assert_eq!(tokens[0].value, "\"");
    assert_eq!(tokens[1].value, "\"");
}

#[test]
fn unclosed_string_literal_is_error_then_rest() {
    let tokens = tokenize("\"abc");
    assert_eq!(
        kinds(&tokens),
        vec![TokenType::Error, TokenType::Identifier, TokenType::EOF]
    );
    assert_eq!(tokens[0].value, "\"");
    assert_eq!(tokens[1].value, "abc");
}

#[test]
fn empty_quotes_then_string_literal() {
    let tokens = tokenize("\"\"abc\"");
    assert_eq!(
        kinds(&tokens),
        vec![TokenType::Error, TokenType::StringLiteral, TokenType::EOF]
    );
    assert_eq!(tokens[1].value, "\"abc\"");
}

#[test]
fn line_breaks_split_whitespace() {
    let tokens = tokenize(" \t\n\t ");
    assert_eq!(
        kinds(&tokens),
        vec![
            TokenType::Whitespace,
            TokenType::LineBreak,
            TokenType::Whitespace,
            TokenType::EOF
        ]
    );
    assert_eq!(tokens[0].value, " \t");
    assert_eq!(tokens[2].value, "\t ");
}

#[test]
fn negative_number_is_one_token() {
    let tokens = tokenize("-4");
    assert_eq!(kinds(&tokens), vec![TokenType::NumberLiteral, TokenType::EOF]);
    assert_eq!(tokens[0].value, "-4");
}

#[test]
fn adjacent_numbers_need_no_separator() {
    let tokens = tokenize("4-4");
    assert_eq!(
        kinds(&tokens),
        vec![
            TokenType::NumberLiteral,
            TokenType::NumberLiteral,
            TokenType::EOF
        ]
    );
    assert_eq!(tokens[0].value, "4");
    assert_eq!(tokens[1].value, "-4");
}

#[test]
fn lone_minus_is_error() {
    let tokens = tokenize("-");
    assert_eq!(kinds(&tokens), vec![TokenType::Error, TokenType::EOF]);
    let tokens = tokenize("--4");
    assert_eq!(
        kinds(&tokens),
        vec![TokenType::Error, TokenType::NumberLiteral, TokenType::EOF]
    );
    assert_eq!(tokens[1].value, "-4");
}

#[test]
fn number_then_identifier() {
    let tokens = tokenize("4abc");
    assert_eq!(
        kinds(&tokens),
        vec![TokenType::NumberLiteral, TokenType::Identifier, TokenType::EOF]
    );
    let tokens = tokenize("abc4");
    assert_eq!(kinds(&tokens), vec![TokenType::Identifier, TokenType::EOF]);
}

#[test]
fn fraction_is_not_one_number() {
    let tokens = tokenize("1.5");
    assert_eq!(
        kinds(&tokens),
        vec![
            TokenType::NumberLiteral,
            TokenType::Error,
            TokenType::NumberLiteral,
            TokenType::EOF
        ]
    );
}

#[test]
fn symbols_map_to_their_kinds() {
    let tokens = tokenize("{}()[]@?");
    assert_eq!(
        kinds(&tokens),
        vec![
            TokenType::OpenBrace,
            TokenType::CloseBrace,
            TokenType::OpenParen,
            TokenType::CloseParen,
            TokenType::OpenSquare,
            TokenType::CloseSquare,
            TokenType::AtSymbol,
            TokenType::Optional,
            TokenType::EOF
        ]
    );
    for (i, t) in tokens.iter().take(8).enumerate() {
        assert_eq!((t.start, t.end), (i, i + 1));
    }
}

#[test]
fn stray_byte_is_one_error_and_scan_goes_on() {
    let tokens = tokenize("#");
    assert_eq!(kinds(&tokens), vec![TokenType::Error, TokenType::EOF]);
    assert_eq!(tokens[0].value, "#");
    assert_eq!((tokens[0].start, tokens[0].end), (0, 1));

    let tokens = tokenize("a#b");
    assert_eq!(
        kinds(&tokens),
        vec![
            TokenType::Identifier,
            TokenType::Error,
            TokenType::Identifier,
            TokenType::EOF
        ]
    );
    assert_eq!(tokens[2].value, "b");
    assert_eq!((tokens[2].start, tokens[2].end), (2, 3));
}

#[test]
fn comment_runs_to_end_of_line() {
    let tokens = tokenize("// note {x}\nuse");
    assert_eq!(
        kinds(&tokens),
        vec![
            TokenType::Comment,
            TokenType::LineBreak,
            TokenType::UseKeyword,
            TokenType::EOF
        ]
    );
    assert_eq!(tokens[0].value, "// note {x}");
    assert_eq!((tokens[0].start, tokens[0].end), (0, 11));
}

#[test]
fn comment_at_end_of_input() {
    let tokens = tokenize("x //");
    assert_eq!(
        kinds(&tokens),
        vec![
            TokenType::Identifier,
            TokenType::Whitespace,
            TokenType::Comment,
            TokenType::EOF
        ]
    );
    assert_eq!(tokens[2].value, "//");
}

#[test]
fn single_slash_is_error() {
    let tokens = tokenize("/ /");
    assert_eq!(
        kinds(&tokens),
        vec![
            TokenType::Error,
            TokenType::Whitespace,
            TokenType::Error,
            TokenType::EOF
        ]
    );
}

#[test]
fn non_ascii_character_is_one_error_token() {
    let tokens = tokenize("a\u{e9}\u{20ac}\u{1f600}b");
    assert_eq!(
        kinds(&tokens),
        vec![
            TokenType::Identifier,
            TokenType::Error,
            TokenType::Error,
            TokenType::Error,
            TokenType::Identifier,
            TokenType::EOF
        ]
    );
    assert_eq!(tokens[1].value, "\u{e9}");
    assert_eq!((tokens[1].start, tokens[1].end), (1, 3));
    assert_eq!(tokens[2].value, "\u{20ac}");
    assert_eq!((tokens[2].start, tokens[2].end), (3, 6));
    assert_eq!(tokens[3].value, "\u{1f600}");
    assert_eq!((tokens[3].start, tokens[3].end), (6, 10));
    assert_eq!((tokens[4].start, tokens[4].end), (10, 11));
}

#[test]
fn non_ascii_inside_string_and_comment() {
    let tokens = tokenize("\"caf\u{e9}\" // \u{fc}ber\n");
    assert_eq!(
        kinds(&tokens),
        vec![
            TokenType::StringLiteral,
            TokenType::Whitespace,
            TokenType::Comment,
            TokenType::LineBreak,
            TokenType::EOF
        ]
    );
    assert_eq!(tokens[0].value, "\"caf\u{e9}\"");
    assert_eq!(tokens[2].value, "// \u{fc}ber");
}

#[test]
fn keyword_before_non_ascii_is_keyword() {
    let tokens = tokenize("model\u{e9}");
    assert_eq!(
        kinds(&tokens),
        vec![TokenType::ModelKeyword, TokenType::Error, TokenType::EOF]
    );
}

#[test]
fn boolean_words_are_identifiers() {
    let tokens = tokenize("true false");
    assert_eq!(
        kinds(&tokens),
        vec![
            TokenType::Identifier,
            TokenType::Whitespace,
            TokenType::Identifier,
            TokenType::EOF
        ]
    );
}

#[test]
fn small_schema() {
    let source = "model User {\n  name String?\n  age Number @min(0)\n}\n";
    let tokens = significant(&tokenize(source));
    let expected = vec![
        (TokenType::ModelKeyword, "model"),
        (TokenType::Identifier, "User"),
        (TokenType::OpenBrace, "{"),
        (TokenType::LineBreak, "\n"),
        (TokenType::Identifier, "name"),
        (TokenType::StringType, "String"),
        (TokenType::Optional, "?"),
        (TokenType::LineBreak, "\n"),
        (TokenType::Identifier, "age"),
        (TokenType::NumberType, "Number"),
        (TokenType::AtSymbol, "@"),
        (TokenType::Identifier, "min"),
        (TokenType::OpenParen, "("),
        (TokenType::NumberLiteral, "0"),
        (TokenType::CloseParen, ")"),
        (TokenType::LineBreak, "\n"),
        (TokenType::CloseBrace, "}"),
        (TokenType::LineBreak, "\n"),
    ];
    assert_eq!(tokens.len(), expected.len());
    for (t, (kind, text)) in tokens.iter().zip(expected.iter()) {
        assert_eq!(t.token_type, *kind);
        assert_eq!(t.value, *text);
        assert_eq!(&source[t.start..t.end], *text);
    }
}
