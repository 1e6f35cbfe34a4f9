use ogma::clause::{
    parse, parse_next, var_names, ParseError, Parser, Token, TokenOwned, VarFilter,
};

#[test]
fn lib_test_parse_next() {
    assert_eq!(parse_next("the").unwrap(), Some((Token::Static("the"), "")));
    assert_eq!(
        parse_next("the token").unwrap(),
        Some((Token::Static("the"), "token"))
    );
    assert_eq!(
        parse_next("q`variable`").unwrap(),
        Some((Token::QueryVar("variable"), ""))
    );
    assert_eq!(
        parse_next("q`variable` token").unwrap(),
        Some((Token::QueryVar("variable"), "token"))
    );
    assert_eq!(
        parse_next("d`variable`").unwrap(),
        Some((Token::DataVar("variable"), ""))
    );
    assert_eq!(
        parse_next("d`variable` token").unwrap(),
        Some((Token::DataVar("variable"), "token"))
    );
}

#[test]
fn clause_test_parse_next() {
    assert_eq!(parse_next("the").unwrap(), Some((Token::Static("the"), "")));
    assert_eq!(
        parse_next("the token").unwrap(),
        Some((Token::Static("the"), "token"))
    );
    assert_eq!(
        parse_next("q`variable`").unwrap(),
        Some((Token::QueryVar("variable"), ""))
    );
    assert_eq!(
        parse_next("q`variable` token").unwrap(),
        Some((Token::QueryVar("variable"), "token"))
    );
    assert_eq!(
        parse_next("d`variable`").unwrap(),
        Some((Token::DataVar("variable"), ""))
    );
    assert_eq!(
        parse_next("d`variable` token").unwrap(),
        Some((Token::DataVar("variable"), "token"))
    );
}

#[test]
fn lib_test_parse() {
    assert_eq!(
        parse("the token string").unwrap(),
        vec![
            Token::Static("the"),
            Token::Static("token"),
            Token::Static("string")
        ]
    );
    assert_eq!(
        parse("the q`variable` token").unwrap(),
        vec![
            Token::Static("the"),
            Token::QueryVar("variable"),
            Token::Static("token")
        ]
    );
    assert_eq!(
        parse("the d`variable` token").unwrap(),
        vec![
            Token::Static("the"),
            Token::DataVar("variable"),
            Token::Static("token")
        ]
    );
}

#[test]
fn clause_test_parse() {
    assert_eq!(
        parse("the token string").unwrap(),
        vec![
            Token::Static("the"),
            Token::Static("token"),
            Token::Static("string")
        ]
    );
    assert_eq!(
        parse("the q`variable` token").unwrap(),
        vec![
            Token::Static("the"),
            Token::QueryVar("variable"),
            Token::Static("token")
        ]
    );
    assert_eq!(
        parse("the d`variable` token").unwrap(),
        vec![
            Token::Static("the"),
            Token::DataVar("variable"),
            Token::Static("token")
        ]
    );
}

#[test]
fn empty() {
    assert_eq!(parse("").unwrap(), Vec::<Token>::new());
}

#[test]
fn static_token() {
    assert_eq!(parse("the").unwrap(), vec![Token::Static("the")]);
}

#[test]
fn query_token() {
    assert_eq!(parse("q`query_name`").unwrap(), vec![Token::QueryVar("query_name")]);
}

#[test]
fn data_token() {
    assert_eq!(parse("d`data_name`").unwrap(), vec![Token::DataVar("data_name")]);
}

#[test]
fn mixed_tokens() {
    assert_eq!(
        parse("the q`query_name` and d`data_name` tokens").unwrap(),
        vec![
            Token::Static("the"),
            Token::QueryVar("query_name"),
            Token::Static("and"),
            Token::DataVar("data_name"),
            Token::Static("tokens")
        ]
    );
}

#[test]
fn plain_words_are_static_tokens() {
    assert_eq!(
        parse("  Given\tthe  input\n value ").unwrap(),
        vec![
            Token::Static("Given"),
            Token::Static("the"),
            Token::Static("input"),
            Token::Static("value")
        ]
    );
}

#[test]
fn whitespace_only_template_is_empty() {
    assert_eq!(parse(" \t\n ").unwrap(), Vec::<Token>::new());
}

#[test]
fn concatenated_templates_concatenate_tokens() {
    let a = "the q`query_name`";
    let b = "and d`data_name` tokens";
    let joined = format!("{} {}", a, b);
    let mut expected = parse(a).unwrap();
    expected.extend(parse(b).unwrap());
    assert_eq!(parse(&joined).unwrap(), expected);
}

#[test]
fn unclosed_variable_is_invalid_name() {
    assert_eq!(parse("q`name").unwrap_err(), ParseError::InvalidVariableName);
    assert_eq!(parse("the d`na`me").unwrap_err(), ParseError::InvalidVariableName);
    assert_eq!(parse("q`").unwrap_err(), ParseError::InvalidVariableName);
}

#[test]
fn other_prefix_is_invalid_prefix() {
    assert_eq!(parse("x`name`").unwrap_err(), ParseError::InvalidVariablePrefix);
    assert_eq!(parse("qd`name`").unwrap_err(), ParseError::InvalidVariablePrefix);
    assert_eq!(parse("`name`").unwrap_err(), ParseError::InvalidVariablePrefix);
}

#[test]
fn first_error_stops_compilation() {
    assert_eq!(
        parse("the x`a` q`b").unwrap_err(),
        ParseError::InvalidVariablePrefix
    );
}

#[test]
fn parser_reads_one_token_at_a_time() {
    let mut parser = Parser::new("the q`x` y`z`");
    assert_eq!(parser.next(), Some(Ok(Token::Static("the"))));
    assert_eq!(parser.next(), Some(Ok(Token::QueryVar("x"))));
    assert_eq!(parser.next(), Some(Err(ParseError::InvalidVariablePrefix)));
    assert_eq!(parser.next(), Some(Err(ParseError::InvalidVariablePrefix)));
    let mut done = Parser::new("  ");
    assert_eq!(done.next(), None);
}

#[test]
fn token_kinds() {
    assert!(Token::Static("a").is_static());
    assert!(!Token::Static("a").is_query_var());
    assert!(Token::QueryVar("a").is_query_var());
    assert!(!Token::QueryVar("a").is_data_var());
    assert!(Token::DataVar("a").is_data_var());
    assert!(!Token::DataVar("a").is_static());
}

#[test]
fn placeholder_names() {
    let tokens = parse("the q`input` and d`b` henceforth q`out`").unwrap();
    assert_eq!(var_names(&tokens, VarFilter::All), vec!["input", "b", "out"]);
    assert_eq!(var_names(&tokens, VarFilter::Query), vec!["input", "out"]);
    assert_eq!(var_names(&tokens, VarFilter::Data), vec!["b"]);
    assert_eq!(var_names(&[Token::Static("x")], VarFilter::All), Vec::<&str>::new());
}

#[test]
fn parse_error_messages() {
    assert_eq!(ParseError::InvalidVariableName.message(), "invalid variable name");
    assert_eq!(ParseError::InvalidVariablePrefix.message(), "invalid variable prefix");
}

#[test]
fn owned_tokens() {
    use_owned(Token::Static("the"), TokenOwned::Static("the".to_string()));
    use_owned(Token::QueryVar("q"), TokenOwned::QueryVar("q".to_string()));
    use_owned(Token::DataVar("d"), TokenOwned::DataVar("d".to_string()));
}

fn use_owned(t: Token, expected: TokenOwned) {
    assert_eq!(TokenOwned::from(t), expected);
}
