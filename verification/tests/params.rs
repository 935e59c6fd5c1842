use attribution::conversion::bool_from_parameters;
use attribution::conversion::int_from_parameters;
use attribution::conversion::opt_bool_from_parameters;
use attribution::conversion::opt_int_from_parameters;
use attribution::conversion::opt_string_from_parameters;
use attribution::conversion::string_from_parameters;
use attribution::keys::ParamKey;
use attribution::params::parse_parameters;
use attribution::parsing::ParseError;
use attribution::params::Parameters;
use attribution::tokens::Token;
use attribution::values::ParamVal;

fn named(name: &str) -> ParamKey {
    ParamKey::Named(name.to_string())
}

#[test]
fn parse() {
    // string = "fooValue", integer = 1, flag = true, simple_flag
    let tokens = vec![
        Token::Ident("string".to_string()),
        Token::Equals,
        Token::LitStr("fooValue".to_string()),
        Token::Comma,
        Token::Ident("integer".to_string()),
        Token::Equals,
        Token::LitInt("1".to_string()),
        Token::Comma,
        Token::Ident("flag".to_string()),
        Token::Equals,
        Token::LitBool(true),
        Token::Comma,
        Token::Ident("simple_flag".to_string()),
    ];
    let attr_args = parse_parameters(&tokens).unwrap();
    let string_val = attr_args.get(&named("string"));
    let integer_val = attr_args.get(&named("integer"));
    let flag_val = attr_args.get(&named("flag"));
    let simple_flag_val = attr_args.get(&named("simple_flag"));
    let other_val = attr_args.get(&named("other"));

    assert_eq!(string_val, Some(&ParamVal::Str("fooValue".to_string())));
    assert_eq!(integer_val, Some(&ParamVal::Int(1)));
    assert_eq!(flag_val, Some(&ParamVal::Bool(true)));
    assert_eq!(simple_flag_val, Some(&ParamVal::Bool(true)));
    assert_eq!(other_val, None);
}

#[test]
fn from_parameters_bool() {
    let mut params = Parameters::default();
    params.insert(named("foo"), ParamVal::Bool(true));
    let param_key = named("foo");
    let output = bool_from_parameters(&mut params, &param_key);

    assert_eq!(output.unwrap(), true);
}

#[test]
fn from_parameters_str() {
    let mut params = Parameters::default();
    params.insert(named("foo"), ParamVal::Int(1));
    let param_key = named("foo");
    let output = int_from_parameters(&mut params, &param_key);

    assert_eq!(output.unwrap(), 1);
}

#[test]
fn from_parameters_int() {
    let mut params = Parameters::default();
    params.insert(named("foo"), ParamVal::Str("bar".into()));
    let param_key = named("foo");
    let output = string_from_parameters(&mut params, &param_key);

    let right: String = "bar".into();
    assert_eq!(output.unwrap(), right);
}

#[test]
fn from_parameters_bool_option() {
    let mut params = Parameters::default();
    params.insert(named("foo"), ParamVal::Bool(true));
    let param_key = named("foo");
    let output = opt_bool_from_parameters(&mut params, &param_key);

    assert_eq!(output.unwrap(), Some(true));
    let no_output = opt_bool_from_parameters(&mut params, &param_key);
    assert_eq!(no_output.unwrap(), None);
}

#[test]
fn from_parameters_str_option() {
    let mut params = Parameters::default();
    params.insert(named("foo"), ParamVal::Int(1));
    let param_key = named("foo");
    let output = opt_int_from_parameters(&mut params, &param_key);

    assert_eq!(output.unwrap(), Some(1));
    let no_output = opt_int_from_parameters(&mut params, &param_key);
    assert_eq!(no_output.unwrap(), None);
}

#[test]
fn from_parameters_int_option() {
    let mut params = Parameters::default();
    params.insert(named("foo"), ParamVal::Str("bar".into()));
    let param_key = named("foo");
    let output = opt_string_from_parameters(&mut params, &param_key);

    let right: String = "bar".into();
    assert_eq!(output.unwrap(), Some(right));
    let no_output = opt_string_from_parameters(&mut params, &param_key);
    assert_eq!(no_output.unwrap(), None);
}

#[test]
fn bare_flag_shorthand() {
    // simple_flag
    let tokens = vec![Token::Ident("simple_flag".to_string())];
    let params = parse_parameters(&tokens).unwrap();
    assert_eq!(params.get(&named("simple_flag")), Some(&ParamVal::Bool(true)));
}

#[test]
fn positional_counting() {
    // 1, foo = 2, 3 — the position counter counts the named item too
    let tokens = vec![
        Token::LitInt("1".to_string()),
        Token::Comma,
        Token::Ident("foo".to_string()),
        Token::Equals,
        Token::LitInt("2".to_string()),
        Token::Comma,
        Token::LitInt("3".to_string()),
    ];
    let params = parse_parameters(&tokens).unwrap();
    assert_eq!(params.get(&ParamKey::Unnamed(0)), Some(&ParamVal::Int(1)));
    assert_eq!(params.get(&named("foo")), Some(&ParamVal::Int(2)));
    assert_eq!(params.get(&ParamKey::Unnamed(2)), Some(&ParamVal::Int(3)));
    assert_eq!(params.get(&ParamKey::Unnamed(1)), None);
}

#[test]
fn trailing_comma_tolerated() {
    let tokens = vec![Token::Ident("a".to_string()), Token::Comma];
    let params = parse_parameters(&tokens).unwrap();
    assert_eq!(params.get(&named("a")), Some(&ParamVal::Bool(true)));
}

#[test]
fn empty_item_list() {
    let tokens: Vec<Token> = vec![];
    let params = parse_parameters(&tokens).unwrap();
    assert_eq!(params.get(&ParamKey::Unnamed(0)), None);
}

#[test]
fn duplicate_key_overwrites() {
    // foo = 1, foo = 2 — the later entry wins
    let tokens = vec![
        Token::Ident("foo".to_string()),
        Token::Equals,
        Token::LitInt("1".to_string()),
        Token::Comma,
        Token::Ident("foo".to_string()),
        Token::Equals,
        Token::LitInt("2".to_string()),
    ];
    let params = parse_parameters(&tokens).unwrap();
    assert_eq!(params.get(&named("foo")), Some(&ParamVal::Int(2)));
}

#[test]
fn get_does_not_consume() {
    let mut params = Parameters::new();
    params.insert(named("k"), ParamVal::Int(7));
    assert_eq!(params.get(&named("k")), Some(&ParamVal::Int(7)));
    assert_eq!(params.get(&named("k")), Some(&ParamVal::Int(7)));
}

#[test]
fn remove_consumes_entry() {
    let mut params = Parameters::new();
    params.insert(named("k"), ParamVal::Int(7));
    assert_eq!(params.remove(&named("k")), Some(ParamVal::Int(7)));
    assert_eq!(params.remove(&named("k")), None);
    assert_eq!(params.get(&named("k")), None);
}

#[test]
fn optional_softness_on_mismatch() {
    // a key holding Str(...) read as Option<bool> yields Ok(None), not an error
    let mut params = Parameters::new();
    params.insert(named("foo"), ParamVal::Str("x".to_string()));
    let param_key = named("foo");
    let output = opt_bool_from_parameters(&mut params, &param_key);
    assert_eq!(output, Ok(None));
    // the mismatched entry was still consumed
    assert_eq!(params.get(&param_key), None);
    // an absent key also yields Ok(None)
    let absent = opt_bool_from_parameters(&mut params, &param_key);
    assert_eq!(absent, Ok(None));
}

#[test]
fn fork_is_independent() {
    let mut params = Parameters::new();
    params.insert(named("k"), ParamVal::Int(1));
    let mut copy = params.fork();
    assert_eq!(copy.remove(&named("k")), Some(ParamVal::Int(1)));
    assert_eq!(copy.get(&named("k")), None);
    assert_eq!(params.get(&named("k")), Some(&ParamVal::Int(1)));
}

#[test]
fn insert_returns_previous_value() {
    let mut params = Parameters::new();
    assert_eq!(params.insert(named("k"), ParamVal::Int(1)), None);
    assert_eq!(params.insert(named("k"), ParamVal::Int(2)), Some(ParamVal::Int(1)));
    assert_eq!(params.get(&named("k")), Some(&ParamVal::Int(2)));
}

#[test]
fn missing_comma_is_rejected() {
    let tokens = vec![Token::LitInt("1".to_string()), Token::LitInt("2".to_string())];
    assert_eq!(parse_parameters(&tokens).unwrap_err(), ParseError::UnsupportedExpression);
}

#[test]
fn named_items_commute() {
    // foo = 1, bar = "x" and bar = "x", foo = 1 read back identically
    let one = vec![
        Token::Ident("foo".to_string()),
        Token::Equals,
        Token::LitInt("1".to_string()),
        Token::Comma,
        Token::Ident("bar".to_string()),
        Token::Equals,
        Token::LitStr("x".to_string()),
    ];
    let two = vec![
        Token::Ident("bar".to_string()),
        Token::Equals,
        Token::LitStr("x".to_string()),
        Token::Comma,
        Token::Ident("foo".to_string()),
        Token::Equals,
        Token::LitInt("1".to_string()),
    ];
    let p1 = parse_parameters(&one).unwrap();
    let p2 = parse_parameters(&two).unwrap();
    assert_eq!(p1.get(&named("foo")), p2.get(&named("foo")));
    assert_eq!(p1.get(&named("bar")), p2.get(&named("bar")));
    assert_eq!(p1.get(&named("foo")), Some(&ParamVal::Int(1)));
    assert_eq!(p1.get(&named("bar")), Some(&ParamVal::Str("x".to_string())));
}

#[test]
fn bare_value_positional() {
    // true alone is a positional bool value, not a flag
    let tokens = vec![Token::LitBool(true)];
    let params = parse_parameters(&tokens).unwrap();
    assert_eq!(params.get(&ParamKey::Unnamed(0)), Some(&ParamVal::Bool(true)));
}
