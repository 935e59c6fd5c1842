use attribution::parsing::parse_value;
use attribution::parsing::ParseError;
use attribution::tokens::Token;
use attribution::values::ParamVal;
use attribution::values::TryIntoParamValError;

fn parse_one(tokens: Vec<Token>) -> ParamVal {
    let (val, consumed) = parse_value(&tokens, 0).unwrap();
    assert_eq!(consumed, tokens.len());
    val
}

#[test]
fn array_conversion() {
    let left = ParamVal::Array(vec![ParamVal::Int(1), ParamVal::Int(2), ParamVal::Int(3)])
        .try_into_int_list();
    let right = Ok(vec![1, 2, 3]);
    assert_eq!(left, right);
}

#[test]
fn try_from_bool_conversion() {
    let left = ParamVal::Bool(true).try_into_bool();
    let right = Ok(true);
    assert_eq!(left, right)
}

#[test]
fn float_conversion() {
    let left: Result<u64, TryIntoParamValError> =
        ParamVal::Float((1.0f64).to_bits()).try_into_float_bits();
    let right: Result<u64, TryIntoParamValError> = Ok((1.0f64).to_bits());
    assert_eq!(left, right)
}

#[test]
fn try_from_int_conversion() {
    let left: Result<i64, TryIntoParamValError> = ParamVal::Int(-1).try_into_int();
    let right: Result<i64, TryIntoParamValError> = Ok(-1);
    assert_eq!(left, right)
}

#[test]
fn try_from_str_conversion() {
    let left: Result<String, TryIntoParamValError> =
        ParamVal::Str("hello".into()).try_into_str();
    let right: Result<String, TryIntoParamValError> = Ok("hello".into());
    assert_eq!(left, right)
}

#[test]
fn param_val_from_plain_values() {
    let b: ParamVal = true.into();
    let n: ParamVal = (-3i64).into();
    let s: ParamVal = "foo".to_string().into();
    assert_eq!(b, ParamVal::Bool(true));
    assert_eq!(n, ParamVal::Int(-3));
    assert_eq!(s, ParamVal::Str("foo".to_string()));
}

#[test]
fn narrowing_truncates_without_range_check() {
    assert_eq!(ParamVal::Int(0x1_0000_0001).try_into_i32(), Ok(1));
    assert_eq!(ParamVal::Int(-1).try_into_u64(), Ok(u64::MAX));
    assert_eq!(ParamVal::Int(7).try_into_i32(), Ok(7));
    assert_eq!(
        ParamVal::Bool(true).try_into_i32(),
        Err(TryIntoParamValError::UnexpectedType)
    );
}

#[test]
fn parse_array() {
    // [1, 2, 3]
    let array_val = parse_one(vec![
        Token::LBracket,
        Token::LitInt("1".to_string()),
        Token::Comma,
        Token::LitInt("2".to_string()),
        Token::Comma,
        Token::LitInt("3".to_string()),
        Token::RBracket,
    ]);
    assert_eq!(
        array_val,
        ParamVal::Array(vec![ParamVal::Int(1), ParamVal::Int(2), ParamVal::Int(3)])
    )
}

#[test]
fn parse_bool() {
    let bool_val = parse_one(vec![Token::LitBool(true)]);
    assert_eq!(bool_val, ParamVal::Bool(true));
}

#[test]
fn parse_unsigned_float() {
    // 1.0
    let float_val = parse_one(vec![Token::LitFloat((1.0f64).to_bits())]);
    assert_eq!(float_val, ParamVal::Float((1.0f64).to_bits()));
}

#[test]
fn parse_signed_float() {
    // -1.0
    let float_val = parse_one(vec![Token::Minus, Token::LitFloat((1.0f64).to_bits())]);
    assert_eq!(float_val, ParamVal::Float((-1.0f64).to_bits()));
}

#[test]
fn parse_unsigned_int() {
    let int_val = parse_one(vec![Token::LitInt("1".to_string())]);
    assert_eq!(int_val, ParamVal::Int(1));
}

#[test]
fn parse_signed_int() {
    let int_val = parse_one(vec![Token::Minus, Token::LitInt("1".to_string())]);
    assert_eq!(int_val, ParamVal::Int(-1));
}

#[test]
fn parse_string() {
    let str_val = parse_one(vec![Token::LitStr("foo".to_string())]);
    assert_eq!(str_val, ParamVal::Str("foo".to_string()))
}

#[test]
fn parse_signed_float_fraction() {
    // -1.5 negates exactly, by the sign bit
    let float_val = parse_one(vec![Token::Minus, Token::LitFloat((1.5f64).to_bits())]);
    assert_eq!(float_val, ParamVal::Float((-1.5f64).to_bits()));
}

#[test]
fn negated_bool_fails() {
    // -true
    let r = parse_value(&vec![Token::Minus, Token::LitBool(true)], 0);
    assert_eq!(r.unwrap_err(), ParseError::NonNegatableLiteral);
}

#[test]
fn negated_string_fails() {
    // -"x"
    let r = parse_value(&vec![Token::Minus, Token::LitStr("x".to_string())], 0);
    assert_eq!(r.unwrap_err(), ParseError::NonNegatableLiteral);
}

#[test]
fn negated_array_fails() {
    // -[1]
    let r = parse_value(
        &vec![Token::Minus, Token::LBracket, Token::LitInt("1".to_string()), Token::RBracket],
        0,
    );
    assert_eq!(r.unwrap_err(), ParseError::NonNegatableExpression);
}

#[test]
fn double_negation_fails() {
    // --1
    let r = parse_value(&vec![Token::Minus, Token::Minus, Token::LitInt("1".to_string())], 0);
    assert_eq!(r.unwrap_err(), ParseError::NonNegatableExpression);
}

#[test]
fn identifier_is_unsupported_expression() {
    // foo = bar — an identifier is no value
    let r = parse_value(&vec![Token::Ident("bar".to_string())], 0);
    assert_eq!(r.unwrap_err(), ParseError::UnsupportedExpression);
}

#[test]
fn int_literal_at_bound() {
    let int_val = parse_one(vec![Token::LitInt("9223372036854775807".to_string())]);
    assert_eq!(int_val, ParamVal::Int(i64::MAX));
}

#[test]
fn negated_int_literal_at_bound() {
    // the magnitude must fit before negation, so -(2^63 - 1) is the lowest value
    let int_val = parse_one(vec![Token::Minus, Token::LitInt("9223372036854775807".to_string())]);
    assert_eq!(int_val, ParamVal::Int(-i64::MAX));
}

#[test]
fn int_literal_overflow_fails() {
    let r = parse_value(&vec![Token::LitInt("9223372036854775808".to_string())], 0);
    assert_eq!(r.unwrap_err(), ParseError::UnrecognizedLiteral);
}

#[test]
fn malformed_int_literal_fails() {
    let r = parse_value(&vec![Token::LitInt("12a".to_string())], 0);
    assert_eq!(r.unwrap_err(), ParseError::UnrecognizedLiteral);
}

#[test]
fn empty_array() {
    let val = parse_one(vec![Token::LBracket, Token::RBracket]);
    assert_eq!(val, ParamVal::Array(vec![]));
}

#[test]
fn nested_heterogeneous_array() {
    // [[1], true]
    let val = parse_one(vec![
        Token::LBracket,
        Token::LBracket,
        Token::LitInt("1".to_string()),
        Token::RBracket,
        Token::Comma,
        Token::LitBool(true),
        Token::RBracket,
    ]);
    assert_eq!(
        val,
        ParamVal::Array(vec![ParamVal::Array(vec![ParamVal::Int(1)]), ParamVal::Bool(true)])
    );
}

#[test]
fn array_trailing_comma_rejected() {
    // the grammar takes a value after every comma inside brackets
    let r = parse_value(
        &vec![Token::LBracket, Token::LitInt("1".to_string()), Token::Comma, Token::RBracket],
        0,
    );
    assert_eq!(r.unwrap_err(), ParseError::UnsupportedExpression);
}

#[test]
fn unterminated_array_fails() {
    let r = parse_value(&vec![Token::LBracket, Token::LitInt("1".to_string())], 0);
    assert_eq!(r.unwrap_err(), ParseError::UnsupportedExpression);
}
