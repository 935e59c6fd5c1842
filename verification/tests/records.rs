use attribution::conversion::coerce;
use attribution::conversion::DynamicParameters;
use attribution::conversion::FieldValue;
use attribution::conversion::FromParametersError;
use attribution::conversion::TargetTy;
use attribution::field_spec::FieldSpec;
use attribution::field_spec::ParseError as FieldSpecParseError;
use attribution::keys::ParamKey;
use attribution::params::parse_parameters;
use attribution::params::Parameters;
use attribution::record::extract_record;
use attribution::record::extract_union_record;
use attribution::record::FieldDescriptor;
use attribution::tokens::Token;
use attribution::values::ParamVal;
use attribution::values::TryIntoParamValError;

fn named(name: &str) -> ParamKey {
    ParamKey::Named(name.to_string())
}

fn required(name: &str, ty: TargetTy) -> FieldDescriptor {
    FieldDescriptor { key: named(name), ty, optional: false, catch_all: false }
}

fn catch_all(name: &str) -> FieldDescriptor {
    FieldDescriptor { key: named(name), ty: TargetTy::Bool, optional: false, catch_all: true }
}

#[test]
fn array_round_trip() {
    // parsing [1, 2, 3] then coercing to a list of integers yields [1, 2, 3]
    let tokens = vec![
        Token::LBracket,
        Token::LitInt("1".to_string()),
        Token::Comma,
        Token::LitInt("2".to_string()),
        Token::Comma,
        Token::LitInt("3".to_string()),
        Token::RBracket,
    ];
    let (val, _) = attribution::parsing::parse_value(&tokens, 0).unwrap();
    assert_eq!(val.try_into_int_list(), Ok(vec![1, 2, 3]));
}

#[test]
fn heterogeneous_array_coercion_fails() {
    // coercing [1, "x"] to a list of integers fails with UnexpectedType
    let val = ParamVal::Array(vec![ParamVal::Int(1), ParamVal::Str("x".to_string())]);
    assert_eq!(val.try_into_int_list(), Err(TryIntoParamValError::UnexpectedType));
}

#[test]
fn nested_list_coercion() {
    // [[1, 2], [3]] coerces to a list of lists of integers
    let val = ParamVal::Array(vec![
        ParamVal::Array(vec![ParamVal::Int(1), ParamVal::Int(2)]),
        ParamVal::Array(vec![ParamVal::Int(3)]),
    ]);
    let ty = TargetTy::List(Box::new(TargetTy::List(Box::new(TargetTy::Int))));
    let coerced = coerce(&val, &ty).unwrap();
    match coerced {
        FieldValue::List(outer) => {
            assert_eq!(outer.len(), 2);
            assert!(matches!(&outer[0], FieldValue::List(inner) if inner.len() == 2));
        },
        other => panic!("coercion built the wrong shape: {:?}", other),
    }
}

#[test]
fn catch_all_drains_remainder() {
    // fields [a: bool, rest: catch-all] with input a = true, b = 1, c = "x"
    let tokens = vec![
        Token::Ident("a".to_string()),
        Token::Equals,
        Token::LitBool(true),
        Token::Comma,
        Token::Ident("b".to_string()),
        Token::Equals,
        Token::LitInt("1".to_string()),
        Token::Comma,
        Token::Ident("c".to_string()),
        Token::Equals,
        Token::LitStr("x".to_string()),
    ];
    let params = parse_parameters(&tokens).unwrap();
    let descriptors = vec![required("a", TargetTy::Bool), catch_all("rest")];
    let record = extract_record(&descriptors, params).unwrap();
    assert_eq!(record.len(), 2);
    assert!(matches!(record[0], FieldValue::Bool(true)));
    match &record[1] {
        FieldValue::Rest(rest) => {
            assert_eq!(rest.get(&named("b")), Some(&ParamVal::Int(1)));
            assert_eq!(rest.get(&named("c")), Some(&ParamVal::Str("x".to_string())));
            assert_eq!(rest.get(&named("a")), None);
        },
        other => panic!("the catch-all field held {:?}", other),
    }
}

#[test]
fn catch_all_ordered_first_starves_later_fields() {
    // extraction runs in declared field order, so a catch-all placed
    // before a required field consumes the entry that field needed
    let tokens = vec![Token::Ident("a".to_string()), Token::Equals, Token::LitBool(true)];
    let params = parse_parameters(&tokens).unwrap();
    let descriptors = vec![catch_all("rest"), required("a", TargetTy::Bool)];
    let err = extract_record(&descriptors, params).unwrap_err();
    assert_eq!(err, FromParametersError::MissingParam { param_key: named("a") });
}

#[test]
fn dynamic_parameters_drain() {
    let mut params = Parameters::new();
    params.insert(named("b"), ParamVal::Int(1));
    params.insert(named("c"), ParamVal::Str("x".to_string()));
    let key = named("ignored");
    let rest: DynamicParameters = DynamicParameters::from_parameters(&mut params, &key).unwrap();
    assert_eq!(rest.0.get(&named("b")), Some(&ParamVal::Int(1)));
    assert_eq!(rest.0.get(&named("c")), Some(&ParamVal::Str("x".to_string())));
    // the source map observes nothing left
    assert_eq!(params.get(&named("b")), None);
    assert_eq!(params.get(&named("c")), None);
    // a second catch-all observes an empty map, a valid degenerate outcome
    let again = DynamicParameters::from_parameters(&mut params, &key).unwrap();
    assert_eq!(again.0.get(&named("b")), None);
}

#[test]
fn missing_required_param() {
    let params = parse_parameters(&vec![]).unwrap();
    let descriptors = vec![required("a", TargetTy::Bool)];
    let err = extract_record(&descriptors, params).unwrap_err();
    assert_eq!(err, FromParametersError::MissingParam { param_key: named("a") });
}

#[test]
fn mismatched_required_param() {
    let tokens = vec![
        Token::Ident("a".to_string()),
        Token::Equals,
        Token::LitStr("x".to_string()),
    ];
    let params = parse_parameters(&tokens).unwrap();
    let descriptors = vec![required("a", TargetTy::Bool)];
    let err = extract_record(&descriptors, params).unwrap_err();
    assert_eq!(err, FromParametersError::UnexpectedType);
}

#[test]
fn optional_field_in_record() {
    let tokens = vec![Token::Ident("a".to_string()), Token::Equals, Token::LitBool(true)];
    let params = parse_parameters(&tokens).unwrap();
    let descriptors = vec![
        required("a", TargetTy::Bool),
        FieldDescriptor { key: named("b"), ty: TargetTy::Int, optional: true, catch_all: false },
    ];
    let record = extract_record(&descriptors, params).unwrap();
    assert!(matches!(record[0], FieldValue::Bool(true)));
    assert!(matches!(record[1], FieldValue::Nothing));
}

#[test]
fn union_picks_first_match() {
    // variants [StartAndEnd{start, end}, Start{start}, End{end}, Silent{}]
    // with input start = "s" must select Start: second declared, first to
    // succeed, untouched by the failed StartAndEnd trial.
    let start_and_end = vec![required("start", TargetTy::Str), required("end", TargetTy::Str)];
    let start = vec![required("start", TargetTy::Str)];
    let end = vec![required("end", TargetTy::Str)];
    let silent = vec![];
    let variants = vec![start_and_end, start, end, silent];
    let tokens = vec![
        Token::Ident("start".to_string()),
        Token::Equals,
        Token::LitStr("s".to_string()),
    ];
    let (index, record) = extract_union_record(&variants, &tokens).unwrap();
    assert_eq!(index, 1);
    assert_eq!(record.len(), 1);
    assert!(matches!(&record[0], FieldValue::Str(s) if s.as_str() == "s"));
}

#[test]
fn union_trials_leave_no_residue() {
    // running the same dispatch twice over the same tokens gives the same
    // outcome: failed trials leave nothing behind
    let variants = vec![
        vec![required("a", TargetTy::Int), required("b", TargetTy::Int)],
        vec![required("a", TargetTy::Int)],
    ];
    let tokens = vec![Token::Ident("a".to_string()), Token::Equals, Token::LitInt("1".to_string())];
    let first = extract_union_record(&variants, &tokens).unwrap();
    let second = extract_union_record(&variants, &tokens).unwrap();
    assert_eq!(first.0, 1);
    assert_eq!(second.0, 1);
    assert_eq!(first.1.len(), second.1.len());
}

#[test]
fn union_no_matching_variant() {
    let variants = vec![
        vec![required("a", TargetTy::Bool)],
        vec![required("b", TargetTy::Int)],
    ];
    let tokens = vec![
        Token::Ident("c".to_string()),
        Token::Equals,
        Token::LitInt("1".to_string()),
    ];
    let err = extract_union_record(&variants, &tokens).unwrap_err();
    assert_eq!(err, FromParametersError::NoMatchingVariant);
}

#[test]
fn union_all_fail_on_parse_error() {
    // when the raw item list itself cannot be parsed, every trial fails
    let variants = vec![vec![], vec![required("a", TargetTy::Bool)]];
    let tokens = vec![Token::Minus, Token::LitBool(true)];
    let err = extract_union_record(&variants, &tokens).unwrap_err();
    assert_eq!(err, FromParametersError::NoMatchingVariant);
}

#[test]
fn field_spec_from_parts() {
    let spec = FieldSpec::from_parts(Some("foo".to_string()), "i32".to_string()).unwrap();
    assert_eq!(spec.ident().as_str(), "foo");
    assert_eq!(spec.ty().as_str(), "i32");
    assert_eq!(spec, FieldSpec::new("foo".to_string(), "i32".to_string()));
}

#[test]
fn field_spec_needs_ident() {
    let err = FieldSpec::from_parts(None, "i32".to_string()).unwrap_err();
    assert!(matches!(err, FieldSpecParseError::NoIdent));
}
