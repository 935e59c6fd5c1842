use attribution::attr_map::AttrVal;
use attribution::attr_map::TryIntoAttrValError;

#[test]
fn bool_conversion() {
    let left = AttrVal::Bool(true).try_into_bool();
    let right = Ok(true);
    assert_eq!(left, right)
}

#[test]
fn int_conversion() {
    let left = AttrVal::Int(1).try_into_int();
    let right = Ok(1);
    assert_eq!(left, right)
}

#[test]
fn str_conversion() {
    let left: Result<String, TryIntoAttrValError> = AttrVal::Str("hello".into()).try_into_string();
    let right: Result<String, TryIntoAttrValError> = Ok("hello".into());
    assert_eq!(left, right)
}

#[test]
fn attr_val_from_plain_values() {
    let b: AttrVal = true.into();
    let n: AttrVal = 7u64.into();
    assert_eq!(b, AttrVal::Bool(true));
    assert_eq!(n, AttrVal::Int(7));
}

#[test]
fn bool_conversion_wrong_variant() {
    assert_eq!(AttrVal::Int(1).try_into_bool(), Err(TryIntoAttrValError));
}

#[test]
fn int_conversion_wrong_variant() {
    assert_eq!(AttrVal::Str("1".into()).try_into_int(), Err(TryIntoAttrValError));
}

#[test]
fn str_conversion_wrong_variant() {
    assert_eq!(AttrVal::Bool(false).try_into_string(), Err(TryIntoAttrValError));
}
