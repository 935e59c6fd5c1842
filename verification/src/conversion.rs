use vstd::prelude::*;

use crate::keys::KeyView;
use crate::keys::ParamKey;
use crate::params::Parameters;
use crate::values::lemma_vals_view;
use crate::values::val_view;
use crate::values::vals_view;
use crate::values::ParamVal;
use crate::values::TryIntoParamValError;
use crate::values::ValView;

verus! {

/// An error from extracting one field out of a `Parameters` map, or from
/// resolving a union record.
#[derive(Debug, PartialEq)]
pub enum FromParametersError {
    /// No value was supplied for a required parameter.
    MissingParam { param_key: ParamKey },
    /// The supplied value holds the wrong type for the parameter.
    UnexpectedType,
    /// No variant of a union record accepts the supplied parameters.
    NoMatchingVariant,
}

/// The mathematical identity of an extraction error.
pub enum FromParametersErrorView {
    MissingParam(KeyView),
    UnexpectedType,
    NoMatchingVariant,
}

impl View for FromParametersError {
    type V = FromParametersErrorView;

    open spec fn view(&self) -> FromParametersErrorView {
        match self {
            FromParametersError::MissingParam { param_key } => FromParametersErrorView::MissingParam(
                param_key@,
            ),
            FromParametersError::UnexpectedType => FromParametersErrorView::UnexpectedType,
            FromParametersError::NoMatchingVariant => FromParametersErrorView::NoMatchingVariant,
        }
    }
}

/// A concrete target type for field coercion: a scalar, a string, or a
/// homogeneous list of a target type, nested freely.
#[derive(Debug, PartialEq)]
pub enum TargetTy {
    Bool,
    Int,
    Float,
    Str,
    List(Box<TargetTy>),
}

impl TargetTy {
    /// A copy equal to the original.
    pub fn duplicate(&self) -> (r: TargetTy)
        ensures
            r == *self,
        decreases self,
    {
        match self {
            TargetTy::Bool => TargetTy::Bool,
            TargetTy::Int => TargetTy::Int,
            TargetTy::Float => TargetTy::Float,
            TargetTy::Str => TargetTy::Str,
            TargetTy::List(inner) => TargetTy::List(Box::new((**inner).duplicate())),
        }
    }
}

/// One extracted field of a record: a coerced scalar, string or list; an
/// optional field that was absent or whose soft coercion failed; or the
/// catch-all remainder map.
#[derive(Debug)]
pub enum FieldValue {
    Bool(bool),
    Int(i64),
    Float(u64),
    Str(String),
    List(Vec<FieldValue>),
    Nothing,
    Rest(Parameters),
}

/// The mathematical identity of an extracted field.
pub enum FieldView {
    Bool(bool),
    Int(i64),
    Float(u64),
    Str(Seq<char>),
    List(Seq<FieldView>),
    Nothing,
    Rest(Map<KeyView, ValView>),
}

/// The view of one extracted field, element by element for lists.
pub open spec fn field_view(f: FieldValue) -> FieldView
    decreases f,
{
    match f {
        FieldValue::Bool(b) => FieldView::Bool(b),
        FieldValue::Int(n) => FieldView::Int(n),
        FieldValue::Float(bits) => FieldView::Float(bits),
        FieldValue::Str(s) => FieldView::Str(s@),
        FieldValue::List(fs) => FieldView::List(fields_view(fs@)),
        FieldValue::Nothing => FieldView::Nothing,
        FieldValue::Rest(p) => FieldView::Rest(p@),
    }
}

/// The views of a sequence of extracted fields, in order.
pub open spec fn fields_view(fs: Seq<FieldValue>) -> Seq<FieldView>
    decreases fs,
{
    if fs.len() == 0 {
        Seq::empty()
    } else {
        seq![field_view(fs[0])] + fields_view(fs.drop_first())
    }
}

/// `fields_view` maps `field_view` over the sequence, index by index.
pub proof fn lemma_fields_view(fs: Seq<FieldValue>)
    ensures
        fields_view(fs).len() == fs.len(),
        forall|i: int| 0 <= i < fs.len() ==> fields_view(fs)[i] == field_view(fs[i]),
    decreases fs.len(),
{
    if fs.len() > 0 {
        lemma_fields_view(fs.drop_first());
    }
}

impl View for FieldValue {
    type V = FieldView;

    open spec fn view(&self) -> FieldView {
        field_view(*self)
    }
}

/// Coercion of one value into a concrete target type. A scalar or string
/// must hold the matching variant; an array is coerced element by element
/// into a homogeneous list and fails as a whole if any element fails.
pub open spec fn spec_coerce(v: ValView, ty: TargetTy) -> Result<FieldView, TryIntoParamValError>
    decreases v,
{
    match v {
        ValView::Bool(b) => match ty {
            TargetTy::Bool => Ok(FieldView::Bool(b)),
            _ => Err(TryIntoParamValError::UnexpectedType),
        },
        ValView::Int(n) => match ty {
            TargetTy::Int => Ok(FieldView::Int(n)),
            _ => Err(TryIntoParamValError::UnexpectedType),
        },
        ValView::Float(bits) => match ty {
            TargetTy::Float => Ok(FieldView::Float(bits)),
            _ => Err(TryIntoParamValError::UnexpectedType),
        },
        ValView::Str(s) => match ty {
            TargetTy::Str => Ok(FieldView::Str(s)),
            _ => Err(TryIntoParamValError::UnexpectedType),
        },
        ValView::Array(es) => match ty {
            TargetTy::List(inner) => match spec_coerce_list(es, *inner) {
                Ok(fs) => Ok(FieldView::List(fs)),
                Err(e) => Err(e),
            },
            _ => Err(TryIntoParamValError::UnexpectedType),
        },
    }
}

/// Element-wise coercion of an array's values; the first failing element
/// fails the whole list.
pub open spec fn spec_coerce_list(es: Seq<ValView>, ty: TargetTy) -> Result<
    Seq<FieldView>,
    TryIntoParamValError,
>
    decreases es,
{
    if es.len() == 0 {
        Ok(Seq::empty())
    } else {
        match spec_coerce(es[0], ty) {
            Ok(f) => match spec_coerce_list(es.drop_first(), ty) {
                Ok(rest) => Ok(seq![f] + rest),
                Err(e) => Err(e),
            },
            Err(e) => Err(e),
        }
    }
}

/// `spec_coerce_list` succeeds exactly when every element coerces, and
/// then returns the coerced elements in order.
pub proof fn lemma_spec_coerce_list(es: Seq<ValView>, ty: TargetTy)
    ensures
        (forall|j: int| 0 <= j < es.len() ==> spec_coerce(#[trigger] es[j], ty) is Ok) ==> (
        spec_coerce_list(es, ty) matches Ok(fs) && fs.len() == es.len() && forall|j: int|
            0 <= j < es.len() ==> fs[j] == spec_coerce(#[trigger] es[j], ty)->Ok_0),
        (exists|j: int| 0 <= j < es.len() && spec_coerce(#[trigger] es[j], ty) is Err)
            ==> spec_coerce_list(es, ty) == Err::<Seq<FieldView>, TryIntoParamValError>(
            TryIntoParamValError::UnexpectedType,
        ),
    decreases es.len(),
{
    if es.len() > 0 {
        lemma_spec_coerce_list(es.drop_first(), ty);
        assert(forall|j: int| 1 <= j < es.len() ==> es.drop_first()[j - 1] == #[trigger] es[j]);
    }
}

/// Coerces one value into a target type, exactly as `spec_coerce`
/// prescribes.
pub fn coerce(v: &ParamVal, ty: &TargetTy) -> (r: Result<FieldValue, TryIntoParamValError>)
    ensures
        match (r, spec_coerce(v@, *ty)) {
            (Ok(f), Ok(sf)) => f@ == sf,
            (Err(e), Err(se)) => e == se,
            _ => false,
        },
    decreases v,
{
    match v {
        ParamVal::Bool(b) => match ty {
            TargetTy::Bool => Ok(FieldValue::Bool(*b)),
            _ => Err(TryIntoParamValError::UnexpectedType),
        },
        ParamVal::Int(n) => match ty {
            TargetTy::Int => Ok(FieldValue::Int(*n)),
            _ => Err(TryIntoParamValError::UnexpectedType),
        },
        ParamVal::Float(bits) => match ty {
            TargetTy::Float => Ok(FieldValue::Float(*bits)),
            _ => Err(TryIntoParamValError::UnexpectedType),
        },
        ParamVal::Str(s) => match ty {
            TargetTy::Str => Ok(FieldValue::Str(s.clone())),
            _ => Err(TryIntoParamValError::UnexpectedType),
        },
        ParamVal::Array(es) => match ty {
            TargetTy::List(inner) => match coerce_list(es, inner) {
                Ok(fs) => Ok(FieldValue::List(fs)),
                Err(e) => Err(e),
            },
            _ => Err(TryIntoParamValError::UnexpectedType),
        },
    }
}

/// Coerces every element of an array, exactly as `spec_coerce_list`
/// prescribes.
fn coerce_list(es: &Vec<ParamVal>, ty: &TargetTy) -> (r: Result<Vec<FieldValue>, TryIntoParamValError>)
    ensures
        match (r, spec_coerce_list(vals_view(es@), *ty)) {
            (Ok(fs), Ok(sfs)) => fields_view(fs@) == sfs,
            (Err(e), Err(se)) => e == se,
            _ => false,
        },
    decreases es,
{
    let ghost esv: Seq<ValView> = vals_view(es@);
    proof {
        lemma_vals_view(es@);
    }
    let mut out: Vec<FieldValue> = Vec::new();
    let mut i: usize = 0;
    while i < es.len()
        invariant
            i <= es@.len(),
            esv == vals_view(es@),
            esv.len() == es@.len(),
            forall|j: int| 0 <= j < es@.len() ==> esv[j] == val_view(es@[j]),
            out@.len() == i,
            forall|j: int|
                0 <= j < i ==> spec_coerce(#[trigger] esv[j], *ty) is Ok && field_view(out@[j])
                    == spec_coerce(esv[j], *ty)->Ok_0,
        decreases es@.len() - i,
    {
        match coerce(&es[i], ty) {
            Ok(f) => {
                out.push(f);
            },
            Err(_) => {
                proof {
                    assert(spec_coerce(esv[i as int], *ty) is Err);
                    lemma_spec_coerce_list(esv, *ty);
                }
                return Err(TryIntoParamValError::UnexpectedType);
            },
        }
        i = i + 1;
    }
    proof {
        assert(forall|j: int| 0 <= j < esv.len() ==> spec_coerce(#[trigger] esv[j], *ty) is Ok);
        lemma_spec_coerce_list(esv, *ty);
        lemma_fields_view(out@);
        match spec_coerce_list(esv, *ty) {
            Ok(sfs) => {
                assert forall|k: int| 0 <= k < out@.len() implies fields_view(out@)[k]
                    == sfs[k] by {
                    assert(spec_coerce(esv[k], *ty) is Ok);
                }
                assert(fields_view(out@) =~= sfs);
            },
            Err(_) => {
                assert(false);
            },
        }
    }
    Ok(out)
}

/// Extracts a required `bool` field: removes the entry at the key, fails
/// with `MissingParam` when the key is absent and with `UnexpectedType`
/// when the value holds another type; the entry is consumed whenever it
/// was present.
pub fn bool_from_parameters(params: &mut Parameters, param_key: &ParamKey) -> (r: Result<
    bool,
    FromParametersError,
>)
    requires
        old(params).wf(),
    ensures
        final(params).wf(),
        match r {
            Ok(b) => old(params)@.contains_key(param_key@) && old(params)@[param_key@]
                == ValView::Bool(b) && final(params)@ == old(params)@.remove(param_key@),
            Err(e) => match e@ {
                FromParametersErrorView::MissingParam(k) => k == param_key@ && !old(
                    params,
                )@.contains_key(param_key@) && final(params)@ == old(params)@,
                FromParametersErrorView::UnexpectedType => old(params)@.contains_key(param_key@)
                    && !(old(params)@[param_key@] matches ValView::Bool(..)) && final(params)@
                    == old(params)@.remove(param_key@),
                FromParametersErrorView::NoMatchingVariant => false,
            },
        },
{
    match params.remove(param_key) {
        Some(v) => match v.try_into_bool() {
            Ok(b) => Ok(b),
            Err(_) => Err(FromParametersError::UnexpectedType),
        },
        None => Err(FromParametersError::MissingParam { param_key: param_key.duplicate() }),
    }
}

/// Extracts a required 64-bit signed integer field, with the same
/// presence and consumption rules as `bool_from_parameters`.
pub fn int_from_parameters(params: &mut Parameters, param_key: &ParamKey) -> (r: Result<
    i64,
    FromParametersError,
>)
    requires
        old(params).wf(),
    ensures
        final(params).wf(),
        match r {
            Ok(n) => old(params)@.contains_key(param_key@) && old(params)@[param_key@]
                == ValView::Int(n) && final(params)@ == old(params)@.remove(param_key@),
            Err(e) => match e@ {
                FromParametersErrorView::MissingParam(k) => k == param_key@ && !old(
                    params,
                )@.contains_key(param_key@) && final(params)@ == old(params)@,
                FromParametersErrorView::UnexpectedType => old(params)@.contains_key(param_key@)
                    && !(old(params)@[param_key@] matches ValView::Int(..)) && final(params)@
                    == old(params)@.remove(param_key@),
                FromParametersErrorView::NoMatchingVariant => false,
            },
        },
{
    match params.remove(param_key) {
        Some(v) => match v.try_into_int() {
            Ok(n) => Ok(n),
            Err(_) => Err(FromParametersError::UnexpectedType),
        },
        None => Err(FromParametersError::MissingParam { param_key: param_key.duplicate() }),
    }
}

/// Extracts a required string field, with the same presence and
/// consumption rules as `bool_from_parameters`.
pub fn string_from_parameters(params: &mut Parameters, param_key: &ParamKey) -> (r: Result<
    String,
    FromParametersError,
>)
    requires
        old(params).wf(),
    ensures
        final(params).wf(),
        match r {
            Ok(s) => old(params)@.contains_key(param_key@) && old(params)@[param_key@]
                == ValView::Str(s@) && final(params)@ == old(params)@.remove(param_key@),
            Err(e) => match e@ {
                FromParametersErrorView::MissingParam(k) => k == param_key@ && !old(
                    params,
                )@.contains_key(param_key@) && final(params)@ == old(params)@,
                FromParametersErrorView::UnexpectedType => old(params)@.contains_key(param_key@)
                    && !(old(params)@[param_key@] matches ValView::Str(..)) && final(params)@
                    == old(params)@.remove(param_key@),
                FromParametersErrorView::NoMatchingVariant => false,
            },
        },
{
    match params.remove(param_key) {
        Some(v) => match v.try_into_str() {
            Ok(s) => Ok(s),
            Err(_) => Err(FromParametersError::UnexpectedType),
        },
        None => Err(FromParametersError::MissingParam { param_key: param_key.duplicate() }),
    }
}

/// Extracts a required 64-bit float field by its bit pattern, with the
/// same presence and consumption rules as `bool_from_parameters`.
pub fn float_bits_from_parameters(params: &mut Parameters, param_key: &ParamKey) -> (r: Result<
    u64,
    FromParametersError,
>)
    requires
        old(params).wf(),
    ensures
        final(params).wf(),
        match r {
            Ok(bits) => old(params)@.contains_key(param_key@) && old(params)@[param_key@]
                == ValView::Float(bits) && final(params)@ == old(params)@.remove(param_key@),
            Err(e) => match e@ {
                FromParametersErrorView::MissingParam(k) => k == param_key@ && !old(
                    params,
                )@.contains_key(param_key@) && final(params)@ == old(params)@,
                FromParametersErrorView::UnexpectedType => old(params)@.contains_key(param_key@)
                    && !(old(params)@[param_key@] matches ValView::Float(..)) && final(params)@
                    == old(params)@.remove(param_key@),
                FromParametersErrorView::NoMatchingVariant => false,
            },
        },
{
    match params.remove(param_key) {
        Some(v) => match v.try_into_float_bits() {
            Ok(bits) => Ok(bits),
            Err(_) => Err(FromParametersError::UnexpectedType),
        },
        None => Err(FromParametersError::MissingParam { param_key: param_key.duplicate() }),
    }
}

/// The value an optional extraction yields: the coerced value when the
/// key holds one of the right type, and nothing when the key is absent or
/// the value has the wrong type — a mismatch is swallowed, not reported.
pub open spec fn spec_optional<T>(
    m: Map<KeyView, ValView>,
    k: KeyView,
    pick: spec_fn(ValView) -> Option<T>,
) -> Option<T> {
    if m.contains_key(k) {
        pick(m[k])
    } else {
        None
    }
}

/// Extracts an optional `bool` field: always succeeds; the entry, if
/// present, is consumed even when its type does not match.
pub fn opt_bool_from_parameters(params: &mut Parameters, param_key: &ParamKey) -> (r: Result<
    Option<bool>,
    FromParametersError,
>)
    requires
        old(params).wf(),
    ensures
        final(params).wf(),
        r matches Ok(o) && o == spec_optional(
            old(params)@,
            param_key@,
            |v: ValView|
                match v {
                    ValView::Bool(b) => Some(b),
                    _ => None,
                },
        ),
        old(params)@.contains_key(param_key@) ==> final(params)@ == old(params)@.remove(
            param_key@,
        ),
        !old(params)@.contains_key(param_key@) ==> final(params)@ == old(params)@,
{
    match params.remove(param_key) {
        Some(v) => match v.try_into_bool() {
            Ok(b) => Ok(Some(b)),
            Err(_) => Ok(None),
        },
        None => Ok(None),
    }
}

/// Extracts an optional 64-bit signed integer field, with the same soft
/// rules as `opt_bool_from_parameters`.
pub fn opt_int_from_parameters(params: &mut Parameters, param_key: &ParamKey) -> (r: Result<
    Option<i64>,
    FromParametersError,
>)
    requires
        old(params).wf(),
    ensures
        final(params).wf(),
        r matches Ok(o) && o == spec_optional(
            old(params)@,
            param_key@,
            |v: ValView|
                match v {
                    ValView::Int(n) => Some(n),
                    _ => None,
                },
        ),
        old(params)@.contains_key(param_key@) ==> final(params)@ == old(params)@.remove(
            param_key@,
        ),
        !old(params)@.contains_key(param_key@) ==> final(params)@ == old(params)@,
{
    match params.remove(param_key) {
        Some(v) => match v.try_into_int() {
            Ok(n) => Ok(Some(n)),
            Err(_) => Ok(None),
        },
        None => Ok(None),
    }
}

/// Extracts an optional 64-bit float field by its bit pattern, with the
/// same soft rules as `opt_bool_from_parameters`.
pub fn opt_float_bits_from_parameters(params: &mut Parameters, param_key: &ParamKey) -> (r: Result<
    Option<u64>,
    FromParametersError,
>)
    requires
        old(params).wf(),
    ensures
        final(params).wf(),
        r matches Ok(o) && o == spec_optional(
            old(params)@,
            param_key@,
            |v: ValView|
                match v {
                    ValView::Float(bits) => Some(bits),
                    _ => None,
                },
        ),
        old(params)@.contains_key(param_key@) ==> final(params)@ == old(params)@.remove(
            param_key@,
        ),
        !old(params)@.contains_key(param_key@) ==> final(params)@ == old(params)@,
{
    match params.remove(param_key) {
        Some(v) => match v.try_into_float_bits() {
            Ok(bits) => Ok(Some(bits)),
            Err(_) => Ok(None),
        },
        None => Ok(None),
    }
}

/// Extracts an optional string field, with the same soft rules as
/// `opt_bool_from_parameters`.
pub fn opt_string_from_parameters(params: &mut Parameters, param_key: &ParamKey) -> (r: Result<
    Option<String>,
    FromParametersError,
>)
    requires
        old(params).wf(),
    ensures
        final(params).wf(),
        r matches Ok(o) && (match spec_optional(
            old(params)@,
            param_key@,
            |v: ValView|
                match v {
                    ValView::Str(s) => Some(s),
                    _ => None,
                },
        ) {
            Some(cs) => o matches Some(s) && s@ == cs,
            None => o is None,
        }),
        old(params)@.contains_key(param_key@) ==> final(params)@ == old(params)@.remove(
            param_key@,
        ),
        !old(params)@.contains_key(param_key@) ==> final(params)@ == old(params)@,
{
    match params.remove(param_key) {
        Some(v) => match v.try_into_str() {
            Ok(s) => Ok(Some(s)),
            Err(_) => Ok(None),
        },
        None => Ok(None),
    }
}

/// Aggregates every parameter that remains after the other fields of a
/// record have taken theirs.
#[derive(Debug)]
pub struct DynamicParameters(pub Parameters);

impl View for DynamicParameters {
    type V = Map<KeyView, ValView>;

    open spec fn view(&self) -> Map<KeyView, ValView> {
        self.0@
    }
}

impl DynamicParameters {
    /// Internal well-formedness of the aggregated map.
    pub open spec fn wf(&self) -> bool {
        self.0.wf()
    }

    /// Catch-all extraction: ignores its key, always succeeds, and drains
    /// every remaining entry into a fresh map that becomes the field's
    /// value, leaving the source map empty.
    pub fn from_parameters(params: &mut Parameters, _param_key: &ParamKey) -> (r: Result<
        DynamicParameters,
        FromParametersError,
    >)
        requires
            old(params).wf(),
        ensures
            final(params).wf(),
            final(params)@ == Map::<KeyView, ValView>::empty(),
            r matches Ok(d) && d@ == old(params)@ && d.wf(),
    {
        Ok(DynamicParameters(params.drain()))
    }
}

} // verus!
