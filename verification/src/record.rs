use vstd::prelude::*;

use crate::assoc::assoc_map;
use crate::conversion::coerce;
use crate::conversion::field_view;
use crate::conversion::fields_view;
use crate::conversion::lemma_fields_view;
use crate::conversion::spec_coerce;
use crate::conversion::FieldValue;
use crate::conversion::FieldView;
use crate::conversion::FromParametersError;
use crate::conversion::FromParametersErrorView;
use crate::conversion::TargetTy;
use crate::keys::KeyView;
use crate::keys::ParamKey;
use crate::params::parse_parameters;
use crate::params::spec_parse_items;
use crate::params::Parameters;
use crate::tokens::toks_view;
use crate::tokens::TokView;
use crate::tokens::Token;
use crate::values::ValView;

verus! {

/// Metadata describing one field of a record to be built: the key the
/// field takes its value from, the concrete target type, whether the
/// field is optional (absent or mismatched values are swallowed), and
/// whether it is the catch-all that absorbs the remainder of the map.
#[derive(Debug)]
pub struct FieldDescriptor {
    pub key: ParamKey,
    pub ty: TargetTy,
    pub optional: bool,
    pub catch_all: bool,
}

/// The mathematical identity of a field descriptor.
pub struct DescView {
    pub key: KeyView,
    pub ty: TargetTy,
    pub optional: bool,
    pub catch_all: bool,
}

impl View for FieldDescriptor {
    type V = DescView;

    open spec fn view(&self) -> DescView {
        DescView { key: self.key@, ty: self.ty, optional: self.optional, catch_all: self.catch_all }
    }
}

/// The views of a descriptor list, in order.
pub open spec fn descs_view(ds: Seq<FieldDescriptor>) -> Seq<DescView> {
    Seq::new(ds.len(), |i: int| ds[i]@)
}

/// Extraction of one field from the map. A catch-all field ignores its
/// key, takes the whole remaining map and leaves it empty. An optional
/// field takes nothing when its key is absent and swallows a type
/// mismatch, consuming the entry either way. A required field fails with
/// `MissingParam` when its key is absent and with `UnexpectedType` when
/// the value does not coerce.
pub open spec fn spec_extract_field(m: Map<KeyView, ValView>, d: DescView) -> Result<
    (FieldView, Map<KeyView, ValView>),
    FromParametersErrorView,
> {
    if d.catch_all {
        Ok((FieldView::Rest(m), Map::empty()))
    } else if d.optional {
        if !m.contains_key(d.key) {
            Ok((FieldView::Nothing, m))
        } else {
            match spec_coerce(m[d.key], d.ty) {
                Ok(f) => Ok((f, m.remove(d.key))),
                Err(_) => Ok((FieldView::Nothing, m.remove(d.key))),
            }
        }
    } else {
        if !m.contains_key(d.key) {
            Err(FromParametersErrorView::MissingParam(d.key))
        } else {
            match spec_coerce(m[d.key], d.ty) {
                Ok(f) => Ok((f, m.remove(d.key))),
                Err(_) => Err(FromParametersErrorView::UnexpectedType),
            }
        }
    }
}

/// Extraction of a whole record: the fields in declared order, each
/// mutating the map by removal; the first failing field fails the record.
pub open spec fn spec_extract_record(ds: Seq<DescView>, m: Map<KeyView, ValView>) -> Result<
    (Seq<FieldView>, Map<KeyView, ValView>),
    FromParametersErrorView,
>
    decreases ds.len(),
{
    if ds.len() == 0 {
        Ok((Seq::empty(), m))
    } else {
        match spec_extract_field(m, ds[0]) {
            Err(e) => Err(e),
            Ok((f, m2)) => match spec_extract_record(ds.drop_first(), m2) {
                Ok((rest, m3)) => Ok((seq![f] + rest, m3)),
                Err(e) => Err(e),
            },
        }
    }
}

/// Extracts one field, exactly as `spec_extract_field` prescribes; the
/// map keeps every entry the extraction does not consume.
pub fn extract_field(params: &mut Parameters, desc: &FieldDescriptor) -> (r: Result<
    FieldValue,
    FromParametersError,
>)
    requires
        old(params).wf(),
    ensures
        final(params).wf(),
        r matches Ok(f) ==> (f matches FieldValue::Rest(p) ==> p.wf()),
        match (r, spec_extract_field(old(params)@, desc@)) {
            (Ok(f), Ok((sf, sm))) => f@ == sf && final(params)@ == sm,
            (Err(e), Err(se)) => e@ == se && (match se {
                FromParametersErrorView::MissingParam(_) => final(params)@ == old(params)@,
                FromParametersErrorView::UnexpectedType => final(params)@ == old(params)@.remove(
                    desc@.key,
                ),
                FromParametersErrorView::NoMatchingVariant => false,
            }),
            _ => false,
        },
{
    if desc.catch_all {
        Ok(FieldValue::Rest(params.drain()))
    } else {
        match params.remove(&desc.key) {
            None => {
                if desc.optional {
                    Ok(FieldValue::Nothing)
                } else {
                    Err(FromParametersError::MissingParam { param_key: desc.key.duplicate() })
                }
            },
            Some(v) => match coerce(&v, &desc.ty) {
                Ok(f) => Ok(f),
                Err(_) => {
                    if desc.optional {
                        Ok(FieldValue::Nothing)
                    } else {
                        Err(FromParametersError::UnexpectedType)
                    }
                },
            },
        }
    }
}

/// Builds a plain record: runs field extraction over the descriptor list
/// in order against the map, exactly as `spec_extract_record` prescribes;
/// the first failure aborts the whole record with that field's error.
pub fn extract_record(descriptors: &Vec<FieldDescriptor>, params: Parameters) -> (r: Result<
    Vec<FieldValue>,
    FromParametersError,
>)
    requires
        params.wf(),
    ensures
        r matches Ok(fs) ==> forall|j: int|
            0 <= j < fs@.len() ==> (#[trigger] fs@[j] matches FieldValue::Rest(p) ==> p.wf()),
        match (r, spec_extract_record(descs_view(descriptors@), params@)) {
            (Ok(fs), Ok((sfs, sm))) => fields_view(fs@) == sfs,
            (Err(e), Err(se)) => e@ == se,
            _ => false,
        },
{
    let ghost dv: Seq<DescView> = descs_view(descriptors@);
    let ghost m0: Map<KeyView, ValView> = params.view();
    let mut remaining = params;
    let mut out: Vec<FieldValue> = Vec::new();
    let mut i: usize = 0;
    proof {
        assert(dv.skip(0) =~= dv);
        assert(fields_view(out@) =~= Seq::<FieldView>::empty());
        match spec_extract_record(dv, m0) {
            Ok((rest, mf)) => {
                assert(fields_view(out@) + rest =~= rest);
            },
            Err(_) => {},
        }
    }
    while i < descriptors.len()
        invariant
            dv == descs_view(descriptors@),
            m0 == params@,
            dv.len() == descriptors@.len(),
            i <= descriptors@.len(),
            remaining.wf(),
            out@.len() == i,
            forall|j: int|
                0 <= j < i ==> (#[trigger] out@[j] matches FieldValue::Rest(p) ==> p.wf()),
            spec_extract_record(dv, m0) == (match spec_extract_record(
                dv.skip(i as int),
                remaining@,
            ) {
                Ok((rest, mf)) => Ok::<(Seq<FieldView>, Map<KeyView, ValView>),
                    FromParametersErrorView,
                >((fields_view(out@) + rest, mf)),
                Err(e) => Err::<(Seq<FieldView>, Map<KeyView, ValView>),
                    FromParametersErrorView,
                >(e),
            }),
        decreases descriptors@.len() - i,
    {
        let ghost prev_out = out@;
        let ghost prev_map = remaining.view();
        proof {
            assert(dv.skip(i as int)[0] == dv[i as int]);
            assert(dv.skip(i as int).drop_first() =~= dv.skip(i + 1));
        }
        match extract_field(&mut remaining, &descriptors[i]) {
            Err(e) => {
                return Err(e);
            },
            Ok(f) => {
                out.push(f);
                proof {
                    lemma_fields_view(prev_out);
                    lemma_fields_view(out@);
                    match spec_extract_record(dv.skip(i + 1), remaining.view()) {
                        Ok((rest, mf)) => {
                            assert(fields_view(prev_out) + (seq![field_view(out@[i as int])]
                                + rest) =~= fields_view(out@) + rest);
                        },
                        Err(_) => {},
                    }
                }
            },
        }
        i = i + 1;
    }
    proof {
        assert(dv.skip(i as int) =~= Seq::<DescView>::empty());
        assert(fields_view(out@) + Seq::<FieldView>::empty() =~= fields_view(out@));
    }
    Ok(out)
}

/// One union-variant trial over the raw item list: a fresh, independent
/// parse of the items, then extraction against that variant's
/// descriptors. The outcome is a function of the variant and the raw
/// items alone — no other trial can influence it or be influenced by it.
pub open spec fn spec_trial(ds: Seq<DescView>, t: Seq<TokView>) -> Option<Seq<FieldView>> {
    match spec_parse_items(t, 0, 0) {
        Ok(items) => match spec_extract_record(ds, assoc_map(items)) {
            Ok((fs, m)) => Some(fs),
            Err(_) => None,
        },
        Err(_) => None,
    }
}

/// Builds a union record: tries each variant in declaration order against
/// a fresh parse of the raw item list, commits to the first variant whose
/// trial succeeds — returning its index and its record — and fails with
/// `NoMatchingVariant` when every trial fails. Failed trials leave no
/// residue: each trial works on its own freshly parsed map.
pub fn extract_union_record(variants: &Vec<Vec<FieldDescriptor>>, tokens: &Vec<Token>) -> (r:
    Result<(usize, Vec<FieldValue>), FromParametersError>)
    ensures
        r matches Ok(ifs) ==> forall|j: int|
            0 <= j < ifs.1@.len() ==> (#[trigger] ifs.1@[j] matches FieldValue::Rest(p)
                ==> p.wf()),
        match r {
            Ok((i, fs)) => i < variants@.len() && spec_trial(
                descs_view(variants@[i as int]@),
                toks_view(tokens@),
            ) == Some(fields_view(fs@)) && (forall|j: int|
                0 <= j < i ==> spec_trial(
                    descs_view(#[trigger] variants@[j]@),
                    toks_view(tokens@),
                ) is None),
            Err(e) => e@ == FromParametersErrorView::NoMatchingVariant && (forall|j: int|
                0 <= j < variants@.len() ==> spec_trial(
                    descs_view(#[trigger] variants@[j]@),
                    toks_view(tokens@),
                ) is None),
        },
{
    let mut i: usize = 0;
    while i < variants.len()
        invariant
            i <= variants@.len(),
            forall|j: int|
                0 <= j < i ==> spec_trial(
                    descs_view(#[trigger] variants@[j]@),
                    toks_view(tokens@),
                ) is None,
        decreases variants@.len() - i,
    {
        match parse_parameters(tokens) {
            Ok(params) => match extract_record(&variants[i], params) {
                Ok(fs) => {
                    return Ok((i, fs));
                },
                Err(_) => {},
            },
            Err(_) => {},
        }
        i = i + 1;
    }
    Err(FromParametersError::NoMatchingVariant)
}

} // verus!
