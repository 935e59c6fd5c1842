use vstd::prelude::*;

verus! {

/// The parsed, typed representation of one item's right-hand side (or of
/// the item itself if positional). Arrays may be heterogeneous at parse
/// time; homogeneity is enforced only when a consumer coerces an array to
/// a typed collection.
///
/// A `Float` carries the IEEE-754 bit pattern of a 64-bit float: the crate
/// stores and moves float values by their bits and never performs float
/// arithmetic on them.
#[derive(Debug, PartialEq)]
pub enum ParamVal {
    Array(Vec<ParamVal>),
    Bool(bool),
    Int(i64),
    Float(u64),
    Str(String),
}

/// The mathematical identity of a `ParamVal`.
pub enum ValView {
    Array(Seq<ValView>),
    Bool(bool),
    Int(i64),
    Float(u64),
    Str(Seq<char>),
}

/// The view of a value, element by element for arrays.
pub open spec fn val_view(v: ParamVal) -> ValView
    decreases v,
{
    match v {
        ParamVal::Array(es) => ValView::Array(vals_view(es@)),
        ParamVal::Bool(b) => ValView::Bool(b),
        ParamVal::Int(n) => ValView::Int(n),
        ParamVal::Float(bits) => ValView::Float(bits),
        ParamVal::Str(s) => ValView::Str(s@),
    }
}

/// The views of a sequence of values, in order.
pub open spec fn vals_view(es: Seq<ParamVal>) -> Seq<ValView>
    decreases es,
{
    if es.len() == 0 {
        Seq::empty()
    } else {
        seq![val_view(es[0])] + vals_view(es.drop_first())
    }
}

/// `vals_view` maps `val_view` over the sequence, index by index.
pub proof fn lemma_vals_view(es: Seq<ParamVal>)
    ensures
        vals_view(es).len() == es.len(),
        forall|i: int| 0 <= i < es.len() ==> vals_view(es)[i] == val_view(es[i]),
    decreases es.len(),
{
    if es.len() > 0 {
        lemma_vals_view(es.drop_first());
    }
}

impl View for ParamVal {
    type V = ValView;

    open spec fn view(&self) -> ValView {
        val_view(*self)
    }
}

/// An error received when a `ParamVal` cannot be converted into a given
/// type because it holds the wrong variant for that type.
#[derive(Debug, PartialEq, Eq, Structural, Clone, Copy)]
pub enum TryIntoParamValError {
    UnexpectedType,
}

/// The result of converting a sequence of values into 64-bit integers:
/// all elements must hold the `Int` variant, or the whole conversion
/// fails.
pub open spec fn spec_int_list(es: Seq<ValView>) -> Result<Seq<i64>, TryIntoParamValError>
    decreases es.len(),
{
    if es.len() == 0 {
        Ok(Seq::empty())
    } else {
        match es[0] {
            ValView::Int(n) => match spec_int_list(es.drop_first()) {
                Ok(rest) => Ok(seq![n] + rest),
                Err(e) => Err(e),
            },
            _ => Err(TryIntoParamValError::UnexpectedType),
        }
    }
}

/// Whether a value holds the `Int` variant.
pub open spec fn is_int_val(v: ValView) -> bool {
    v matches ValView::Int(..)
}

/// `spec_int_list` succeeds exactly on all-integer sequences, and then
/// returns the integers in order; otherwise it fails with
/// `UnexpectedType`.
pub proof fn lemma_spec_int_list(es: Seq<ValView>)
    ensures
        (forall|j: int| 0 <= j < es.len() ==> is_int_val(#[trigger] es[j])) ==> (spec_int_list(es)
            matches Ok(ns) && ns.len() == es.len() && forall|j: int|
            0 <= j < es.len() ==> ns[j] == #[trigger] es[j]->Int_0),
        (exists|j: int| 0 <= j < es.len() && !is_int_val(#[trigger] es[j])) ==> spec_int_list(es)
            == Err::<Seq<i64>, TryIntoParamValError>(TryIntoParamValError::UnexpectedType),
    decreases es.len(),
{
    if es.len() > 0 {
        lemma_spec_int_list(es.drop_first());
        assert(forall|j: int| 1 <= j < es.len() ==> es.drop_first()[j - 1] == #[trigger] es[j]);
    }
}

impl ParamVal {
    /// Converts into `bool`; fails on any other variant.
    pub fn try_into_bool(self) -> (r: Result<bool, TryIntoParamValError>)
        ensures
            r == (match self@ {
                ValView::Bool(b) => Ok::<bool, TryIntoParamValError>(b),
                _ => Err::<bool, TryIntoParamValError>(TryIntoParamValError::UnexpectedType),
            }),
    {
        if let ParamVal::Bool(b) = self {
            Ok(b)
        } else {
            Err(TryIntoParamValError::UnexpectedType)
        }
    }

    /// Converts into a 64-bit signed integer; fails on any other variant.
    pub fn try_into_int(self) -> (r: Result<i64, TryIntoParamValError>)
        ensures
            r == (match self@ {
                ValView::Int(n) => Ok::<i64, TryIntoParamValError>(n),
                _ => Err::<i64, TryIntoParamValError>(TryIntoParamValError::UnexpectedType),
            }),
    {
        if let ParamVal::Int(n) = self {
            Ok(n)
        } else {
            Err(TryIntoParamValError::UnexpectedType)
        }
    }

    /// Converts into a 32-bit signed integer, truncating the stored
    /// 64-bit value without a range check; fails on any other variant.
    pub fn try_into_i32(self) -> (r: Result<i32, TryIntoParamValError>)
        ensures
            r == (match self@ {
                ValView::Int(n) => Ok::<i32, TryIntoParamValError>(n as i32),
                _ => Err::<i32, TryIntoParamValError>(TryIntoParamValError::UnexpectedType),
            }),
    {
        if let ParamVal::Int(n) = self {
            Ok(#[verifier::truncate] (n as i32))
        } else {
            Err(TryIntoParamValError::UnexpectedType)
        }
    }

    /// Converts into a 64-bit unsigned integer, reinterpreting the stored
    /// signed value without a range check; fails on any other variant.
    pub fn try_into_u64(self) -> (r: Result<u64, TryIntoParamValError>)
        ensures
            r == (match self@ {
                ValView::Int(n) => Ok::<u64, TryIntoParamValError>(n as u64),
                _ => Err::<u64, TryIntoParamValError>(TryIntoParamValError::UnexpectedType),
            }),
    {
        if let ParamVal::Int(n) = self {
            Ok(#[verifier::truncate] (n as u64))
        } else {
            Err(TryIntoParamValError::UnexpectedType)
        }
    }

    /// Converts into the bit pattern of a 64-bit float; fails on any other
    /// variant.
    pub fn try_into_float_bits(self) -> (r: Result<u64, TryIntoParamValError>)
        ensures
            r == (match self@ {
                ValView::Float(bits) => Ok::<u64, TryIntoParamValError>(bits),
                _ => Err::<u64, TryIntoParamValError>(TryIntoParamValError::UnexpectedType),
            }),
    {
        if let ParamVal::Float(bits) = self {
            Ok(bits)
        } else {
            Err(TryIntoParamValError::UnexpectedType)
        }
    }

    /// Converts into a string; fails on any other variant.
    pub fn try_into_str(self) -> (r: Result<String, TryIntoParamValError>)
        ensures
            match self@ {
                ValView::Str(cs) => r matches Ok(s) && s@ == cs,
                _ => r == Err::<String, TryIntoParamValError>(TryIntoParamValError::UnexpectedType),
            },
    {
        if let ParamVal::Str(s) = self {
            Ok(s)
        } else {
            Err(TryIntoParamValError::UnexpectedType)
        }
    }

    /// Converts an array of integer values into a list of 64-bit signed
    /// integers; fails if the value is not an array or any element is not
    /// an integer.
    pub fn try_into_int_list(self) -> (r: Result<Vec<i64>, TryIntoParamValError>)
        ensures
            match self@ {
                ValView::Array(es) => (match spec_int_list(es) {
                    Ok(ns) => r matches Ok(v) && v@ == ns,
                    Err(e) => r == Err::<Vec<i64>, TryIntoParamValError>(e),
                }),
                _ => r == Err::<Vec<i64>, TryIntoParamValError>(TryIntoParamValError::UnexpectedType),
            },
    {
        if let ParamVal::Array(es) = self {
            let ghost esv: Seq<ValView> = vals_view(es@);
            proof {
                lemma_vals_view(es@);
            }
            let mut out: Vec<i64> = Vec::new();
            let mut i: usize = 0;
            while i < es.len()
                invariant
                    self@ == ValView::Array(esv),
                    i <= es@.len(),
                    esv == vals_view(es@),
                    esv.len() == es@.len(),
                    forall|j: int| 0 <= j < es@.len() ==> esv[j] == val_view(es@[j]),
                    out@.len() == i,
                    forall|j: int|
                        0 <= j < i ==> is_int_val(#[trigger] esv[j]) && out@[j] == esv[j]->Int_0,
                decreases es@.len() - i,
            {
                match &es[i] {
                    ParamVal::Int(n) => {
                        out.push(*n);
                    },
                    _ => {
                        proof {
                            assert(!is_int_val(esv[i as int]));
                            lemma_spec_int_list(esv);
                        }
                        return Err(TryIntoParamValError::UnexpectedType);
                    },
                }
                i = i + 1;
            }
            proof {
                assert(forall|j: int| 0 <= j < esv.len() ==> is_int_val(#[trigger] esv[j]));
                lemma_spec_int_list(esv);
                match spec_int_list(esv) {
                    Ok(ns) => {
                        assert forall|k: int| 0 <= k < out@.len() implies out@[k] == ns[k] by {
                            assert(is_int_val(esv[k]));
                        }
                        assert(out@ =~= ns);
                    },
                    Err(_) => {
                        assert(false);
                    },
                }
            }
            Ok(out)
        } else {
            Err(TryIntoParamValError::UnexpectedType)
        }
    }

    /// A deep copy with the same view.
    pub fn duplicate(&self) -> (r: ParamVal)
        ensures
            r@ == self@,
        decreases self,
    {
        match self {
            ParamVal::Array(es) => ParamVal::Array(duplicate_vals(es)),
            ParamVal::Bool(b) => ParamVal::Bool(*b),
            ParamVal::Int(n) => ParamVal::Int(*n),
            ParamVal::Float(bits) => ParamVal::Float(*bits),
            ParamVal::Str(s) => ParamVal::Str(s.clone()),
        }
    }
}

impl From<bool> for ParamVal {
    /// Wraps a `bool` in its value variant.
    fn from(src: bool) -> (r: ParamVal) {
        ParamVal::Bool(src)
    }
}

impl vstd::std_specs::convert::FromSpecImpl<bool> for ParamVal {
    open spec fn obeys_from_spec() -> bool {
        true
    }

    open spec fn from_spec(src: bool) -> ParamVal {
        ParamVal::Bool(src)
    }
}

impl From<i64> for ParamVal {
    /// Wraps a 64-bit signed integer in its value variant.
    fn from(src: i64) -> (r: ParamVal) {
        ParamVal::Int(src)
    }
}

impl vstd::std_specs::convert::FromSpecImpl<i64> for ParamVal {
    open spec fn obeys_from_spec() -> bool {
        true
    }

    open spec fn from_spec(src: i64) -> ParamVal {
        ParamVal::Int(src)
    }
}

impl From<String> for ParamVal {
    /// Wraps a string in its value variant.
    fn from(src: String) -> (r: ParamVal) {
        ParamVal::Str(src)
    }
}

impl vstd::std_specs::convert::FromSpecImpl<String> for ParamVal {
    open spec fn obeys_from_spec() -> bool {
        true
    }

    open spec fn from_spec(src: String) -> ParamVal {
        ParamVal::Str(src)
    }
}

/// A deep copy of a list of values, with the same views.
fn duplicate_vals(es: &Vec<ParamVal>) -> (r: Vec<ParamVal>)
    ensures
        vals_view(r@) == vals_view(es@),
    decreases es,
{
    let mut out: Vec<ParamVal> = Vec::new();
    let mut i: usize = 0;
    while i < es.len()
        invariant
            i <= es@.len(),
            out@.len() == i,
            forall|j: int| 0 <= j < i ==> #[trigger] val_view(out@[j]) == val_view(es@[j]),
        decreases es@.len() - i,
    {
        let c = es[i].duplicate();
        out.push(c);
        i = i + 1;
    }
    proof {
        lemma_vals_view(out@);
        lemma_vals_view(es@);
        assert(vals_view(out@) =~= vals_view(es@));
    }
    out
}

} // verus!
