use vstd::prelude::*;

verus! {

/// Identifies one entry of a parameter map: either by name or by
/// zero-based position in the original item list.
#[derive(Debug, Clone, PartialEq, Eq, Hash)]
pub enum ParamKey {
    Named(String),
    Unnamed(usize),
}

/// The mathematical identity of a `ParamKey`: the name as a character
/// sequence, or the position as an unbounded integer.
pub enum KeyView {
    Named(Seq<char>),
    Unnamed(int),
}

impl View for ParamKey {
    type V = KeyView;

    open spec fn view(&self) -> KeyView {
        match self {
            ParamKey::Named(s) => KeyView::Named(s@),
            ParamKey::Unnamed(p) => KeyView::Unnamed(*p as int),
        }
    }
}

impl ParamKey {
    /// Key equality, decided by variant and payload; two keys are equal
    /// exactly when they identify the same map entry.
    pub fn key_eq(&self, other: &ParamKey) -> (r: bool)
        ensures
            r == (self@ == other@),
    {
        match (self, other) {
            (ParamKey::Named(a), ParamKey::Named(b)) => a.eq(b),
            (ParamKey::Unnamed(a), ParamKey::Unnamed(b)) => a == b,
            _ => false,
        }
    }

    /// A deep copy with the same view.
    pub fn duplicate(&self) -> (r: ParamKey)
        ensures
            r@ == self@,
    {
        match self {
            ParamKey::Named(s) => ParamKey::Named(s.clone()),
            ParamKey::Unnamed(p) => ParamKey::Unnamed(*p),
        }
    }
}

impl From<String> for ParamKey {
    /// A name used as a key.
    fn from(src: String) -> (r: ParamKey) {
        ParamKey::Named(src)
    }
}

impl vstd::std_specs::convert::FromSpecImpl<String> for ParamKey {
    open spec fn obeys_from_spec() -> bool {
        true
    }

    open spec fn from_spec(src: String) -> ParamKey {
        ParamKey::Named(src)
    }
}

impl From<usize> for ParamKey {
    /// A zero-based position used as a key.
    fn from(src: usize) -> (r: ParamKey) {
        ParamKey::Unnamed(src)
    }
}

impl vstd::std_specs::convert::FromSpecImpl<usize> for ParamKey {
    open spec fn obeys_from_spec() -> bool {
        true
    }

    open spec fn from_spec(src: usize) -> ParamKey {
        ParamKey::Unnamed(src)
    }
}

} // verus!
