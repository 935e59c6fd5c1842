use vstd::prelude::*;

verus! {

/// Describes one named field of a target record: the field's name and the
/// text of its declared type.
#[derive(Debug, Eq, PartialEq)]
pub struct FieldSpec {
    ident: String,
    ty: String,
}

/// The mathematical identity of a `FieldSpec`.
pub struct FieldSpecView {
    pub ident: Seq<char>,
    pub ty: Seq<char>,
}

impl View for FieldSpec {
    type V = FieldSpecView;

    closed spec fn view(&self) -> FieldSpecView {
        FieldSpecView { ident: self.ident@, ty: self.ty@ }
    }
}

/// An error from reading a declaration's field into a `FieldSpec`.
#[derive(Debug, PartialEq, Eq, Structural, Clone, Copy)]
pub enum ParseError {
    NoIdent,
}

impl FieldSpec {
    /// A descriptor for a field with the given name and type text.
    pub fn new(ident: String, ty: String) -> (r: FieldSpec)
        ensures
            r@.ident == ident@,
            r@.ty == ty@,
    {
        FieldSpec { ident, ty }
    }

    /// The field's name.
    pub fn ident(&self) -> (r: &String)
        ensures
            r@ == self@.ident,
    {
        &self.ident
    }

    /// The text of the field's type.
    pub fn ty(&self) -> (r: &String)
        ensures
            r@ == self@.ty,
    {
        &self.ty
    }

    /// Reads a field's name and type text into a descriptor; a field
    /// without a name cannot be described.
    pub fn from_parts(ident: Option<String>, ty: String) -> (r: Result<FieldSpec, ParseError>)
        ensures
            match (r, ident) {
                (Ok(f), Some(id)) => f@.ident == id@ && f@.ty == ty@,
                (Err(e), None) => e == ParseError::NoIdent,
                _ => false,
            },
    {
        match ident {
            Some(id) => Ok(FieldSpec { ident: id, ty }),
            None => Err(ParseError::NoIdent),
        }
    }
}

} // verus!
