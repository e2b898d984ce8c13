use vstd::prelude::*;

verus! {

/// The recursive type algebra used by parameters, fields and return types.
pub enum Type {
    Bool,
    U8,
    U16,
    U32,
    U64,
    U128,
    U256,
    Address,
    Signer,
    /// The wildcard type.
    Any,
    Vector(Box<Type>),
    /// A reference; the flag says whether it is mutable.
    Reference(bool, Box<Type>),
    Tuple(Vec<Type>),
    /// A function type: argument types and the result type.
    Fun(Vec<Type>, Box<Type>),
    /// A positional type parameter.
    TypeParameter(u16),
    NamedTypeParameter(String),
    Datatype(Datatype),
}

/// A named datatype applied to type arguments.
pub struct Datatype {
    pub name: String,
    pub type_arguments: Vec<DatatypeArg>,
}

pub struct DatatypeArg {
    pub phantom: bool,
    pub argument: Type,
}

/// Who may call a function.
#[derive(PartialEq, Eq, Structural, Clone, Copy, Debug)]
pub enum Visibility {
    Public,
    Private,
    Friend,
}

/// An ability that a type parameter may be constrained by.
#[derive(PartialEq, Eq, Structural, Clone, Copy, Debug)]
pub enum Ability {
    Copy,
    Drop,
    Store,
    Key,
}

/// A type parameter of a function: its display name, when known, and its constraints.
pub struct TParam {
    pub name: Option<String>,
    pub constraints: Vec<Ability>,
}

/// A type parameter of a struct or an enum.
pub struct DatatypeTParam {
    pub phantom: bool,
    pub tparam: TParam,
}

/// A named function parameter.
pub struct Parameter {
    pub name: String,
    pub type_: Type,
}

pub struct Function {
    pub visibility: Visibility,
    pub type_parameters: Vec<TParam>,
    pub parameters: Vec<Parameter>,
    pub return_: Vec<Type>,
}

/// A field of a struct or of an enum variant; positional fields carry their position as name.
pub struct Field {
    pub name: String,
    pub type_: Type,
}

/// Fields in declaration order; `positional_fields` tells unnamed fields from named ones.
pub struct Fields {
    pub positional_fields: bool,
    pub fields: Vec<Field>,
}

pub struct Struct {
    pub type_parameters: Vec<DatatypeTParam>,
    pub fields: Fields,
}

pub struct Variant {
    pub name: String,
    pub fields: Fields,
}

pub struct Enum {
    pub type_parameters: Vec<DatatypeTParam>,
    pub variants: Vec<Variant>,
}

} // verus!
