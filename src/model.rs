use vstd::prelude::*;

verus! {

/// What a variant of a sum type carries. `R` is how another type is referred to.
pub enum Payload<R> {
    Unit,
    Tuple(Vec<R>),
    Struct(Vec<(String, R)>),
}

/// The shape of one type. `R` is how the types it mentions are referred to:
/// by name in a [`Declaration`], by position in a type catalog.
pub enum Shape<R> {
    /// A built-in scalar; the name of its entry is its name.
    Primitive,
    Struct(Vec<(String, R)>),
    Enum(Vec<(String, Payload<R>)>),
    Sequence(R),
    SetOf(R),
    MapOf(R, R),
    Option(R),
    Tuple(Vec<R>),
}

/// A declaration: a shape whose type references are names.
pub type Declaration = Shape<String>;

/// Declarations in discovery order, with the name of the root type.
pub struct SchemaContainer {
    pub root: String,
    pub entries: Vec<(String, Declaration)>,
}

/// One type of a catalog: its name, and its shape with references given as
/// positions in the catalog.
pub struct TypeDescriptor {
    pub name: String,
    pub shape: Shape<usize>,
}

#[derive(Debug, PartialEq, Eq)]
pub enum SchemaError {
    /// Two structurally different types claim this name.
    NameCollision(String),
    /// A shape that the encoding has no rule for: a string or a list too long
    /// for its 32-bit length prefix.
    UnsupportedShape,
    /// A type reference that resolves to no type.
    IncompleteClosure,
}

} // verus!
