//! Selection-set resolution for a GraphQL-style query engine: response
//! values, argument coercion, directive evaluation, the resolution engine and
//! its container adapters.
use vstd::prelude::*;

pub mod arguments;
pub mod containers;
pub mod convert;
pub mod directives;
pub mod input;
pub mod resolve;
pub mod schema;
pub mod value;

verus! {

/// The meta type of a GraphQL type.
#[derive(Clone, Copy, Debug, PartialEq, Eq, Structural)]
pub enum TypeKind {
    /// Leaf values such as strings, numbers and booleans.
    Scalar,
    /// Objects have fields and can implement interfaces.
    Object,
    /// Overlapping fields of several object types.
    Interface,
    /// A choice between object types, without fields of its own.
    Union,
    /// Leaf values from a fixed set of names.
    Enum,
    /// Structured values handed into the system.
    InputObject,
    /// Lists of another type.
    List,
    /// A type that does not admit null.
    NonNull,
}

} // verus!
