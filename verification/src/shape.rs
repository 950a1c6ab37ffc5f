//! The front end of structural derivation: which type shapes may derive
//! the codec contract. Only records - fixed, ordered sets of named fields -
//! are accepted; sum types, unions, tuple-style fields and unit shapes are
//! rejected with a descriptive message at generation time, never at
//! runtime.

use vstd::prelude::*;

verus! {

/// The shape of a type presented for derivation, as far as derivation
/// cares: a struct with named fields (their names in declared order), a
/// struct with a number of unnamed tuple-style fields, a unit struct, a
/// sum type, or a union.
pub enum TypeShape {
    Named(Vec<String>),
    Tuple(usize),
    Unit,
    Sum,
    Union,
}

/// The declared-order field list that structural derivation processes, or
/// the descriptive error reported at generation time for a shape that
/// cannot derive the codec contract.
pub fn record_fields(shape: TypeShape) -> (r: Result<Vec<String>, &'static str>)
    ensures
        shape matches TypeShape::Named(fields) ==> r == Ok::<Vec<String>, &'static str>(fields),
        !(shape is Named) ==> r is Err,
        shape is Tuple ==> r == Err::<Vec<String>, &'static str>(
            "tuple-style fields cannot derive the codec contract",
        ),
        shape is Unit ==> r == Err::<Vec<String>, &'static str>(
            "unit types cannot derive the codec contract",
        ),
        shape is Sum || shape is Union ==> r == Err::<Vec<String>, &'static str>(
            "incompatible data type",
        ),
{
    match shape {
        TypeShape::Named(fields) => Ok(fields),
        TypeShape::Tuple(_) => Err("tuple-style fields cannot derive the codec contract"),
        TypeShape::Unit => Err("unit types cannot derive the codec contract"),
        TypeShape::Sum => Err("incompatible data type"),
        TypeShape::Union => Err("incompatible data type"),
    }
}

} // verus!
