//! The alternatives of an attribute value.

use vstd::prelude::*;

use crate::proto::{ArrayValue, Double, MapValue};

verus! {

/// What an attribute value can be.
#[derive(Debug)]
pub enum Kind {
    StringValue(String),
    IntValue(i64),
    DoubleValue(Double),
    BoolValue(bool),
    BytesValue(Vec<u8>),
    ArrayValue(ArrayValue),
    MapValue(MapValue),
}

} // verus!
