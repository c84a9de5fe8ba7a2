//! Built-in attribute loaders: each takes a decoded attribute and yields the
//! output its caller asked for, or says which type it expected.
use vstd::prelude::*;
use crate::attribute::{AttrV, AttributeType, AttributeValue};
use crate::error::DataError;

verus! {

/// Yields the type of an attribute and discards its value.
#[derive(Debug, Clone, Copy, PartialEq, Eq, Structural)]
pub struct TypeLoader;

impl TypeLoader {
    pub fn load(&self, v: &AttributeValue) -> (r: AttributeType)
        ensures
            r == v@.attr_type(),
    {
        v.attr_type()
    }
}

/// Yields the attribute value itself.
#[derive(Debug, Clone, Copy, PartialEq, Eq, Structural)]
pub struct DirectLoader;

impl DirectLoader {
    pub fn load(&self, v: AttributeValue) -> (r: AttributeValue)
        ensures
            r@ == v@,
    {
        v
    }
}

/// Accepts single values of one type.
#[derive(Debug, Clone, Copy, PartialEq, Eq, Structural)]
pub struct PrimitiveLoader {
    /// The accepted type.
    pub expected: AttributeType,
}

impl PrimitiveLoader {
    /// A loader of single values of type `expected`.
    pub fn new(expected: AttributeType) -> (r: Self)
        requires
            expected.is_single(),
        ensures
            r.expected == expected,
    {
        PrimitiveLoader { expected }
    }

    pub fn load(&self, v: AttributeValue) -> (r: Result<AttributeValue, DataError>)
        ensures
            v@.attr_type() == self.expected ==> (r matches Ok(x) && x@ == v@),
            v@.attr_type() != self.expected ==> r == Err::<AttributeValue, DataError>(
                DataError::UnexpectedAttribute(self.expected, v@.attr_type()),
            ),
    {
        let t = v.attr_type();
        if t == self.expected {
            Ok(v)
        } else {
            Err(DataError::UnexpectedAttribute(self.expected, t))
        }
    }
}

/// Accepts arrays of one element type.
#[derive(Debug, Clone, Copy, PartialEq, Eq, Structural)]
pub struct ArrayLoader {
    /// The accepted type.
    pub expected: AttributeType,
}

impl ArrayLoader {
    /// A loader of arrays of type `expected`.
    pub fn new(expected: AttributeType) -> (r: Self)
        requires
            expected.is_array(),
        ensures
            r.expected == expected,
    {
        ArrayLoader { expected }
    }

    pub fn load(&self, v: AttributeValue) -> (r: Result<AttributeValue, DataError>)
        ensures
            v@.attr_type() == self.expected ==> (r matches Ok(x) && x@ == v@),
            v@.attr_type() != self.expected ==> r == Err::<AttributeValue, DataError>(
                DataError::UnexpectedAttribute(self.expected, v@.attr_type()),
            ),
    {
        let t = v.attr_type();
        if t == self.expected {
            Ok(v)
        } else {
            Err(DataError::UnexpectedAttribute(self.expected, t))
        }
    }
}

/// Accepts binary attributes and yields their bytes.
#[derive(Debug, Clone, Copy, PartialEq, Eq, Structural)]
pub struct BinaryLoader;

impl BinaryLoader {
    pub fn load(&self, v: AttributeValue) -> (r: Result<Vec<u8>, DataError>)
        ensures
            match v@ {
                AttrV::Binary(p) => r matches Ok(b) && b@ == p,
                _ => r == Err::<Vec<u8>, DataError>(
                    DataError::UnexpectedAttribute(AttributeType::Binary, v@.attr_type()),
                ),
            },
    {
        let t = v.attr_type();
        match v {
            AttributeValue::Binary(b) => Ok(b),
            _ => Err(DataError::UnexpectedAttribute(AttributeType::Binary, t)),
        }
    }
}

/// Accepts string attributes and yields their text.
#[derive(Debug, Clone, Copy, PartialEq, Eq, Structural)]
pub struct StringLoader;

impl StringLoader {
    pub fn load(&self, v: AttributeValue) -> (r: Result<String, DataError>)
        ensures
            match v@ {
                AttrV::String(c) => r matches Ok(s) && s@ == c,
                _ => r == Err::<String, DataError>(
                    DataError::UnexpectedAttribute(AttributeType::String, v@.attr_type()),
                ),
            },
    {
        let t = v.attr_type();
        match v {
            AttributeValue::String(s) => Ok(s),
            _ => Err(DataError::UnexpectedAttribute(AttributeType::String, t)),
        }
    }
}

} // verus!
