//! The record that is sent as a protocol buffer message, as plain values.

use vstd::prelude::*;
use vstd::string::*;

verus! {

/// The size of an item.
#[derive(Clone, Copy, Debug, PartialEq, Eq, Structural)]
pub enum Size {
    Small,
    Medium,
    Large,
}

/// The number that stands for `s` on the wire.
pub open spec fn size_number(s: Size) -> i32 {
    match s {
        Size::Small => 0,
        Size::Medium => 1,
        Size::Large => 2,
    }
}

impl Size {
    /// The number that stands for this size on the wire.
    pub fn number(self) -> (r: i32)
        ensures
            r == size_number(self),
    {
        match self {
            Size::Small => 0,
            Size::Medium => 1,
            Size::Large => 2,
        }
    }
}

/// A record with a color, a size given by its wire number, and a list of
/// strings.
pub struct Data {
    pub color: String,
    pub size: i32,
    pub repeated_data: Vec<String>,
}

/// The record that is encoded and decoded: blue, large, with the strings
/// "Hello" and "World".
pub fn create_data() -> (d: Data)
    ensures
        d.color@ == "blue"@,
        d.size == size_number(Size::Large),
        d.repeated_data@.len() == 2,
        d.repeated_data@[0]@ == "Hello"@,
        d.repeated_data@[1]@ == "World"@,
{
    let mut repeated_data: Vec<String> = Vec::new();
    repeated_data.push(String::from_str("Hello"));
    repeated_data.push(String::from_str("World"));
    Data { color: String::from_str("blue"), size: Size::Large.number(), repeated_data }
}

} // verus!
