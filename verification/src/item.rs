//! The item a macro is applied to: which macro it is, and what its own `derive` attributes ask
//! for.

use vstd::prelude::*;

use crate::descriptor::string_eq;

verus! {

/// Which attribute macro an item carries.
#[derive(Clone, Copy, Debug, PartialEq, Eq, Structural)]
pub enum Kind {
    Message,
    Enumeration,
}

impl Kind {
    /// The macro's own name.
    pub fn derive(self) -> (name: &'static str)
        ensures
            name@ == match self {
                Kind::Message => "message"@,
                Kind::Enumeration => "enumeration"@,
            },
    {
        match self {
            Kind::Message => "message",
            Kind::Enumeration => "enumeration",
        }
    }
}

/// Whether the paths the item's `derive` attributes list, as written, include `Default`.
pub fn derives_default(derives: &Vec<String>) -> (b: bool)
    ensures
        b == exists|i: int| 0 <= i < derives@.len() && (#[trigger] derives@[i])@ == "Default"@,
{
    let mut i: usize = 0;
    while i < derives.len()
        invariant
            i <= derives@.len(),
            forall|j: int| 0 <= j < i ==> (#[trigger] derives@[j])@ != "Default"@,
        decreases derives.len() - i,
    {
        if string_eq(&derives[i], "Default") {
            return true;
        }
        i = i + 1;
    }
    false
}

} // verus!
