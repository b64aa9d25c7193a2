//! Choosing the MIDI input port by the name of the device.

use vstd::prelude::*;

verus! {

/// The part of a port's name by which the input device is known.
pub const DEVICE: &'static str = "Boutique";

/// Whether `part` occurs in `text` as a run of consecutive characters.
pub open spec fn has_substring(text: Seq<char>, part: Seq<char>) -> bool {
    exists|at: int|
        0 <= at && at + part.len() <= text.len() && #[trigger] text.subrange(at, at + part.len())
            == part
}

/// Whether a port answers to `device`: it has a name, and the name holds
/// `device`.
pub open spec fn names_device(name: Option<String>, device: Seq<char>) -> bool {
    match name {
        Some(name) => has_substring(name@, device),
        None => false,
    }
}

/// Calls `str::contains` with a string as the pattern.
///
/// Trusted: the answer is whether the pattern occurs in the text as a
/// substring.
#[verifier::external_body]
fn contains_text(text: &str, part: &str) -> (found: bool)
    ensures
        found == has_substring(text@, part@),
{
    text.contains(part)
}

/// The first port whose name holds `device`. A port whose name could not be
/// read is passed over.
pub fn find_port(names: &Vec<Option<String>>, device: &str) -> (port: Option<usize>)
    ensures
        match port {
            Some(index) => {
                &&& index < names@.len()
                &&& names_device(names@[index as int], device@)
                &&& forall|earlier: int|
                    0 <= earlier < index ==> !names_device(#[trigger] names@[earlier], device@)
            },
            None => forall|index: int|
                0 <= index < names@.len() ==> !names_device(#[trigger] names@[index], device@),
        },
{
    let mut index: usize = 0;
    while index < names.len()
        invariant
            index <= names@.len(),
            forall|earlier: int|
                0 <= earlier < index ==> !names_device(#[trigger] names@[earlier], device@),
        decreases names@.len() - index,
    {
        match &names[index] {
            Some(name) => {
                if contains_text(name.as_str(), device) {
                    return Some(index);
                }
            },
            None => {},
        }
        index = index + 1;
    }
    None
}

} // verus!
