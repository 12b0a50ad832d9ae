use vstd::prelude::*;

verus! {

/// Issues the identifier that follows the last one issued from `counter`.
///
/// Identifiers start at 1, so that 0 can stand for "no entity".
/// Running past the 32-bit range is not allowed.
pub fn generate_id(counter: &mut u32) -> (id: u32)
    requires
        *old(counter) < u32::MAX,
    ensures
        id == *old(counter) + 1,
        *final(counter) == id,
        id != 0,
{
    let next_id = *counter + 1;
    *counter = next_id;
    next_id
}

} // verus!
