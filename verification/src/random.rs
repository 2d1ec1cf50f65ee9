use vstd::prelude::*;

use rand::distr::SampleString;

verus! {

/// Whether `c` is an ASCII alphanumeric character.
pub open spec fn spec_is_alnum(c: char) -> bool {
    ||| 48 <= c as u32 <= 57
    ||| 65 <= c as u32 <= 90
    ||| 97 <= c as u32 <= 122
}

/// Relies on rand's Alphanumeric distribution: exactly `length` characters,
/// each drawn from the ASCII letters and digits. Which ones is up to the
/// thread RNG, so nothing more is assumed of the result.
#[verifier::external_body]
pub fn generate_random_characters(length: usize) -> (r: String)
    ensures
        r@.len() == length,
        forall|i: int| 0 <= i < r@.len() ==> spec_is_alnum(r@[i]),
{
    rand::distr::Alphanumeric.sample_string(&mut rand::rng(), length)
}

} // verus!
