use vstd::prelude::*;
use vstd::bytes::{spec_u64_from_le_bytes, spec_u64_to_le_bytes};

verus! {

/// Decodes one `u64` with `borsh::from_slice`.
///
/// Trusted: borsh reads a `u64` as eight bytes, least significant first, and
/// refuses a slice that is shorter or that has bytes left over. So the call
/// succeeds on slices of exactly eight bytes, and only on those.
#[verifier::external_body]
pub(crate) fn u64_from_borsh(bytes: &[u8]) -> (value: Option<u64>)
    ensures
        value == (if bytes@.len() == 8 {
            Some(spec_u64_from_le_bytes(bytes@))
        } else {
            None::<u64>
        }),
{
    borsh::from_slice::<u64>(bytes).ok()
}

/// Encodes one `u64` with `borsh::to_vec`.
///
/// Trusted: borsh writes a `u64` as eight bytes, least significant first. The
/// bytes go to a fresh vector, which takes every write, so the call does not
/// fail.
#[verifier::external_body]
pub(crate) fn u64_to_borsh(value: u64) -> (bytes: Vec<u8>)
    ensures
        bytes@ == spec_u64_to_le_bytes(value),
{
    borsh::to_vec(&value).unwrap_or_default()
}

} // verus!
