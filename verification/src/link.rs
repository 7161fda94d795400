//! The public address of a short identifier.

use vstd::prelude::*;
use vstd::string::StringExecFns;

verus! {

/// The address under which `id` is served: the base address, then the
/// identifier. Neither part is validated or escaped.
pub fn short_url(base: &str, id: &str) -> (url: String)
    ensures
        url@ == base@ + id@,
{
    String::from_str(base).concat(id)
}

} // verus!
