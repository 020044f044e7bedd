//! The broadcast-channel component's declaration lookup. The channel
//! transport itself is asynchronous I/O and lives with the embedder.

use vstd::prelude::*;

verus! {

/// The declaration file shipped beside this component.
pub fn get_declaration() -> (r: String)
    ensures
        r@ == "lib.deno_broadcast_channel.d.ts"@,
{
    String::from_str("lib.deno_broadcast_channel.d.ts")
}

} // verus!
