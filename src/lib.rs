use vstd::prelude::*;

pub mod board;
pub mod key;
pub mod laws;
pub mod policy;
pub mod service;

verus! {

/// A greeting for liveness probes.
pub fn hello() -> (r: String)
    ensures
        r@ == "hello moeif!"@,
{
    String::from_str("hello moeif!")
}

} // verus!
