use vstd::prelude::*;

use rand::RngExt;

use crate::text::{append, decimal, push_decimal};

verus! {

/// Each part of a socket id is below this bound.
pub const SOCKET_ID_PART_BOUND: u64 = 10_000_000_000;

/// `rand::rng().random_range(0..bound)`: a number drawn from the thread's generator, below
/// `bound`. Which number comes is chance; `rand::rng` panics if the system's random source
/// fails on first use in the thread.
#[verifier::external_body]
fn random_below(bound: u64) -> (r: u64)
    requires
        bound > 0,
    ensures
        r < bound,
{
    rand::rng().random_range(0..bound)
}

/// The text of a socket id: `a.b`.
pub open spec fn socket_id_text(a: nat, b: nat) -> Seq<char> {
    decimal(a) + "."@ + decimal(b)
}

/// A socket id from its two parts.
pub fn format_socket_id(a: u64, b: u64) -> (r: String)
    ensures
        r@ == socket_id_text(a as nat, b as nat),
{
    let mut s = String::new();
    push_decimal(&mut s, a);
    append(&mut s, ".");
    push_decimal(&mut s, b);
    assert(s@ =~= socket_id_text(a as nat, b as nat));
    s
}

/// A new Pusher socket id: two random numbers below ten billion, joined by a dot.
pub fn generate() -> (r: String)
    ensures
        exists|a: nat, b: nat| a < SOCKET_ID_PART_BOUND && b < SOCKET_ID_PART_BOUND && r@ == #[trigger] socket_id_text(a, b),
{
    let a = random_below(SOCKET_ID_PART_BOUND);
    let b = random_below(SOCKET_ID_PART_BOUND);
    let r = format_socket_id(a, b);
    assert(socket_id_text(a as nat, b as nat) == r@);
    r
}

} // verus!
