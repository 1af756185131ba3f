//! Random identifiers for profiles, keys and forwards.

use vstd::prelude::*;

use crate::text::{hex, push_hex};

verus! {

/// Whether `s` is an identifier as this program makes them: sixteen lower-case hexadecimal digits.
pub open spec fn is_id(s: Seq<char>) -> bool {
    exists|n: u64| s == #[trigger] hex(n as nat, 16)
}

/// `rand::random` draws a number from the thread's generator. Nothing is claimed of which one.
#[verifier::external_body]
fn random_u64() -> (n: u64) {
    rand::random::<u64>()
}

/// The identifier that stands for `n`.
pub fn id_of(n: u64) -> (r: String)
    ensures
        r@ == hex(n as nat, 16),
        is_id(r@),
{
    let mut out = String::new();
    push_hex(&mut out, n, 16);
    assert(out@ == hex(n as nat, 16));
    out
}

/// A random identifier.
pub fn random_id() -> (r: String)
    ensures
        is_id(r@),
{
    id_of(random_u64())
}

/// An identifier has sixteen characters.
pub proof fn law_id_length(s: Seq<char>)
    requires
        is_id(s),
    ensures
        s.len() == 16,
{
    let n = choose|n: u64| s == #[trigger] hex(n as nat, 16);
    lemma_hex_length(n as nat, 16);
}

proof fn lemma_hex_length(n: nat, width: nat)
    ensures
        hex(n, width).len() == width,
    decreases width,
{
    if width > 0 {
        lemma_hex_length(n / 16, (width - 1) as nat);
    }
}

} // verus!
