//! Identifiers for recovered repositories: a clock reading hashed to 64 bits
//! and written as `repo-` followed by lower-case hexadecimal digits.

use vstd::prelude::*;
use std::collections::hash_map::DefaultHasher;
use std::hash::Hasher;
use vstd::std_specs::hash::DefaultHasherAdditionalSpecFns;

verus! {

/// The lower-case hexadecimal digit of value `d`.
pub open spec fn hex_digit(d: nat) -> char {
    seq!['0', '1', '2', '3', '4', '5', '6', '7', '8', '9', 'a', 'b', 'c', 'd', 'e', 'f'][d as int]
}

/// `v` in lower-case hexadecimal, without leading zeros.
pub open spec fn hex_of(v: nat) -> Seq<char>
    decreases v,
{
    if v < 16 {
        seq![hex_digit(v)]
    } else {
        hex_of(v / 16) + seq![hex_digit(v % 16)]
    }
}

/// The sixteen bytes of `n`, least significant first.
pub open spec fn le_bytes(n: u128) -> Seq<u8> {
    Seq::new(16, |i: int| (n >> (8 * i) as u128) as u8)
}

/// The identifier that a clock reading of `nanos` nanoseconds yields.
pub open spec fn repo_name_of(nanos: u128) -> Seq<char> {
    "repo-"@ + hex_of(DefaultHasher::spec_finish(seq![le_bytes(nanos)]) as nat)
}

fn hex_digit_str(d: u64) -> (r: &'static str)
    requires
        d < 16,
    ensures
        r@ == seq![hex_digit(d as nat)],
{
    proof {
        reveal_strlit("0"); reveal_strlit("1"); reveal_strlit("2"); reveal_strlit("3");
        reveal_strlit("4"); reveal_strlit("5"); reveal_strlit("6"); reveal_strlit("7");
        reveal_strlit("8"); reveal_strlit("9"); reveal_strlit("a"); reveal_strlit("b");
        reveal_strlit("c"); reveal_strlit("d"); reveal_strlit("e"); reveal_strlit("f");
    }
    let r = if d == 0 { "0" } else if d == 1 { "1" } else if d == 2 { "2" } else if d == 3 { "3" }
        else if d == 4 { "4" } else if d == 5 { "5" } else if d == 6 { "6" } else if d == 7 { "7" }
        else if d == 8 { "8" } else if d == 9 { "9" } else if d == 10 { "a" } else if d == 11 { "b" }
        else if d == 12 { "c" } else if d == 13 { "d" } else if d == 14 { "e" } else { "f" };
    assert(r@ =~= seq![hex_digit(d as nat)]);
    r
}

fn push_hex(v: u64, out: &mut String)
    ensures
        final(out)@ == old(out)@ + hex_of(v as nat),
    decreases v,
{
    if v >= 16 {
        push_hex(v / 16, out);
    }
    out.append(hex_digit_str(v % 16));
    assert(final(out)@ =~= old(out)@ + hex_of(v as nat));
}

/// The identifier for a clock reading of `nanos` nanoseconds: the reading is
/// hashed with the standard library's default hasher and the 64-bit digest is
/// written in hexadecimal after `repo-`.
pub fn repo_name_for(nanos: u128) -> (r: String)
    ensures
        r@ == repo_name_of(nanos),
{
    let mut bytes: Vec<u8> = Vec::new();
    let mut i: u128 = 0;
    while i < 16
        invariant
            0 <= i <= 16,
            bytes@.len() == i,
            forall|k: int| 0 <= k < i ==> bytes@[k] == (nanos >> (8 * k) as u128) as u8,
        decreases 16 - i,
    {
        bytes.push((nanos >> (8 * i)) as u8);
        i = i + 1;
    }
    assert(bytes@ =~= le_bytes(nanos));
    let mut hasher = DefaultHasher::new();
    hasher.write(bytes.as_slice());
    assert(hasher@ =~= seq![le_bytes(nanos)]);
    let digest = hasher.finish();
    let mut name = "repo-".to_owned();
    push_hex(digest, &mut name);
    name
}

/// Relies on `SystemTime::elapsed` on `UNIX_EPOCH`: the time from the epoch to
/// now, in nanoseconds, or the error's text when the clock reads earlier than
/// the epoch. Nothing is known of the value.
#[verifier::external_body]
fn clock_nanos() -> (r: Result<u128, String>) {
    match std::time::UNIX_EPOCH.elapsed() {
        Ok(d) => Ok(d.as_nanos()),
        Err(e) => Err(format!("{:?}", e)),
    }
}

/// Reads the clock and turns the reading into an identifier. Two calls may
/// give the same identifier (a coarse clock); the recovery step treats that
/// as a collision.
pub fn generate_random_repo_name() -> (r: Result<String, String>)
    ensures
        r is Ok ==> exists|nanos: u128| r->Ok_0@ == repo_name_of(nanos),
{
    match clock_nanos() {
        Ok(nanos) => Ok(repo_name_for(nanos)),
        Err(e) => Err(e),
    }
}

} // verus!
