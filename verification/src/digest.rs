//! SHA-256 digests written as lowercase hexadecimal.
use vstd::prelude::*;

use sha2::Digest;

verus! {

/// The SHA-256 digest of `data`.
pub uninterp spec fn sha256(data: Seq<u8>) -> Seq<u8>;

/// A running SHA-256 computation over the bytes given to it so far. It
/// holds a `sha2::Sha256`, whose declaration Verus refuses (the name is an
/// alias of a generic wrapper type).
#[verifier::external_body]
pub struct Sha256State {
    hasher: sha2::Sha256,
}

/// The bytes given to a running SHA-256 computation so far.
pub uninterp spec fn hashed_bytes(state: Sha256State) -> Seq<u8>;

/// `sha2::Sha256::new`: a computation that has been given no bytes.
#[verifier::external_body]
pub(crate) fn sha256_start() -> (state: Sha256State)
    ensures
        hashed_bytes(state) == Seq::<u8>::empty(),
{
    Sha256State { hasher: sha2::Sha256::new() }
}

/// `Digest::update`: gives `data` to the computation, after what it was
/// given before.
#[verifier::external_body]
pub(crate) fn sha256_update(state: &mut Sha256State, data: &[u8])
    ensures
        hashed_bytes(*final(state)) == hashed_bytes(*old(state)) + data@,
{
    state.hasher.update(data);
}

/// `Digest::finalize`: the 32-byte SHA-256 digest of all the bytes given
/// to the computation. The contract names the digest and states its length;
/// what the digest is stands in the SHA-256 standard, not here.
#[verifier::external_body]
pub(crate) fn sha256_finish(state: Sha256State) -> (d: Vec<u8>)
    ensures
        d@ == sha256(hashed_bytes(state)),
        d@.len() == 32,
{
    state.hasher.finalize().to_vec()
}

pub open spec fn hex_digit(d: nat) -> char {
    if d < 10 {
        ((d + 48) as u32) as char
    } else {
        ((d - 10 + 97) as u32) as char
    }
}

/// Each byte as two lowercase hexadecimal digits, high nibble first.
pub open spec fn hex_lower(bytes: Seq<u8>) -> Seq<char>
    decreases bytes.len(),
{
    if bytes.len() == 0 {
        seq![]
    } else {
        hex_lower(bytes.drop_last()) + seq![
            hex_digit((bytes.last() / 16) as nat),
            hex_digit((bytes.last() % 16) as nat),
        ]
    }
}

/// Two hexadecimal digits per byte.
pub proof fn lemma_hex_lower_len(bytes: Seq<u8>)
    ensures
        hex_lower(bytes).len() == 2 * bytes.len(),
    decreases bytes.len(),
{
    if bytes.len() > 0 {
        lemma_hex_lower_len(bytes.drop_last());
    }
}

fn hex_digit_of(d: u8) -> (c: char)
    requires
        d < 16,
    ensures
        c == hex_digit(d as nat),
{
    if d < 10 {
        (d + 48) as char
    } else {
        (d - 10 + 97) as char
    }
}

pub fn hex_lower_of(bytes: &[u8]) -> (r: Vec<char>)
    ensures
        r@ == hex_lower(bytes@),
        r@.len() == 2 * bytes@.len(),
{
    proof {
        lemma_hex_lower_len(bytes@);
    }
    let mut r: Vec<char> = Vec::new();
    let mut i: usize = 0;
    while i < bytes.len()
        invariant
            0 <= i <= bytes@.len(),
            r@ == hex_lower(bytes@.take(i as int)),
        decreases bytes@.len() - i,
    {
        let b = bytes[i];
        r.push(hex_digit_of(b / 16));
        r.push(hex_digit_of(b % 16));
        i += 1;
        assert(bytes@.take(i as int).drop_last() =~= bytes@.take(i - 1));
        assert(r@ =~= hex_lower(bytes@.take(i as int)));
    }
    assert(bytes@.take(bytes@.len() as int) =~= bytes@);
    r
}

/// The SHA-256 digest of `data` in lowercase hexadecimal, as `{:x}` writes
/// a `sha2` digest.
pub fn sha256_hex(data: &[u8]) -> (r: Vec<char>)
    ensures
        r@ == hex_lower(sha256(data@)),
        sha256(data@).len() == 32,
        r@.len() == 64,
{
    let mut state = sha256_start();
    sha256_update(&mut state, data);
    assert(Seq::<u8>::empty() + data@ =~= data@);
    let d = sha256_finish(state);
    hex_lower_of(&d)
}

} // verus!
