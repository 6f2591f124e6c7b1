//! Keys and freshness of the local generation cache.
use vstd::prelude::*;

use vstd::bytes::{spec_u64_to_le_bytes, u64_to_le_bytes};
use vstd::string::StringSliceAdditionalSpecFns;
use vstd::utf8::encode_utf8;

use crate::digest::{hex_lower, sha256, sha256_hex};
use crate::text::{chars_eq, chars_of, string_of};

verus! {

pub const CACHE_TTL_SECONDS: u64 = 86_400;

/// One part as it enters the key: its UTF-8 length as eight little-endian
/// bytes, then its UTF-8 bytes.
pub open spec fn framed(part: Seq<char>) -> Seq<u8> {
    spec_u64_to_le_bytes(encode_utf8(part).len() as u64) + encode_utf8(part)
}

/// All parts, framed and concatenated in order.
pub open spec fn frame(parts: Seq<Seq<char>>) -> Seq<u8>
    decreases parts.len(),
{
    if parts.len() == 0 {
        seq![]
    } else {
        framed(parts[0]) + frame(parts.drop_first())
    }
}

/// The cache key of `parts`: the SHA-256 digest of their framing, in hex.
pub open spec fn spec_key(parts: Seq<Seq<char>>) -> Seq<char> {
    hex_lower(sha256(frame(parts)))
}

pub open spec fn str_views(parts: Seq<&str>) -> Seq<Seq<char>> {
    parts.map_values(|p: &str| p@)
}

proof fn lemma_frame_push(parts: Seq<Seq<char>>, p: Seq<char>)
    ensures
        frame(parts.push(p)) == frame(parts) + framed(p),
    decreases parts.len(),
{
    if parts.len() == 0 {
        assert(parts.push(p).drop_first() =~= Seq::<Seq<char>>::empty());
        assert(parts.push(p)[0] == p);
        assert(frame(Seq::<Seq<char>>::empty()) =~= Seq::<u8>::empty());
        assert(frame(parts) =~= Seq::<u8>::empty());
        assert(frame(parts.push(p)) =~= framed(p) + frame(Seq::<Seq<char>>::empty()));
        assert(frame(parts.push(p)) =~= frame(parts) + framed(p));
    } else {
        lemma_frame_push(parts.drop_first(), p);
        assert(parts.push(p).drop_first() =~= parts.drop_first().push(p));
        assert(frame(parts.push(p)) =~= frame(parts) + framed(p));
    }
}

/// The cache key for `parts`. Each part is framed by its length, so parts
/// are never confused across their boundaries.
pub fn build_key(parts: &[&str]) -> (r: String)
    ensures
        r@ == spec_key(str_views(parts@)),
        r@.len() == 64,
{
    let ghost ps = str_views(parts@);
    let mut data: Vec<u8> = Vec::new();
    let mut i: usize = 0;
    while i < parts.len()
        invariant
            0 <= i <= parts@.len(),
            ps == str_views(parts@),
            data@ == frame(ps.take(i as int)),
        decreases parts@.len() - i,
    {
        let part: &str = parts[i];
        let bytes = part.as_bytes();
        let len = part.len() as u64;
        let le = u64_to_le_bytes(len);
        let mut k: usize = 0;
        let ghost start = data@;
        while k < le.len()
            invariant
                0 <= k <= le@.len(),
                data@ == start + le@.take(k as int),
            decreases le@.len() - k,
        {
            data.push(le[k]);
            k += 1;
            assert(data@ =~= start + le@.take(k as int));
        }
        assert(le@.take(le@.len() as int) =~= le@);
        let ghost mid = data@;
        let mut k: usize = 0;
        while k < bytes.len()
            invariant
                0 <= k <= bytes@.len(),
                data@ == mid + bytes@.take(k as int),
            decreases bytes@.len() - k,
        {
            data.push(bytes[k]);
            k += 1;
            assert(data@ =~= mid + bytes@.take(k as int));
        }
        assert(bytes@.take(bytes@.len() as int) =~= bytes@);
        proof {
            assert(ps.take(i + 1) =~= ps.take(i as int).push(part@));
            lemma_frame_push(ps.take(i as int), part@);
            assert(data@ =~= frame(ps.take(i + 1)));
        }
        i += 1;
    }
    assert(ps.take(parts@.len() as int) =~= ps);
    let hex = sha256_hex(&data);
    string_of(&hex)
}

/// Different part lists never share a framing: a key is computed from an
/// unambiguous encoding of its parts.
pub proof fn framing_is_unambiguous(a: Seq<Seq<char>>, b: Seq<Seq<char>>)
    requires
        forall|i: int| 0 <= i < a.len() ==> encode_utf8(#[trigger] a[i]).len() <= u64::MAX,
        forall|i: int| 0 <= i < b.len() ==> encode_utf8(#[trigger] b[i]).len() <= u64::MAX,
        frame(a) == frame(b),
    ensures
        a == b,
    decreases a.len(),
{
    vstd::bytes::lemma_auto_spec_u64_to_from_le_bytes();
    if a.len() == 0 {
        if b.len() > 0 {
            assert(frame(b).len() >= 8);
        }
        assert(a =~= b);
    } else if b.len() == 0 {
        assert(frame(a).len() >= 8);
    } else {
        let fa = frame(a);
        let la = encode_utf8(a[0]).len() as int;
        let lb = encode_utf8(b[0]).len() as int;
        assert(fa.take(8) =~= spec_u64_to_le_bytes(la as u64));
        assert(fa.take(8) =~= spec_u64_to_le_bytes(lb as u64));
        assert(la == lb);
        assert(fa.subrange(8, 8 + la) =~= encode_utf8(a[0]));
        assert(fa.subrange(8, 8 + lb) =~= encode_utf8(b[0]));
        vstd::utf8::encode_utf8_decode_utf8(a[0]);
        vstd::utf8::encode_utf8_decode_utf8(b[0]);
        assert(a[0] == b[0]);
        assert(fa.skip(8 + la) =~= frame(a.drop_first()));
        assert(fa.skip(8 + lb) =~= frame(b.drop_first()));
        assert forall|i: int| 0 <= i < a.drop_first().len() implies encode_utf8(
            #[trigger] a.drop_first()[i],
        ).len() <= u64::MAX by {
            assert(a.drop_first()[i] == a[i + 1]);
        }
        assert forall|i: int| 0 <= i < b.drop_first().len() implies encode_utf8(
            #[trigger] b.drop_first()[i],
        ).len() <= u64::MAX by {
            assert(b.drop_first()[i] == b[i + 1]);
        }
        framing_is_unambiguous(a.drop_first(), b.drop_first());
        assert(a =~= b) by {
            assert forall|i: int| 0 <= i < a.len() implies a[i] == b[i] by {
                if i > 0 {
                    assert(a[i] == a.drop_first()[i - 1]);
                    assert(b[i] == b.drop_first()[i - 1]);
                }
            }
        }
    }
}

/// A cache entry written at `created_at_seconds` is fresh at `now_seconds`
/// when it is not from the future and at most a day old.
pub open spec fn spec_is_fresh(created_at_seconds: u64, now_seconds: u64) -> bool {
    created_at_seconds <= now_seconds && now_seconds <= created_at_seconds + CACHE_TTL_SECONDS
}

pub fn is_fresh(created_at_seconds: u64, now_seconds: u64) -> (r: bool)
    ensures
        r == spec_is_fresh(created_at_seconds, now_seconds),
{
    created_at_seconds <= now_seconds && now_seconds - created_at_seconds <= CACHE_TTL_SECONDS
}

/// Whether a stored entry answers a request: it was stored under the same
/// key and is still fresh.
pub fn entry_answers(entry_key: &str, created_at_seconds: u64, key: &str, now_seconds: u64) -> (r: bool)
    ensures
        r == (entry_key@ == key@ && spec_is_fresh(created_at_seconds, now_seconds)),
{
    let a = chars_of(entry_key);
    let b = chars_of(key);
    chars_eq(&a, &b) && is_fresh(created_at_seconds, now_seconds)
}

} // verus!
