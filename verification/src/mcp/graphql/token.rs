//! Confirmation tokens binding a destructive mutation to the arguments that
//! were previewed: HMAC-SHA256 over the length-prefixed arguments, the first
//! 16 bytes in hex.
use vstd::prelude::*;
use hmac::Mac;
use vstd::utf8::{encode_utf8, encode_utf8_decode_utf8};
use crate::text::{hex_digit, string_of};

verus! {

/// The little-endian encoding of `n` in `k` bytes.
pub open spec fn le_bytes(n: nat, k: nat) -> Seq<u8>
    decreases k,
{
    if k == 0 {
        seq![]
    } else {
        seq![(n % 256) as u8] + le_bytes(n / 256, (k - 1) as nat)
    }
}

/// The bytes authenticated for a list of arguments: for each, its UTF-8
/// length as a little-endian `u64`, then its UTF-8 bytes.
pub open spec fn token_message(parts: Seq<Seq<char>>) -> Seq<u8>
    decreases parts.len(),
{
    if parts.len() == 0 {
        seq![]
    } else {
        let b = encode_utf8(parts[0]);
        le_bytes(b.len(), 8) + b + token_message(parts.drop_first())
    }
}

/// HMAC-SHA256 of `msg` under `key`.
pub uninterp spec fn hmac_sha256_tag(key: Seq<u8>, msg: Seq<u8>) -> Seq<u8>;

/// Two lowercase hex digits of a byte.
pub open spec fn hex_byte(b: u8) -> Seq<char> {
    seq![hex_digit((b / 16) as nat), hex_digit((b % 16) as nat)]
}

/// Lowercase hex of a byte string.
pub open spec fn hex_bytes(bs: Seq<u8>) -> Seq<char>
    decreases bs.len(),
{
    if bs.len() == 0 {
        seq![]
    } else {
        hex_bytes(bs.drop_last()) + hex_byte(bs.last())
    }
}

/// The confirmation token for a list of arguments under a key.
pub open spec fn token_for(key: Seq<u8>, parts: Seq<Seq<char>>) -> Seq<char> {
    hex_bytes(hmac_sha256_tag(key, token_message(parts)).take(16))
}

/// Calls `Hmac::<Sha256>::new_from_slice`, `update` and `finalize`. The
/// contract claims that the tag is a function of key and message, 32 bytes
/// long as SHA-256 output is; HMAC accepts keys of any length.
#[verifier::external_body]
fn hmac_sha256(key: &[u8], msg: &Vec<u8>) -> (r: Vec<u8>)
    ensures
        r@ == hmac_sha256_tag(key@, msg@),
        r@.len() == 32,
{
    let mut mac = hmac::Hmac::<sha2::Sha256>::new_from_slice(key).expect("HMAC accepts any key size");
    mac.update(msg);
    mac.finalize().into_bytes().to_vec()
}

fn push_le_u64(out: &mut Vec<u8>, n: u64)
    ensures
        final(out)@ == old(out)@ + le_bytes(n as nat, 8),
{
    let mut x = n;
    let ghost start = out@;
    let mut k: usize = 0;
    while k < 8
        invariant
            k <= 8,
            out@ + le_bytes(x as nat, (8 - k) as nat) == start + le_bytes(n as nat, 8),
        decreases 8 - k,
    {
        let ghost before = out@;
        out.push((x % 256) as u8);
        assert(le_bytes(x as nat, (8 - k) as nat) == seq![(x % 256) as u8] + le_bytes((x / 256) as nat, (
        8 - k - 1) as nat));
        assert(out@ + le_bytes((x / 256) as nat, (8 - k - 1) as nat) =~= before + le_bytes(
            x as nat,
            (8 - k) as nat,
        ));
        x = x / 256;
        k = k + 1;
    }
    assert(le_bytes(x as nat, 0) =~= Seq::<u8>::empty());
    assert(out@ =~= out@ + le_bytes(x as nat, 0));
}

fn hex_digit_of(d: u8) -> (c: char)
    requires
        d < 16,
    ensures
        c == hex_digit(d as nat),
{
    if d < 10 {
        ((48 + d) as u8) as char
    } else {
        ((87 + d) as u8) as char
    }
}

/// The HMAC-SHA256 confirmation token of `parts` under `key`: 32 hex digits.
pub fn confirmation_token(key: &[u8], parts: &[&str]) -> (r: String)
    ensures
        r@ == token_for(key@, parts@.map_values(|p: &str| p@)),
        r@.len() == 32,
{
    let ghost pv = parts@.map_values(|p: &str| p@);
    let mut i: usize = parts.len();
    // Built back to front: the message of parts[i..] is known at each step.
    assert(pv.skip(i as int) =~= Seq::<Seq<char>>::empty());
    let mut tail: Vec<u8> = Vec::new();
    while i > 0
        invariant
            i <= parts@.len(),
            pv == parts@.map_values(|p: &str| p@),
            tail@ == token_message(pv.skip(i as int)),
        decreases i,
    {
        let p = parts[i - 1];
        let bytes = p.as_bytes();
        let mut chunk: Vec<u8> = Vec::new();
        push_le_u64(&mut chunk, bytes.len() as u64);
        for j in 0..bytes.len()
            invariant
                chunk@ == le_bytes(bytes@.len() as nat, 8) + bytes@.take(j as int),
        {
            chunk.push(bytes[j]);
            assert(bytes@.take(j + 1) =~= bytes@.take(j as int).push(bytes@[j as int]));
            assert(chunk@ =~= le_bytes(bytes@.len() as nat, 8) + bytes@.take(j + 1));
        }
        assert(bytes@.take(bytes@.len() as int) =~= bytes@);
        assert(bytes@ == encode_utf8(p@));
        let mut rest = tail;
        chunk.append(&mut rest);
        assert(pv.skip(i - 1)[0] == p@);
        assert(pv.skip(i - 1).drop_first() =~= pv.skip(i as int));
        tail = chunk;
        i = i - 1;
    }
    assert(pv.skip(0) =~= pv);
    let tag = hmac_sha256(key, &tail);
    let mut out: Vec<char> = Vec::new();
    let ghost t = tag@.take(16);
    assert(t.take(0) =~= Seq::<u8>::empty());
    for k in 0..16
        invariant
            tag@.len() == 32,
            t == tag@.take(16),
            out@ == hex_bytes(t.take(k as int)),
            out@.len() == 2 * k,
    {
        let b = tag[k];
        out.push(hex_digit_of(b / 16));
        out.push(hex_digit_of(b % 16));
        assert(t.take(k + 1).drop_last() =~= t.take(k as int));
        assert(t.take(k + 1).last() == b);
        assert(out@ =~= hex_bytes(t.take(k as int)) + hex_byte(b));
    }
    assert(t.take(16) =~= t);
    string_of(&out)
}

// ===================== Laws =====================

proof fn lemma_le_bytes_len(n: nat, k: nat)
    ensures
        le_bytes(n, k).len() == k,
    decreases k,
{
    if k > 0 {
        lemma_le_bytes_len(n / 256, (k - 1) as nat);
    }
}

proof fn lemma_le_bytes_injective(n: nat, m: nat, k: nat)
    requires
        n < pow256(k),
        m < pow256(k),
        le_bytes(n, k) == le_bytes(m, k),
    ensures
        n == m,
    decreases k,
{
    if k > 0 {
        let a = le_bytes(n, k);
        let b = le_bytes(m, k);
        assert(a[0] == b[0]);
        assert(a.drop_first() =~= le_bytes(n / 256, (k - 1) as nat));
        assert(b.drop_first() =~= le_bytes(m / 256, (k - 1) as nat));
        assert(n / 256 < pow256((k - 1) as nat)) by (nonlinear_arith)
            requires
                n < pow256(k),
                pow256(k) == 256 * pow256((k - 1) as nat),
        ;
        assert(m / 256 < pow256((k - 1) as nat)) by (nonlinear_arith)
            requires
                m < pow256(k),
                pow256(k) == 256 * pow256((k - 1) as nat),
        ;
        lemma_le_bytes_injective(n / 256, m / 256, (k - 1) as nat);
        assert((n % 256) as u8 == (m % 256) as u8);
    }
}

/// `256^k`.
pub open spec fn pow256(k: nat) -> nat
    decreases k,
{
    if k == 0 {
        1
    } else {
        256 * pow256((k - 1) as nat)
    }
}

/// Lengths below `256^8` are the only ones a `u64` prefix can hold.
pub open spec fn prefixable(parts: Seq<Seq<char>>) -> bool {
    forall|i: int| 0 <= i < parts.len() ==> #[trigger] encode_utf8(parts[i]).len() < pow256(8)
}

/// Length-prefixing makes the authenticated message determine the argument
/// list: two argument lists with the same message are the same list, so no
/// regrouping of the same characters (`["ab", "c"]` against `["a", "bc"]`)
/// can reuse a token.
pub proof fn lemma_token_message_injective(a: Seq<Seq<char>>, b: Seq<Seq<char>>)
    requires
        prefixable(a),
        prefixable(b),
        token_message(a) == token_message(b),
    ensures
        a == b,
    decreases a.len(),
{
    if a.len() == 0 {
        if b.len() > 0 {
            lemma_le_bytes_len(encode_utf8(b[0]).len(), 8);
        }
        assert(b.len() == 0);
    } else {
        lemma_le_bytes_len(encode_utf8(a[0]).len(), 8);
        if b.len() == 0 {
            assert(false);
        } else {
            let ea = encode_utf8(a[0]);
            let eb = encode_utf8(b[0]);
            lemma_le_bytes_len(eb.len(), 8);
            let ma = token_message(a);
            let mb = token_message(b);
            assert(ma.take(8) =~= le_bytes(ea.len(), 8));
            assert(mb.take(8) =~= le_bytes(eb.len(), 8));
            lemma_le_bytes_injective(ea.len(), eb.len(), 8);
            assert(ma.subrange(8, 8 + ea.len() as int) =~= ea);
            assert(mb.subrange(8, 8 + eb.len() as int) =~= eb);
            encode_utf8_decode_utf8(a[0]);
            encode_utf8_decode_utf8(b[0]);
            assert(a[0] == b[0]);
            assert(ma.skip(8 + ea.len() as int) =~= token_message(a.drop_first()));
            assert(mb.skip(8 + eb.len() as int) =~= token_message(b.drop_first()));
            assert forall|i: int| 0 <= i < a.drop_first().len() implies #[trigger] encode_utf8(a.drop_first()[i]).len() < pow256(8) by {
                assert(a.drop_first()[i] == a[i + 1]);
            }
            assert forall|i: int| 0 <= i < b.drop_first().len() implies #[trigger] encode_utf8(b.drop_first()[i]).len() < pow256(8) by {
                assert(b.drop_first()[i] == b[i + 1]);
            }
            lemma_token_message_injective(a.drop_first(), b.drop_first());
            assert(a =~= seq![a[0]] + a.drop_first());
            assert(b =~= seq![b[0]] + b.drop_first());
        }
    }
}

} // verus!
