//! The proof protocol: the Fiat-Shamir challenge, proof creation and verification.
use crate::codec::{
    decode_point, decode_point_spec, encode_point, scalar_from_hex, scalar_from_hex_spec,
    scalar_to_hex, ProofError,
};
use crate::group::{mul_base, point_add, point_mul, reduce_wide, scalar_add, scalar_mul, Point, Scalar};
use crate::model::{
    base64_of, dlog, encodes, group_order, hex_of, le_value, ristretto_of, sha512_of,
};
use rand::rngs::OsRng;
use rand::RngCore;
use sha2::{Digest, Sha512};
use vstd::prelude::*;
use vstd::utf8::encode_utf8;

verus! {

/// A proof as it travels: the public point and the commitment in base64, the
/// response in hexadecimal, and the message the proof is bound to.
pub struct ProofMessage {
    pub pub_pk_b64: String,
    pub commit_b64: String,
    pub response_hex: String,
    pub message: String,
}

/// The challenge for public point `x`, commitment `r` and message `m`: the
/// SHA-512 digest of the two encodings and the message's UTF-8 bytes, read as a
/// little-endian integer and reduced modulo the group order.
pub open spec fn challenge_spec(x: Seq<u8>, r: Seq<u8>, m: Seq<char>) -> nat {
    le_value(sha512_of(x + r + encode_utf8(m))) % group_order()
}

/// The response of an honest prover with secret `x` and nonce `r`.
pub open spec fn response_of(x: nat, r: nat, m: Seq<char>) -> nat {
    (r + challenge_spec(ristretto_of(x), ristretto_of(r), m) * x) % group_order()
}

/// `(p, c, s)` is the proof that an honest prover with secret `x` makes for
/// message `m` with nonce `r`.
pub open spec fn is_proof_of(
    p: Seq<char>,
    c: Seq<char>,
    s: Seq<char>,
    x: nat,
    r: nat,
    m: Seq<char>,
) -> bool {
    &&& encodes(ristretto_of(x), x)
    &&& encodes(ristretto_of(r), r)
    &&& p == base64_of(ristretto_of(x))
    &&& c == base64_of(ristretto_of(r))
    &&& exists|b: Seq<u8>| b.len() == 32 && s == hex_of(b) && le_value(b) == response_of(x, r, m)
}

/// What verification gives: the first decode error in the order public point,
/// commitment, response; else whether `s·G == R + c·X`.
pub open spec fn verify_spec(p: Seq<char>, c: Seq<char>, s: Seq<char>, m: Seq<char>) -> Result<
    bool,
    ProofError,
> {
    match decode_point_spec(p) {
        Err(e) => Err(e),
        Ok(x) => match decode_point_spec(c) {
            Err(e) => Err(e),
            Ok(r) => match scalar_from_hex_spec(s) {
                Err(e) => Err(e),
                Ok(sv) => Ok(sv == (dlog(r) + challenge_spec(x, r, m) * dlog(x)) % group_order()),
            },
        },
    }
}

/// Relies on `Sha512::digest`: the SHA-512 digest of `data`.
#[verifier::external_body]
fn sha512(data: &Vec<u8>) -> (r: [u8; 64])
    ensures
        r@ == sha512_of(data@),
{
    let mut out = [0u8; 64];
    out.copy_from_slice(&Sha512::digest(data));
    out
}

/// Relies on `OsRng::fill_bytes`: 64 bytes from the operating system's entropy source.
#[verifier::external_body]
fn os_random_bytes() -> (r: [u8; 64]) {
    let mut out = [0u8; 64];
    OsRng.fill_bytes(&mut out);
    out
}

fn append_bytes(v: &mut Vec<u8>, b: &[u8])
    ensures
        final(v)@ == old(v)@ + b@,
{
    let mut i: usize = 0;
    while i < b.len()
        invariant
            0 <= i <= b@.len(),
            v@ == old(v)@ + b@.subrange(0, i as int),
        decreases b@.len() - i,
    {
        v.push(b[i]);
        i = i + 1;
        assert(b@.subrange(0, i as int) =~= b@.subrange(0, i - 1) + seq![b@[i - 1]]);
    }
    assert(b@.subrange(0, b@.len() as int) =~= b@);
}

/// The scalar that 64 bytes stand for as a little-endian integer, reduced
/// modulo the group order.
pub fn scalar_from_wide_bytes(bytes: &[u8; 64]) -> (r: Scalar)
    ensures
        r.wf(),
        r.value() == le_value(bytes@) % group_order(),
{
    reduce_wide(bytes)
}

/// The Fiat-Shamir challenge for public point `x`, commitment `r` and message `msg`.
pub fn compute_challenge_scalar(x: &Point, r: &Point, msg: &str) -> (c: Scalar)
    ensures
        c.wf(),
        c.value() == challenge_spec(x@, r@, msg@),
{
    let mut data: Vec<u8> = Vec::new();
    let xb = x.to_bytes();
    let rb = r.to_bytes();
    append_bytes(&mut data, &xb);
    append_bytes(&mut data, &rb);
    append_bytes(&mut data, msg.as_bytes());
    assert(data@ =~= x@ + r@ + encode_utf8(msg@));
    let h = sha512(&data);
    scalar_from_wide_bytes(&h)
}

/// A scalar drawn uniformly from 64 bytes of operating-system randomness.
pub fn random_scalar() -> (r: Scalar)
    ensures
        r.wf(),
{
    let bytes = os_random_bytes();
    scalar_from_wide_bytes(&bytes)
}

/// The proof of knowledge of `secret` bound to `msg` that nonce `nonce` gives:
/// the public point `secret·G` and the commitment `nonce·G` in base64, and the
/// response `nonce + c·secret` in hexadecimal, `c` being the challenge.
pub fn create_proof_with_nonce(secret: &Scalar, nonce: &Scalar, msg: &str) -> (r: (
    String,
    String,
    String,
))
    requires
        secret.wf(),
        nonce.wf(),
    ensures
        is_proof_of(r.0@, r.1@, r.2@, secret.value(), nonce.value(), msg@),
{
    let x_pt = mul_base(secret);
    let r_pt = mul_base(nonce);
    let c = compute_challenge_scalar(&x_pt, &r_pt, msg);
    let cx = scalar_mul(&c, secret);
    let s = scalar_add(nonce, &cx);
    proof {
        vstd::arithmetic::div_mod::lemma_add_mod_noop(
            nonce.value() as int,
            (c.value() * secret.value()) as int,
            group_order() as int,
        );
        vstd::arithmetic::div_mod::lemma_small_mod(nonce.value(), group_order());
    }
    let res = (encode_point(&x_pt), encode_point(&r_pt), scalar_to_hex(&s));
    assert(s@.len() == 32 && res.2@ == hex_of(s@) && le_value(s@) == response_of(
        secret.value(),
        nonce.value(),
        msg@,
    ));
    res
}

/// A proof of knowledge of `secret` bound to `msg`, with a fresh random nonce.
pub fn create_proof(secret: &Scalar, msg: &str) -> (r: (String, String, String))
    requires
        secret.wf(),
    ensures
        exists|n: nat| n < group_order() && is_proof_of(r.0@, r.1@, r.2@, secret.value(), n, msg@),
{
    let nonce = random_scalar();
    create_proof_with_nonce(secret, &nonce, msg)
}

/// Checks a proof against `msg`: a decode error when one of the three fields is
/// malformed, else whether `s·G == R + c·X`.
pub fn verify_proof(pub_b64: &str, commit_b64: &str, response_hex: &str, msg: &str) -> (r: Result<
    bool,
    ProofError,
>)
    ensures
        r == verify_spec(pub_b64@, commit_b64@, response_hex@, msg@),
{
    let x_pt = match decode_point(pub_b64) {
        Ok(p) => p,
        Err(e) => return Err(e),
    };
    let r_pt = match decode_point(commit_b64) {
        Ok(p) => p,
        Err(e) => return Err(e),
    };
    let s = match scalar_from_hex(response_hex) {
        Ok(s) => s,
        Err(e) => return Err(e),
    };
    let c = compute_challenge_scalar(&x_pt, &r_pt, msg);
    let cx = point_mul(&c, &x_pt);
    let rhs = point_add(&r_pt, &cx);
    let lhs = mul_base(&s);
    let ghost dx = dlog(x_pt@);
    let ghost dr = dlog(r_pt@);
    proof {
        lemma_dlog(x_pt@);
        lemma_dlog(r_pt@);
        assert(cx@ == ristretto_of(c.value() * dx));
        assert(rhs@ == ristretto_of(dr + c.value() * dx));
        assert(lhs@ == ristretto_of((dr + c.value() * dx) as nat) <==> (dr + c.value() * dx)
            % group_order() == s.value() % group_order());
        vstd::arithmetic::div_mod::lemma_small_mod(s.value(), group_order());
    }
    Ok(lhs.equals(&rhs))
}

/// The element that `b` encodes is `dlog(b)·G`.
proof fn lemma_dlog(b: Seq<u8>)
    requires
        exists|k: nat| encodes(b, k),
    ensures
        ristretto_of(dlog(b)) == b,
        dlog(b) < group_order(),
{
    let k = choose|k: nat| encodes(b, k);
    vstd::arithmetic::div_mod::lemma_mod_twice(k as int, group_order() as int);
    assert(ristretto_of(k % group_order()) == b);
}

/// Completeness: an honest proof verifies against the message it was made for.
pub proof fn lemma_completeness(p: Seq<char>, c: Seq<char>, s: Seq<char>, x: nat, r: nat, m: Seq<char>)
    requires
        x < group_order(),
        r < group_order(),
        is_proof_of(p, c, s, x, r, m),
    ensures
        verify_spec(p, c, s, m) == Ok::<bool, ProofError>(true),
{
    let xp = ristretto_of(x);
    let rp = ristretto_of(r);
    crate::model::lemma_base64_round_trip(xp);
    crate::model::lemma_base64_round_trip(rp);
    let b = choose|b: Seq<u8>| b.len() == 32 && s == hex_of(b) && le_value(b) == response_of(x, r, m);
    crate::model::lemma_hex_round_trip(b);
    lemma_dlog(xp);
    lemma_dlog(rp);
    vstd::arithmetic::div_mod::lemma_small_mod(x, group_order());
    vstd::arithmetic::div_mod::lemma_small_mod(r, group_order());
    vstd::arithmetic::div_mod::lemma_mod_twice(
        (r + challenge_spec(xp, rp, m) * x) as int,
        group_order() as int,
    );
    assert(dlog(xp) % group_order() == x % group_order());
    assert(dlog(rp) % group_order() == r % group_order());
}

/// A proof checked against another message than its own verifies exactly when
/// the secret times either message's challenge agree modulo the group order.
pub proof fn lemma_other_message(
    p: Seq<char>,
    c: Seq<char>,
    s: Seq<char>,
    x: nat,
    r: nat,
    m1: Seq<char>,
    m2: Seq<char>,
)
    requires
        x < group_order(),
        r < group_order(),
        is_proof_of(p, c, s, x, r, m1),
    ensures
        verify_spec(p, c, s, m2) == Ok::<bool, ProofError>(
            (challenge_spec(ristretto_of(x), ristretto_of(r), m2) * x) % group_order() == (
            challenge_spec(ristretto_of(x), ristretto_of(r), m1) * x) % group_order(),
        ),
{
    let xp = ristretto_of(x);
    let rp = ristretto_of(r);
    let l = group_order() as int;
    crate::model::lemma_base64_round_trip(xp);
    crate::model::lemma_base64_round_trip(rp);
    let b = choose|b: Seq<u8>| b.len() == 32 && s == hex_of(b) && le_value(b) == response_of(x, r, m1);
    crate::model::lemma_hex_round_trip(b);
    lemma_dlog(xp);
    lemma_dlog(rp);
    vstd::arithmetic::div_mod::lemma_small_mod(x, group_order());
    vstd::arithmetic::div_mod::lemma_small_mod(r, group_order());
    assert(dlog(xp) % group_order() == x % group_order());
    assert(dlog(rp) % group_order() == r % group_order());
    let a1 = (challenge_spec(xp, rp, m1) * x) as int;
    let a2 = (challenge_spec(xp, rp, m2) * x) as int;
    vstd::arithmetic::div_mod::lemma_mod_twice(r + a1, l);
    vstd::arithmetic::div_mod::lemma_add_mod_noop(r as int, a1, l);
    vstd::arithmetic::div_mod::lemma_add_mod_noop(r as int, a2, l);
    vstd::arithmetic::div_mod::lemma_mod_bound(a1, l);
    vstd::arithmetic::div_mod::lemma_mod_bound(a2, l);
    let u = a1 % l;
    let v = a2 % l;
    if u + r < l {
        vstd::arithmetic::div_mod::lemma_small_mod((r + u) as nat, l as nat);
    } else {
        vstd::arithmetic::div_mod::lemma_fundamental_div_mod_converse(r + u, l, 1, r + u - l);
    }
    if v + r < l {
        vstd::arithmetic::div_mod::lemma_small_mod((r + v) as nat, l as nat);
    } else {
        vstd::arithmetic::div_mod::lemma_fundamental_div_mod_converse(r + v, l, 1, r + v - l);
    }
}

} // verus!
