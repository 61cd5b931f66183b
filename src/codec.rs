//! Text encodings of the wire format: base64 for points, hexadecimal for scalars.
use crate::group::{Point, Scalar};
use crate::model::{
    base64_bytes, base64_of, group_order, hex_bytes, hex_of, is_base64, is_hex, is_point,
    le_value,
};
use base64::engine::general_purpose::STANDARD;
use base64::Engine;
use vstd::prelude::*;

verus! {

#[verifier::external_type_specification]
#[verifier::external_body]
pub struct ExHexError(hex::FromHexError);

#[verifier::external_type_specification]
#[verifier::external_body]
pub struct ExBase64Error(base64::DecodeError);

/// Why text was refused as an encoding of a point or a scalar.
#[derive(Debug, Clone, Copy, PartialEq, Eq, Structural)]
pub enum ProofError {
    /// Not base64 or hexadecimal, or not 32 bytes once decoded.
    Decode,
    /// 32 bytes that are not the canonical encoding of a group element.
    InvalidPoint,
}

/// What decoding base64 text as a point gives.
pub open spec fn decode_point_spec(s: Seq<char>) -> Result<Seq<u8>, ProofError> {
    if !is_base64(s) || base64_bytes(s).len() != 32 {
        Err(ProofError::Decode)
    } else if !is_point(base64_bytes(s)) {
        Err(ProofError::InvalidPoint)
    } else {
        Ok(base64_bytes(s))
    }
}

/// What decoding hexadecimal text as a scalar gives: its integer modulo the group order.
pub open spec fn scalar_from_hex_spec(s: Seq<char>) -> Result<nat, ProofError> {
    if !is_hex(s) || hex_bytes(s).len() != 32 {
        Err(ProofError::Decode)
    } else {
        Ok(le_value(hex_bytes(s)) % group_order())
    }
}

/// Relies on `base64`'s standard engine: padded standard-alphabet base64.
#[verifier::external_body]
fn base64_encode(bytes: &[u8; 32]) -> (r: String)
    ensures
        r@ == base64_of(bytes@),
{
    STANDARD.encode(bytes)
}

/// Relies on `base64`'s standard engine, which demands canonical padding and
/// zero trailing bits: it accepts exactly the text that encoding produces.
#[verifier::external_body]
fn base64_decode(s: &str) -> (r: Result<Vec<u8>, base64::DecodeError>)
    ensures
        r is Ok <==> is_base64(s@),
        r matches Ok(b) ==> base64_of(b@) == s@,
{
    STANDARD.decode(s)
}

/// Relies on `hex::encode`: two lowercase digits per byte, high nibble first.
#[verifier::external_body]
fn hex_encode(bytes: &[u8; 32]) -> (r: String)
    ensures
        r@ == hex_of(bytes@),
{
    hex::encode(bytes)
}

/// Relies on `hex::decode`: an even number of digits of either case, two per byte.
#[verifier::external_body]
fn hex_decode(s: &str) -> (r: Result<Vec<u8>, hex::FromHexError>)
    ensures
        r is Ok <==> is_hex(s@),
        r matches Ok(b) ==> b@ == hex_bytes(s@),
{
    hex::decode(s)
}

/// The standard base64 text of the point's compressed encoding.
pub fn encode_point(p: &Point) -> (r: String)
    ensures
        r@ == base64_of(p@),
{
    base64_encode(&p.to_bytes())
}

/// The point that base64 text encodes: a decode error when the text is not
/// base64 or does not hold 32 bytes, an invalid-point error when the 32 bytes
/// are not the canonical encoding of a group element.
pub fn decode_point(b64: &str) -> (r: Result<Point, ProofError>)
    ensures
        match r {
            Ok(p) => decode_point_spec(b64@) == Ok::<Seq<u8>, ProofError>(p@) && p.wf(),
            Err(e) => decode_point_spec(b64@) == Err::<Seq<u8>, ProofError>(e),
        },
{
    let bytes = match base64_decode(b64) {
        Ok(b) => b,
        Err(_) => return Err(ProofError::Decode),
    };
    proof {
        crate::model::lemma_base64_injective(bytes@, base64_bytes(b64@));
    }
    if bytes.len() != 32 {
        return Err(ProofError::Decode);
    }
    let mut arr = [0u8; 32];
    let mut i: usize = 0;
    while i < 32
        invariant
            0 <= i <= 32,
            bytes@.len() == 32,
            forall|j: int| 0 <= j < i ==> arr@[j] == bytes@[j],
        decreases 32 - i,
    {
        arr[i] = bytes[i];
        i = i + 1;
    }
    assert(arr@ =~= bytes@);
    match Point::from_bytes(arr) {
        Some(p) => Ok(p),
        None => Err(ProofError::InvalidPoint),
    }
}

/// The lowercase hexadecimal text of the scalar's 32-byte little-endian encoding.
pub fn scalar_to_hex(s: &Scalar) -> (r: String)
    ensures
        r@ == hex_of(s@),
{
    hex_encode(&s.to_bytes())
}

/// The scalar that hexadecimal text encodes, reduced modulo the group order: a
/// decode error when the text is not hexadecimal or does not hold 32 bytes.
pub fn scalar_from_hex(h: &str) -> (r: Result<Scalar, ProofError>)
    ensures
        match r {
            Ok(s) => scalar_from_hex_spec(h@) == Ok::<nat, ProofError>(s.value()) && s.wf(),
            Err(e) => scalar_from_hex_spec(h@) == Err::<nat, ProofError>(e),
        },
{
    let b = match hex_decode(h) {
        Ok(b) => b,
        Err(_) => return Err(ProofError::Decode),
    };
    if b.len() != 32 {
        return Err(ProofError::Decode);
    }
    let mut arr = [0u8; 32];
    let mut i: usize = 0;
    while i < 32
        invariant
            0 <= i <= 32,
            b@.len() == 32,
            forall|j: int| 0 <= j < i ==> arr@[j] == b@[j],
        decreases 32 - i,
    {
        arr[i] = b[i];
        i = i + 1;
    }
    assert(arr@ =~= b@);
    Ok(Scalar::from_bytes_mod_order(arr))
}

/// Decoding the encoding of a point gives the point back.
pub proof fn lemma_point_round_trip(p: Point)
    requires
        p.wf(),
    ensures
        decode_point_spec(base64_of(p@)) == Ok::<Seq<u8>, ProofError>(p@),
{
    crate::model::lemma_base64_round_trip(p@);
}

/// Decoding the hexadecimal text of a scalar gives the same scalar back.
pub proof fn lemma_scalar_round_trip(s: Scalar)
    requires
        s.wf(),
    ensures
        scalar_from_hex_spec(hex_of(s@)) == Ok::<nat, ProofError>(s.value()),
{
    crate::model::lemma_hex_round_trip(s@);
    vstd::arithmetic::div_mod::lemma_small_mod(s.value(), group_order());
}

} // verus!
