//! Scalars and group elements, held as their canonical 32-byte encodings, and
//! the curve arithmetic on them.
use crate::model::{encodes, group_order, is_point, le_value, ristretto_of};
use curve25519_dalek::constants::RISTRETTO_BASEPOINT_POINT;
use curve25519_dalek::ristretto::CompressedRistretto;
use curve25519_dalek::scalar::Scalar as CurveScalar;
use vstd::prelude::*;

verus! {

/// An integer modulo the group order, as 32 bytes, least significant first.
pub struct Scalar {
    bytes: [u8; 32],
}

impl View for Scalar {
    type V = Seq<u8>;

    closed spec fn view(&self) -> Seq<u8> {
        self.bytes@
    }
}

impl Scalar {
    /// The integer that the scalar stands for.
    pub open spec fn value(&self) -> nat {
        le_value(self@)
    }

    /// The encoding is 32 bytes and canonical: its integer is below the group order.
    pub open spec fn wf(&self) -> bool {
        self@.len() == 32 && self.value() < group_order()
    }

    /// The scalar `bytes` stands for as a little-endian integer, reduced modulo the group order.
    pub fn from_bytes_mod_order(bytes: [u8; 32]) -> (r: Scalar)
        ensures
            r.wf(),
            r.value() == le_value(bytes@) % group_order(),
    {
        reduce(bytes)
    }

    /// The canonical 32-byte little-endian encoding.
    pub fn to_bytes(&self) -> (r: [u8; 32])
        ensures
            r@ == self@,
    {
        self.bytes
    }
}

impl Clone for Scalar {
    fn clone(&self) -> (r: Scalar)
        ensures
            r@ == self@,
    {
        Scalar { bytes: self.bytes }
    }
}

/// A group element, as its canonical 32-byte compressed encoding.
pub struct Point {
    bytes: [u8; 32],
}

impl View for Point {
    type V = Seq<u8>;

    closed spec fn view(&self) -> Seq<u8> {
        self.bytes@
    }
}

impl Point {
    /// The bytes encode a group element.
    pub open spec fn wf(&self) -> bool {
        is_point(self@)
    }

    /// The compressed encoding.
    pub fn to_bytes(&self) -> (r: [u8; 32])
        ensures
            r@ == self@,
    {
        self.bytes
    }

    /// The element that `bytes` encodes, if they are the canonical encoding of one.
    pub fn from_bytes(bytes: [u8; 32]) -> (r: Option<Point>)
        ensures
            r is Some <==> is_point(bytes@),
            r matches Some(p) ==> p@ == bytes@ && p.wf(),
    {
        if decompresses(&bytes) {
            let p = Point { bytes };
            assert(p@ == bytes@);
            Some(p)
        } else {
            None
        }
    }

    /// Two elements are equal exactly when their canonical encodings are.
    pub fn equals(&self, other: &Point) -> (r: bool)
        ensures
            r == (self@ == other@),
    {
        let mut i: usize = 0;
        while i < 32
            invariant
                0 <= i <= 32,
                self@.len() == 32,
                other@.len() == 32,
                forall|j: int| 0 <= j < i ==> self@[j] == other@[j],
            decreases 32 - i,
        {
            if self.bytes[i] != other.bytes[i] {
                return false;
            }
            i = i + 1;
        }
        assert(self@ =~= other@);
        true
    }
}

/// Relies on `Scalar::from_bytes_mod_order`: the 256-bit little-endian
/// integer of `bytes` reduced modulo the group order, and `Scalar::to_bytes`,
/// its canonical little-endian encoding.
#[verifier::external_body]
pub(crate) fn reduce(bytes: [u8; 32]) -> (r: Scalar)
    ensures
        r@.len() == 32,
        r.value() == le_value(bytes@) % group_order(),
{
    Scalar { bytes: CurveScalar::from_bytes_mod_order(bytes).to_bytes() }
}

/// Relies on `Scalar::from_bytes_mod_order_wide`: the 512-bit little-endian
/// integer of `bytes` reduced modulo the group order.
#[verifier::external_body]
pub(crate) fn reduce_wide(bytes: &[u8; 64]) -> (r: Scalar)
    ensures
        r@.len() == 32,
        r.value() == le_value(bytes@) % group_order(),
{
    Scalar { bytes: CurveScalar::from_bytes_mod_order_wide(bytes).to_bytes() }
}

/// Relies on the `Add` impl of `Scalar`: addition modulo the group order.
#[verifier::external_body]
pub(crate) fn scalar_add(a: &Scalar, b: &Scalar) -> (r: Scalar)
    requires
        a.wf(),
        b.wf(),
    ensures
        r@.len() == 32,
        r.value() == (a.value() + b.value()) % group_order(),
{
    let x = CurveScalar::from_bytes_mod_order(a.bytes);
    let y = CurveScalar::from_bytes_mod_order(b.bytes);
    Scalar { bytes: (x + y).to_bytes() }
}

/// Relies on the `Mul` impl of `Scalar`: multiplication modulo the group order.
#[verifier::external_body]
pub(crate) fn scalar_mul(a: &Scalar, b: &Scalar) -> (r: Scalar)
    requires
        a.wf(),
        b.wf(),
    ensures
        r@.len() == 32,
        r.value() == (a.value() * b.value()) % group_order(),
{
    let x = CurveScalar::from_bytes_mod_order(a.bytes);
    let y = CurveScalar::from_bytes_mod_order(b.bytes);
    Scalar { bytes: (x * y).to_bytes() }
}

/// Relies on the `Mul` impl of `Scalar` by the base point and on
/// `RistrettoPoint::compress`: the base point generates the group, whose order
/// is prime, so `s·G` is `k·G` exactly for the `k` congruent to `s`.
#[verifier::external_body]
pub(crate) fn mul_base(s: &Scalar) -> (r: Point)
    requires
        s.wf(),
    ensures
        encodes(r@, s.value()),
        r@ == ristretto_of(s.value()),
{
    let x = CurveScalar::from_bytes_mod_order(s.bytes);
    Point { bytes: (x * RISTRETTO_BASEPOINT_POINT).compress().to_bytes() }
}

/// Relies on the `Add` impl of `RistrettoPoint`: `j·G + k·G` is `(j + k)·G`.
#[verifier::external_body]
pub(crate) fn point_add(a: &Point, b: &Point) -> (r: Point)
    requires
        a.wf(),
        b.wf(),
    ensures
        r.wf(),
        forall|j: nat, k: nat|
            #![trigger ristretto_of(j), ristretto_of(k)]
            a@ == ristretto_of(j) && b@ == ristretto_of(k) ==> r@ == ristretto_of(j + k),
{
    let x = CompressedRistretto(a.bytes).decompress().unwrap();
    let y = CompressedRistretto(b.bytes).decompress().unwrap();
    Point { bytes: (x + y).compress().to_bytes() }
}

/// Relies on the `Mul` impl of `Scalar` by a `RistrettoPoint`: `s·(k·G)` is `(s k)·G`.
#[verifier::external_body]
pub(crate) fn point_mul(s: &Scalar, p: &Point) -> (r: Point)
    requires
        s.wf(),
        p.wf(),
    ensures
        r.wf(),
        forall|k: nat| p@ == #[trigger] ristretto_of(k) ==> r@ == ristretto_of(s.value() * k),
{
    let x = CurveScalar::from_bytes_mod_order(s.bytes);
    let y = CompressedRistretto(p.bytes).decompress().unwrap();
    Point { bytes: (x * y).compress().to_bytes() }
}

/// Relies on `CompressedRistretto::decompress`: it succeeds exactly on the
/// canonical encodings of group elements.
#[verifier::external_body]
pub(crate) fn decompresses(bytes: &[u8; 32]) -> (r: bool)
    ensures
        r == is_point(bytes@),
{
    CompressedRistretto(*bytes).decompress().is_some()
}

} // verus!
