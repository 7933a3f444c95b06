//! The scalar field of BN254.
//!
//! Arithmetic, reduction of byte strings and decimal text are those of
//! `ark_bn254::Fr`; an element is held as the limbs of its canonical
//! representative.
use crate::text;
use ark_bn254::Fr as ArkFr;
use ark_ff::{BigInt, BigInteger, Field, PrimeField};
use vstd::arithmetic::div_mod::*;
use vstd::arithmetic::power::*;
use vstd::prelude::*;

verus! {

/// The order of the scalar field of BN254.
pub open spec fn modulus() -> nat {
    21888242871839275222246405745257275088548364400416034343698204186575808495617nat
}

/// Addition in the field.
pub open spec fn fadd(a: nat, b: nat) -> nat {
    (a + b) % modulus()
}

/// Subtraction in the field.
pub open spec fn fsub(a: nat, b: nat) -> nat {
    ((a - b) % modulus() as int) as nat
}

/// Multiplication in the field.
pub open spec fn fmul(a: nat, b: nat) -> nat {
    (a * b) % modulus()
}

/// The integer that four 64-bit limbs write in little-endian order.
pub open spec fn limbs_value(l0: u64, l1: u64, l2: u64, l3: u64) -> nat {
    (l0 + l1 * 0x1_0000_0000_0000_0000 + l2 * 0x1_0000_0000_0000_0000_0000_0000_0000_0000int + l3
        * 0x1_0000_0000_0000_0000_0000_0000_0000_0000_0000_0000_0000_0000int) as nat
}

/// The integer that bytes write in big-endian order.
pub open spec fn be_value(bytes: Seq<u8>) -> nat
    decreases bytes.len(),
{
    if bytes.len() == 0 {
        0
    } else {
        be_value(bytes.drop_last()) * 256 + bytes.last() as nat
    }
}

/// The lowest bytes of an integer, the highest of them first.
pub open spec fn be_bytes(value: nat, count: nat) -> Seq<u8>
    decreases count,
{
    if count == 0 {
        Seq::empty()
    } else {
        be_bytes(value / 256, (count - 1) as nat).push((value % 256) as u8)
    }
}

/// Bytes are those of the integer that they write.
pub proof fn lemma_be_bytes(bytes: Seq<u8>)
    ensures
        be_bytes(be_value(bytes), bytes.len()) == bytes,
    decreases bytes.len(),
{
    if bytes.len() == 0 {
        assert(bytes =~= Seq::empty());
    } else {
        lemma_be_bytes(bytes.drop_last());
        let v = be_value(bytes);
        assert(v == be_value(bytes.drop_last()) * 256 + bytes.last());
        assert(bytes =~= bytes.drop_last().push(bytes.last()));
    }
}

/// The integer that bytes write in little-endian order.
pub open spec fn le_value(bytes: Seq<u8>) -> nat {
    be_value(bytes.reverse())
}

/// The decimal text of a field element; zero is written as nothing at all.
pub open spec fn field_text(value: nat) -> Seq<char> {
    if value == 0 {
        Seq::empty()
    } else {
        text::decimal(value)
    }
}

/// The field element that a text denotes: decimal digits without an
/// unnecessary leading zero, reduced by the modulus.
pub open spec fn field_of_text(s: Seq<char>) -> Option<nat> {
    if s.len() > 0 && text::all_digits(s) && (s.len() == 1 || s[0] != '0') {
        Some(text::digits_value(s) % modulus())
    } else {
        None
    }
}

/// An integer reduced by the modulus.
pub open spec fn reduced(x: int) -> nat {
    (x % modulus() as int) as nat
}

/// Reduction commutes with the operations of the field.
pub proof fn lemma_reduced(x: int, y: int)
    ensures
        fadd(reduced(x), reduced(y)) == reduced(x + y),
        fsub(reduced(x), reduced(y)) == reduced(x - y),
        fmul(reduced(x), reduced(y)) == reduced(x * y),
{
    let p = modulus() as int;
    lemma_mod_bound(x, p);
    lemma_mod_bound(y, p);
    lemma_add_mod_noop(x, y, p);
    lemma_sub_mod_noop(x, y, p);
    lemma_mul_mod_noop(x, y, p);
}

/// An element of the scalar field of BN254, held as the limbs of its
/// representative below the modulus.
#[derive(Clone, Copy, Debug)]
pub struct Fr {
    l0: u64,
    l1: u64,
    l2: u64,
    l3: u64,
}

impl Fr {
    #[verifier::type_invariant]
    spec fn canonical(self) -> bool {
        limbs_value(self.l0, self.l1, self.l2, self.l3) < modulus()
    }
}

impl View for Fr {
    type V = nat;

    closed spec fn view(&self) -> nat {
        limbs_value(self.l0, self.l1, self.l2, self.l3) % modulus()
    }
}

/// The integers that a sequence of field elements stands for.
pub open spec fn values(s: Seq<Fr>) -> Seq<nat> {
    Seq::new(s.len(), |i: int| s[i]@)
}

/// Field elements are integers below the modulus.
pub broadcast proof fn lemma_fr_bound(x: Fr)
    ensures
        #[trigger] x@ < modulus(),
{
}

/// Every element of a sequence of field elements is below the modulus.
pub broadcast proof fn lemma_values_bound(s: Seq<Fr>, i: int)
    requires
        0 <= i < s.len(),
    ensures
        #[trigger] values(s)[i] < modulus(),
{
}

/// The lowest limb and what is above it are determined by the integer.
proof fn lemma_lowest_limb(a: nat, high_a: nat, b: nat, high_b: nat)
    requires
        a < 0x1_0000_0000_0000_0000,
        b < 0x1_0000_0000_0000_0000,
        a + 0x1_0000_0000_0000_0000 * high_a == b + 0x1_0000_0000_0000_0000 * high_b,
    ensures
        a == b,
        high_a == high_b,
{
}

/// Limbs are determined by the integer they write.
proof fn lemma_limbs_unique(a0: u64, a1: u64, a2: u64, a3: u64, b0: u64, b1: u64, b2: u64, b3: u64)
    requires
        limbs_value(a0, a1, a2, a3) == limbs_value(b0, b1, b2, b3),
    ensures
        a0 == b0,
        a1 == b1,
        a2 == b2,
        a3 == b3,
{
    let limb = 0x1_0000_0000_0000_0000nat;
    let a23 = a2 as nat + limb * a3 as nat;
    let b23 = b2 as nat + limb * b3 as nat;
    let a123 = a1 as nat + limb * a23;
    let b123 = b1 as nat + limb * b23;
    assert(limbs_value(a0, a1, a2, a3) == a0 as nat + limb * a123);
    assert(limbs_value(b0, b1, b2, b3) == b0 as nat + limb * b123);
    lemma_lowest_limb(a0 as nat, a123, b0 as nat, b123);
    lemma_lowest_limb(a1 as nat, a23, b1 as nat, b23);
    lemma_lowest_limb(a2 as nat, a3 as nat, b2 as nat, b3 as nat);
}

impl PartialEq for Fr {
    /// Whether two elements are the same element of the field.
    fn eq(&self, other: &Fr) -> (r: bool) {
        proof {
            use_type_invariant(self);
            use_type_invariant(other);
            if self@ == other@ {
                lemma_limbs_unique(
                    self.l0,
                    self.l1,
                    self.l2,
                    self.l3,
                    other.l0,
                    other.l1,
                    other.l2,
                    other.l3,
                );
            }
        }
        self.l0 == other.l0 && self.l1 == other.l1 && self.l2 == other.l2 && self.l3 == other.l3
    }
}

impl vstd::std_specs::cmp::PartialEqSpecImpl for Fr {
    open spec fn obeys_eq_spec() -> bool {
        true
    }

    open spec fn eq_spec(&self, other: &Fr) -> bool {
        self@ == other@
    }
}

impl Fr {
    /// The element zero.
    pub fn zero() -> (r: Fr)
        ensures
            r@ == 0,
    {
        Fr { l0: 0, l1: 0, l2: 0, l3: 0 }
    }

    /// The element one.
    pub fn one() -> (r: Fr)
        ensures
            r@ == 1,
    {
        Fr { l0: 1, l1: 0, l2: 0, l3: 0 }
    }

    /// The element that a machine integer stands for.
    pub fn from_u64(n: u64) -> (r: Fr)
        ensures
            r@ == n,
    {
        Fr { l0: n, l1: 0, l2: 0, l3: 0 }
    }

    /// The limbs of the representative, least significant first.
    pub(crate) fn limbs(&self) -> (r: [u64; 4])
        ensures
            limbs_value(r@[0], r@[1], r@[2], r@[3]) == self@,
    {
        proof {
            use_type_invariant(self);
        }
        [self.l0, self.l1, self.l2, self.l3]
    }

    /// The element with the given limbs.
    pub(crate) fn from_limbs(limbs: [u64; 4]) -> (r: Fr)
        requires
            limbs_value(limbs@[0], limbs@[1], limbs@[2], limbs@[3]) < modulus(),
        ensures
            r@ == limbs_value(limbs@[0], limbs@[1], limbs@[2], limbs@[3]),
    {
        Fr { l0: limbs[0], l1: limbs[1], l2: limbs[2], l3: limbs[3] }
    }

    /// Whether this is the element zero.
    pub fn is_zero(&self) -> (r: bool)
        ensures
            r == (self@ == 0),
    {
        *self == Fr::zero()
    }

    /// The low 64 bits of the representative.
    pub fn low_u64(&self) -> (r: u64)
        ensures
            r == self@ % 0x1_0000_0000_0000_0000,
    {
        proof {
            use_type_invariant(self);
            let v = limbs_value(self.l0, self.l1, self.l2, self.l3);
            lemma_small_mod(v, modulus());
            let q = self.l1 + self.l2 * 0x1_0000_0000_0000_0000 + self.l3
                * 0x1_0000_0000_0000_0000_0000_0000_0000_0000int;
            lemma_fundamental_div_mod_converse(
                v as int,
                0x1_0000_0000_0000_0000,
                q,
                self.l0 as int,
            );
        }
        self.l0
    }

    /// Whether this representative is below the other.
    pub fn less_than(&self, other: &Fr) -> (r: bool)
        ensures
            r == (self@ < other@),
    {
        proof {
            use_type_invariant(self);
            use_type_invariant(other);
        }
        if self.l3 != other.l3 {
            self.l3 < other.l3
        } else if self.l2 != other.l2 {
            self.l2 < other.l2
        } else if self.l1 != other.l1 {
            self.l1 < other.l1
        } else {
            self.l0 < other.l0
        }
    }

    /// The sum, by `ark_bn254::Fr`'s `+`: addition modulo the field's order.
    #[verifier::external_body]
    fn ark_add(self, other: Fr) -> (r: Fr)
        ensures
            r@ == fadd(self@, other@),
    {
        let a = ArkFr::new(BigInt::new([self.l0, self.l1, self.l2, self.l3]));
        let b = ArkFr::new(BigInt::new([other.l0, other.l1, other.l2, other.l3]));
        let [l0, l1, l2, l3] = (a + b).into_bigint().0;
        Fr { l0, l1, l2, l3 }
    }

    /// The difference, by `ark_bn254::Fr`'s `-`: subtraction modulo the field's
    /// order.
    #[verifier::external_body]
    pub(crate) fn minus(self, other: Fr) -> (r: Fr)
        ensures
            r@ == fsub(self@, other@),
    {
        let a = ArkFr::new(BigInt::new([self.l0, self.l1, self.l2, self.l3]));
        let b = ArkFr::new(BigInt::new([other.l0, other.l1, other.l2, other.l3]));
        let [l0, l1, l2, l3] = (a - b).into_bigint().0;
        Fr { l0, l1, l2, l3 }
    }

    /// The product, by `ark_bn254::Fr`'s `*`: multiplication modulo the field's
    /// order.
    #[verifier::external_body]
    pub(crate) fn times(self, other: Fr) -> (r: Fr)
        ensures
            r@ == fmul(self@, other@),
    {
        let a = ArkFr::new(BigInt::new([self.l0, self.l1, self.l2, self.l3]));
        let b = ArkFr::new(BigInt::new([other.l0, other.l1, other.l2, other.l3]));
        let [l0, l1, l2, l3] = (a * b).into_bigint().0;
        Fr { l0, l1, l2, l3 }
    }

    /// The square, by `ark_ff::Field::square`.
    #[verifier::external_body]
    pub(crate) fn square(self) -> (r: Fr)
        ensures
            r@ == fmul(self@, self@),
    {
        let a = ArkFr::new(BigInt::new([self.l0, self.l1, self.l2, self.l3]));
        let [l0, l1, l2, l3] = a.square().into_bigint().0;
        Fr { l0, l1, l2, l3 }
    }

    /// The power with an exponent given by its limbs, by `ark_ff::Field::pow`:
    /// exponentiation modulo the field's order.
    #[verifier::external_body]
    pub(crate) fn pow(self, exponent: [u64; 4]) -> (r: Fr)
        ensures
            r@ == pow(
                self@ as int,
                limbs_value(exponent@[0], exponent@[1], exponent@[2], exponent@[3]),
            ) % modulus() as int,
    {
        let a = ArkFr::new(BigInt::new([self.l0, self.l1, self.l2, self.l3]));
        let [l0, l1, l2, l3] = a.pow(exponent).into_bigint().0;
        Fr { l0, l1, l2, l3 }
    }

    /// The multiplicative inverse, by `ark_ff::Field::inverse`: zero has none,
    /// and any other element times its inverse is one.
    #[verifier::external_body]
    pub(crate) fn inverse(self) -> (r: Option<Fr>)
        ensures
            r is None <==> self@ == 0,
            r matches Some(inv) ==> fmul(self@, inv@) == 1,
    {
        let a = ArkFr::new(BigInt::new([self.l0, self.l1, self.l2, self.l3]));
        a.inverse().map(|inv| {
            let [l0, l1, l2, l3] = inv.into_bigint().0;
            Fr { l0, l1, l2, l3 }
        })
    }

    /// Bytes as a big-endian integer modulo the field's order, by
    /// `ark_ff::PrimeField::from_be_bytes_mod_order`.
    #[verifier::external_body]
    pub(crate) fn from_be_bytes_mod_order(bytes: &[u8]) -> (r: Fr)
        ensures
            r@ == be_value(bytes@) % modulus(),
    {
        let [l0, l1, l2, l3] = ArkFr::from_be_bytes_mod_order(bytes).into_bigint().0;
        Fr { l0, l1, l2, l3 }
    }

    /// Bytes as a little-endian integer modulo the field's order, by
    /// `ark_ff::PrimeField::from_le_bytes_mod_order`.
    #[verifier::external_body]
    pub(crate) fn from_le_bytes_mod_order(bytes: &[u8]) -> (r: Fr)
        ensures
            r@ == le_value(bytes@) % modulus(),
    {
        let [l0, l1, l2, l3] = ArkFr::from_le_bytes_mod_order(bytes).into_bigint().0;
        Fr { l0, l1, l2, l3 }
    }

    /// The representative as 32 big-endian bytes, by
    /// `ark_ff::BigInteger::to_bytes_be`.
    #[verifier::external_body]
    fn ark_bytes_be(&self) -> (r: Vec<u8>)
        ensures
            r@.len() == 32,
            be_value(r@) == self@,
    {
        BigInt::<4>::new([self.l0, self.l1, self.l2, self.l3]).to_bytes_be()
    }

    /// The decimal text of the representative, by `ark_bn254::Fr`'s `Display`,
    /// which drops every leading zero and so writes zero as the empty text.
    #[verifier::external_body]
    fn ark_text(&self) -> (r: String)
        ensures
            r@ == field_text(self@),
    {
        ArkFr::new(BigInt::new([self.l0, self.l1, self.l2, self.l3])).to_string()
    }

    /// The element that decimal text denotes, by `ark_bn254::Fr`'s `FromStr`:
    /// digits only, no unnecessary leading zero, not empty, and any value,
    /// which is reduced.
    #[verifier::external_body]
    fn ark_parse(s: &str) -> (r: Option<Fr>)
        ensures
            r matches Some(x) ==> field_of_text(s@) == Some(x@),
            r is None ==> field_of_text(s@) is None,
    {
        s.parse::<ArkFr>().ok().map(|x| {
            let [l0, l1, l2, l3] = x.into_bigint().0;
            Fr { l0, l1, l2, l3 }
        })
    }
}

impl Fr {
    /// The sum of two elements.
    pub fn plus(self, other: Fr) -> (r: Fr)
        ensures
            r@ == fadd(self@, other@),
    {
        self.ark_add(other)
    }

    /// The representative as 32 big-endian bytes.
    pub fn to_bytes_be(&self) -> (r: Vec<u8>)
        ensures
            r@.len() == 32,
            be_value(r@) == self@,
    {
        self.ark_bytes_be()
    }

    /// The decimal text of the element.
    pub fn to_text(&self) -> (r: String)
        ensures
            r@ == field_text(self@),
    {
        self.ark_text()
    }

    /// The element that a decimal text denotes, if it denotes one.
    pub fn from_text(s: &str) -> (r: Option<Fr>)
        ensures
            r matches Some(x) ==> field_of_text(s@) == Some(x@),
            r is None ==> field_of_text(s@) is None,
    {
        Fr::ark_parse(s)
    }
}

/// Text written from a field element other than zero reads back as that
/// element; the text of zero does not read back.
pub proof fn lemma_text_round_trip(value: nat)
    requires
        value < modulus(),
    ensures
        value > 0 ==> field_of_text(field_text(value)) == Some(value),
        value == 0 ==> field_of_text(field_text(value)) is None,
{
    text::lemma_decimal(value);
}

/// The bytes of an integer write it, and an integer that they cannot write its rest.
pub proof fn lemma_be_value(value: nat, count: nat)
    ensures
        be_bytes(value, count).len() == count,
        be_value(be_bytes(value, count)) == value % (vstd::arithmetic::power::pow(
            256,
            count,
        ) as nat),
    decreases count,
{
    vstd::arithmetic::power::lemma_pow_positive(256, count);
    let m = vstd::arithmetic::power::pow(256, count) as nat;
    if count == 0 {
        vstd::arithmetic::power::lemma_pow0(256);
        assert(value % 1 == 0) by (nonlinear_arith);
    } else {
        let low = (count - 1) as nat;
        vstd::arithmetic::power::lemma_pow_positive(256, low);
        let k = vstd::arithmetic::power::pow(256, low) as nat;
        lemma_be_value(value / 256, low);
        let bytes = be_bytes(value, count);
        assert(bytes.drop_last() =~= be_bytes(value / 256, low));
        reveal(vstd::arithmetic::power::pow);
        assert(m == 256 * k);
        vstd::arithmetic::div_mod::lemma_mod_breakdown(value as int, 256, k as int);
        assert(value % (256 * k) == 256 * ((value / 256) % k) + value % 256);
    }
}

} // verus!
