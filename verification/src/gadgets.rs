//! The trusted boundary around the `bellman` constraint system and the
//! `sapling-crypto` Pedersen hash.
//!
//! Every function here marked `external_body` wraps one operation of an
//! outside crate; its contract states what that crate's source shows of the
//! operation. The circuits in the rest of this crate are verified against
//! these contracts alone.
//!
//! Uninterpreted names model the opaque system: [`cs_id`], the identity of
//! its allocation arena, which every witness cell records as its owner and
//! every use requires to match (a `bellman` variable is a bare index, so a
//! cell is meaningful only in the system that allocated it); [`cs_used`],
//! the set of namespace ordinals the system has consumed (it panics when a
//! path is reused, so every wrapper that touches it takes a fresh ordinal
//! `n`); [`cs_sat`], whether every registered constraint is satisfied by
//! the assignment the system holds; and [`cs_inputs`], the assigned values
//! of the public inputs after the fixed constant one, in allocation
//! order.

use vstd::prelude::*;
use bellman::ConstraintSystem;
use bellman::LinearCombination;
use bellman::SynthesisError;
use bellman::gadgets::boolean::AllocatedBit;
use bellman::gadgets::boolean::Boolean;
use bellman::gadgets::multipack;
use bellman::gadgets::num::AllocatedNum;
use bellman::gadgets::sha256::sha256_block_no_padding;
use bellman::gadgets::test::TestConstraintSystem;
use bls12_381::Scalar;
use ff::Field;
use ff::PrimeField;
use crate::bits::{bits_val, canonical_scalar, le_bits, le_bytes_of};

verus! {

/// The `bellman` test constraint system, held behind an opaque struct
/// because its generic parameter is bound by an outside trait. The field is
/// public so that unverified test harnesses can query satisfaction.
#[verifier::external_body]
pub struct ConstraintSys {
    pub inner: TestConstraintSystem<Scalar>,
}

#[verifier::external_type_specification]
#[verifier::external_body]
pub struct ExBoolean(Boolean);

/// An allocated field-element witness of `bellman`, held behind an opaque
/// struct because its generic parameter is bound by an outside trait.
#[verifier::external_body]
pub struct NumVar {
    pub inner: AllocatedNum<Scalar>,
}

/// A `bellman` linear combination, held behind an opaque struct because
/// its generic parameter is bound by an outside trait.
#[verifier::external_body]
pub struct Lc {
    pub inner: LinearCombination<Scalar>,
}

#[verifier::external_type_specification]
#[verifier::external_body]
pub struct ExSynthesisError(SynthesisError);

/// The identity of the allocation arena behind a constraint system: a
/// witness allocated in one system may only be used with that system,
/// since the underlying variables are bare indices into their own arena.
/// Every wrapper preserves it.
pub uninterp spec fn cs_id(cs: ConstraintSys) -> int;

/// The set of ordinals whose namespaces a constraint system has already
/// consumed; a wrapper may only open a namespace for a fresh ordinal.
pub uninterp spec fn cs_used(cs: ConstraintSys) -> Set<int>;

/// Whether every constraint registered in the system is satisfied by the
/// assignment the system holds.
pub uninterp spec fn cs_sat(cs: ConstraintSys) -> bool;

/// The assigned values of the system's public inputs after the fixed
/// constant one, in allocation order, each as canonical little-endian
/// bytes.
pub uninterp spec fn cs_inputs(cs: ConstraintSys) -> Seq<Seq<u8>>;

/// The canonical little-endian encoding of the u-coordinate of the Jubjub
/// Pedersen hash over a personalization tag and a bit sequence.
pub uninterp spec fn pedersen_hash_u(person: int, bits: Seq<bool>) -> Seq<u8>;

/// The 256 output bits of the SHA-256 compression function applied to a
/// 512-bit block, with no padding.
pub uninterp spec fn sha_block_digest(block: Seq<bool>) -> Seq<bool>;

/// The terms, in order, of a linear combination built from boolean
/// witnesses: each term's coefficient and the assignment its witness
/// holds.
pub uninterp spec fn lc_terms(lc: Lc) -> Seq<(nat, bool)>;

/// The value a sequence of weighted boolean terms sums to.
pub open spec fn lc_terms_sum(terms: Seq<(nat, bool)>) -> nat
    decreases terms.len(),
{
    if terms.len() == 0 {
        0
    } else {
        (if terms[0].1 {
            terms[0].0
        } else {
            0
        }) + lc_terms_sum(terms.drop_first())
    }
}

/// Summing one more term adds its weighted assignment.
pub proof fn lemma_lc_terms_sum_snoc(terms: Seq<(nat, bool)>, t: (nat, bool))
    ensures
        lc_terms_sum(terms.push(t)) == lc_terms_sum(terms) + (if t.1 {
            t.0
        } else {
            0
        }),
    decreases terms.len(),
{
    let p1 = terms.push(t);
    assert(p1.len() == terms.len() + 1);
    if terms.len() == 0 {
        assert(p1[0] == t);
        assert(p1.drop_first() =~= terms);
    } else {
        assert(p1[0] == terms[0]);
        assert(p1.drop_first() =~= terms.drop_first().push(t));
        lemma_lc_terms_sum_snoc(terms.drop_first(), t);
    }
}

/// Every ordinal at or above `k` is still fresh in `cs`.
pub open spec fn fresh_from(cs: ConstraintSys, k: u64) -> bool {
    forall|m: int| m >= k ==> !cs_used(cs).contains(m)
}

/// The values the public-input packing of a bit string yields: the bits in
/// groups of 254 (the scalar field's capacity), each group read least
/// significant bit first and encoded as a 32-byte scalar.
pub open spec fn packed_scalars(bits: Seq<bool>) -> Seq<Seq<u8>>
    decreases bits.len(),
{
    if bits.len() == 0 {
        Seq::empty()
    } else if bits.len() <= 254 {
        seq![le_bytes_of(bits_val(bits), 32)]
    } else {
        seq![le_bytes_of(bits_val(bits.take(254)), 32)] + packed_scalars(bits.skip(254))
    }
}

/// A boolean witness together with the assignment it was allocated from.
///
/// The fields are private: every value of this type is built by a wrapper
/// in this module, which fills `value` from the same source as the
/// gadget's own assignment, so contracts over [`BitCell::spec_value`]
/// describe the witness the constraint system holds. `from_alloc` records
/// whether the witness is a directly allocated bit (as opposed to a bit
/// derived inside an outside gadget), which is what lets a linear
/// combination count it as a single term. `owner` records the identity of
/// the system the witness was allocated in; every use requires it to
/// match. The ghost fields are erased at run time; the wrappers' contracts
/// pin their values.
pub struct BitCell {
    b: Boolean,
    value: Option<bool>,
    from_alloc: Ghost<bool>,
    owner: Ghost<int>,
}

impl BitCell {
    /// The assignment this boolean witness carries, if one was supplied.
    pub closed spec fn spec_value(&self) -> Option<bool> {
        self.value
    }

    /// Whether this witness is a directly allocated bit.
    pub closed spec fn spec_from_alloc(&self) -> bool {
        self.from_alloc@
    }

    /// The identity of the system this witness was allocated in.
    pub closed spec fn spec_owner(&self) -> int {
        self.owner@
    }

    /// The assignment this boolean witness carries, if one was supplied.
    pub fn value(&self) -> (r: Option<bool>)
        ensures
            r == self.spec_value(),
    {
        self.value
    }
}

/// A field-element witness together with the canonical little-endian
/// encoding of its assignment. The fields are private for the same reason
/// as [`BitCell`]'s.
pub struct NumCell {
    num: NumVar,
    value: Option<[u8; 32]>,
    owner: Ghost<int>,
}

impl NumCell {
    /// The encoded assignment this witness carries, if one was supplied.
    pub closed spec fn spec_value(&self) -> Option<[u8; 32]> {
        self.value
    }

    /// The identity of the system this witness was allocated in.
    pub closed spec fn spec_owner(&self) -> int {
        self.owner@
    }

    /// The encoded assignment this witness carries, if one was supplied.
    pub fn value(&self) -> (r: Option<[u8; 32]>)
        ensures
            r == self.spec_value(),
    {
        self.value
    }
}

/// Every cell in the sequence carries an assignment.
pub open spec fn bits_all_known(s: Seq<BitCell>) -> bool {
    forall|i: int| 0 <= i < s.len() ==> s[i].spec_value() is Some
}

/// The assignments of a sequence of cells that are all known.
pub open spec fn bits_values(s: Seq<BitCell>) -> Seq<bool> {
    Seq::new(s.len(), |i: int| s[i].spec_value().unwrap())
}

/// Every cell in the sequence was allocated in the system with this
/// identity.
pub open spec fn bits_owned_by(s: Seq<BitCell>, id: int) -> bool {
    forall|i: int| 0 <= i < s.len() ==> s[i].spec_owner() == id
}

/// Relies on `TestConstraintSystem::new`: a fresh system holds only the
/// constant input `ONE`, no constraints and no namespaces.
#[verifier::external_body]
pub fn new_test_cs() -> (cs: ConstraintSys)
    ensures
        cs_used(cs) == Set::<int>::empty(),
        cs_sat(cs),
        cs_inputs(cs) == Seq::<Seq<u8>>::empty(),
{
    ConstraintSys { inner: TestConstraintSystem::new() }
}

/// Relies on `AllocatedBit::alloc`: allocates a boolean witness under the
/// constraint `(1 - a) * a = 0`, which its 0-or-1 assignment satisfies,
/// failing exactly when the assignment is missing. No public input is
/// touched.
#[verifier::external_body]
pub fn alloc_bit(cs: &mut ConstraintSys, n: u64, value: Option<bool>) -> (r: Result<
    BitCell,
    SynthesisError,
>)
    requires
        !cs_used(*old(cs)).contains(n as int),
    ensures
        cs_id(*final(cs)) == cs_id(*old(cs)),
        cs_used(*final(cs)) == cs_used(*old(cs)).insert(n as int),
        cs_sat(*final(cs)) == cs_sat(*old(cs)),
        cs_inputs(*final(cs)) == cs_inputs(*old(cs)),
        r is Ok <==> value is Some,
        r matches Ok(c) ==> c.spec_value() == value && c.spec_from_alloc() && c.spec_owner()
            == cs_id(*old(cs)),
{
    match AllocatedBit::alloc(cs.inner.namespace(|| format!("g {}", n)), value) {
        Ok(b) => Ok(BitCell { b: Boolean::from(b), value, from_alloc: Ghost(true), owner: Ghost(0) }),
        Err(e) => Err(e),
    }
}

/// Relies on `AllocatedNum::alloc` and `Scalar::from_repr`: allocates an
/// unconstrained field-element witness from its canonical little-endian
/// encoding, failing exactly when the assignment is missing or is not a
/// canonical encoding. No constraint or public input is touched.
#[verifier::external_body]
pub fn alloc_num(cs: &mut ConstraintSys, n: u64, value: Option<[u8; 32]>) -> (r: Result<
    NumCell,
    SynthesisError,
>)
    requires
        !cs_used(*old(cs)).contains(n as int),
    ensures
        cs_id(*final(cs)) == cs_id(*old(cs)),
        cs_used(*final(cs)) == cs_used(*old(cs)).insert(n as int),
        cs_sat(*final(cs)) == cs_sat(*old(cs)),
        cs_inputs(*final(cs)) == cs_inputs(*old(cs)),
        r is Ok <==> (value matches Some(v) && canonical_scalar(v@)),
        r matches Ok(c) ==> c.spec_value() == value && c.spec_owner() == cs_id(*old(cs)),
{
    let out = AllocatedNum::alloc(cs.inner.namespace(|| format!("g {}", n)), || {
        let bytes = value.ok_or(SynthesisError::AssignmentMissing)?;
        Option::from(Scalar::from_repr(bytes)).ok_or(SynthesisError::Unsatisfiable)
    });
    match out {
        Ok(num) => Ok(NumCell { num: NumVar { inner: num }, value, owner: Ghost(0) }),
        Err(e) => Err(e),
    }
}

/// Relies on `AllocatedNum::to_bits_le`: allocates the 255 little-endian
/// bits of this witness's assignment, each under a boolean constraint, and
/// one unpacking constraint tying their weighted sum back to the witness;
/// the decomposition of the held assignment satisfies all of them. No
/// public input is touched.
#[verifier::external_body]
pub fn num_to_bits_le(cs: &mut ConstraintSys, n: u64, x: &NumCell) -> (r: Result<
    Vec<BitCell>,
    SynthesisError,
>)
    requires
        !cs_used(*old(cs)).contains(n as int),
        x.spec_value() is Some,
        x.spec_owner() == cs_id(*old(cs)),
    ensures
        cs_id(*final(cs)) == cs_id(*old(cs)),
        cs_used(*final(cs)) == cs_used(*old(cs)).insert(n as int),
        cs_sat(*final(cs)) == cs_sat(*old(cs)),
        cs_inputs(*final(cs)) == cs_inputs(*old(cs)),
        r is Ok,
        r matches Ok(out) ==> out@.len() == 255 && bits_all_known(out@) && bits_values(out@)
            == le_bits(x.spec_value().unwrap()@, 255) && bits_owned_by(out@, cs_id(*old(cs))),
{
    let out = x.num.inner.to_bits_le(cs.inner.namespace(|| format!("g {}", n)));
    match out {
        Ok(bits) => Ok(
            bits.into_iter().map(
                |b| BitCell { value: b.get_value(), b, from_alloc: Ghost(false), owner: Ghost(0) },
            ).collect(),
        ),
        Err(e) => Err(e),
    }
}

/// Relies on `AllocatedNum::conditionally_reverse`: allocates `(c, d)`
/// under two constraints forcing them to equal `(a, b)` when the condition
/// bit is 0 and `(b, a)` when it is 1; the assignments it computes satisfy
/// both. No public input is touched.
#[verifier::external_body]
pub fn cond_reverse(
    cs: &mut ConstraintSys,
    n: u64,
    a: &NumCell,
    b: &NumCell,
    cond: &BitCell,
) -> (r: Result<(NumCell, NumCell), SynthesisError>)
    requires
        !cs_used(*old(cs)).contains(n as int),
        a.spec_value() is Some,
        b.spec_value() is Some,
        cond.spec_value() is Some,
        a.spec_owner() == cs_id(*old(cs)),
        b.spec_owner() == cs_id(*old(cs)),
        cond.spec_owner() == cs_id(*old(cs)),
    ensures
        cs_id(*final(cs)) == cs_id(*old(cs)),
        cs_used(*final(cs)) == cs_used(*old(cs)).insert(n as int),
        cs_sat(*final(cs)) == cs_sat(*old(cs)),
        cs_inputs(*final(cs)) == cs_inputs(*old(cs)),
        r is Ok,
        r matches Ok(p) ==> p.0.spec_owner() == cs_id(*old(cs)) && p.1.spec_owner() == cs_id(
            *old(cs),
        ),
        r matches Ok(p) ==> p.0.spec_value() == (if cond.spec_value().unwrap() {
            b.spec_value()
        } else {
            a.spec_value()
        }),
        r matches Ok(p) ==> p.1.spec_value() == (if cond.spec_value().unwrap() {
            a.spec_value()
        } else {
            b.spec_value()
        }),
{
    let ns = cs.inner.namespace(|| format!("g {}", n));
    match AllocatedNum::conditionally_reverse(ns, &a.num.inner, &b.num.inner, &cond.b) {
        Ok((c, d)) => {
            let cv = c.get_value().map(|s| s.to_repr());
            let dv = d.get_value().map(|s| s.to_repr());
            Ok((NumCell { num: NumVar { inner: c }, value: cv, owner: Ghost(0) },
                NumCell { num: NumVar { inner: d }, value: dv, owner: Ghost(0) }))
        },
        Err(e) => Err(e),
    }
}

/// Relies on `sapling_crypto::merkle_hash`: computes, outside any
/// constraint system, the Pedersen hash of one Merkle layer — the layer
/// depth as the personalization tag over the 255 little-endian bits of
/// each child — and returns the canonical encoding of the u-coordinate.
/// The tag construction asserts that the depth is below 63.
#[verifier::external_body]
pub fn hash_layer(depth: usize, lhs: &[u8; 32], rhs: &[u8; 32]) -> (r: [u8; 32])
    requires
        depth < 63,
    ensures
        r@ == pedersen_hash_u(depth as int, le_bits(lhs@, 255) + le_bits(rhs@, 255)),
        canonical_scalar(r@),
{
    sapling_crypto::merkle_hash(depth, lhs, rhs)
}

/// Relies on `sha256_block_no_padding`: registers the SHA-256 compression
/// function over a 512-bit block whose assignments are all known,
/// returning its 256 output bits; the computed assignments satisfy every
/// registered constraint, and the output assignments are the compression
/// of the input assignments. No public input is touched.
#[verifier::external_body]
pub fn sha256_block(cs: &mut ConstraintSys, n: u64, input: &Vec<BitCell>) -> (r: Result<
    Vec<BitCell>,
    SynthesisError,
>)
    requires
        input@.len() == 512,
        bits_all_known(input@),
        bits_owned_by(input@, cs_id(*old(cs))),
        !cs_used(*old(cs)).contains(n as int),
    ensures
        cs_id(*final(cs)) == cs_id(*old(cs)),
        cs_used(*final(cs)) == cs_used(*old(cs)).insert(n as int),
        cs_sat(*final(cs)) == cs_sat(*old(cs)),
        cs_inputs(*final(cs)) == cs_inputs(*old(cs)),
        r is Ok,
        r matches Ok(out) ==> out@.len() == 256 && bits_all_known(out@) && bits_values(out@)
            == sha_block_digest(bits_values(input@)) && bits_owned_by(out@, cs_id(*old(cs))),
{
    let booleans: Vec<Boolean> = input.iter().map(|c| c.b.clone()).collect();
    let out = sha256_block_no_padding(cs.inner.namespace(|| format!("g {}", n)), &booleans);
    match out {
        Ok(digest) => Ok(
            digest.into_iter().map(
                |b| BitCell { value: b.get_value(), b, from_alloc: Ghost(false), owner: Ghost(0) },
            ).collect(),
        ),
        Err(e) => Err(e),
    }
}

/// Relies on `multipack::pack_into_inputs`: packs bits whose assignments
/// are all known into groups of the field's capacity (254 bits), allocates
/// one public input per group holding the group's weighted sum (least
/// significant bit of each group first), and constrains each input to that
/// sum, which its assignment satisfies.
#[verifier::external_body]
pub fn pack_bits_into_inputs(cs: &mut ConstraintSys, n: u64, bits: &Vec<BitCell>) -> (r: Result<
    (),
    SynthesisError,
>)
    requires
        !cs_used(*old(cs)).contains(n as int),
        bits_all_known(bits@),
        bits_owned_by(bits@, cs_id(*old(cs))),
    ensures
        cs_id(*final(cs)) == cs_id(*old(cs)),
        cs_used(*final(cs)) == cs_used(*old(cs)).insert(n as int),
        cs_sat(*final(cs)) == cs_sat(*old(cs)),
        cs_inputs(*final(cs)) == cs_inputs(*old(cs)) + packed_scalars(bits_values(bits@)),
        r is Ok,
{
    let booleans: Vec<Boolean> = bits.iter().map(|c| c.b.clone()).collect();
    multipack::pack_into_inputs(cs.inner.namespace(|| format!("g {}", n)), &booleans)
}

/// Relies on `AllocatedNum::inputize`: allocates one public input holding
/// this witness's assignment and constrains the two equal, which the
/// shared assignment satisfies.
#[verifier::external_body]
pub fn inputize_num(cs: &mut ConstraintSys, n: u64, x: &NumCell) -> (r: Result<
    (),
    SynthesisError,
>)
    requires
        !cs_used(*old(cs)).contains(n as int),
        x.spec_value() is Some,
        x.spec_owner() == cs_id(*old(cs)),
    ensures
        cs_id(*final(cs)) == cs_id(*old(cs)),
        cs_used(*final(cs)) == cs_used(*old(cs)).insert(n as int),
        cs_sat(*final(cs)) == cs_sat(*old(cs)),
        cs_inputs(*final(cs)) == cs_inputs(*old(cs)).push(x.spec_value().unwrap()@),
        r is Ok,
{
    x.num.inner.inputize(cs.inner.namespace(|| format!("g {}", n)))
}

/// Relies on `TestConstraintSystem::enforce`: registers the single
/// constraint `(a - b) * 1 = 0`, which the held assignments satisfy
/// exactly when the two field-element witnesses are equal — that is, when
/// their canonical encodings agree. No public input is touched.
#[verifier::external_body]
pub fn enforce_equal(cs: &mut ConstraintSys, n: u64, a: &NumCell, b: &NumCell)
    requires
        !cs_used(*old(cs)).contains(n as int),
        a.spec_value() is Some,
        b.spec_value() is Some,
        a.spec_owner() == cs_id(*old(cs)),
        b.spec_owner() == cs_id(*old(cs)),
    ensures
        cs_id(*final(cs)) == cs_id(*old(cs)),
        cs_used(*final(cs)) == cs_used(*old(cs)).insert(n as int),
        cs_inputs(*final(cs)) == cs_inputs(*old(cs)),
        cs_sat(*final(cs)) == (cs_sat(*old(cs)) && a.spec_value().unwrap()@ == b.spec_value()
            .unwrap()@),
{
    let mut ns = cs.inner.namespace(|| format!("g {}", n));
    ns.enforce(
        || "equality",
        |lc| lc + a.num.inner.get_variable() - b.num.inner.get_variable(),
        |lc| lc + TestConstraintSystem::<Scalar>::one(),
        |lc| lc,
    );
}

/// Relies on `TestConstraintSystem::enforce` and `Boolean::lc`: registers
/// the single constraint `sel * (b - a) = x - a` over boolean witnesses,
/// which the held 0-or-1 assignments satisfy exactly when `x` equals the
/// child the selection bit picks: `b` when the bit is set, else `a`. No
/// public input is touched.
#[verifier::external_body]
pub fn enforce_select(
    cs: &mut ConstraintSys,
    n: u64,
    sel: &BitCell,
    a: &BitCell,
    b: &BitCell,
    x: &BitCell,
)
    requires
        !cs_used(*old(cs)).contains(n as int),
        sel.spec_value() is Some,
        a.spec_value() is Some,
        b.spec_value() is Some,
        x.spec_value() is Some,
        sel.spec_owner() == cs_id(*old(cs)),
        a.spec_owner() == cs_id(*old(cs)),
        b.spec_owner() == cs_id(*old(cs)),
        x.spec_owner() == cs_id(*old(cs)),
    ensures
        cs_id(*final(cs)) == cs_id(*old(cs)),
        cs_used(*final(cs)) == cs_used(*old(cs)).insert(n as int),
        cs_inputs(*final(cs)) == cs_inputs(*old(cs)),
        cs_sat(*final(cs)) == (cs_sat(*old(cs)) && x.spec_value() == (if sel.spec_value()
            .unwrap() {
            b.spec_value()
        } else {
            a.spec_value()
        })),
{
    let one = TestConstraintSystem::<Scalar>::one();
    let mut ns = cs.inner.namespace(|| format!("g {}", n));
    ns.enforce(
        || "selection",
        |_| b.b.lc(one, Scalar::ONE) - &a.b.lc(one, Scalar::ONE),
        |_| sel.b.lc(one, Scalar::ONE),
        |_| x.b.lc(one, Scalar::ONE) - &a.b.lc(one, Scalar::ONE),
    );
}

/// Relies on `LinearCombination::zero`: the empty linear combination.
#[verifier::external_body]
pub fn lc_zero() -> (r: Lc)
    ensures
        lc_terms(r) == Seq::<(nat, bool)>::empty(),
{
    Lc { inner: LinearCombination::zero() }
}

/// Relies on `Boolean::lc`: appends one term to the linear combination — a
/// directly allocated boolean witness scaled by the given coefficient, so
/// the term carries that witness's assignment.
#[verifier::external_body]
pub fn lc_add_bit_scaled(lc: Lc, coeff: u64, c: &BitCell) -> (r: Lc)
    requires
        c.spec_from_alloc(),
        c.spec_value() is Some,
    ensures
        lc_terms(r) == lc_terms(lc).push((coeff as nat, c.spec_value().unwrap())),
{
    Lc { inner: lc.inner + &c.b.lc(TestConstraintSystem::<Scalar>::one(), Scalar::from(coeff)) }
}

/// Relies on `Boolean::clone`: copies the underlying witness reference, so
/// the copy carries the same assignment.
#[verifier::external_body]
pub fn clone_bit_cell(c: &BitCell) -> (r: BitCell)
    ensures
        r.spec_value() == c.spec_value(),
        r.spec_from_alloc() == c.spec_from_alloc(),
        r.spec_owner() == c.spec_owner(),
{
    BitCell { b: c.b.clone(), value: c.value, from_alloc: c.from_alloc, owner: c.owner }
}

/// Relies on `SynthesisError::Unsatisfiable`: the error this crate's
/// circuits reject malformed shapes and missing assignments with.
#[verifier::external_body]
pub fn err_unsatisfiable() -> SynthesisError {
    SynthesisError::Unsatisfiable
}

} // verus!
