//! The bit-oriented authentication-path walker: a join-split input proves
//! membership of a 256-bit leaf by climbing the tree with the SHA-256
//! compression function, and the witnessed root is packed into the public
//! inputs.

use vstd::prelude::*;
use vstd::arithmetic::power2::{lemma2_to64, lemma_pow2_strictly_increases, lemma_pow2_unfold, pow2};
use vstd::bits::lemma_u64_shl_is_mul;
use vstd::slice::slice_index_get;
use bellman::SynthesisError;
use crate::bits::{
    bits_val, bytes_bits_msb, chunks8_reversed, lemma_bits_val_snoc, lemma_u64_bits_le_val,
    u64_bit, u64_bits_le,
};
use crate::gadgets::{
    alloc_bit, bits_all_known, bits_owned_by, bits_values, clone_bit_cell, cs_id, cs_inputs,
    cs_sat, enforce_select, err_unsatisfiable, fresh_from, lc_add_bit_scaled, lc_terms,
    lc_terms_sum, lemma_lc_terms_sum_snoc, lc_zero, pack_bits_into_inputs, packed_scalars,
    sha256_block, sha_block_digest, BitCell, ConstraintSys, Lc,
};
use crate::merkle::path_values;

verus! {

/// The number of bits a byte string yields once the first `skip` are
/// discarded.
pub open spec fn skipped_len(total: int, skip: int) -> int {
    if total >= skip {
        total - skip
    } else {
        0
    }
}

/// Witnesses `num_bits` boolean values read from `value`, most significant
/// bit of each byte first, discarding the first `skip_bits`. With a
/// concrete byte string whose bit count after the skip differs from
/// `num_bits` it fails at once, allocating nothing and leaving the system
/// and the counter untouched: the mismatch is a caller error, and since
/// this crate's verified functions do not abort, the unsatisfiable error
/// is its failure signal. No constraint beyond the per-bit boolean
/// constraints and no public input is touched.
pub fn witness_bits(
    cs: &mut ConstraintSys,
    k: &mut u64,
    value: Option<&[u8]>,
    num_bits: usize,
    skip_bits: usize,
) -> (r: Result<Vec<BitCell>, SynthesisError>)
    requires
        fresh_from(*old(cs), *old(k)),
        *old(k) + num_bits <= u64::MAX,
        value matches Some(v) ==> v@.len() <= usize::MAX / 8,
    ensures
        fresh_from(*final(cs), *final(k)),
        *old(k) <= *final(k) <= *old(k) + num_bits,
        cs_id(*final(cs)) == cs_id(*old(cs)),
        cs_sat(*final(cs)) == cs_sat(*old(cs)),
        cs_inputs(*final(cs)) == cs_inputs(*old(cs)),
        r is Ok <==> ((value matches Some(v) && skipped_len(v@.len() * 8 as int, skip_bits as int)
            == num_bits) || (value is None && num_bits == 0)),
        value matches Some(v) ==> (skipped_len(v@.len() * 8 as int, skip_bits as int) != num_bits
            ==> *final(cs) == *old(cs) && *final(k) == *old(k)),
        r matches Ok(bits) ==> bits@.len() == num_bits && bits_owned_by(bits@, cs_id(*old(cs))),
        r matches Ok(bits) ==> (value matches Some(v) ==> (skip_bits <= v@.len() * 8
            ==> bits_all_known(bits@) && bits_values(bits@) == bytes_bits_msb(v@).skip(
            skip_bits as int,
        ))),
{
    match value {
        Some(v) => {
            let total = v.len() * 8;
            let avail = if total >= skip_bits {
                total - skip_bits
            } else {
                0
            };
            if avail != num_bits {
                return Err(err_unsatisfiable());
            }
            let mut out: Vec<BitCell> = Vec::new();
            for j in 0..num_bits
                invariant
                    fresh_from(*cs, *k),
                    *k == *old(k) + j,
                    *old(k) + num_bits <= u64::MAX,
                    cs_id(*cs) == cs_id(*old(cs)),
                    cs_sat(*cs) == cs_sat(*old(cs)),
                    cs_inputs(*cs) == cs_inputs(*old(cs)),
                    out@.len() == j,
                    bits_owned_by(out@, cs_id(*old(cs))),
                    total == v@.len() * 8,
                    num_bits > 0 ==> skip_bits + num_bits == total,
                    forall|jj: int|
                        0 <= jj < j ==> out@[jj].spec_value() == Some(
                            bytes_bits_msb(v@)[skip_bits + jj],
                        ),
            {
                let ai = skip_bits + j;
                let byte = *slice_index_get(v, ai / 8);
                let bit = (byte >> ((7 - (ai % 8)) as u8)) & 1 == 1;
                assert(bit == bytes_bits_msb(v@)[ai as int]);
                let n = *k;
                *k = n + 1;
                let cell = match alloc_bit(cs, n, Some(bit)) {
                    Ok(c) => c,
                    Err(e) => {
                        proof {
                            assert(false);
                        }
                        return Err(e);
                    },
                };
                out.push(cell);
            }
            proof {
                if skip_bits <= v@.len() * 8 {
                    assert(bits_values(out@) =~= bytes_bits_msb(v@).skip(skip_bits as int));
                }
            }
            Ok(out)
        },
        None => {
            if num_bits == 0 {
                Ok(Vec::new())
            } else {
                let n = *k;
                *k = n + 1;
                match alloc_bit(cs, n, None) {
                    Ok(_) => {
                        proof {
                            assert(false);
                        }
                        Err(err_unsatisfiable())
                    },
                    Err(e) => Err(e),
                }
            }
        },
    }
}

/// Witnesses a 256-bit value from 32 bytes, most significant bit first.
pub fn witness_u256(cs: &mut ConstraintSys, k: &mut u64, value: Option<&[u8; 32]>) -> (r: Result<
    Vec<BitCell>,
    SynthesisError,
>)
    requires
        fresh_from(*old(cs), *old(k)),
        *old(k) + 256 <= u64::MAX,
    ensures
        fresh_from(*final(cs), *final(k)),
        *old(k) <= *final(k) <= *old(k) + 256,
        cs_id(*final(cs)) == cs_id(*old(cs)),
        cs_sat(*final(cs)) == cs_sat(*old(cs)),
        cs_inputs(*final(cs)) == cs_inputs(*old(cs)),
        r is Ok <==> value is Some,
        r matches Ok(bits) ==> bits@.len() == 256 && bits_owned_by(bits@, cs_id(*old(cs))),
        r matches Ok(bits) ==> (value matches Some(v) ==> bits_all_known(bits@) && bits_values(
            bits@,
        ) == bytes_bits_msb(v@)),
{
    let r = match value {
        Some(a) => witness_bits(cs, k, Some(a.as_slice()), 256, 0),
        None => witness_bits(cs, k, None, 256, 0),
    };
    proof {
        if let Some(v) = value {
            assert(bytes_bits_msb(v@).skip(0) =~= bytes_bits_msb(v@));
        }
    }
    r
}

/// Witnesses a 252-bit value from 32 bytes, discarding the four leading
/// bits of the first byte.
pub fn witness_u252(cs: &mut ConstraintSys, k: &mut u64, value: Option<&[u8; 32]>) -> (r: Result<
    Vec<BitCell>,
    SynthesisError,
>)
    requires
        fresh_from(*old(cs), *old(k)),
        *old(k) + 252 <= u64::MAX,
    ensures
        fresh_from(*final(cs), *final(k)),
        *old(k) <= *final(k) <= *old(k) + 252,
        cs_id(*final(cs)) == cs_id(*old(cs)),
        cs_sat(*final(cs)) == cs_sat(*old(cs)),
        cs_inputs(*final(cs)) == cs_inputs(*old(cs)),
        r is Ok <==> value is Some,
        r matches Ok(bits) ==> bits@.len() == 252 && bits_owned_by(bits@, cs_id(*old(cs))),
        r matches Ok(bits) ==> (value matches Some(v) ==> bits_all_known(bits@) && bits_values(
            bits@,
        ) == bytes_bits_msb(v@).skip(4)),
{
    match value {
        Some(a) => witness_bits(cs, k, Some(a.as_slice()), 252, 4),
        None => witness_bits(cs, k, None, 252, 4),
    }
}

/// The 512-bit layer preimage: the two 256-bit children in order, the
/// accumulated child first unless the flip bit puts it on the right.
pub open spec fn swapped_preimage(lhs: Seq<bool>, rhs: Seq<bool>, flip: bool) -> Seq<bool> {
    if flip {
        rhs + lhs
    } else {
        lhs + rhs
    }
}

/// Selects between two boolean witnesses under a condition bit, enforcing
/// the selection with constraints: the first output equals `rhs` when the
/// condition is set, else `lhs`, and the second output is the other one.
/// The honest selections satisfy the registered constraints.
fn swap_bit(cs: &mut ConstraintSys, k: &mut u64, lhs: &BitCell, rhs: &BitCell, cond: &BitCell) -> (r:
    Result<(BitCell, BitCell), SynthesisError>)
    requires
        fresh_from(*old(cs), *old(k)),
        *old(k) + 4 <= u64::MAX,
        lhs.spec_owner() == cs_id(*old(cs)),
        rhs.spec_owner() == cs_id(*old(cs)),
        cond.spec_owner() == cs_id(*old(cs)),
    ensures
        fresh_from(*final(cs), *final(k)),
        *old(k) <= *final(k) <= *old(k) + 4,
        cs_id(*final(cs)) == cs_id(*old(cs)),
        cs_sat(*final(cs)) == cs_sat(*old(cs)),
        cs_inputs(*final(cs)) == cs_inputs(*old(cs)),
        r is Ok <==> (lhs.spec_value() is Some && rhs.spec_value() is Some && cond.spec_value()
            is Some),
        r matches Ok(p) ==> p.0.spec_owner() == cs_id(*old(cs)) && p.1.spec_owner() == cs_id(
            *old(cs),
        ),
        r matches Ok(p) ==> p.0.spec_value() == (if cond.spec_value().unwrap() {
            rhs.spec_value()
        } else {
            lhs.spec_value()
        }),
        r matches Ok(p) ==> p.1.spec_value() == (if cond.spec_value().unwrap() {
            lhs.spec_value()
        } else {
            rhs.spec_value()
        }),
{
    let xv: Option<bool> = match (cond.value(), lhs.value(), rhs.value()) {
        (Some(c), Some(l), Some(q)) => Some(
            if c {
                q
            } else {
                l
            },
        ),
        _ => None,
    };
    let yv: Option<bool> = match (cond.value(), lhs.value(), rhs.value()) {
        (Some(c), Some(l), Some(q)) => Some(
            if c {
                l
            } else {
                q
            },
        ),
        _ => None,
    };
    let n = *k;
    *k = n + 4;
    let x = alloc_bit(cs, n, xv)?;
    // cond * (rhs - lhs) = x - lhs forces x to the selected child.
    enforce_select(cs, n + 1, cond, lhs, rhs, &x);
    let y = alloc_bit(cs, n + 2, yv)?;
    // cond * (lhs - rhs) = y - rhs forces y to the other child.
    enforce_select(cs, n + 3, cond, rhs, lhs, &y);
    Ok((x, y))
}

/// Conditionally swaps two 256-bit witnessed values and concatenates them
/// into one 512-bit layer preimage, with the swap enforced bit by bit; the
/// honest selections satisfy every registered constraint.
pub fn conditionally_swap_u256(
    cs: &mut ConstraintSys,
    k: &mut u64,
    lhs: &Vec<BitCell>,
    rhs: &Vec<BitCell>,
    cond: &BitCell,
) -> (r: Result<Vec<BitCell>, SynthesisError>)
    requires
        lhs@.len() == 256,
        rhs@.len() == 256,
        fresh_from(*old(cs), *old(k)),
        *old(k) + 1024 <= u64::MAX,
        bits_owned_by(lhs@, cs_id(*old(cs))),
        bits_owned_by(rhs@, cs_id(*old(cs))),
        cond.spec_owner() == cs_id(*old(cs)),
    ensures
        fresh_from(*final(cs), *final(k)),
        *old(k) <= *final(k) <= *old(k) + 1024,
        cs_id(*final(cs)) == cs_id(*old(cs)),
        cs_sat(*final(cs)) == cs_sat(*old(cs)),
        cs_inputs(*final(cs)) == cs_inputs(*old(cs)),
        r is Ok <==> (cond.spec_value() is Some && bits_all_known(lhs@) && bits_all_known(rhs@)),
        r matches Ok(out) ==> out@.len() == 512 && bits_all_known(out@) && bits_owned_by(
            out@,
            cs_id(*old(cs)),
        ) && bits_values(out@) == swapped_preimage(
            bits_values(lhs@),
            bits_values(rhs@),
            cond.spec_value().unwrap(),
        ),
{
    let mut new_lhs: Vec<BitCell> = Vec::new();
    let mut new_rhs: Vec<BitCell> = Vec::new();
    for i in 0..256usize
        invariant
            lhs@.len() == 256,
            rhs@.len() == 256,
            fresh_from(*cs, *k),
            *old(k) + 1024 <= u64::MAX,
            *old(k) <= *k <= *old(k) + 4 * i,
            cs_id(*cs) == cs_id(*old(cs)),
            cs_sat(*cs) == cs_sat(*old(cs)),
            cs_inputs(*cs) == cs_inputs(*old(cs)),
            bits_owned_by(lhs@, cs_id(*old(cs))),
            bits_owned_by(rhs@, cs_id(*old(cs))),
            cond.spec_owner() == cs_id(*old(cs)),
            bits_owned_by(new_lhs@, cs_id(*old(cs))),
            bits_owned_by(new_rhs@, cs_id(*old(cs))),
            new_lhs@.len() == i,
            new_rhs@.len() == i,
            i > 0 ==> cond.spec_value() is Some,
            forall|j: int|
                0 <= j < i ==> lhs@[j].spec_value() is Some && rhs@[j].spec_value() is Some,
            forall|j: int|
                0 <= j < i ==> new_lhs@[j].spec_value() == (if cond.spec_value().unwrap() {
                    rhs@[j].spec_value()
                } else {
                    lhs@[j].spec_value()
                }),
            forall|j: int|
                0 <= j < i ==> new_rhs@[j].spec_value() == (if cond.spec_value().unwrap() {
                    lhs@[j].spec_value()
                } else {
                    rhs@[j].spec_value()
                }),
    {
        let (x, y) = swap_bit(cs, k, &lhs[i], &rhs[i], cond)?;
        new_lhs.push(x);
        new_rhs.push(y);
    }
    let mut out = new_lhs;
    out.append(&mut new_rhs);
    proof {
        assert(bits_values(out@) =~= swapped_preimage(
            bits_values(lhs@),
            bits_values(rhs@),
            cond.spec_value().unwrap(),
        ));
    }
    Ok(out)
}

/// The 256-bit value reached from `cur` by compressing up the remaining
/// layers of the path, the layer at the front first.
pub open spec fn sprout_root(cur: Seq<bool>, path: Seq<([u8; 32], bool)>) -> Seq<bool>
    decreases path.len(),
{
    if path.len() == 0 {
        cur
    } else {
        sprout_root(
            sha_block_digest(swapped_preimage(cur, bytes_bits_msb(path[0].0@), path[0].1)),
            path.drop_first(),
        )
    }
}

/// Compressing one more layer from the far end of the path digests the
/// root of the shorter walk with the appended sibling.
proof fn lemma_sprout_root_snoc(cur: Seq<bool>, path: Seq<([u8; 32], bool)>, e: ([u8; 32], bool))
    ensures
        sprout_root(cur, path.push(e)) == sha_block_digest(
            swapped_preimage(sprout_root(cur, path), bytes_bits_msb(e.0@), e.1),
        ),
    decreases path.len(),
{
    let p1 = path.push(e);
    assert(p1.len() == path.len() + 1);
    assert(sprout_root(cur, p1) == sprout_root(
        sha_block_digest(swapped_preimage(cur, bytes_bits_msb(p1[0].0@), p1[0].1)),
        p1.drop_first(),
    ));
    if path.len() == 0 {
        assert(p1[0] == e);
        assert(p1.drop_first() =~= path);
        assert(sprout_root(
            sha_block_digest(swapped_preimage(cur, bytes_bits_msb(e.0@), e.1)),
            path,
        ) == sha_block_digest(swapped_preimage(cur, bytes_bits_msb(e.0@), e.1)));
    } else {
        assert(p1[0] == path[0]);
        assert(p1.drop_first() =~= path.drop_first().push(e));
        lemma_sprout_root_snoc(
            sha_block_digest(swapped_preimage(cur, bytes_bits_msb(path[0].0@), path[0].1)),
            path.drop_first(),
            e,
        );
    }
}

/// Climbs one tree layer: witnesses the layer's side bit and 256-bit
/// sibling, conditionally swaps the running value with the sibling under
/// an enforced constraint, and compresses the resulting 512-bit preimage
/// with the SHA-256 compression function into the next 256-bit running
/// value.
pub fn sha_merkle_layer(
    cs: &mut ConstraintSys,
    k: &mut u64,
    cur: &Vec<BitCell>,
    entry: &Option<([u8; 32], bool)>,
) -> (r: Result<Vec<BitCell>, SynthesisError>)
    requires
        cur@.len() == 256,
        bits_all_known(cur@),
        bits_owned_by(cur@, cs_id(*old(cs))),
        fresh_from(*old(cs), *old(k)),
        *old(k) + 1282 <= u64::MAX,
    ensures
        fresh_from(*final(cs), *final(k)),
        *old(k) <= *final(k) <= *old(k) + 1282,
        cs_id(*final(cs)) == cs_id(*old(cs)),
        cs_sat(*final(cs)) == cs_sat(*old(cs)),
        cs_inputs(*final(cs)) == cs_inputs(*old(cs)),
        r is Ok <==> *entry is Some,
        r matches Ok(out) ==> out@.len() == 256 && bits_all_known(out@) && bits_owned_by(
            out@,
            cs_id(*old(cs)),
        ),
        r matches Ok(out) ==> (*entry matches Some(e) ==> bits_values(out@) == sha_block_digest(
            swapped_preimage(bits_values(cur@), bytes_bits_msb(e.0@), e.1),
        )),
{
    let side: Option<bool> = match entry {
        Some(e) => Some(e.1),
        None => None,
    };
    let n = *k;
    *k = n + 1;
    let cur_is_right = alloc_bit(cs, n, side)?;

    let sib: Option<[u8; 32]> = match entry {
        Some(e) => Some(e.0),
        None => None,
    };
    let rhs = match sib {
        Some(a) => witness_u256(cs, k, Some(&a))?,
        None => witness_u256(cs, k, None)?,
    };

    // Conditionally swap the running value with the sibling so the
    // preimage carries the children in tree order.
    let preimage = conditionally_swap_u256(cs, k, cur, &rhs, &cur_is_right)?;

    let n2 = *k;
    *k = n2 + 1;
    sha256_block(cs, n2, &preimage)
}

/// A 64-bit note value decomposed into 64 individually witnessed bits,
/// least significant first, together with the value they stand for.
pub struct NoteValue {
    value: Option<u64>,
    bits: Vec<BitCell>,
}

impl NoteValue {
    /// The value this gadget was built from, if one was supplied.
    pub closed spec fn spec_value(self) -> Option<u64> {
        self.value
    }

    /// The gadget holds a concrete value and 64 directly allocated bits
    /// carrying its little-endian decomposition.
    pub closed spec fn wf(self) -> bool {
        &&& self.bits@.len() == 64
        &&& forall|i: int| 0 <= i < 64 ==> (#[trigger] self.bits@[i]).spec_from_alloc()
        &&& self.value matches Some(v) && bits_all_known(self.bits@) && bits_values(self.bits@)
            == u64_bits_le(v)
    }

    /// Allocates the 64 bits of `value`, least significant first, failing
    /// exactly when the value is missing. No constraint beyond the per-bit
    /// boolean constraints and no public input is touched.
    pub fn new(cs: &mut ConstraintSys, k: &mut u64, value: Option<u64>) -> (r: Result<
        NoteValue,
        SynthesisError,
    >)
        requires
            fresh_from(*old(cs), *old(k)),
            *old(k) + 64 <= u64::MAX,
        ensures
            fresh_from(*final(cs), *final(k)),
            *old(k) <= *final(k) <= *old(k) + 64,
            cs_sat(*final(cs)) == cs_sat(*old(cs)),
            cs_inputs(*final(cs)) == cs_inputs(*old(cs)),
            r is Ok <==> value is Some,
            r matches Ok(nv) ==> nv.wf() && nv.spec_value() == value,
    {
        match value {
            Some(v) => {
                let mut bits: Vec<BitCell> = Vec::new();
                for i in 0..64u64
                    invariant
                        fresh_from(*cs, *k),
                        *old(k) + 64 <= u64::MAX,
                        *k == *old(k) + i,
                        cs_sat(*cs) == cs_sat(*old(cs)),
                        cs_inputs(*cs) == cs_inputs(*old(cs)),
                        bits@.len() == i,
                        forall|j: int|
                            0 <= j < i ==> bits@[j].spec_value() == Some(u64_bit(v, j as u64))
                                && bits@[j].spec_from_alloc(),
                {
                    let n = *k;
                    *k = n + 1;
                    let cell = match alloc_bit(cs, n, Some((v >> i) & 1 == 1)) {
                        Ok(c) => c,
                        Err(e) => {
                            proof {
                                assert(false);
                            }
                            return Err(e);
                        },
                    };
                    bits.push(cell);
                }
                proof {
                    assert(bits_values(bits@) =~= u64_bits_le(v));
                    assert forall|i: int| 0 <= i < 64 implies (#[trigger] bits@[i])
                        .spec_from_alloc() by {
                        assert(bits@[i].spec_value() == Some(u64_bit(v, i as u64)));
                    }
                }
                Ok(NoteValue { value, bits })
            },
            None => {
                let n = *k;
                *k = n + 1;
                match alloc_bit(cs, n, None) {
                    Ok(_) => {
                        proof {
                            assert(false);
                        }
                        Err(err_unsatisfiable())
                    },
                    Err(e) => Err(e),
                }
            },
        }
    }

    /// Reorders the 64 bits into little-endian byte order: each group of 8
    /// bits is reversed in place, groups kept in order, as the byte-aligned
    /// hash preimages downstream expect.
    pub fn bits_le(&self) -> (r: Vec<BitCell>)
        requires
            self.wf(),
        ensures
            r@.len() == 64,
            self.spec_value() matches Some(v) ==> bits_all_known(r@) && bits_values(r@)
                == chunks8_reversed(u64_bits_le(v)),
    {
        let mut r: Vec<BitCell> = Vec::new();
        for i in 0..64usize
            invariant
                self.wf(),
                r@.len() == i,
                forall|j: int|
                    0 <= j < i ==> r@[j].spec_value() == self.bits@[8 * (j / 8) + 7 - (j
                        % 8)].spec_value(),
        {
            let idx = 8 * (i / 8) + 7 - (i % 8);
            r.push(clone_bit_cell(&self.bits[idx]));
        }
        proof {
            if let Some(v) = self.spec_value() {
                assert(bits_values(r@) =~= chunks8_reversed(u64_bits_le(v)));
            }
        }
        r
    }

    /// The linear combination that weighs bit `i` by `2^i`: its terms
    /// carry this gadget's bit assignments, and their weighted sum is the
    /// value the bits were decomposed from.
    pub fn lc(&self) -> (r: Lc)
        requires
            self.wf(),
        ensures
            lc_terms(r) == Seq::new(
                64,
                |i: int| (pow2(i as nat), u64_bit(self.spec_value().unwrap(), i as u64)),
            ),
            lc_terms_sum(lc_terms(r)) == self.spec_value().unwrap(),
    {
        let ghost v = self.spec_value().unwrap();
        let mut acc = lc_zero();
        for i in 0..64usize
            invariant
                self.wf(),
                v == self.spec_value().unwrap(),
                lc_terms(acc) == Seq::new(i as nat, |j: int| (pow2(j as nat), u64_bit(v, j as u64))),
                lc_terms_sum(lc_terms(acc)) == bits_val(u64_bits_le(v).take(i as int)),
        {
            proof {
                lemma_pow2_strictly_increases(i as nat, 64);
                lemma_pow2_unfold(64);
                lemma2_to64();
                lemma_u64_shl_is_mul(1u64, i as u64);
                assert(bits_values(self.bits@)[i as int] == u64_bits_le(v)[i as int]);
                assert(self.bits@[i as int].spec_value() is Some);
                assert(self.bits@[i as int].spec_value() == Some(u64_bit(v, i as u64)));
            }
            let ghost before = lc_terms(acc);
            acc = lc_add_bit_scaled(acc, 1u64 << (i as u64), &self.bits[i]);
            proof {
                assert(lc_terms(acc) =~= Seq::new(
                    (i + 1) as nat,
                    |j: int| (pow2(j as nat), u64_bit(v, j as u64)),
                ));
                lemma_lc_terms_sum_snoc(before, (pow2(i as nat), u64_bit(v, i as u64)));
                assert(u64_bits_le(v).take(i + 1) =~= u64_bits_le(v).take(i as int).push(
                    u64_bit(v, i as u64),
                ));
                lemma_bits_val_snoc(u64_bits_le(v).take(i as int), u64_bit(v, i as u64));
            }
        }
        proof {
            assert(u64_bits_le(v).take(64) =~= u64_bits_le(v));
            lemma_u64_bits_le_val(v);
        }
        acc
    }

    /// The value this gadget was built from, if one was supplied.
    pub fn get_value(&self) -> (r: Option<u64>)
        ensures
            r == self.spec_value(),
    {
        self.value
    }
}

/// A spending authority key, as 32 bytes.
pub struct SpendingKey(pub [u8; 32]);

/// A paying (public) key, as 32 bytes.
pub struct PayingKey(pub [u8; 32]);

/// The uniqueness randomness of a note, as 32 bytes.
pub struct UniqueRandomness(pub [u8; 32]);

/// The commitment randomness of a note, as 32 bytes.
pub struct CommitmentRandomness(pub [u8; 32]);

/// One join-split input: a 256-bit leaf and its authentication path, each
/// layer a sibling value and a side bit, leaf layer first.
#[derive(Clone)]
pub struct JSInput {
    pub leaf: Option<[u8; 32]>,
    pub auth_path: Vec<Option<([u8; 32], bool)>>,
}

/// The bit-hash membership circuit: exactly one input whose leaf is walked
/// up to the root with the SHA-256 compression function, and a witnessed
/// root packed into the public inputs.
#[derive(Clone)]
pub struct JoinSplit {
    pub inputs: Vec<JSInput>,
    pub rt: Option<[u8; 32]>,
}

/// Every layer of the path carries a concrete sibling and side bit.
pub open spec fn path_all_known(path: Seq<Option<([u8; 32], bool)>>) -> bool {
    forall|i: int| 0 <= i < path.len() ==> path[i] is Some
}

impl JoinSplit {
    /// All the witness data a concrete synthesis needs is present.
    pub open spec fn all_known(self) -> bool {
        &&& self.rt is Some
        &&& self.inputs@[0].leaf is Some
        &&& path_all_known(self.inputs@[0].auth_path@)
    }

    /// Builds the circuit into the constraint system and returns the
    /// recomputed root bits, so the caller can decide whether to constrain
    /// them against the witnessed root. A shape other than exactly one
    /// input is a caller error, rejected outright with the unsatisfiable
    /// error and the system untouched (this crate's verified functions do
    /// not abort); with the right shape, synthesis
    /// succeeds exactly when every witness value is present, the public
    /// inputs it adds are the packing of the witnessed root's bits, the
    /// returned bits carry the compression ladder of the leaf over the
    /// path, and a system that was satisfied stays satisfied — the
    /// equality of the recomputed and witnessed roots is deliberately not
    /// enforced.
    pub fn synthesize(self, cs: &mut ConstraintSys) -> (r: Result<Vec<BitCell>, SynthesisError>)
        requires
            fresh_from(*old(cs), 0),
            self.inputs@.len() == 1 ==> self.inputs@[0].auth_path@.len() < 0x1_0000_0000,
        ensures
            self.inputs@.len() != 1 ==> r is Err && *final(cs) == *old(cs),
            self.inputs@.len() == 1 ==> (r is Ok <==> self.all_known()),
            self.inputs@.len() == 1 ==> (r is Ok ==> cs_sat(*final(cs)) == cs_sat(*old(cs))),
            self.inputs@.len() == 1 ==> (r is Ok ==> cs_inputs(*final(cs)) == cs_inputs(*old(cs))
                + packed_scalars(bytes_bits_msb(self.rt.unwrap()@))),
            self.inputs@.len() == 1 ==> (r matches Ok(out) ==> out@.len() == 256
                && bits_all_known(out@) && bits_values(out@) == sprout_root(
                bytes_bits_msb(self.inputs@[0].leaf.unwrap()@),
                path_values(self.inputs@[0].auth_path@),
            )),
    {
        if self.inputs.len() != 1 {
            return Err(err_unsatisfiable());
        }
        let ghost pv = path_values(self.inputs@[0].auth_path@);
        let mut k: u64 = 0;

        // Witness rt, the claimed root of the tree.
        let rtv: Option<[u8; 32]> = self.rt;
        let rt_bits = match rtv {
            Some(a) => witness_u256(cs, &mut k, Some(&a))?,
            None => witness_u256(cs, &mut k, None)?,
        };

        let input = &self.inputs[0];
        let leafv: Option<[u8; 32]> = input.leaf;
        let mut cur = match leafv {
            Some(a) => witness_u256(cs, &mut k, Some(&a))?,
            None => witness_u256(cs, &mut k, None)?,
        };

        let depth = input.auth_path.len();
        for i in 0..depth
            invariant
                depth == self.inputs@[0].auth_path@.len(),
                self.inputs@.len() == 1,
                pv == path_values(self.inputs@[0].auth_path@),
                depth < 0x1_0000_0000,
                self.rt is Some,
                self.inputs@[0].leaf is Some,
                fresh_from(*cs, k),
                k <= 512 + 1282 * i,
                cs_id(*cs) == cs_id(*old(cs)),
                cs_sat(*cs) == cs_sat(*old(cs)),
                cs_inputs(*cs) == cs_inputs(*old(cs)),
                cur@.len() == 256,
                bits_all_known(cur@),
                bits_owned_by(cur@, cs_id(*old(cs))),
                bits_values(cur@) == sprout_root(
                    bytes_bits_msb(self.inputs@[0].leaf.unwrap()@),
                    pv.take(i as int),
                ),
                rt_bits@.len() == 256,
                bits_all_known(rt_bits@),
                bits_owned_by(rt_bits@, cs_id(*old(cs))),
                bits_values(rt_bits@) == bytes_bits_msb(self.rt.unwrap()@),
                forall|j: int| 0 <= j < i ==> self.inputs@[0].auth_path@[j] is Some,
        {
            let entry = &self.inputs[0].auth_path[i];
            let next = sha_merkle_layer(cs, &mut k, &cur, entry)?;
            proof {
                assert(pv.take(i + 1) =~= pv.take(i as int).push(pv[i as int]));
                lemma_sprout_root_snoc(
                    bytes_bits_msb(self.inputs@[0].leaf.unwrap()@),
                    pv.take(i as int),
                    pv[i as int],
                );
            }
            cur = next;
        }
        proof {
            assert(pv.take(depth as int) =~= pv);
        }

        // The equality of the recomputed root with the witnessed root is
        // deliberately left unenforced: the packed public input below
        // carries the witnessed root, and the surrounding protocol decides
        // whether to constrain the recomputed one.

        let n3 = k;
        k = n3 + 1;
        let packed = pack_bits_into_inputs(cs, n3, &rt_bits);
        match packed {
            Ok(()) => Ok(cur),
            Err(e) => {
                proof {
                    assert(false);
                }
                Err(e)
            },
        }
    }
}

} // verus!
