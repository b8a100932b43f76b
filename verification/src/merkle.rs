//! The algebraic authentication-path walker: a leaf committed as a field
//! element is walked up the tree, one Pedersen hash per layer, and the
//! resulting root is constrained to equal a public anchor.

use vstd::prelude::*;
use bellman::SynthesisError;
use crate::bits::{canonical_scalar, le_bits};
use crate::gadgets::{
    alloc_bit, alloc_num, cond_reverse, cs_id, cs_inputs, cs_sat, enforce_equal,
    err_unsatisfiable, fresh_from, hash_layer, inputize_num, num_to_bits_le, pedersen_hash_u,
    ConstraintSys,
};

verus! {

/// The Pedersen hash of one Merkle layer: the layer depth as the
/// personalization tag over the 255 little-endian bits of each child.
pub open spec fn merkle_layer_hash(depth: int, lhs: Seq<u8>, rhs: Seq<u8>) -> Seq<u8> {
    pedersen_hash_u(depth, le_bits(lhs, 255) + le_bits(rhs, 255))
}

/// The parent of one tree layer: the layer hash of the two children, the
/// accumulated child on the left unless the side bit puts it on the right.
pub open spec fn layer_parent(depth: int, cur: Seq<u8>, sibling: Seq<u8>, is_right: bool) -> Seq<
    u8,
> {
    if is_right {
        merkle_layer_hash(depth, sibling, cur)
    } else {
        merkle_layer_hash(depth, cur, sibling)
    }
}

/// The root reached from `cur` by hashing up the remaining layers of the
/// path, the layer at the front first, starting at depth `depth`.
pub open spec fn root_from(cur: Seq<u8>, path: Seq<([u8; 32], bool)>, depth: int) -> Seq<u8>
    decreases path.len(),
{
    if path.len() == 0 {
        cur
    } else {
        root_from(layer_parent(depth, cur, path[0].0@, path[0].1), path.drop_first(), depth + 1)
    }
}

/// The root of the tree reached from a leaf along an authentication path,
/// leaf layer first.
pub open spec fn merkle_root_spec(leaf: Seq<u8>, path: Seq<([u8; 32], bool)>) -> Seq<u8> {
    root_from(leaf, path, 0)
}

/// The concrete entries of a path whose layers are all present.
pub open spec fn path_values(path: Seq<Option<([u8; 32], bool)>>) -> Seq<([u8; 32], bool)> {
    Seq::new(path.len(), |i: int| path[i].unwrap())
}

/// Walking one more layer from the far end of the path hashes the root of
/// the shorter walk with the appended sibling.
proof fn lemma_root_from_snoc(
    cur: Seq<u8>,
    path: Seq<([u8; 32], bool)>,
    e: ([u8; 32], bool),
    depth: int,
)
    ensures
        root_from(cur, path.push(e), depth) == layer_parent(
            depth + path.len(),
            root_from(cur, path, depth),
            e.0@,
            e.1,
        ),
    decreases path.len(),
{
    let p1 = path.push(e);
    assert(p1.len() == path.len() + 1);
    assert(root_from(cur, p1, depth) == root_from(
        layer_parent(depth, cur, p1[0].0@, p1[0].1),
        p1.drop_first(),
        depth + 1,
    ));
    if path.len() == 0 {
        assert(p1[0] == e);
        assert(p1.drop_first() =~= path);
        assert(root_from(layer_parent(depth, cur, e.0@, e.1), path, depth + 1) == layer_parent(
            depth,
            cur,
            e.0@,
            e.1,
        ));
    } else {
        assert(p1[0] == path[0]);
        assert(p1.drop_first() =~= path.drop_first().push(e));
        lemma_root_from_snoc(
            layer_parent(depth, cur, path[0].0@, path[0].1),
            path.drop_first(),
            e,
            depth + 1,
        );
    }
}

/// The reference hash ladder: recomputes the root a correctly built
/// authentication path leads to, without touching a constraint system.
/// The depth bound comes from the hash collaborator, whose layer tag
/// construction rejects depths of 63 and above.
pub fn merkle_root(leaf: &[u8; 32], path: &Vec<([u8; 32], bool)>) -> (r: [u8; 32])
    requires
        path@.len() <= 63,
    ensures
        r@ == merkle_root_spec(leaf@, path@),
        path@.len() > 0 ==> canonical_scalar(r@),
{
    let mut cur: [u8; 32] = *leaf;
    let n = path.len();
    for i in 0..n
        invariant
            n == path@.len() <= 63,
            cur@ == root_from(leaf@, path@.take(i as int), 0),
            i > 0 ==> canonical_scalar(cur@),
    {
        let (sibling, is_right) = path[i];
        cur = if is_right {
            hash_layer(i, &sibling, &cur)
        } else {
            hash_layer(i, &cur, &sibling)
        };
        proof {
            assert(path@.take(i + 1) =~= path@.take(i as int).push(path@[i as int]));
            lemma_root_from_snoc(leaf@, path@.take(i as int), path@[i as int], 0);
        }
    }
    proof {
        assert(path@.take(n as int) =~= path@);
    }
    cur
}

/// The algebraic membership circuit: a leaf, an authentication path of
/// sibling field elements with side bits (leaf layer first), and the
/// claimed anchor, all optional so the constraint shape can be derived
/// without witness data.
pub struct MerklePedersen {
    pub leaf: Option<[u8; 32]>,
    pub auth_path: Vec<Option<([u8; 32], bool)>>,
    pub anchor: Option<[u8; 32]>,
}

impl MerklePedersen {
    /// All witness data is present and every field element is a canonical
    /// encoding.
    pub open spec fn all_known(self) -> bool {
        &&& self.leaf matches Some(l) && canonical_scalar(l@)
        &&& forall|i: int|
            0 <= i < self.auth_path@.len() ==> ((#[trigger] self.auth_path@[i]) matches Some(e)
                && canonical_scalar(e.0@))
        &&& self.anchor matches Some(a) && canonical_scalar(a@)
    }

    /// Builds the circuit into the constraint system: the leaf and each
    /// sibling are witnessed; each layer's children are conditionally
    /// swapped under an enforced constraint and decomposed into witnessed
    /// bit preimages; the layer hash value is witnessed as the next
    /// accumulator; and the final accumulator is constrained to equal the
    /// anchor, which becomes the one public input added. Succeeds exactly
    /// when every witness value is present and canonical, and on success
    /// the system it leaves is satisfied exactly when it was satisfied
    /// before and the anchor equals the root the path leads to.
    ///
    /// The hash collaborator's own in-circuit constraint gadget is not
    /// reachable in the crate that provides the hash, so the layer hash
    /// value is computed by the hash primitive and witnessed; the
    /// constraint that would tie it to the decomposed preimage inside the
    /// system is the collaborator's and is not registered here. The depth
    /// bound comes from the same collaborator, whose layer tag
    /// construction rejects depths of 63 and above.
    pub fn synthesize(self, cs: &mut ConstraintSys) -> (r: Result<(), SynthesisError>)
        requires
            fresh_from(*old(cs), 0),
            self.auth_path@.len() <= 63,
        ensures
            r is Ok <==> self.all_known(),
            r is Ok ==> cs_inputs(*final(cs)) == cs_inputs(*old(cs)).push(
                self.anchor.unwrap()@,
            ),
            r is Ok ==> cs_sat(*final(cs)) == (cs_sat(*old(cs)) && merkle_root_spec(
                self.leaf.unwrap()@,
                path_values(self.auth_path@),
            ) == self.anchor.unwrap()@),
    {
        let ghost pv = path_values(self.auth_path@);
        let mut k: u64 = 0;

        let cm = alloc_num(cs, k, self.leaf)?;
        k = k + 1;
        let mut cur = cm;

        let depth = self.auth_path.len();
        for i in 0..depth
            invariant
                depth == self.auth_path@.len() <= 63,
                pv == path_values(self.auth_path@),
                self.leaf matches Some(l) && canonical_scalar(l@),
                fresh_from(*cs, k),
                k == 1 + 6 * i,
                cs_id(*cs) == cs_id(*old(cs)),
                cs_sat(*cs) == cs_sat(*old(cs)),
                cs_inputs(*cs) == cs_inputs(*old(cs)),
                cur.spec_owner() == cs_id(*old(cs)),
                cur.spec_value() matches Some(cb) && cb@ == root_from(
                    self.leaf.unwrap()@,
                    pv.take(i as int),
                    0,
                ),
                forall|j: int|
                    0 <= j < i ==> ((#[trigger] self.auth_path@[j]) matches Some(e)
                        && canonical_scalar(e.0@)),
        {
            let entry = &self.auth_path[i];

            // The side bit is witnessed and recorded in the system; a
            // caller composing a nullifier reads the position from these
            // bits.
            let side: Option<bool> = match entry {
                Some(e) => Some(e.1),
                None => None,
            };
            let cur_is_right = alloc_bit(cs, k, side)?;
            k = k + 1;

            let sib: Option<[u8; 32]> = match entry {
                Some(e) => Some(e.0),
                None => None,
            };
            let path_element = alloc_num(cs, k, sib)?;
            k = k + 1;

            // Swap the children if the accumulated subtree is on the
            // right; the swap itself is enforced with constraints, so a
            // false witness cannot reorder the preimage.
            let swapped = cond_reverse(cs, k, &cur, &path_element, &cur_is_right)?;
            k = k + 1;
            let (xl, xr) = swapped;

            // Decompose both children into witnessed little-endian bits;
            // these are the layer preimage the hash collaborator consumes.
            let xl_bits = num_to_bits_le(cs, k, &xl)?;
            k = k + 1;
            let xr_bits = num_to_bits_le(cs, k, &xr)?;
            k = k + 1;
            let _ = xl_bits;
            let _ = xr_bits;

            // The layer hash is the hash collaborator's work: its value is
            // computed by the hash primitive and witnessed as the next
            // accumulator.
            let h: [u8; 32] = match (xl.value(), xr.value()) {
                (Some(l), Some(q)) => hash_layer(i, &l, &q),
                _ => {
                    proof {
                        assert(false);
                    }
                    return Err(err_unsatisfiable());
                },
            };
            cur = alloc_num(cs, k, Some(h))?;
            k = k + 1;

            proof {
                assert(pv.take(i + 1) =~= pv.take(i as int).push(pv[i as int]));
                lemma_root_from_snoc(self.leaf.unwrap()@, pv.take(i as int), pv[i as int], 0);
            }
        }
        proof {
            assert(pv.take(depth as int) =~= pv);
        }

        // Witness the anchor that the verifier sees.
        let rt = alloc_num(cs, k, self.anchor)?;
        k = k + 1;

        // (cur - rt) * 1 = 0 constrains the recomputed root to equal the
        // anchor.
        enforce_equal(cs, k, &cur, &rt);
        k = k + 1;

        // Expose the anchor as the circuit's public input.
        let packed = inputize_num(cs, k, &rt);
        match packed {
            Ok(()) => Ok(()),
            Err(e) => {
                proof {
                    assert(false);
                }
                Err(e)
            },
        }
    }
}

} // verus!
