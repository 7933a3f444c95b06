//! Merkle trees over commitments, and proofs of membership in them.
use crate::field;
use crate::field::Fr;
use crate::permutation;
use crate::policy::hash;
use crate::policy::hash::MERKLE_TAG;
use vstd::prelude::*;

verus! {

/// A proof that a leaf is in the tree of a root. Each step of the path has the
/// text of a sibling and whether the way up is on its left.
#[derive(Clone, Debug)]
pub struct MerkleProof {
    pub leaf: Fr,
    pub path: Vec<(String, bool)>,
    pub root: Fr,
}

/// The hash of a commitment at a place.
pub open spec fn leaf_value(commitment: nat, index: nat) -> nat {
    permutation::sponge(
        hash::schedule(),
        seq![hash::tag_element(MERKLE_TAG@), commitment, index],
    )
}

/// The hash of two nodes.
pub open spec fn node_value(left: nat, right: nat) -> nat {
    permutation::sponge(hash::schedule(), seq![hash::tag_element(MERKLE_TAG@), left, right])
}

/// Hashes a commitment at a place.
pub fn merkle_leaf(commitment: &Fr, index: u64) -> (r: Fr)
    ensures
        r@ == leaf_value(commitment@, index as nat),
{
    let inputs = vec![hash::domain_fr(MERKLE_TAG), *commitment, hash::u64_to_fr(index)];
    assert(field::values(inputs@) =~= seq![
        hash::tag_element(MERKLE_TAG@),
        commitment@,
        index as nat,
    ]);
    hash::sponge_n(inputs.as_slice())
}

/// Hashes two nodes.
pub fn merkle_node(left: &Fr, right: &Fr) -> (r: Fr)
    ensures
        r@ == node_value(left@, right@),
{
    let inputs = vec![hash::domain_fr(MERKLE_TAG), *left, *right];
    assert(field::values(inputs@) =~= seq![hash::tag_element(MERKLE_TAG@), left@, right@]);
    hash::sponge_n(inputs.as_slice())
}

/// The lowest level of the tree: the hashes of the commitments.
pub open spec fn leaf_level(commitments: Seq<nat>) -> Seq<nat> {
    Seq::new(commitments.len(), |i: int| leaf_value(commitments[i], i as nat))
}

/// The level above another: the hashes of pairs, and of a last single node with
/// itself.
pub open spec fn parents(level: Seq<nat>) -> Seq<nat> {
    Seq::new(
        (level.len() + 1) / 2,
        |i: int|
            node_value(
                level[2 * i],
                if 2 * i + 1 < level.len() {
                    level[2 * i + 1]
                } else {
                    level[2 * i]
                },
            ),
    )
}

/// A level with all levels above it, up to the one with a single node.
pub open spec fn levels_from(level: Seq<nat>) -> Seq<Seq<nat>>
    decreases level.len(),
{
    if level.len() <= 1 {
        seq![level]
    } else {
        seq![level] + levels_from(parents(level))
    }
}

/// The levels of the tree of commitments.
pub open spec fn tree(commitments: Seq<nat>) -> Seq<Seq<nat>> {
    if commitments.len() == 0 {
        Seq::empty()
    } else {
        levels_from(leaf_level(commitments))
    }
}

/// The root of the tree of commitments; zero when there are none.
pub open spec fn root_value(commitments: Seq<nat>) -> nat {
    if commitments.len() == 0 {
        0
    } else {
        tree(commitments).last()[0]
    }
}

/// Levels of field elements as levels of integers.
pub open spec fn grid(levels: Seq<Vec<Fr>>) -> Seq<Seq<nat>> {
    Seq::new(levels.len(), |i: int| field::values(levels[i]@))
}

/// The level above another.
fn parent_level(level: &Vec<Fr>) -> (r: Vec<Fr>)
    ensures
        field::values(r@) == parents(field::values(level@)),
{
    let mut out: Vec<Fr> = Vec::new();
    let ghost all = parents(field::values(level@));
    let mut i: usize = 0;
    assert(field::values(out@) =~= all.take(0));
    while i < level.len()
        invariant
            all == parents(field::values(level@)),
            i <= level@.len(),
            i % 2 == 0 || i == level@.len(),
            out@.len() == (i + 1) / 2,
            field::values(out@) == all.take(out@.len() as int),
        decreases level@.len() - i,
    {
        let ghost before = out@;
        let left = level[i];
        let right = if level.len() - i > 1 {
            level[i + 1]
        } else {
            level[i]
        };
        out.push(merkle_node(&left, &right));
        proof {
            let j = before.len() as int;
            assert(2 * j == i);
            assert(field::values(out@) =~= field::values(before).push(all[j]));
            assert(all.take(j + 1) =~= all.take(j).push(all[j]));
        }
        if level.len() - i > 1 {
            i += 2;
        } else {
            i += 1;
        }
    }
    assert(all.take(out@.len() as int) =~= all);
    out
}

/// Builds the tree of commitments: its root and its levels, the leaves first.
pub fn build_merkle_tree(commitments: &[Fr]) -> (r: (Fr, Vec<Vec<Fr>>))
    ensures
        r.0@ == root_value(field::values(commitments@)),
        grid(r.1@) == tree(field::values(commitments@)),
{
    let ghost given = field::values(commitments@);
    if commitments.len() == 0 {
        let none: Vec<Vec<Fr>> = vec![];
        assert(grid(none@) =~= Seq::<Seq<nat>>::empty());
        return (Fr::zero(), none);
    }
    let mut level: Vec<Fr> = Vec::new();
    assert(field::values(level@) =~= leaf_level(given).take(0));
    for i in 0..commitments.len()
        invariant
            given == field::values(commitments@),
            field::values(level@) == leaf_level(given).take(i as int),
    {
        let ghost before = level@;
        level.push(merkle_leaf(&commitments[i], i as u64));
        proof {
            let leaf = leaf_level(given)[i as int];
            assert(field::values(level@) =~= field::values(before).push(leaf));
            assert(leaf_level(given).take(i + 1) =~= leaf_level(given).take(i as int).push(leaf));
        }
    }
    let ghost leaves = field::values(level@);
    assert(leaf_level(given).take(given.len() as int) =~= leaf_level(given));
    let mut levels: Vec<Vec<Fr>> = Vec::new();
    assert(grid(levels@) + levels_from(leaves) =~= levels_from(leaves));
    while level.len() > 1
        invariant
            level@.len() >= 1,
            grid(levels@) + levels_from(field::values(level@)) == levels_from(leaves),
        decreases level@.len(),
    {
        let ghost low = field::values(level@);
        let ghost before = grid(levels@);
        let next = parent_level(&level);
        levels.push(level);
        level = next;
        proof {
            let high = field::values(level@);
            assert(high.len() == (low.len() + 1) / 2);
            assert(grid(levels@) =~= before.push(low));
            assert(before + (seq![low] + levels_from(high)) =~= before.push(low) + levels_from(
                high,
            ));
        }
    }
    let root = level[0];
    let ghost before = grid(levels@);
    let ghost top = field::values(level@);
    levels.push(level);
    proof {
        assert(grid(levels@) =~= before.push(top));
        assert(before + seq![top] =~= before.push(top));
        assert(levels_from(top) =~= seq![top]);
        assert(levels_from(leaves).last() == top);
    }
    (root, levels)
}

/// The place of the other node of a pair.
pub open spec fn sibling(idx: nat) -> nat {
    if idx % 2 == 0 {
        idx + 1
    } else {
        (idx - 1) as nat
    }
}

/// The value of a step: the sibling, or the node itself where it is alone.
pub open spec fn step_value(level: Seq<nat>, idx: nat) -> nat {
    if sibling(idx) < level.len() {
        level[sibling(idx) as int]
    } else {
        level[idx as int]
    }
}

/// A step of a path.
pub open spec fn step(level: Seq<nat>, idx: nat) -> (Seq<char>, bool) {
    (
        field::field_text(step_value(level, idx)),
        sibling(idx) < level.len() && idx % 2 == 0,
    )
}

/// The path from a node up to the top of levels.
pub open spec fn path_from(levels: Seq<Seq<nat>>, idx: nat) -> Seq<(Seq<char>, bool)>
    decreases levels.len(),
{
    if levels.len() <= 1 {
        Seq::empty()
    } else {
        seq![step(levels[0], idx)] + path_from(levels.drop_first(), idx / 2)
    }
}

/// Every level below the top has a node for the step there.
pub open spec fn reachable(levels: Seq<Seq<nat>>, idx: nat) -> bool
    decreases levels.len(),
{
    levels.len() > 1 ==> {
        &&& sibling(idx) < levels[0].len() || idx < levels[0].len()
        &&& reachable(levels.drop_first(), idx / 2)
    }
}

/// A path as it reads.
pub open spec fn steps(path: Seq<(String, bool)>) -> Seq<(Seq<char>, bool)> {
    Seq::new(path.len(), |i: int| (path[i].0@, path[i].1))
}

/// Proves that the leaf at a place is in the tree with the given levels.
pub fn generate_merkle_proof(levels: &[Vec<Fr>], index: usize) -> (r: MerkleProof)
    requires
        levels@.len() > 0,
        index < levels@[0]@.len(),
        levels@.last()@.len() > 0,
        reachable(grid(levels@), index as nat),
    ensures
        r.leaf == levels@[0]@[index as int],
        steps(r.path@) == path_from(grid(levels@), index as nat),
        r.root == levels@.last()@[0],
{
    let lowest = &levels[0];
    assert(index < lowest.len());
    let leaf = lowest[index];
    let mut path: Vec<(String, bool)> = Vec::new();
    let mut idx = index;
    let ghost all = grid(levels@);
    let ghost whole = path_from(all, index as nat);
    proof {
        assert(all.skip(0) =~= all);
        assert(steps(path@) + whole =~= whole);
    }
    for l in 0..levels.len() - 1
        invariant
            all == grid(levels@),
            levels@.len() > 0,
            idx < usize::MAX,
            reachable(all.skip(l as int), idx as nat),
            steps(path@) + path_from(all.skip(l as int), idx as nat) == whole,
    {
        let level = &levels[l];
        let ghost rest = all.skip(l as int);
        let ghost before = steps(path@);
        let ghost here = step(rest[0], idx as nat);
        proof {
            assert(rest[0] == field::values(level@));
            assert(rest.drop_first() =~= all.skip(l + 1));
        }
        let other = if idx % 2 == 0 {
            idx + 1
        } else {
            idx - 1
        };
        if other < level.len() {
            path.push((level[other].to_text(), idx % 2 == 0));
        } else {
            path.push((level[idx].to_text(), false));
        }
        proof {
            assert(steps(path@) =~= before.push(here));
            let later = path_from(rest.drop_first(), idx as nat / 2);
            assert(before + (seq![here] + later) =~= before.push(here) + later);
        }
        idx = idx / 2;
    }
    let root = levels[levels.len() - 1][0];
    proof {
        let top = all.skip(all.len() - 1);
        assert(path_from(top, idx as nat) =~= Seq::<(Seq<char>, bool)>::empty());
        assert(steps(path@) =~= whole);
    }
    MerkleProof { leaf, path, root }
}

/// The root that a path leads to from a node, unless a sibling cannot be read.
pub open spec fn climb(node: nat, path: Seq<(Seq<char>, bool)>) -> Option<nat>
    decreases path.len(),
{
    if path.len() == 0 {
        Some(node)
    } else {
        match field::field_of_text(path[0].0) {
            None => None,
            Some(other) => climb(
                if path[0].1 {
                    node_value(node, other)
                } else {
                    node_value(other, node)
                },
                path.drop_first(),
            ),
        }
    }
}

/// Checks a proof.
pub fn verify_merkle_proof(proof: &MerkleProof) -> (r: bool)
    ensures
        r == (climb(proof.leaf@, steps(proof.path@)) == Some(proof.root@)),
{
    let mut current = proof.leaf;
    let ghost all = steps(proof.path@);
    assert(all.skip(0) =~= all);
    for i in 0..proof.path.len()
        invariant
            all == steps(proof.path@),
            climb(current@, all.skip(i as int)) == climb(proof.leaf@, all),
    {
        let step = &proof.path[i];
        proof {
            assert(all.skip(i as int)[0] == (step.0@, step.1));
            assert(all.skip(i as int).drop_first() =~= all.skip(i + 1));
        }
        let sibling = match Fr::from_text(step.0.as_str()) {
            Some(f) => f,
            None => {
                return false;
            },
        };
        current = if step.1 {
            merkle_node(&current, &sibling)
        } else {
            merkle_node(&sibling, &current)
        };
    }
    assert(all.skip(all.len() as int).len() == 0);
    current == proof.root
}

/// No step of the path is zero, whose text cannot be read.
pub open spec fn legible(levels: Seq<Seq<nat>>, idx: nat) -> bool
    decreases levels.len(),
{
    levels.len() > 1 ==> step_value(levels[0], idx) != 0 && legible(levels.drop_first(), idx / 2)
}

/// The levels above a level of reduced values lead from every node to the root.
proof fn lemma_climb(level: Seq<nat>, idx: nat)
    requires
        idx < level.len(),
        forall|i: int| 0 <= i < level.len() ==> #[trigger] level[i] < field::modulus(),
    ensures
        levels_from(level).len() > 0,
        levels_from(level).last().len() == 1,
        reachable(levels_from(level), idx),
        legible(levels_from(level), idx) ==> climb(
            level[idx as int],
            path_from(levels_from(level), idx),
        ) == Some(levels_from(level).last()[0]),
    decreases level.len(),
{
    let levels = levels_from(level);
    if level.len() > 1 {
        let up = parents(level);
        let above = levels_from(up);
        assert(levels.drop_first() =~= above);
        assert(levels[0] == level);
        assert forall|i: int| 0 <= i < up.len() implies #[trigger] up[i] < field::modulus() by {
            let right = if 2 * i + 1 < level.len() {
                level[2 * i + 1]
            } else {
                level[2 * i]
            };
            permutation::lemma_sponge_reduced(
                hash::schedule(),
                seq![hash::tag_element(MERKLE_TAG@), level[2 * i], right],
            );
        }
        lemma_climb(up, idx / 2);
        assert(levels.last() == above.last());
        let path = path_from(levels, idx);
        let here = step(level, idx);
        assert(path[0] == here);
        assert(path.drop_first() =~= path_from(above, idx / 2));
        if legible(levels, idx) {
            let other = step_value(level, idx);
            field::lemma_text_round_trip(other);
            let j = (idx / 2) as int;
            assert(up[j] == if here.1 {
                node_value(level[idx as int], other)
            } else {
                node_value(other, level[idx as int])
            });
        }
    }
}

/// The proof of a leaf of a built tree can be made and leads to the root, unless
/// one of the siblings on its way is zero.
pub proof fn lemma_membership_proof(commitments: Seq<nat>, idx: nat)
    requires
        idx < commitments.len(),
    ensures
        tree(commitments).len() > 0,
        tree(commitments)[0] == leaf_level(commitments),
        tree(commitments).last().len() == 1,
        reachable(tree(commitments), idx),
        legible(tree(commitments), idx) ==> climb(
            leaf_value(commitments[idx as int], idx),
            path_from(tree(commitments), idx),
        ) == Some(root_value(commitments)),
{
    let leaves = leaf_level(commitments);
    assert forall|i: int| 0 <= i < leaves.len() implies #[trigger] leaves[i] < field::modulus() by {
        permutation::lemma_sponge_reduced(
            hash::schedule(),
            seq![hash::tag_element(MERKLE_TAG@), commitments[i], i as nat],
        );
    }
    lemma_climb(leaves, idx);
}

/// What a tree looks like: the lowest level has the hash of each commitment with its
/// place; each level above has, for every two nodes, the hash of both, and for a last
/// single node the hash of that with itself; the top has one node, the root.
pub proof fn lemma_tree(commitments: Seq<nat>, l: int, i: int)
    requires
        commitments.len() > 0,
    ensures
        ({
            let t = tree(commitments);
            let p = hash::schedule();
            let tag = hash::tag_element("MerkleTree"@);
            &&& t.len() > 0
            &&& t[0].len() == commitments.len()
            &&& 0 <= i < commitments.len() ==> t[0][i] == permutation::sponge(
                p,
                seq![tag, commitments[i], i as nat],
            )
            &&& 0 <= l < t.len() - 1 ==> t[l].len() > 1
            &&& 0 <= l < t.len() - 1 ==> 2 * t[l + 1].len() == t[l].len() + t[l].len() % 2
            &&& 0 <= l < t.len() - 1 && 0 <= i && 2 * i + 1 < t[l].len() ==> t[l + 1][i]
                == permutation::sponge(p, seq![tag, t[l][2 * i], t[l][2 * i + 1]])
            &&& 0 <= l < t.len() - 1 && 0 <= i && 2 * i + 1 == t[l].len() ==> t[l + 1][i]
                == permutation::sponge(p, seq![tag, t[l][2 * i], t[l][2 * i]])
            &&& t.last().len() == 1
            &&& root_value(commitments) == t[t.len() - 1][0]
        }),
{
    let leaves = leaf_level(commitments);
    assert(levels_from(leaves)[0] == leaves);
    lemma_levels(leaves, l);
}

proof fn lemma_levels(level: Seq<nat>, l: int)
    requires
        level.len() > 0,
    ensures
        levels_from(level).len() > 0,
        levels_from(level).last().len() == 1,
        0 <= l < levels_from(level).len() - 1 ==> levels_from(level)[l].len() > 1
            && levels_from(level)[l + 1] == parents(levels_from(level)[l]),
    decreases level.len(),
{
    if level.len() > 1 {
        let up = parents(level);
        let above = levels_from(up);
        lemma_levels(up, l - 1);
        assert(above[0] == up);
        let all = levels_from(level);
        assert(forall|k: int| 1 <= k < all.len() ==> all[k] == above[k - 1]);
        assert(all.last() == above.last());
    }
}

/// What a path looks like: its first step holds the other node of the pair, or the node
/// itself where it is alone, and says whether the other node is on the right; the rest
/// is the path of the node above.
pub proof fn lemma_path(levels: Seq<Seq<nat>>, idx: nat)
    ensures
        levels.len() <= 1 ==> path_from(levels, idx).len() == 0,
        levels.len() > 1 ==> {
            let path = path_from(levels, idx);
            &&& path.len() == levels.len() - 1
            &&& path.drop_first() == path_from(levels.drop_first(), idx / 2)
            &&& idx % 2 == 0 && idx + 1 < levels[0].len() ==> path[0] == (
                field::field_text(levels[0][(idx + 1) as int]),
                true,
            )
            &&& idx % 2 == 0 && idx + 1 == levels[0].len() ==> path[0] == (
                field::field_text(levels[0][idx as int]),
                false,
            )
            &&& idx % 2 == 1 && idx < levels[0].len() ==> path[0] == (
                field::field_text(levels[0][idx - 1]),
                false,
            )
        },
    decreases levels.len(),
{
    if levels.len() > 1 {
        lemma_path(levels.drop_first(), idx / 2);
        let path = path_from(levels, idx);
        assert(path.drop_first() =~= path_from(levels.drop_first(), idx / 2));
    }
}

/// Where a path leads: without steps to the node itself; with a step to the
/// hash of the node and the sibling that the step reads as, the sibling on the right
/// where the step says so and on the left otherwise, and on from there; and to nothing
/// where a step cannot be read.
pub proof fn lemma_climb_step(
    node: nat,
    text: Seq<char>,
    right: bool,
    rest: Seq<(Seq<char>, bool)>,
)
    ensures
        ({
            let p = hash::schedule();
            let tag = hash::tag_element("MerkleTree"@);
            let path = seq![(text, right)] + rest;
            let read = field::field_of_text(text);
            &&& climb(node, Seq::empty()) == Some(node)
            &&& read is None ==> climb(node, path) is None
            &&& read is Some && right ==> climb(node, path) == climb(
                permutation::sponge(p, seq![tag, node, read->0]),
                rest,
            )
            &&& read is Some && !right ==> climb(node, path) == climb(
                permutation::sponge(p, seq![tag, read->0, node]),
                rest,
            )
        }),
{
    let path = seq![(text, right)] + rest;
    assert(path.drop_first() =~= rest);
}

} // verus!
