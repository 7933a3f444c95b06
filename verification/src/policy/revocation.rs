//! The list of revoked credentials.
use crate::clock;
use crate::field;
use crate::field::Fr;
use crate::policy::merkle;
use crate::policy::merkle::MerkleProof;
use vstd::prelude::*;

verus! {

/// A revoked commitment, with when and why.
#[derive(Clone, Debug)]
pub struct RevocationEntry {
    pub commitment: Fr,
    pub timestamp: u64,
    pub reason: String,
}

/// A list of revoked commitments with the root of their Merkle tree.
#[derive(Clone, Debug)]
pub struct RevocationList {
    pub version: u32,
    pub entries: Vec<RevocationEntry>,
    pub merkle_root: Fr,
    pub updated_at: u64,
}

/// The commitments of entries.
pub open spec fn commitments(entries: Seq<RevocationEntry>) -> Seq<nat> {
    Seq::new(entries.len(), |i: int| entries[i].commitment@)
}

/// The first place of a commitment.
pub open spec fn is_first_place(s: Seq<nat>, commitment: nat, i: int) -> bool {
    0 <= i < s.len() && s[i] == commitment && forall|j: int|
        0 <= j < i ==> #[trigger] s[j] != commitment
}

impl RevocationList {
    /// The revoked commitments, in the order of their revocation.
    pub open spec fn revoked(self) -> Seq<nat> {
        commitments(self.entries@)
    }

    /// The root is that of the tree of the revoked commitments.
    pub open spec fn consistent(self) -> bool {
        self.merkle_root@ == merkle::root_value(self.revoked())
    }

    /// An empty list as of a time.
    pub fn new_at(now: u64) -> (r: RevocationList)
        ensures
            r.version == 1,
            r.entries@.len() == 0,
            r.merkle_root@ == 0,
            r.updated_at == now,
            r.consistent(),
    {
        RevocationList {
            version: 1,
            entries: Vec::new(),
            merkle_root: Fr::zero(),
            updated_at: now,
        }
    }

    /// An empty list as of now.
    pub fn new() -> (r: RevocationList)
        ensures
            r.version == 1,
            r.entries@.len() == 0,
            r.merkle_root@ == 0,
            r.consistent(),
    {
        RevocationList::new_at(clock::seconds_now())
    }

    /// The revoked commitments as field elements.
    fn elements(&self) -> (r: Vec<Fr>)
        ensures
            field::values(r@) == self.revoked(),
    {
        let mut out: Vec<Fr> = Vec::new();
        assert(field::values(out@) =~= self.revoked().take(0));
        for i in 0..self.entries.len()
            invariant
                field::values(out@) == self.revoked().take(i as int),
        {
            let ghost before = out@;
            out.push(self.entries[i].commitment);
            proof {
                let c = self.revoked()[i as int];
                assert(field::values(out@) =~= field::values(before).push(c));
                assert(self.revoked().take(i + 1) =~= self.revoked().take(i as int).push(c));
            }
        }
        assert(self.revoked().take(self.entries@.len() as int) =~= self.revoked());
        out
    }

    fn update_merkle_root(&mut self)
        ensures
            final(self).consistent(),
            final(self).version == old(self).version,
            final(self).entries == old(self).entries,
            final(self).updated_at == old(self).updated_at,
    {
        let all = self.elements();
        let (root, _) = merkle::build_merkle_tree(all.as_slice());
        self.merkle_root = root;
    }

    /// Revokes a commitment at a time.
    pub fn revoke_at(&mut self, commitment: Fr, reason: String, now: u64)
        ensures
            final(self).entries@ == old(self).entries@.push(
                RevocationEntry { commitment, timestamp: now, reason },
            ),
            final(self).version == old(self).version,
            final(self).updated_at == now,
            final(self).consistent(),
    {
        self.entries.push(RevocationEntry { commitment, timestamp: now, reason });
        self.update_merkle_root();
        self.updated_at = now;
    }

    /// Revokes a commitment now.
    pub fn revoke(&mut self, commitment: Fr, reason: String)
        ensures
            exists|now: u64|
                final(self).entries@ == old(self).entries@.push(
                    #[trigger] dated(commitment, now, reason),
                ) && final(self).updated_at == now,
            final(self).version == old(self).version,
            final(self).consistent(),
    {
        let now = clock::seconds_now();
        let ghost entry = dated(commitment, now, reason);
        self.revoke_at(commitment, reason, now);
    }

    /// The first place of a commitment among the entries.
    fn place_of(&self, commitment: &Fr) -> (r: Option<usize>)
        ensures
            r matches Some(i) ==> is_first_place(self.revoked(), commitment@, i as int),
            r is None ==> !self.revoked().contains(commitment@),
    {
        for i in 0..self.entries.len()
            invariant
                forall|j: int| 0 <= j < i ==> #[trigger] self.revoked()[j] != commitment@,
        {
            assert(self.revoked()[i as int] == self.entries@[i as int].commitment@);
            if self.entries[i].commitment == *commitment {
                return Some(i);
            }
        }
        proof {
            if self.revoked().contains(commitment@) {
                let i = choose|i: int|
                    0 <= i < self.revoked().len() && self.revoked()[i] == commitment@;
                assert(self.revoked()[i] != commitment@);
            }
        }
        None
    }

    /// A proof that a commitment is revoked, by its first entry.
    pub fn get_merkle_proof(&self, commitment: &Fr) -> (r: Option<MerkleProof>)
        ensures
            r is Some <==> self.revoked().contains(commitment@),
            r matches Some(p) ==> exists|i: int|
                {
                    &&& #[trigger] is_first_place(self.revoked(), commitment@, i)
                    &&& p.leaf@ == merkle::leaf_value(commitment@, i as nat)
                    &&& merkle::steps(p.path@) == merkle::path_from(
                        merkle::tree(self.revoked()),
                        i as nat,
                    )
                    &&& p.root@ == merkle::root_value(self.revoked())
                },
            r is Some <==> exists|i: int|
                0 <= i < self.entries@.len() && (#[trigger] self.entries@[i]).commitment@
                    == commitment@,
            r matches Some(p) ==> exists|i: int|
                {
                    &&& 0 <= i < self.entries@.len()
                    &&& (#[trigger] self.entries@[i]).commitment@ == commitment@
                    &&& forall|j: int|
                        0 <= j < i ==> (#[trigger] self.entries@[j]).commitment@ != commitment@
                    &&& p.leaf@ == merkle::leaf_value(commitment@, i as nat)
                },
    {
        proof {
            lemma_contained(self.entries@, commitment@);
        }
        let all = self.elements();
        let (_, levels) = merkle::build_merkle_tree(all.as_slice());
        match self.place_of(commitment) {
            Some(i) => {
                let ghost s = self.revoked();
                let ghost g = merkle::grid(levels@);
                proof {
                    assert(s[i as int] == commitment@);
                    merkle::lemma_membership_proof(s, i as nat);
                    assert(g[0] == field::values(levels@[0]@));
                    assert(g.last() == field::values(levels@.last()@));
                }
                let p = merkle::generate_merkle_proof(levels.as_slice(), i);
                proof {
                    assert(g[0][i as int] == levels@[0]@[i as int]@);
                    assert(g.last()[0] == levels@.last()@[0]@);
                    assert(is_first_place(s, commitment@, i as int));
                    assert(self.entries@[i as int].commitment@ == commitment@);
                    assert forall|j: int| 0 <= j < i implies (
                    #[trigger] self.entries@[j]).commitment@ != commitment@ by {
                        assert(s[j] != commitment@);
                    }
                }
                Some(p)
            },
            None => None,
        }
    }

    /// Whether a commitment is revoked.
    pub fn contains(&self, commitment: &Fr) -> (r: bool)
        ensures
            r == self.revoked().contains(commitment@),
            r <==> exists|i: int|
                0 <= i < self.entries@.len() && (#[trigger] self.entries@[i]).commitment@
                    == commitment@,
    {
        proof {
            lemma_contained(self.entries@, commitment@);
        }
        match self.place_of(commitment) {
            Some(_) => true,
            None => false,
        }
    }
}

/// An entry.
pub open spec fn dated(commitment: Fr, timestamp: u64, reason: String) -> RevocationEntry {
    RevocationEntry { commitment, timestamp, reason }
}

/// A revoked commitment is in the list, with all that were there before, and
/// nothing else is.
pub proof fn lemma_revoked(
    before: Seq<RevocationEntry>,
    entry: RevocationEntry,
    commitment: nat,
)
    ensures
        commitments(before.push(entry)).contains(commitment) <==> commitments(before).contains(
            commitment,
        ) || commitment == entry.commitment@,
{
    let old_list = commitments(before);
    let new_list = commitments(before.push(entry));
    assert(new_list =~= old_list.push(entry.commitment@));
    if old_list.contains(commitment) {
        let i = choose|i: int| 0 <= i < old_list.len() && old_list[i] == commitment;
        assert(new_list[i] == commitment);
    }
    if commitment == entry.commitment@ {
        assert(new_list[old_list.len() as int] == commitment);
    }
    if new_list.contains(commitment) && commitment != entry.commitment@ {
        let i = choose|i: int| 0 <= i < new_list.len() && new_list[i] == commitment;
        assert(old_list[i] == commitment);
    }
}

/// The proof of a revoked commitment verifies against the list's root, unless a
/// sibling on its way is zero.
pub proof fn lemma_revocation_proof(list: RevocationList, commitment: nat, i: int)
    requires
        list.consistent(),
        is_first_place(list.revoked(), commitment, i),
        merkle::legible(merkle::tree(list.revoked()), i as nat),
    ensures
        merkle::climb(
            merkle::leaf_value(commitment, i as nat),
            merkle::path_from(merkle::tree(list.revoked()), i as nat),
        ) == Some(list.merkle_root@),
{
    merkle::lemma_membership_proof(list.revoked(), i as nat);
}

proof fn lemma_contained(entries: Seq<RevocationEntry>, commitment: nat)
    ensures
        commitments(entries).contains(commitment) <==> exists|i: int|
            0 <= i < entries.len() && (#[trigger] entries[i]).commitment@ == commitment,
{
    let all = commitments(entries);
    if all.contains(commitment) {
        let i = choose|i: int| 0 <= i < all.len() && all[i] == commitment;
        assert(entries[i].commitment@ == commitment);
    }
    if exists|i: int|
        0 <= i < entries.len() && (#[trigger] entries[i]).commitment@ == commitment {
        let i = choose|i: int|
            0 <= i < entries.len() && (#[trigger] entries[i]).commitment@ == commitment;
        assert(all[i] == commitment);
    }
}

} // verus!
