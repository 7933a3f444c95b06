//! Proofs that are made ahead of time, one for each window.
use crate::base64url;
use crate::biometric::types::VerifiableCredential;
use crate::clock;
use vstd::prelude::*;

verus! {

/// The length of a window.
pub const PROOF_WINDOW_SECONDS: u64 = 30;

/// The number of proofs that are kept.
pub const CACHE_SIZE: usize = 4;

/// A derived credential with the bytes of its proof.
#[derive(Clone)]
pub struct CachedProof {
    pub credential: VerifiableCredential,
    pub proof_bytes: Vec<u8>,
}

impl CachedProof {
    /// Takes a derived credential in. A proof that does not decode counts as no
    /// bytes at all.
    pub fn new(credential: VerifiableCredential) -> (r: CachedProof)
        ensures
            r.credential == credential,
            r.proof_bytes@ == match base64url::strictly_decoded(credential.proof_value@) {
                Ok(bytes) => bytes,
                Err(_) => Seq::empty(),
            },
    {
        let proof_bytes = match base64url::strict_decode(credential.proof_value.as_str()) {
            Ok(bytes) => bytes,
            Err(_) => Vec::new(),
        };
        CachedProof { credential, proof_bytes }
    }
}

/// Proofs for the current and coming windows, the oldest first.
pub struct ProofCache {
    proofs: Vec<CachedProof>,
}

/// The proofs whose windows have not ended.
pub open spec fn unexpired(s: Seq<CachedProof>, now: u64) -> Seq<CachedProof>
    decreases s.len(),
{
    if s.len() == 0 {
        Seq::empty()
    } else {
        let before = unexpired(s.drop_last(), now);
        if s.last().credential.window_expires > now {
            before.push(s.last())
        } else {
            before
        }
    }
}

/// The proofs after one more is taken in: those that have ended go, the new one
/// comes last, and the first goes when there are more than four.
pub open spec fn stored(s: Seq<CachedProof>, now: u64, proof: CachedProof) -> Seq<CachedProof> {
    let all = unexpired(s, now).push(proof);
    if all.len() > 4 {
        all.drop_first()
    } else {
        all
    }
}

/// Whether a time is within the window of a proof.
pub open spec fn is_current(proof: CachedProof, now: u64) -> bool {
    proof.credential.window_start <= now < proof.credential.window_expires
}

/// The first proof whose window a time is in, or none when there is no such one.
pub open spec fn is_first_current(
    s: Seq<CachedProof>,
    now: u64,
    found: Option<&CachedProof>,
) -> bool {
    match found {
        Some(p) => exists|i: int|
            {
                &&& 0 <= i < s.len()
                &&& *p == #[trigger] s[i]
                &&& is_current(s[i], now)
                &&& forall|j: int| 0 <= j < i ==> !is_current(#[trigger] s[j], now)
            },
        None => forall|j: int| 0 <= j < s.len() ==> !is_current(#[trigger] s[j], now),
    }
}

/// The start of the window that a time is in.
pub open spec fn window_of(now: u64) -> u64 {
    (now - now % 30) as u64
}

/// Whether a window is thirty seconds long and begins at a multiple of that.
pub open spec fn is_aligned(credential: VerifiableCredential) -> bool {
    &&& credential.window_start % 30 == 0
    &&& credential.window_expires == credential.window_start + 30
}

/// Whether every proof has such a window.
pub open spec fn all_aligned(s: Seq<CachedProof>) -> bool {
    forall|i: int| 0 <= i < s.len() ==> is_aligned((#[trigger] s[i]).credential)
}

/// A found proof is that of the window which a time is in.
pub open spec fn is_of_window(found: Option<&CachedProof>, now: u64) -> bool {
    found matches Some(p) ==> {
        &&& is_aligned(p.credential)
        &&& p.credential.window_start == window_of(now)
    }
}

/// What the maker of proofs is to do.
#[derive(Clone, Copy, PartialEq, Eq, Structural, Debug)]
pub enum Task {
    /// Nothing, for half a second.
    Wait,
    /// Make a proof for a window.
    Prove { start: u64, end: u64 },
}

/// What is to be done when the next window to prove begins at `next`, and where
/// the window after it begins. Proofs are made for windows that begin up to four
/// windows ahead.
pub open spec fn task_of(next: u64, now: u64) -> (Task, u64) {
    if next > now + 120 {
        (Task::Wait, next)
    } else {
        (Task::Prove { start: next, end: (next + 30) as u64 }, (next + 30) as u64)
    }
}

impl View for ProofCache {
    type V = Seq<CachedProof>;

    closed spec fn view(&self) -> Seq<CachedProof> {
        self.proofs@
    }
}

impl ProofCache {
    #[verifier::type_invariant]
    spec fn is_small(self) -> bool {
        self.proofs@.len() <= 4
    }

    /// A cache without proofs.
    pub fn new() -> (r: ProofCache)
        ensures
            r@ == Seq::<CachedProof>::empty(),
            all_aligned(r@),
    {
        ProofCache { proofs: Vec::new() }
    }

    /// The number of proofs, which is four at most.
    pub fn len(&self) -> (r: usize)
        ensures
            r == self@.len(),
            r <= CACHE_SIZE,
    {
        proof {
            use_type_invariant(self);
        }
        self.proofs.len()
    }

    /// Takes a proof in. Windows stay aligned when that of the new proof is.
    pub fn store(&mut self, now: u64, proof: CachedProof)
        ensures
            final(self)@ == stored(old(self)@, now, proof),
            all_aligned(old(self)@) && is_aligned(proof.credential) ==> all_aligned(final(self)@),
    {
        proof {
            use_type_invariant(&*self);
        }
        let mut rest: Vec<CachedProof> = Vec::new();
        std::mem::swap(&mut rest, &mut self.proofs);
        let ghost all = rest@;
        let mut kept: Vec<CachedProof> = Vec::new();
        let mut i: usize = 0;
        let count = rest.len();
        assert(all.skip(0) =~= all);
        while i < count
            invariant
                i <= count,
                count == all.len(),
                count <= 4,
                rest@ == all.skip(i as int),
                kept@ == unexpired(all.take(i as int), now),
                kept@.len() <= i,
            decreases count - i,
        {
            let item = rest.remove(0);
            proof {
                assert(item == all[i as int]);
                assert(rest@ =~= all.skip(i + 1));
                assert(all.take(i + 1).drop_last() =~= all.take(i as int));
                assert(all.take(i + 1).last() == item);
            }
            if item.credential.window_expires > now {
                kept.push(item);
            }
            i += 1;
        }
        assert(all.take(all.len() as int) =~= all);
        kept.push(proof);
        if kept.len() > CACHE_SIZE {
            let ghost full = kept@;
            kept.remove(0);
            assert(kept@ =~= full.drop_first());
        }
        self.proofs = kept;
        proof {
            if all_aligned(all) && is_aligned(proof.credential) {
                lemma_stored_aligned(all, now, proof);
            }
        }
    }

    /// The first proof whose window a time is in.
    pub fn get_proof_at(&self, now: u64) -> (r: Option<&CachedProof>)
        ensures
            is_first_current(self@, now, r),
            all_aligned(self@) ==> is_of_window(r, now),
            r matches Some(p) ==> p.credential.window_start <= now
                < p.credential.window_expires && self@.contains(*p),
            r is None ==> forall|j: int|
                0 <= j < self@.len() ==> now < (
                #[trigger] self@[j]).credential.window_start || self@[j].credential.window_expires
                    <= now,
    {
        for i in 0..self.proofs.len()
            invariant
                forall|j: int| 0 <= j < i ==> !is_current(#[trigger] self@[j], now),
        {
            let p = &self.proofs[i];
            if now >= p.credential.window_start && now < p.credential.window_expires {
                proof {
                    assert(is_current(self@[i as int], now));
                    assert(self@[i as int] == *p);
                    if is_aligned(p.credential) {
                        lemma_aligned_start(p.credential.window_start, now);
                    }
                }
                return Some(p);
            }
        }
        None
    }

    /// The first proof whose window it is.
    pub fn get_proof(&self) -> (r: Option<&CachedProof>)
        ensures
            exists|now: u64|
                {
                    &&& #[trigger] is_first_current(self@, now, r)
                    &&& all_aligned(self@) ==> is_of_window(r, now)
                },
    {
        let now = clock::seconds_now();
        self.get_proof_at(now)
    }

    /// The start of the window that a time is in.
    pub fn window_start_at(now: u64) -> (r: u64)
        ensures
            r == window_of(now),
            r <= now < r + 30,
            r % 30 == 0,
    {
        now - (now % PROOF_WINDOW_SECONDS)
    }

    /// The start of the window that it is.
    pub fn current_window_start() -> (r: u64)
        ensures
            r % 30 == 0,
            exists|now: u64| r == #[trigger] window_of(now),
    {
        ProofCache::window_start_at(clock::seconds_now())
    }

    /// What to do next, and the window after it.
    pub fn next_task(next: u64, now: u64) -> (r: (Task, u64))
        requires
            now + 120 <= u64::MAX,
            next <= now + 120 ==> next + 30 <= u64::MAX,
        ensures
            r == task_of(next, now),
            now + 120 < next ==> r.0 == Task::Wait && r.1 == next,
            next <= now + 120 ==> r.0 == (Task::Prove {
                start: next,
                end: (next + 30) as u64,
            }) && r.1 == next + 30,
    {
        if next > now + PROOF_WINDOW_SECONDS * 4 {
            (Task::Wait, next)
        } else {
            let end = next + PROOF_WINDOW_SECONDS;
            (Task::Prove { start: next, end }, end)
        }
    }
}

/// The last proof to be taken in is there, and nothing in the cache has ended
/// but perhaps that one.
pub proof fn lemma_stored(s: Seq<CachedProof>, now: u64, proof: CachedProof)
    requires
        s.len() <= 4,
    ensures
        1 <= stored(s, now, proof).len() <= 4,
        stored(s, now, proof).last() == proof,
        forall|i: int|
            0 <= i < stored(s, now, proof).len() - 1 ==> (#[trigger] stored(
                s,
                now,
                proof,
            )[i]).credential.window_expires > now && s.contains(stored(s, now, proof)[i]),
{
    lemma_unexpired(s, now);
    let kept = unexpired(s, now);
    let all = kept.push(proof);
    let r = stored(s, now, proof);
    assert forall|i: int| 0 <= i < r.len() - 1 implies (
    #[trigger] r[i]).credential.window_expires > now && s.contains(r[i]) by {
        let j = if all.len() > 4 {
            i + 1
        } else {
            i
        };
        assert(r[i] == kept[j]);
    }
}

/// Windows stay aligned when a proof with such a window is taken in.
pub proof fn lemma_stored_aligned(s: Seq<CachedProof>, now: u64, proof: CachedProof)
    requires
        all_aligned(s),
        is_aligned(proof.credential),
    ensures
        all_aligned(stored(s, now, proof)),
{
    lemma_unexpired(s, now);
    let kept = unexpired(s, now);
    let all = kept.push(proof);
    let r = stored(s, now, proof);
    assert forall|i: int| 0 <= i < all.len() implies is_aligned(
        (#[trigger] all[i]).credential,
    ) by {
        if i < kept.len() {
            let item = kept[i];
            let j = choose|j: int| 0 <= j < s.len() && s[j] == item;
            assert(is_aligned(s[j].credential));
        }
    }
    assert forall|i: int| 0 <= i < r.len() implies is_aligned((#[trigger] r[i]).credential) by {
        let j = if all.len() > 4 {
            i + 1
        } else {
            i
        };
        assert(r[i] == all[j]);
    }
}

/// An aligned window that a time is in is the one that begins at the last
/// multiple of thirty.
proof fn lemma_aligned_start(start: u64, now: u64)
    requires
        start % 30 == 0,
        start <= now < start + 30,
    ensures
        start == window_of(now),
{
}

/// Every window that the maker of proofs comes to is aligned: starting from the
/// window of a time, or from where an earlier task left off, a task is for a
/// window of thirty seconds that begins at a multiple of thirty, and so is the
/// one after it.
pub proof fn lemma_task_aligned(next: u64, now: u64)
    requires
        now + 120 <= u64::MAX,
        next <= now + 120 ==> next + 30 <= u64::MAX,
    ensures
        window_of(now) % 30 == 0,
        next % 30 == 0 ==> task_of(next, now).1 % 30 == 0,
        next % 30 == 0 ==> (task_of(next, now).0 matches Task::Prove { start, end } ==> start % 30
            == 0 && end == start + 30),
{
}

/// What is derived for the window of an aligned task has an aligned window, and
/// so has the proof that is cached for it.
pub proof fn lemma_derived_aligned(
    suite: crate::biometric::suite::PoseidonGroth16Suite,
    c: VerifiableCredential,
    reveal: Seq<Seq<char>>,
    predicates: Seq<crate::biometric::types::PredicateType>,
    next: u64,
    now: u64,
    start: u64,
    end: u64,
    d: VerifiableCredential,
)
    requires
        next % 30 == 0,
        now + 120 <= u64::MAX,
        next <= now + 120 ==> next + 30 <= u64::MAX,
        task_of(next, now).0 == (Task::Prove { start, end }),
        suite.derivation(c, reveal, predicates, start, end, Ok(d)),
    ensures
        is_aligned(d),
{
}

proof fn lemma_unexpired(s: Seq<CachedProof>, now: u64)
    ensures
        unexpired(s, now).len() <= s.len(),
        forall|i: int|
            0 <= i < unexpired(s, now).len() ==> (#[trigger] unexpired(
                s,
                now,
            )[i]).credential.window_expires > now && s.contains(unexpired(s, now)[i]),
    decreases s.len(),
{
    if s.len() > 0 {
        let before = s.drop_last();
        lemma_unexpired(before, now);
        let kept = unexpired(s, now);
        assert forall|i: int| 0 <= i < kept.len() implies (
        #[trigger] kept[i]).credential.window_expires > now && s.contains(kept[i]) by {
            if i < unexpired(before, now).len() {
                let item = unexpired(before, now)[i];
                let j = choose|j: int| 0 <= j < before.len() && before[j] == item;
                assert(s[j] == item);
            } else {
                assert(s[s.len() - 1] == kept[i]);
            }
        }
    }
}

/// What is in the cache after a proof is taken in: of the proofs that were there those
/// that end after the time, in their order, and the new one behind them, without the
/// first where that makes five.
pub proof fn lemma_stored_content(s: Seq<CachedProof>, now: u64, proof: CachedProof)
    requires
        s.len() <= 4,
    ensures
        ({
            let all = s.filter(|p: CachedProof| now < p.credential.window_expires).push(proof);
            stored(s, now, proof) == if all.len() == 5 {
                all.subrange(1, 5)
            } else {
                all
            }
        }),
{
    lemma_unexpired_filter(s, now);
    lemma_unexpired(s, now);
    let all = unexpired(s, now).push(proof);
    if all.len() == 5 {
        assert(all.drop_first() =~= all.subrange(1, 5));
    }
}

proof fn lemma_unexpired_filter(s: Seq<CachedProof>, now: u64)
    ensures
        unexpired(s, now) == s.filter(|p: CachedProof| now < p.credential.window_expires),
    decreases s.len(),
{
    reveal(Seq::filter);
    if s.len() > 0 {
        lemma_unexpired_filter(s.drop_last(), now);
    }
}

} // verus!
