//! The general resource bucket: a fixed pool of htlc slots on a channel,
//! partitioned pseudorandomly among candidate forwarding channels, with
//! consistent cross-indexing between the global slot state and the per-peer
//! slot state.

use vstd::prelude::*;

use crate::errors::ReputationError;

use bitcoin::hashes::Hash as _;

verus! {

/// Describes the size of a resource bucket.
#[derive(Clone, Debug)]
pub struct BucketParameters {
    /// The number of HTLC slots available in the bucket.
    pub slot_count: u16,
    /// The amount of liquidity available in the bucket.
    pub liquidity_msat: u64,
}

/// The number of slots each candidate channel is allowed in the general
/// bucket.
pub const ASSIGNED_SLOTS: usize = 5;

/// How many hash attempts are made to find [`ASSIGNED_SLOTS`] distinct slots.
pub const MAX_ASSIGN_ATTEMPTS: usize = 10;

/// One slot granted to a candidate channel: the index of the slot in the
/// bucket's global slot vector, and whether the candidate currently occupies
/// it.
#[derive(Clone, Copy, Debug, Eq, PartialEq, Structural)]
pub struct SlotEntry {
    pub index: u16,
    pub occupied: bool,
}

/// The slots that one candidate channel may use in a general bucket.
#[derive(Clone, Debug)]
pub struct CandidateSlots {
    /// Short channel id of the candidate incoming channel.
    pub scid: u64,
    /// The slots assigned to the candidate, each with its occupancy.
    pub slots: Vec<SlotEntry>,
}

/// The digest that bitcoin's double-SHA-256 assigns to a byte string; the
/// result depends on the input bytes alone.
pub uninterp spec fn sha256d_of(data: Seq<u8>) -> Seq<u8>;

/// Relies on bitcoin's `sha256d::Hash::hash`: the digest is 32 bytes and is a
/// function of the input bytes alone.
#[verifier::external_body]
fn sha256d(data: &Vec<u8>) -> (r: Vec<u8>)
    ensures
        r@ == sha256d_of(data@),
        r@.len() == 32,
{
    bitcoin::hashes::sha256d::Hash::hash(data.as_slice()).to_byte_array().to_vec()
}

/// Relies on rand's system randomness source (`rand::rngs::SysRng`) to fill
/// 32 bytes of salt; nothing is promised of the bytes themselves.
#[verifier::external_body]
fn random_salt() -> (r: Result<Vec<u8>, ReputationError>)
    ensures
        r matches Ok(salt) ==> salt@.len() == 32,
        r matches Err(e) ==> e is ErrUnrecoverable,
{
    let mut salt = vec![0u8; 32];
    match rand::TryRng::try_fill_bytes(&mut rand::rngs::SysRng, salt.as_mut_slice()) {
        Ok(()) => Ok(salt),
        Err(e) => Err(ReputationError::ErrUnrecoverable(format!("could not draw salt: {e}"))),
    }
}

/// The big-endian bytes of a u64, most significant first.
pub open spec fn be64(x: u64) -> Seq<u8> {
    seq![
        ((x >> 56) & 0xff) as u8,
        ((x >> 48) & 0xff) as u8,
        ((x >> 40) & 0xff) as u8,
        ((x >> 32) & 0xff) as u8,
        ((x >> 24) & 0xff) as u8,
        ((x >> 16) & 0xff) as u8,
        ((x >> 8) & 0xff) as u8,
        (x & 0xff) as u8,
    ]
}

/// Appends the big-endian bytes of `x` to `out`.
fn push_be64(out: &mut Vec<u8>, x: u64)
    ensures
        final(out)@ == old(out)@ + be64(x),
{
    out.push(((x >> 56) & 0xff) as u8);
    out.push(((x >> 48) & 0xff) as u8);
    out.push(((x >> 40) & 0xff) as u8);
    out.push(((x >> 32) & 0xff) as u8);
    out.push(((x >> 24) & 0xff) as u8);
    out.push(((x >> 16) & 0xff) as u8);
    out.push(((x >> 8) & 0xff) as u8);
    out.push((x & 0xff) as u8);
    assert(out@ =~= old(out)@ + be64(x));
}

/// The integer a big-endian byte string stands for.
pub open spec fn be_val(s: Seq<u8>) -> int
    decreases s.len(),
{
    if s.len() == 0 {
        0
    } else {
        be_val(s.drop_last()) * 256 + s.last()
    }
}

/// Reads the first eight bytes of `v` as a big-endian integer.
fn be_u64_of_first8(v: &Vec<u8>) -> (r: u64)
    requires
        v@.len() >= 8,
    ensures
        r == be_val(v@.take(8)),
{
    let mut r: u64 = 0;
    let mut i: usize = 0;
    assert(v@.take(0) =~= Seq::<u8>::empty());
    while i < 8
        invariant
            0 <= i <= 8,
            v@.len() >= 8,
            r == be_val(v@.take(i as int)),
            r < pow256(i as nat),
        decreases 8 - i,
    {
        let b: u8 = v[i];
        proof {
            lemma_pow256_bounds(i as nat);
            lemma_pow256_bounds((i + 1) as nat);
            assert(r * 256 + (b as int) < pow256((i + 1) as nat)) by (nonlinear_arith)
                requires
                    r < pow256(i as nat),
                    b < 256,
                    pow256((i + 1) as nat) == pow256(i as nat) * 256,
                    pow256(i as nat) >= 1,
            ;
            assert(v@.take(i + 1).drop_last() =~= v@.take(i as int));
            assert(v@.take(i + 1).last() == v@[i as int]);
        }
        r = r * 256 + (b as u64);
        i = i + 1;
    }
    r
}

/// 256 raised to a small power; used to bound partial big-endian reads.
pub open spec fn pow256(k: nat) -> int
    decreases k,
{
    if k == 0 {
        1
    } else {
        pow256((k - 1) as nat) * 256
    }
}

proof fn lemma_pow256_bounds(k: nat)
    requires
        k <= 8,
    ensures
        pow256(k) >= 1,
        pow256((k + 1) as nat) == pow256(k) * 256,
        pow256(k) <= 0x1_0000_0000_0000_0000,
{
    assert(pow256(0) == 1);
    assert(pow256(1) == 256);
    assert(pow256(2) == 0x1_0000);
    assert(pow256(3) == 0x100_0000);
    assert(pow256(4) == 0x1_0000_0000);
    assert(pow256(5) == 0x100_0000_0000);
    assert(pow256(6) == 0x1_0000_0000_0000);
    assert(pow256(7) == 0x100_0000_0000_0000);
    assert(pow256(8) == 0x1_0000_0000_0000_0000);
}

/// The byte string hashed to derive a candidate's slot on one attempt: the
/// bucket's salt, then the owning and candidate channel ids big-endian, then
/// the attempt number.
pub open spec fn slot_source(salt: Seq<u8>, own: u64, cand: u64, attempt: u8) -> Seq<u8> {
    salt + be64(own) + be64(cand) + seq![attempt]
}

/// The slot index one hash attempt yields: the first eight digest bytes read
/// big-endian, reduced modulo the bucket's slot count.
pub open spec fn attempt_slot(salt: Seq<u8>, own: u64, cand: u64, n: int, attempt: u8) -> u16 {
    (be_val(sha256d_of(slot_source(salt, own, cand, attempt)).take(8)) % n) as u16
}

/// The distinct slot indices the first `attempts` hash attempts accumulate,
/// in order of discovery, stopping once [`ASSIGNED_SLOTS`] are found.
pub open spec fn derived_slots(salt: Seq<u8>, own: u64, cand: u64, n: int, attempts: int) -> Seq<
    u16,
>
    decreases attempts,
{
    if attempts <= 0 {
        Seq::empty()
    } else {
        let prev = derived_slots(salt, own, cand, n, attempts - 1);
        if prev.len() >= ASSIGNED_SLOTS as int {
            prev
        } else {
            let s = attempt_slot(salt, own, cand, n, (attempts - 1) as u8);
            if prev.contains(s) {
                prev
            } else {
                prev.push(s)
            }
        }
    }
}

/// The derived slots are at most [`ASSIGNED_SLOTS`] many, all below the slot
/// count, and pairwise distinct.
pub proof fn lemma_derived_slots_props(salt: Seq<u8>, own: u64, cand: u64, n: int, attempts: int)
    requires
        1 <= n,
    ensures
        derived_slots(salt, own, cand, n, attempts).len() <= ASSIGNED_SLOTS as int,
        forall|j: int|
            0 <= j < derived_slots(salt, own, cand, n, attempts).len() ==> (#[trigger] derived_slots(
                salt,
                own,
                cand,
                n,
                attempts,
            )[j]) < n,
        forall|j1: int, j2: int|
            0 <= j1 < j2 < derived_slots(salt, own, cand, n, attempts).len() ==> derived_slots(
                salt,
                own,
                cand,
                n,
                attempts,
            )[j1] != derived_slots(salt, own, cand, n, attempts)[j2],
    decreases attempts,
{
    if attempts <= 0 {
    } else {
        lemma_derived_slots_props(salt, own, cand, n, attempts - 1);
        let prev = derived_slots(salt, own, cand, n, attempts - 1);
        let cur = derived_slots(salt, own, cand, n, attempts);
        if prev.len() < ASSIGNED_SLOTS as int {
            let s = attempt_slot(salt, own, cand, n, (attempts - 1) as u8);
            assert(0 <= be_val(sha256d_of(slot_source(salt, own, cand, (attempts - 1) as u8)).take(8)) % n < n);
            if !prev.contains(s) {
                assert(cur == prev.push(s));
                assert(forall|j: int| 0 <= j < prev.len() ==> cur[j] == prev[j]);
                assert(forall|j: int| 0 <= j < prev.len() ==> prev[j] != s) by {
                    assert(forall|j: int| 0 <= j < prev.len() ==> prev.contains(#[trigger] prev[j]));
                }
            }
        }
    }
}

/// How many entries of a candidate's slot list are currently occupied.
pub open spec fn occupied_entry_count(s: Seq<SlotEntry>) -> int
    decreases s.len(),
{
    if s.len() == 0 {
        0
    } else {
        occupied_entry_count(s.drop_last()) + if s.last().occupied {
            1int
        } else {
            0int
        }
    }
}

/// How many entries of a candidate's slot list point at a globally free slot.
pub open spec fn free_entry_count(s: Seq<SlotEntry>, global: Seq<bool>) -> int
    decreases s.len(),
{
    if s.len() == 0 {
        0
    } else {
        free_entry_count(s.drop_last(), global) + if s.last().index < global.len() && !global[s.last().index as int] {
            1int
        } else {
            0int
        }
    }
}

/// How many slots of the bucket's global vector are occupied.
pub open spec fn occupied_slot_count(s: Seq<bool>) -> int
    decreases s.len(),
{
    if s.len() == 0 {
        0
    } else {
        occupied_slot_count(s.drop_last()) + if s.last() {
            1int
        } else {
            0int
        }
    }
}

/// Updating one entry moves the occupied count by the difference of the old
/// and new entry.
pub proof fn lemma_occupied_entry_count_update(s: Seq<SlotEntry>, j: int, e: SlotEntry)
    requires
        0 <= j < s.len(),
    ensures
        occupied_entry_count(s.update(j, e)) == occupied_entry_count(s) - (if s[j].occupied {
            1int
        } else {
            0int
        }) + (if e.occupied {
            1int
        } else {
            0int
        }),
    decreases s.len(),
{
    let t = s.update(j, e);
    if j == s.len() - 1 {
        assert(t.drop_last() =~= s.drop_last());
        assert(t.last() == e);
    } else {
        assert(t.drop_last() =~= s.drop_last().update(j, e));
        assert(t.last() == s.last());
        lemma_occupied_entry_count_update(s.drop_last(), j, e);
    }
}

/// Updating one global slot moves the occupied slot count by the difference.
pub proof fn lemma_occupied_slot_count_update(s: Seq<bool>, k: int, b: bool)
    requires
        0 <= k < s.len(),
    ensures
        occupied_slot_count(s.update(k, b)) == occupied_slot_count(s) - (if s[k] {
            1int
        } else {
            0int
        }) + (if b {
            1int
        } else {
            0int
        }),
    decreases s.len(),
{
    let t = s.update(k, b);
    if k == s.len() - 1 {
        assert(t.drop_last() =~= s.drop_last());
        assert(t.last() == b);
    } else {
        assert(t.drop_last() =~= s.drop_last().update(k, b));
        assert(t.last() == s.last());
        lemma_occupied_slot_count_update(s.drop_last(), k, b);
    }
}

/// A vector of slots that are all free counts zero occupied slots.
pub proof fn lemma_all_free_count_zero(s: Seq<bool>)
    requires
        forall|k: int| 0 <= k < s.len() ==> !(#[trigger] s[k]),
    ensures
        occupied_slot_count(s) == 0,
    decreases s.len(),
{
    if s.len() > 0 {
        lemma_all_free_count_zero(s.drop_last());
    }
}

/// A candidate list whose entries are all unoccupied counts zero.
pub proof fn lemma_all_unoccupied_count_zero(s: Seq<SlotEntry>)
    requires
        forall|j: int| 0 <= j < s.len() ==> !(#[trigger] s[j]).occupied,
    ensures
        occupied_entry_count(s) == 0,
    decreases s.len(),
{
    if s.len() > 0 {
        lemma_all_unoccupied_count_zero(s.drop_last());
    }
}

impl CandidateSlots {
    /// A candidate's slot list is well formed for a bucket of `n` slots when
    /// it holds exactly [`ASSIGNED_SLOTS`] entries with pairwise distinct
    /// indices, each below `n`.
    pub open spec fn wf(self, n: int) -> bool {
        &&& self.slots@.len() == ASSIGNED_SLOTS as int
        &&& forall|j: int| 0 <= j < self.slots@.len() ==> (#[trigger] self.slots@[j]).index < n
        &&& forall|j1: int, j2: int|
            0 <= j1 < j2 < self.slots@.len() ==> self.slots@[j1].index != self.slots@[j2].index
    }

    /// Whether the candidate currently occupies global slot `k`.
    pub open spec fn occupies(self, k: u16) -> bool {
        exists|j: int|
            0 <= j < self.slots@.len() && (#[trigger] self.slots@[j]).index == k
                && self.slots@[j].occupied
    }

    /// How many of the candidate's slots it occupies.
    pub open spec fn occ_count(self) -> int {
        occupied_entry_count(self.slots@)
    }

    /// How many of the candidate's slots are globally free.
    pub open spec fn free_count(self, global: Seq<bool>) -> int {
        free_entry_count(self.slots@, global)
    }
}

/// Whether some candidate in the list occupies global slot `k`.
pub open spec fn any_occupies(cands: Seq<CandidateSlots>, k: u16) -> bool {
    exists|i: int| 0 <= i < cands.len() && (#[trigger] cands[i]).occupies(k)
}

/// Every slot some candidate occupies is marked occupied globally.
pub open spec fn sound_seq(cands: Seq<CandidateSlots>, global: Seq<bool>) -> bool {
    forall|k: u16|
        #[trigger] any_occupies(cands, k) ==> k < global.len() && global[k as int]
}

/// A global slot is marked occupied exactly when some candidate occupies it.
pub open spec fn consistent_seq(cands: Seq<CandidateSlots>, global: Seq<bool>) -> bool {
    forall|k: int|
        0 <= k < global.len() ==> ((#[trigger] global[k]) == any_occupies(cands, k as u16))
}

/// At most one candidate in the list occupies any one global slot.
pub open spec fn exclusive_seq(cands: Seq<CandidateSlots>) -> bool {
    forall|i1: int, i2: int, k: u16|
        #![trigger cands[i1].occupies(k), cands[i2].occupies(k)]
        0 <= i1 < cands.len() && 0 <= i2 < cands.len() && cands[i1].occupies(k)
            && cands[i2].occupies(k) ==> i1 == i2
}

/// Tracks resources available on the channel when it is utilized as the
/// incoming direction in a htlc forward: a global slot vector, a liquidity
/// share per slot, and the per-candidate slot assignments.
pub struct GeneralBucket {
    /// The advertised size of the bucket. Jamming the channel zeroes this;
    /// the slot vector keeps its original length so that htlcs already in
    /// flight can still be resolved.
    pub params: BucketParameters,
    /// Short channel ID of the channel that the bucket belongs to.
    pub scid: u64,
    /// The salt slot derivation is keyed with, drawn once at creation.
    pub salt: Vec<u8>,
    /// Tracks the global occupancy of HTLC slots in the bucket.
    pub htlc_slots: Vec<bool>,
    /// The amount of liquidity allocated to each slot in the bucket.
    pub slot_size_msat: u64,
    /// The candidate channels that have been assigned slots, each with the
    /// usage state of its slots. A `u16` slot index accommodates the protocol
    /// maximum of 483 slots.
    pub candidates: Vec<CandidateSlots>,
}

impl GeneralBucket {
    /// The number of slots the bucket was created with.
    pub open spec fn n(self) -> int {
        self.htlc_slots@.len() as int
    }

    /// Whether a candidate channel has been assigned slots.
    pub open spec fn has_candidate(self, scid: u64) -> bool {
        exists|i: int|
            0 <= i < self.candidates@.len() && (#[trigger] self.candidates@[i]).scid == scid
    }

    /// The position of a candidate in the candidate list.
    pub open spec fn cand_pos(self, scid: u64) -> int {
        choose|i: int|
            0 <= i < self.candidates@.len() && (#[trigger] self.candidates@[i]).scid == scid
    }

    /// The slot assignment of a candidate.
    pub open spec fn candidate(self, scid: u64) -> CandidateSlots {
        self.candidates@[self.cand_pos(scid)]
    }

    /// Whether some candidate occupies global slot `k`.
    pub open spec fn some_candidate_occupies(self, k: u16) -> bool {
        any_occupies(self.candidates@, k)
    }

    /// Slot soundness: every slot a candidate occupies is marked occupied
    /// globally. The reverse implication can be broken deliberately, by
    /// removing a channel whose htlcs are still in flight: its global slots
    /// stay occupied with no candidate owning them.
    pub open spec fn sound(self) -> bool {
        sound_seq(self.candidates@, self.htlc_slots@)
    }

    /// Slot consistency: a global slot is marked occupied exactly when some
    /// candidate occupies it. Established at creation and preserved by every
    /// htlc operation; only channel removal can break it, for the slots the
    /// removed channel still held.
    pub open spec fn consistent(self) -> bool {
        consistent_seq(self.candidates@, self.htlc_slots@)
    }

    /// At most one candidate occupies any one global slot.
    pub open spec fn exclusive(self) -> bool {
        exclusive_seq(self.candidates@)
    }

    /// Well-formedness of the bucket: a positive liquidity share per slot, a
    /// 32-byte salt, a slot vector whose indices fit a u16, candidates with
    /// distinct ids other than the bucket's own, each well formed, and slot
    /// state that is sound and exclusively owned.
    pub open spec fn wf(self) -> bool {
        &&& self.slot_size_msat >= 1
        &&& self.salt@.len() == 32
        &&& 1 <= self.htlc_slots@.len() <= 0xffff
        &&& forall|i1: int, i2: int|
            0 <= i1 < i2 < self.candidates@.len() ==> (#[trigger] self.candidates@[i1]).scid != (
            #[trigger] self.candidates@[i2]).scid
        &&& forall|i: int|
            0 <= i < self.candidates@.len() ==> (#[trigger] self.candidates@[i]).scid != self.scid
        &&& forall|i: int|
            0 <= i < self.candidates@.len() ==> (#[trigger] self.candidates@[i]).wf(self.n())
        &&& self.sound()
        &&& self.exclusive()
    }

    /// Creates a new general bucket with the salt provided.
    ///
    /// Fails when the liquidity split across the slots leaves each slot with
    /// no liquidity at all.
    pub fn new_with_salt(scid: u64, params: BucketParameters, salt: Vec<u8>) -> (r: Result<
        GeneralBucket,
        ReputationError,
    >)
        requires
            params.slot_count >= 1,
            salt@.len() == 32,
        ensures
            match r {
                Ok(b) => {
                    &&& b.wf()
                    &&& b.consistent()
                    &&& params.liquidity_msat as int / params.slot_count as int >= 1
                    &&& b.scid == scid
                    &&& b.salt == salt
                    &&& b.params == params
                    &&& b.slot_size_msat == params.liquidity_msat as int / params.slot_count as int
                    &&& b.htlc_slots@.len() == params.slot_count
                    &&& forall|k: int| 0 <= k < b.htlc_slots@.len() ==> !(#[trigger] b.htlc_slots@[k])
                    &&& occupied_slot_count(b.htlc_slots@) == 0
                    &&& b.candidates@.len() == 0
                },
                Err(e) => {
                    &&& params.liquidity_msat as int / params.slot_count as int == 0
                    &&& e is ErrUnrecoverable
                },
            },
    {
        let slot_size_msat = params.liquidity_msat / (params.slot_count as u64);
        if slot_size_msat == 0 {
            return Err(
                ReputationError::ErrUnrecoverable(
                    String::from_str("bucket liquidity spread across its slots leaves zero liquidity per slot"),
                ),
            );
        }

        let mut htlc_slots: Vec<bool> = Vec::new();
        let mut i: usize = 0;
        while i < params.slot_count as usize
            invariant
                htlc_slots@.len() == i,
                i <= params.slot_count,
                forall|k: int| 0 <= k < i ==> !(#[trigger] htlc_slots@[k]),
            decreases params.slot_count - i,
        {
            htlc_slots.push(false);
            i = i + 1;
        }

        let bucket = GeneralBucket {
            params,
            scid,
            salt,
            htlc_slots,
            slot_size_msat,
            candidates: Vec::new(),
        };
        proof {
            lemma_all_free_count_zero(bucket.htlc_slots@);
        }
        Ok(bucket)
    }

    /// Creates a new general bucket, drawing a fresh 32-byte salt.
    ///
    /// Note that the current implementation is not restart safe: a restarted
    /// bucket draws fresh salt, reshuffling every slot assignment, and starts
    /// out empty whatever was in flight before.
    pub fn new(scid: u64, params: BucketParameters) -> (r: Result<GeneralBucket, ReputationError>)
        requires
            params.slot_count >= 1,
        ensures
            match r {
                Ok(b) => {
                    &&& b.wf()
                    &&& b.consistent()
                    &&& b.scid == scid
                    &&& b.params == params
                    &&& b.slot_size_msat == params.liquidity_msat as int / params.slot_count as int
                    &&& b.htlc_slots@.len() == params.slot_count
                    &&& occupied_slot_count(b.htlc_slots@) == 0
                    &&& b.candidates@.len() == 0
                },
                Err(e) => e is ErrUnrecoverable,
            },
    {
        let salt = random_salt()?;
        Self::new_with_salt(scid, params, salt)
    }

    /// The slot set a candidate is assigned when first seen, derived from the
    /// bucket's salt and the channel pair.
    pub open spec fn assignment_of(self, cand: u64) -> Seq<u16> {
        derived_slots(self.salt@, self.scid, cand, self.n(), MAX_ASSIGN_ATTEMPTS as int)
    }

    /// Everything but the candidate list and global slots is unchanged.
    pub open spec fn same_frame(self, other: GeneralBucket) -> bool {
        &&& self.scid == other.scid
        &&& self.salt == other.salt
        &&& self.params == other.params
        &&& self.slot_size_msat == other.slot_size_msat
    }

    /// Produces the set of slots that a channel has permission to use,
    /// assigning them on first sight: slots are drawn by hashing the salted
    /// channel pair until [`ASSIGNED_SLOTS`] distinct indices are found, and
    /// the assignment is memoised for the life of the channel.
    ///
    /// Asking for the bucket's own channel fails, as does (very improbably)
    /// exhausting [`MAX_ASSIGN_ATTEMPTS`] hash attempts without finding
    /// enough distinct slots.
    pub fn get_candidate_slots(&mut self, candidate_scid: u64) -> (r: Result<
        Vec<u16>,
        ReputationError,
    >)
        requires
            old(self).wf(),
        ensures
            final(self).wf(),
            final(self).same_frame(*old(self)),
            final(self).htlc_slots == old(self).htlc_slots,
            old(self).consistent() ==> final(self).consistent(),
            candidate_scid == old(self).scid ==> *final(self) == *old(self),
            r matches Err(e) ==> {
                &&& e is ErrUnrecoverable
                &&& *final(self) == *old(self)
                &&& candidate_scid == old(self).scid || (!old(self).has_candidate(candidate_scid)
                    && old(self).assignment_of(candidate_scid).len() < ASSIGNED_SLOTS as int)
            },
            r is Ok <==> candidate_scid != old(self).scid && (old(self).has_candidate(
                candidate_scid,
            ) || old(self).assignment_of(candidate_scid).len() == ASSIGNED_SLOTS as int),
            r matches Ok(v) ==> {
                &&& final(self).has_candidate(candidate_scid)
                &&& v@.len() == final(self).candidate(candidate_scid).slots@.len()
                &&& forall|j: int|
                    0 <= j < v@.len() ==> v@[j] == final(self).candidate(
                        candidate_scid,
                    ).slots@[j].index
            },
            r matches Ok(v) ==> (old(self).has_candidate(candidate_scid) ==> {
                &&& *final(self) == *old(self)
                &&& v@.len() == old(self).candidate(candidate_scid).slots@.len()
                &&& forall|j: int|
                    0 <= j < v@.len() ==> v@[j] == old(self).candidate(
                        candidate_scid,
                    ).slots@[j].index
            }),
            r matches Ok(v) ==> (!old(self).has_candidate(candidate_scid) ==> {
                &&& v@ == old(self).assignment_of(candidate_scid)
                &&& final(self).candidates@.len() == old(self).candidates@.len() + 1
                &&& forall|i: int|
                    0 <= i < old(self).candidates@.len() ==> final(self).candidates@[i] == old(self).candidates@[i]
                &&& final(self).candidates@.last().scid == candidate_scid
                &&& final(self).candidates@.last().occ_count() == 0
                &&& forall|j: int|
                    0 <= j < ASSIGNED_SLOTS as int ==> !(#[trigger] final(self).candidates@.last().slots@[j]).occupied
            }),
    {
        if candidate_scid == self.scid {
            return Err(
                ReputationError::ErrUnrecoverable(
                    String::from_str("cannot assign a bucket's slots to its own channel"),
                ),
            );
        }

        // Return the memoised assignment if the candidate has one.
        let mut i: usize = 0;
        let n_cands = self.candidates.len();
        while i < n_cands
            invariant
                n_cands == self.candidates@.len(),
                0 <= i <= n_cands,
                forall|ii: int|
                    0 <= ii < i ==> (#[trigger] self.candidates@[ii]).scid != candidate_scid,
                old(self).wf(),
                *self == *old(self),
            decreases n_cands - i,
        {
            if self.candidates[i].scid == candidate_scid {
                proof {
                    assert(self.has_candidate(candidate_scid));
                    let p = self.cand_pos(candidate_scid);
                    assert(self.candidates@[p].scid == candidate_scid);
                    if p != i as int {
                        assert(false);
                    }
                }
                let c = &self.candidates[i];
                let mut v: Vec<u16> = Vec::new();
                let mut j: usize = 0;
                let n_slots = c.slots.len();
                while j < n_slots
                    invariant
                        n_slots == c.slots@.len(),
                        0 <= j <= n_slots,
                        v@.len() == j,
                        forall|jj: int| 0 <= jj < j ==> v@[jj] == c.slots@[jj].index,
                    decreases n_slots - j,
                {
                    v.push(c.slots[j].index);
                    j = j + 1;
                }
                return Ok(v);
            }
            i = i + 1;
        }
        assert(!self.has_candidate(candidate_scid));

        // First sight of this candidate: derive its slots from the salt and
        // the channel pair.
        let mut data: Vec<u8> = Vec::new();
        let mut si: usize = 0;
        while si < self.salt.len()
            invariant
                0 <= si <= self.salt@.len(),
                data@ == self.salt@.take(si as int),
                *self == *old(self),
            decreases self.salt@.len() - si,
        {
            let b: u8 = self.salt[si];
            data.push(b);
            si = si + 1;
            assert(data@ =~= self.salt@.take(si as int));
        }
        assert(data@ =~= self.salt@);
        push_be64(&mut data, self.scid);
        push_be64(&mut data, candidate_scid);
        data.push(0u8);
        let ghost prefix: Seq<u8> = self.salt@ + be64(self.scid) + be64(candidate_scid);
        assert(data@ =~= prefix + seq![0u8]);
        assert(data@.len() == 49);

        let ghost gsalt = self.salt@;
        let ghost gown = self.scid;
        let ghost gn = self.n();

        let mut found: Vec<u16> = Vec::new();
        let mut attempt: usize = 0;
        while attempt < MAX_ASSIGN_ATTEMPTS && found.len() < ASSIGNED_SLOTS
        invariant
                0 <= attempt <= MAX_ASSIGN_ATTEMPTS,
                old(self).wf(),
                *self == *old(self),
                gsalt == self.salt@,
                gown == self.scid,
                gn == self.n(),
                data@.len() == 49,
                data@.take(48) =~= prefix,
                prefix =~= gsalt + be64(gown) + be64(candidate_scid),
                found@ == derived_slots(gsalt, gown, candidate_scid, gn, attempt as int),
            decreases MAX_ASSIGN_ATTEMPTS - attempt,
        {
            proof {
                lemma_derived_slots_props(gsalt, gown, candidate_scid, gn, attempt as int);
            }
            data.set(48, attempt as u8);
            assert(data@ =~= prefix + seq![attempt as u8]);
            assert(data@ == slot_source(gsalt, gown, candidate_scid, attempt as u8));
            let hash = sha256d(&data);
            let hash_num = be_u64_of_first8(&hash);
            let idx_u64 = hash_num % (self.htlc_slots.len() as u64);
            let idx = idx_u64 as u16;
            assert(idx == attempt_slot(gsalt, gown, candidate_scid, gn, attempt as u8));
            if !vec_contains_u16(&found, idx) {
                found.push(idx);
            }
            attempt = attempt + 1;
        }
        proof {
            lemma_derived_slots_props(gsalt, gown, candidate_scid, gn, attempt as int);
            if found@.len() >= ASSIGNED_SLOTS as int {
                lemma_derived_slots_stable(
                    gsalt,
                    gown,
                    candidate_scid,
                    gn,
                    attempt as int,
                    MAX_ASSIGN_ATTEMPTS as int,
                );
            }
        }

        if found.len() < ASSIGNED_SLOTS {
            return Err(
                ReputationError::ErrUnrecoverable(
                    String::from_str("could not assign enough unique slots for the channel"),
                ),
            );
        }
        assert(found@ == old(self).assignment_of(candidate_scid));

        let mut entries: Vec<SlotEntry> = Vec::new();
        let mut j: usize = 0;
        let n_found = found.len();
        while j < n_found
            invariant
                n_found == found@.len(),
                0 <= j <= n_found,
                entries@.len() == j,
                forall|jj: int|
                    0 <= jj < j ==> (#[trigger] entries@[jj]) == (SlotEntry {
                        index: found@[jj],
                        occupied: false,
                    }),
            decreases n_found - j,
        {
            entries.push(SlotEntry { index: found[j], occupied: false });
            j = j + 1;
        }
        let fresh = CandidateSlots { scid: candidate_scid, slots: entries };
        proof {
            assert(forall|jj: int|
                0 <= jj < fresh.slots@.len() ==> !(#[trigger] fresh.slots@[jj]).occupied);
            assert(forall|k: u16| !fresh.occupies(k));
            lemma_all_unoccupied_count_zero(fresh.slots@);
        }
        let ghost pre = *self;
        self.candidates.push(fresh);
        proof {
            assert(self.candidates@ == pre.candidates@.push(fresh));
            assert forall|k: u16| #[trigger]
                any_occupies(self.candidates@, k) implies any_occupies(pre.candidates@, k) by {
                let i = choose|i: int|
                    0 <= i < self.candidates@.len() && (#[trigger] self.candidates@[i]).occupies(k);
                assert(i < pre.candidates@.len());
                assert(pre.candidates@[i].occupies(k));
            }
            assert forall|k: u16| #[trigger]
                any_occupies(pre.candidates@, k) implies any_occupies(self.candidates@, k) by {
                let i = choose|i: int|
                    0 <= i < pre.candidates@.len() && (#[trigger] pre.candidates@[i]).occupies(k);
                assert(self.candidates@[i].occupies(k));
            }
            assert(exclusive_seq(self.candidates@)) by {
                assert forall|i1: int, i2: int, k: u16|
                    0 <= i1 < self.candidates@.len() && 0 <= i2 < self.candidates@.len()
                        && #[trigger] self.candidates@[i1].occupies(k)
                        && #[trigger] self.candidates@[i2].occupies(k) implies i1 == i2 by {
                    assert(i1 < pre.candidates@.len());
                    assert(i2 < pre.candidates@.len());
                }
            }
            assert(self.wf());
            assert(self.candidates@[pre.candidates@.len() as int].scid == candidate_scid);
            assert(self.has_candidate(candidate_scid));
            let p = self.cand_pos(candidate_scid);
            assert(self.candidates@[p].scid == candidate_scid);
            if p != pre.candidates@.len() as int {
                assert(pre.candidates@[p].scid == candidate_scid);
                assert(pre.has_candidate(candidate_scid));
                assert(false);
            }
        }
        Ok(found)
    }
}

/// How many of the slot indices point at a globally free slot.
pub open spec fn free_index_count(idxs: Seq<u16>, global: Seq<bool>) -> int
    decreases idxs.len(),
{
    if idxs.len() == 0 {
        0
    } else {
        free_index_count(idxs.drop_last(), global) + if idxs.last() < global.len()
            && !global[idxs.last() as int] {
            1int
        } else {
            0int
        }
    }
}

/// Entry lists and index lists that agree elementwise count the same free
/// slots.
pub proof fn lemma_free_counts_agree(entries: Seq<SlotEntry>, idxs: Seq<u16>, global: Seq<bool>)
    requires
        entries.len() == idxs.len(),
        forall|j: int| 0 <= j < entries.len() ==> (#[trigger] entries[j]).index == idxs[j],
    ensures
        free_entry_count(entries, global) == free_index_count(idxs, global),
    decreases entries.len(),
{
    if entries.len() > 0 {
        lemma_free_counts_agree(entries.drop_last(), idxs.drop_last(), global);
    }
}

impl GeneralBucket {
    /// The number of free slots the candidate could draw on for an admission:
    /// its assigned slots that are globally unoccupied, under the assignment
    /// it has or, for a candidate not yet seen, the one it would be given.
    pub open spec fn admission_headroom(self, cand: u64) -> int {
        if self.has_candidate(cand) {
            self.candidate(cand).free_count(self.htlc_slots@)
        } else {
            free_index_count(self.assignment_of(cand), self.htlc_slots@)
        }
    }

    /// The position of a candidate's assignment, if it has one.
    fn find_candidate_pos(&self, scid: u64) -> (r: Option<usize>)
        ensures
            match r {
                Some(p) => p < self.candidates@.len() && self.candidates@[p as int].scid == scid,
                None => !self.has_candidate(scid),
            },
    {
        let mut i: usize = 0;
        let n_cands = self.candidates.len();
        while i < n_cands
            invariant
                n_cands == self.candidates@.len(),
                0 <= i <= n_cands,
                forall|ii: int| 0 <= ii < i ==> (#[trigger] self.candidates@[ii]).scid != scid,
            decreases n_cands - i,
        {
            if self.candidates[i].scid == scid {
                return Some(i);
            }
            i = i + 1;
        }
        None
    }

    /// Sets the occupancy of one entry of one candidate, and nothing else.
    fn set_entry_occupied(&mut self, p: usize, jj: usize, occupied: bool)
        requires
            p < old(self).candidates@.len(),
            jj < old(self).candidates@[p as int].slots@.len(),
        ensures
            is_set_entry(
                old(self).candidates@,
                final(self).candidates@,
                p as int,
                jj as int,
                occupied,
            ),
            final(self).htlc_slots == old(self).htlc_slots,
            final(self).same_frame(*old(self)),
    {
        let c = &mut self.candidates[p];
        let e = c.slots[jj];
        c.slots[jj] = SlotEntry { index: e.index, occupied };
    }

    /// Removes a channel's slot assignment, returning whether anything was
    /// removed. Slots the channel still occupied stay occupied globally, so
    /// consistency is only kept when it occupied none.
    pub fn remove_channel(&mut self, candidate_scid: u64) -> (r: bool)
        requires
            old(self).wf(),
        ensures
            final(self).wf(),
            final(self).same_frame(*old(self)),
            final(self).htlc_slots == old(self).htlc_slots,
            r == old(self).has_candidate(candidate_scid),
            !final(self).has_candidate(candidate_scid),
            !old(self).has_candidate(candidate_scid) ==> *final(self) == *old(self),
            old(self).has_candidate(candidate_scid) ==> final(self).candidates@ == old(self).candidates@.remove(old(self).cand_pos(candidate_scid)),
    {
        let p = match self.find_candidate_pos(candidate_scid) {
            Some(p) => p,
            None => {
                return false;
            },
        };
        proof {
            assert(self.has_candidate(candidate_scid));
            let q = self.cand_pos(candidate_scid);
            assert(self.candidates@[q].scid == candidate_scid);
            if q != p as int {
                assert(false);
            }
        }
        let ghost pre = *self;
        self.candidates.remove(p);
        proof {
            let c1 = pre.candidates@;
            let c2 = self.candidates@;
            c1.remove_ensures(p as int);
            assert(c2 == c1.remove(p as int));
            // Map each new position back to its old position.
            assert forall|ii: int| 0 <= ii < c2.len() implies (#[trigger] c2[ii]) == (if ii
                < p as int {
                c1[ii]
            } else {
                c1[ii + 1]
            }) by {}
            assert forall|k: u16| #[trigger]
                any_occupies(c2, k) implies any_occupies(c1, k) by {
                let i = choose|i: int| 0 <= i < c2.len() && (#[trigger] c2[i]).occupies(k);
                let o = if i < p as int {
                    i
                } else {
                    i + 1
                };
                assert(c1[o].occupies(k));
            }
            assert(sound_seq(c2, self.htlc_slots@));
            assert forall|i1: int, i2: int, k: u16|
                0 <= i1 < c2.len() && 0 <= i2 < c2.len() && #[trigger] c2[i1].occupies(k)
                    && #[trigger] c2[i2].occupies(k) implies i1 == i2 by {
                let o1 = if i1 < p as int {
                    i1
                } else {
                    i1 + 1
                };
                let o2 = if i2 < p as int {
                    i2
                } else {
                    i2 + 1
                };
                assert(c1[o1].occupies(k));
                assert(c1[o2].occupies(k));
                assert(o1 == o2);
            }
            assert(self.wf());
            // The removed candidate was the only one with this id.
            assert forall|ii: int| 0 <= ii < c2.len() implies (#[trigger] c2[ii]).scid
                != candidate_scid by {
                let o = if ii < p as int {
                    ii
                } else {
                    ii + 1
                };
                assert(c1[o].scid != candidate_scid || o == p as int);
            }
        }
        true
    }

    /// Grants a candidate channel a fixed slot assignment directly, all slots
    /// unoccupied. Fails, changing nothing, unless the candidate is another
    /// channel not yet assigned and the slots are exactly
    /// [`ASSIGNED_SLOTS`] distinct indices within the bucket.
    pub fn set_candidate_slots(&mut self, candidate_scid: u64, slots: Vec<u16>) -> (r: Result<
        (),
        ReputationError,
    >)
        requires
            old(self).wf(),
        ensures
            final(self).wf(),
            final(self).same_frame(*old(self)),
            final(self).htlc_slots == old(self).htlc_slots,
            old(self).consistent() ==> final(self).consistent(),
            r is Ok <==> {
                &&& candidate_scid != old(self).scid
                &&& !old(self).has_candidate(candidate_scid)
                &&& slots@.len() == ASSIGNED_SLOTS as int
                &&& forall|j: int| 0 <= j < slots@.len() ==> (#[trigger] slots@[j]) < old(self).n()
                &&& forall|j1: int, j2: int|
                    0 <= j1 < j2 < slots@.len() ==> slots@[j1] != slots@[j2]
            },
            r is Err ==> *final(self) == *old(self) && (r matches Err(e) && e is ErrUnrecoverable),
            r is Ok ==> {
                &&& final(self).candidates@.len() == old(self).candidates@.len() + 1
                &&& forall|i: int|
                    0 <= i < old(self).candidates@.len() ==> final(self).candidates@[i] == old(self).candidates@[i]
                &&& final(self).has_candidate(candidate_scid)
                &&& final(self).candidates@.last().scid == candidate_scid
                &&& final(self).candidates@.last().occ_count() == 0
                &&& final(self).candidate(candidate_scid) == final(self).candidates@.last()
                &&& forall|j: int|
                    0 <= j < slots@.len() ==> (#[trigger] final(self).candidates@.last().slots@[j])
                        == (SlotEntry { index: slots@[j], occupied: false })
            },
    {
        if candidate_scid == self.scid {
            return Err(
                ReputationError::ErrUnrecoverable(
                    String::from_str("cannot assign a bucket's slots to its own channel"),
                ),
            );
        }
        if self.find_candidate_pos(candidate_scid).is_some() {
            return Err(
                ReputationError::ErrUnrecoverable(
                    String::from_str("the channel already has a slot assignment"),
                ),
            );
        }
        if slots.len() != ASSIGNED_SLOTS {
            return Err(
                ReputationError::ErrUnrecoverable(
                    String::from_str("a slot assignment must hold exactly the allowed slots"),
                ),
            );
        }
        let mut j: usize = 0;
        let n_slots = slots.len();
        while j < n_slots
            invariant
                n_slots == slots@.len(),
                0 <= j <= n_slots,
                forall|jx: int| 0 <= jx < j ==> (#[trigger] slots@[jx]) < self.htlc_slots@.len(),
                forall|j1: int, j2: int| 0 <= j1 < j2 < j ==> slots@[j1] != slots@[j2],
                old(self).wf(),
                *self == *old(self),
            decreases n_slots - j,
        {
            if slots[j] as usize >= self.htlc_slots.len() {
                return Err(
                    ReputationError::ErrUnrecoverable(
                        String::from_str("a slot assignment may only name slots of the bucket"),
                    ),
                );
            }
            let mut j2: usize = 0;
            while j2 < j
                invariant
                    0 <= j2 <= j < n_slots,
                    n_slots == slots@.len(),
                    forall|jx: int| 0 <= jx < j2 ==> slots@[jx] != slots@[j as int],
                    old(self).wf(),
                    *self == *old(self),
                decreases j - j2,
            {
                if slots[j2] == slots[j] {
                    return Err(
                        ReputationError::ErrUnrecoverable(
                            String::from_str("a slot assignment may not repeat a slot"),
                        ),
                    );
                }
                j2 = j2 + 1;
            }
            j = j + 1;
        }

        let mut entries: Vec<SlotEntry> = Vec::new();
        let mut t: usize = 0;
        while t < n_slots
            invariant
                n_slots == slots@.len(),
                0 <= t <= n_slots,
                entries@.len() == t,
                forall|jj: int|
                    0 <= jj < t ==> (#[trigger] entries@[jj]) == (SlotEntry {
                        index: slots@[jj],
                        occupied: false,
                    }),
                *self == *old(self),
            decreases n_slots - t,
        {
            entries.push(SlotEntry { index: slots[t], occupied: false });
            t = t + 1;
        }
        let fresh = CandidateSlots { scid: candidate_scid, slots: entries };
        proof {
            assert(forall|jj: int|
                0 <= jj < fresh.slots@.len() ==> !(#[trigger] fresh.slots@[jj]).occupied);
            assert(forall|k: u16| !fresh.occupies(k));
            lemma_all_unoccupied_count_zero(fresh.slots@);
        }
        let ghost pre = *self;
        self.candidates.push(fresh);
        proof {
            assert(self.candidates@ == pre.candidates@.push(fresh));
            assert forall|k: u16| #[trigger]
                any_occupies(self.candidates@, k) implies any_occupies(pre.candidates@, k) by {
                let i = choose|i: int|
                    0 <= i < self.candidates@.len() && (#[trigger] self.candidates@[i]).occupies(k);
                assert(i < pre.candidates@.len());
                assert(pre.candidates@[i].occupies(k));
            }
            assert forall|k: u16| #[trigger]
                any_occupies(pre.candidates@, k) implies any_occupies(self.candidates@, k) by {
                let i = choose|i: int|
                    0 <= i < pre.candidates@.len() && (#[trigger] pre.candidates@[i]).occupies(k);
                assert(self.candidates@[i].occupies(k));
            }
            assert(exclusive_seq(self.candidates@)) by {
                assert forall|i1: int, i2: int, k: u16|
                    0 <= i1 < self.candidates@.len() && 0 <= i2 < self.candidates@.len()
                        && #[trigger] self.candidates@[i1].occupies(k)
                        && #[trigger] self.candidates@[i2].occupies(k) implies i1 == i2 by {
                    assert(i1 < pre.candidates@.len());
                    assert(i2 < pre.candidates@.len());
                }
            }
            assert(self.wf());
            assert(self.candidates@[pre.candidates@.len() as int].scid == candidate_scid);
            assert(self.has_candidate(candidate_scid));
            let q = self.cand_pos(candidate_scid);
            assert(self.candidates@[q].scid == candidate_scid);
            if q != pre.candidates@.len() as int {
                assert(pre.candidates@[q].scid == candidate_scid);
                assert(pre.has_candidate(candidate_scid));
                assert(false);
            }
        }
        Ok(())
    }
}

/// How many liquidity slots an amount requires: the ceiling of the amount
/// over the slot size, and at least one.
pub open spec fn required_slots(amount_msat: u64, slot_size_msat: u64) -> int {
    if amount_msat == 0 {
        1
    } else {
        (amount_msat - 1) as int / slot_size_msat as int + 1
    }
}

impl GeneralBucket {
    /// Returns the number of liquidity slots a HTLC requires.
    pub fn required_slot_count(&self, amount_msat: u64) -> (r: u64)
        requires
            self.slot_size_msat >= 1,
        ensures
            r == required_slots(amount_msat, self.slot_size_msat),
    {
        if amount_msat == 0 {
            1
        } else {
            (amount_msat - 1) / self.slot_size_msat + 1
        }
    }

    /// The position of an entry of the candidate carrying the index given.
    fn find_entry_pos(c: &CandidateSlots, idx: u16) -> (r: usize)
        requires
            exists|jj: int| 0 <= jj < c.slots@.len() && (#[trigger] c.slots@[jj]).index == idx,
        ensures
            r < c.slots@.len(),
            c.slots@[r as int].index == idx,
    {
        let mut j: usize = 0;
        let n = c.slots.len();
        while j < n
            invariant
                n == c.slots@.len(),
                0 <= j <= n,
                forall|jj: int| 0 <= jj < j ==> (#[trigger] c.slots@[jj]).index != idx,
                exists|jj: int| 0 <= jj < c.slots@.len() && (#[trigger] c.slots@[jj]).index == idx,
            decreases n - j,
        {
            if c.slots[j].index == idx {
                return j;
            }
            j = j + 1;
        }
        proof {
            assert(false);
        }
        0
    }

    /// The position of a candidate that is known to be assigned.
    fn must_find_candidate_pos(&self, scid: u64) -> (r: usize)
        requires
            self.has_candidate(scid),
        ensures
            r < self.candidates@.len(),
            self.candidates@[r as int].scid == scid,
    {
        match self.find_candidate_pos(scid) {
            Some(p) => p,
            None => {
                proof {
                    assert(false);
                }
                0
            },
        }
    }

    /// Returns the indexes of a set of slots that can hold the payment amount
    /// provided, assigning slots to the candidate on first sight. `None`
    /// means the candidate's free slots cannot cover the amount.
    fn get_usable_slots(&mut self, candidate_scid: u64, amount_msat: u64) -> (r: Result<
        Option<Vec<u16>>,
        ReputationError,
    >)
        requires
            old(self).wf(),
        ensures
            final(self).wf(),
            final(self).same_frame(*old(self)),
            final(self).htlc_slots == old(self).htlc_slots,
            old(self).consistent() ==> final(self).consistent(),
            r matches Err(e) ==> {
                &&& e is ErrUnrecoverable
                &&& *final(self) == *old(self)
                &&& candidate_scid == old(self).scid || (!old(self).has_candidate(candidate_scid)
                    && old(self).assignment_of(candidate_scid).len() < ASSIGNED_SLOTS as int)
            },
            r is Ok <==> candidate_scid != old(self).scid && (old(self).has_candidate(
                candidate_scid,
            ) || old(self).assignment_of(candidate_scid).len() == ASSIGNED_SLOTS as int),
            r is Ok ==> {
                &&& final(self).has_candidate(candidate_scid)
                &&& final(self).candidates@.len() == old(self).candidates@.len() + (if old(self).has_candidate(candidate_scid) {
                    0int
                } else {
                    1int
                })
                &&& forall|i: int|
                    0 <= i < old(self).candidates@.len() ==> final(self).candidates@[i] == old(self).candidates@[i]
                &&& (old(self).has_candidate(candidate_scid) ==> *final(self) == *old(self))
                &&& final(self).candidate(candidate_scid).occ_count() == (if old(self).has_candidate(candidate_scid) {
                    old(self).candidate(candidate_scid).occ_count()
                } else {
                    0int
                })
                &&& final(self).admission_headroom(candidate_scid) == old(self).admission_headroom(
                    candidate_scid,
                )
            },
            r matches Ok(opt) ==> match opt {
                Some(v) => {
                    &&& old(self).admission_headroom(candidate_scid) >= required_slots(
                        amount_msat,
                        old(self).slot_size_msat,
                    )
                    &&& v@.len() == required_slots(amount_msat, old(self).slot_size_msat)
                    &&& forall|t: int|
                        0 <= t < v@.len() ==> (#[trigger] v@[t]) < old(self).htlc_slots@.len()
                    &&& forall|t: int|
                        0 <= t < v@.len() ==> !old(self).htlc_slots@[(#[trigger] v@[t]) as int]
                    &&& forall|t1: int, t2: int| 0 <= t1 < t2 < v@.len() ==> v@[t1] != v@[t2]
                    &&& forall|t: int|
                        0 <= t < v@.len() ==> exists|jj: int|
                            0 <= jj < final(self).candidate(candidate_scid).slots@.len() && (
                            #[trigger] final(self).candidate(candidate_scid).slots@[jj]).index == (
                            #[trigger] v@[t])
                },
                None => old(self).admission_headroom(candidate_scid) < required_slots(
                    amount_msat,
                    old(self).slot_size_msat,
                ),
            },
    {
        let required = self.required_slot_count(amount_msat);
        let slots = self.get_candidate_slots(candidate_scid)?;
        let ghost mid = *self;
        let ghost cmid = mid.candidate(candidate_scid);
        proof {
            let p = mid.cand_pos(candidate_scid);
            assert(0 <= p < mid.candidates@.len() && mid.candidates@[p].scid == candidate_scid);
            assert(mid.candidates@[p].wf(mid.n()));
            if !old(self).has_candidate(candidate_scid) {
                // A freshly assigned candidate counts the same headroom under
                // its entry list as under the derived index list.
                lemma_free_counts_agree(
                    cmid.slots@,
                    old(self).assignment_of(candidate_scid),
                    mid.htlc_slots@,
                );
            }
        }

        let mut available: Vec<u16> = Vec::new();
        let mut j: usize = 0;
        let n_slots = slots.len();
        while j < n_slots
            invariant
                *self == mid,
                mid.wf(),
                mid.has_candidate(candidate_scid),
                cmid == mid.candidate(candidate_scid),
                cmid.wf(mid.n()),
                n_slots == slots@.len(),
                slots@.len() == cmid.slots@.len(),
                forall|jj: int| 0 <= jj < slots@.len() ==> slots@[jj] == cmid.slots@[jj].index,
                0 <= j <= n_slots,
                available@.len() == free_entry_count(cmid.slots@.take(j as int), mid.htlc_slots@),
                forall|t: int|
                    0 <= t < available@.len() ==> exists|jj: int|
                        0 <= jj < j && slots@[jj] == (#[trigger] available@[t]),
                forall|t: int|
                    0 <= t < available@.len() ==> (#[trigger] available@[t])
                        < mid.htlc_slots@.len(),
                forall|t: int|
                    0 <= t < available@.len() ==> !mid.htlc_slots@[(#[trigger] available@[t]) as int],
                forall|t1: int, t2: int|
                    0 <= t1 < t2 < available@.len() ==> available@[t1] != available@[t2],
            decreases n_slots - j,
        {
            let idx = slots[j];
            proof {
                assert(cmid.slots@[j as int].index < mid.n());
            }
            if !self.htlc_slots[idx as usize] {
                proof {
                    assert forall|t: int|
                        0 <= t < available@.len() implies available@[t] != idx by {
                        let jj = choose|jj: int|
                            0 <= jj < j && slots@[jj] == (#[trigger] available@[t]);
                        assert(cmid.slots@[jj].index != cmid.slots@[j as int].index);
                    }
                }
                available.push(idx);
            }
            proof {
                assert(cmid.slots@.take(j + 1).drop_last() =~= cmid.slots@.take(j as int));
                assert(cmid.slots@.take(j + 1).last() == cmid.slots@[j as int]);
            }
            j = j + 1;
        }
        proof {
            assert(cmid.slots@.take(cmid.slots@.len() as int) =~= cmid.slots@);
        }

        if (available.len() as u64) < required {
            return Ok(None);
        }

        let mut chosen: Vec<u16> = Vec::new();
        let mut t: usize = 0;
        while (t as u64) < required
            invariant
                *self == mid,
                required == required_slots(amount_msat, mid.slot_size_msat),
                required <= available@.len(),
                0 <= t <= required,
                chosen@.len() == t,
                forall|tt: int| 0 <= tt < t ==> chosen@[tt] == available@[tt],
            decreases required - t,
        {
            chosen.push(available[t]);
            t = t + 1;
        }
        Ok(Some(chosen))
    }

    /// Checks whether there is space in the bucket to accommodate the HTLC
    /// amount.
    ///
    /// Requires a mutable reference because it may need to opportunistically
    /// allocate slots to the channel if it has never been used as a
    /// forwarding pair with this one.
    pub fn may_add_htlc(&mut self, candidate_scid: u64, amount_msat: u64) -> (r: Result<
        bool,
        ReputationError,
    >)
        requires
            old(self).wf(),
        ensures
            final(self).wf(),
            final(self).same_frame(*old(self)),
            final(self).htlc_slots == old(self).htlc_slots,
            old(self).consistent() ==> final(self).consistent(),
            r matches Err(e) ==> (e is ErrUnrecoverable && *final(self) == *old(self)),
            r is Err <==> candidate_scid == old(self).scid || (!old(self).has_candidate(
                candidate_scid,
            ) && old(self).assignment_of(candidate_scid).len() < ASSIGNED_SLOTS as int),
            r matches Ok(b) ==> b == (old(self).admission_headroom(candidate_scid)
                >= required_slots(amount_msat, old(self).slot_size_msat)),
            r is Ok ==> {
                &&& final(self).has_candidate(candidate_scid)
                &&& final(self).admission_headroom(candidate_scid) == old(self).admission_headroom(
                    candidate_scid,
                )
                &&& final(self).candidates@.len() == old(self).candidates@.len() + (if old(
                    self,
                ).has_candidate(candidate_scid) {
                    0int
                } else {
                    1int
                })
                &&& forall|i: int|
                    0 <= i < old(self).candidates@.len() ==> final(self).candidates@[i] == old(self).candidates@[i]
            },
            r is Ok && old(self).has_candidate(candidate_scid) ==> *final(self) == *old(self),
    {
        Ok(self.get_usable_slots(candidate_scid, amount_msat)?.is_some())
    }

    /// Adds a HTLC to the bucket, returning a boolean indicating whether the
    /// HTLC was successfully added. `false` means the candidate's free slots
    /// cannot cover the amount; that is a decision, not an error.
    pub fn add_htlc(&mut self, candidate_scid: u64, amount_msat: u64) -> (r: Result<
        bool,
        ReputationError,
    >)
        requires
            old(self).wf(),
        ensures
            final(self).wf(),
            final(self).same_frame(*old(self)),
            final(self).htlc_slots@.len() == old(self).htlc_slots@.len(),
            old(self).consistent() ==> final(self).consistent(),
            r matches Err(e) ==> {
                &&& e is ErrUnrecoverable
                &&& *final(self) == *old(self)
                &&& candidate_scid == old(self).scid || (!old(self).has_candidate(candidate_scid)
                    && old(self).assignment_of(candidate_scid).len() < ASSIGNED_SLOTS as int)
            },
            r is Err <==> candidate_scid == old(self).scid || (!old(self).has_candidate(
                candidate_scid,
            ) && old(self).assignment_of(candidate_scid).len() < ASSIGNED_SLOTS as int),
            r matches Ok(b) ==> b == (old(self).admission_headroom(candidate_scid)
                >= required_slots(amount_msat, old(self).slot_size_msat)),
            r is Ok ==> {
                &&& final(self).has_candidate(candidate_scid)
                &&& final(self).candidates@.len() == old(self).candidates@.len() + (if old(self).has_candidate(candidate_scid) {
                    0int
                } else {
                    1int
                })
                &&& forall|i: int|
                    0 <= i < old(self).candidates@.len() && (#[trigger] old(self).candidates@[i]).scid != candidate_scid ==> final(self).candidates@[i] == old(self).candidates@[i]
            },
            r matches Ok(false) ==> {
                &&& final(self).htlc_slots == old(self).htlc_slots
                &&& (old(self).has_candidate(candidate_scid) ==> *final(self) == *old(self))
                &&& final(self).candidate(candidate_scid).occ_count() == (if old(self).has_candidate(candidate_scid) {
                    old(self).candidate(candidate_scid).occ_count()
                } else {
                    0int
                })
            },
            r matches Ok(true) ==> {
                &&& occupied_slot_count(final(self).htlc_slots@) == occupied_slot_count(
                    old(self).htlc_slots@,
                ) + required_slots(amount_msat, old(self).slot_size_msat)
                &&& final(self).candidate(candidate_scid).occ_count() == (if old(self).has_candidate(candidate_scid) {
                    old(self).candidate(candidate_scid).occ_count()
                } else {
                    0int
                }) + required_slots(amount_msat, old(self).slot_size_msat)
                &&& forall|k: int|
                    0 <= k < old(self).htlc_slots@.len() && old(self).htlc_slots@[k] ==> final(self).htlc_slots@[k]
            },
    {
        let ghost orig = *old(self);
        let chosen = match self.get_usable_slots(candidate_scid, amount_msat)? {
            Some(chosen) => chosen,
            None => {
                return Ok(false);
            },
        };

        let ghost mid = *self;
        let ghost required = required_slots(amount_msat, orig.slot_size_msat);
        let p = self.must_find_candidate_pos(candidate_scid);
        let ghost cmid = mid.candidates@[p as int];
        proof {
            let q = mid.cand_pos(candidate_scid);
            assert(mid.candidates@[q].scid == candidate_scid);
            if q != p as int {
                assert(false);
            }
            assert(cmid == mid.candidate(candidate_scid));
            if orig.has_candidate(candidate_scid) {
                let q0 = orig.cand_pos(candidate_scid);
                assert(orig.candidates@[q0].scid == candidate_scid);
            }
        }

        let mut t: usize = 0;
        let n_chosen = chosen.len();
        while t < n_chosen
            invariant
                0 <= t <= n_chosen,
                n_chosen == chosen@.len(),
                chosen@.len() == required,
                mid.wf(),
                (p as int) < mid.candidates@.len(),
                cmid == mid.candidates@[p as int],
                cmid.scid == candidate_scid,
                // What get_usable_slots said of the chosen slots.
                forall|tt: int|
                    0 <= tt < chosen@.len() ==> (#[trigger] chosen@[tt]) < mid.htlc_slots@.len(),
                forall|tt: int|
                    0 <= tt < chosen@.len() ==> !mid.htlc_slots@[(#[trigger] chosen@[tt]) as int],
                forall|t1: int, t2: int| 0 <= t1 < t2 < chosen@.len() ==> chosen@[t1] != chosen@[t2],
                forall|tt: int|
                    0 <= tt < chosen@.len() ==> exists|jj: int|
                        0 <= jj < cmid.slots@.len() && (#[trigger] cmid.slots@[jj]).index == (
                        #[trigger] chosen@[tt]),
                // Frame of the reservation so far.
                self.same_frame(mid),
                self.candidates@.len() == mid.candidates@.len(),
                self.htlc_slots@.len() == mid.htlc_slots@.len(),
                forall|i: int|
                    0 <= i < mid.candidates@.len() && i != p as int ==> self.candidates@[i]
                        == mid.candidates@[i],
                self.candidates@[p as int].scid == candidate_scid,
                self.candidates@[p as int].slots@.len() == cmid.slots@.len(),
                forall|jj: int|
                    0 <= jj < cmid.slots@.len() ==> (#[trigger] self.candidates@[p as int].slots@[jj]).index
                        == cmid.slots@[jj].index,
                forall|jj: int|
                    0 <= jj < cmid.slots@.len() ==> ((#[trigger] self.candidates@[p as int].slots@[jj]).occupied
                        == (cmid.slots@[jj].occupied || exists|tt: int|
                        0 <= tt < t && chosen@[tt] == cmid.slots@[jj].index)),
                forall|k: int|
                    0 <= k < mid.htlc_slots@.len() ==> ((#[trigger] self.htlc_slots@[k]) == (
                    mid.htlc_slots@[k] || exists|tt: int| 0 <= tt < t && chosen@[tt] == k as u16)),
                occupied_slot_count(self.htlc_slots@) == occupied_slot_count(mid.htlc_slots@) + t,
                occupied_entry_count(self.candidates@[p as int].slots@) == occupied_entry_count(
                    cmid.slots@,
                ) + t,
                self.wf(),
                mid.consistent() ==> self.consistent(),
            decreases n_chosen - t,
        {
            let idx = chosen[t];
            let ghost pre = *self;
            proof {
                assert(exists|jj: int|
                    0 <= jj < cmid.slots@.len() && (#[trigger] cmid.slots@[jj]).index == (
                    #[trigger] chosen@[t as int]));
                let jjg = choose|jj: int|
                    0 <= jj < cmid.slots@.len() && (#[trigger] cmid.slots@[jj]).index
                        == chosen@[t as int];
                assert(self.candidates@[p as int].slots@[jjg].index == idx);
            }
            let jj = Self::find_entry_pos(&self.candidates[p], idx);
            proof {
                // The entry is not yet occupied: its slot was free before the
                // reservation began and is not among the slots taken so far.
                assert(pre.candidates@[p as int].slots@[jj as int].index == idx);
                assert(cmid.slots@[jj as int].index == idx);
                if cmid.slots@[jj as int].occupied {
                    assert(cmid.occupies(idx));
                    assert(any_occupies(mid.candidates@, idx));
                    assert(mid.htlc_slots@[idx as int]);
                    assert(false);
                }
                assert forall|tt: int| 0 <= tt < t implies chosen@[tt] != idx by {}
                assert(!pre.candidates@[p as int].slots@[jj as int].occupied);
                assert(!pre.htlc_slots@[idx as int]);
            }
            self.set_entry_occupied(p, jj, true);
            self.htlc_slots.set(idx as usize, true);
            proof {
                lemma_occupy_preserves(
                    pre.candidates@,
                    self.candidates@,
                    pre.htlc_slots@,
                    p as int,
                    jj as int,
                );
                assert(self.htlc_slots@ == pre.htlc_slots@.update(idx as int, true));
                // The per-entry occupancy account: only the entry for this
                // slot changes, and the slot it names is exactly `chosen[t]`.
                assert forall|jx: int| 0 <= jx < cmid.slots@.len() implies ((
                #[trigger] self.candidates@[p as int].slots@[jx]).occupied == (
                cmid.slots@[jx].occupied || exists|tt: int|
                    0 <= tt < t + 1 && chosen@[tt] == cmid.slots@[jx].index)) by {
                    if jx == jj as int {
                        assert(chosen@[t as int] == cmid.slots@[jx].index);
                    } else {
                        assert(self.candidates@[p as int].slots@[jx] == pre.candidates@[p as int].slots@[jx]);
                        assert(cmid.slots@[jx].index != idx);
                        if exists|tt: int| 0 <= tt < t + 1 && chosen@[tt] == cmid.slots@[jx].index {
                            let tt = choose|tt: int|
                                0 <= tt < t + 1 && chosen@[tt] == cmid.slots@[jx].index;
                            assert(tt < t);
                        }
                    }
                }
                // The global account: only this slot changes.
                assert forall|k: int| 0 <= k < mid.htlc_slots@.len() implies ((
                #[trigger] self.htlc_slots@[k]) == (mid.htlc_slots@[k] || exists|tt: int|
                    0 <= tt < t + 1 && chosen@[tt] == k as u16)) by {
                    if k == idx as int {
                        assert(chosen@[t as int] == k as u16);
                    } else {
                        assert(self.htlc_slots@[k] == pre.htlc_slots@[k]);
                        if exists|tt: int| 0 <= tt < t + 1 && chosen@[tt] == k as u16 {
                            let tt = choose|tt: int| 0 <= tt < t + 1 && chosen@[tt] == k as u16;
                            assert(tt < t);
                        }
                    }
                }
                assert(self.wf());
            }
            t = t + 1;
        }

        proof {
            // The mutated candidate is still the one the spec points at.
            assert(self.candidates@[p as int].scid == candidate_scid);
            assert(self.has_candidate(candidate_scid));
            let q = self.cand_pos(candidate_scid);
            assert(self.candidates@[q].scid == candidate_scid);
            if q != p as int {
                assert(false);
            }
        }
        Ok(true)
    }

    /// Removes a HTLC for the candidate channel; should be called once the
    /// HTLC has been resolved. Which of the candidate's occupied slots are
    /// freed is unspecified; only their number matters.
    pub fn remove_htlc(&mut self, candidate_scid: u64, amount_msat: u64) -> (r: Result<
        (),
        ReputationError,
    >)
        requires
            old(self).wf(),
        ensures
            final(self).wf(),
            final(self).same_frame(*old(self)),
            final(self).htlc_slots@.len() == old(self).htlc_slots@.len(),
            old(self).consistent() ==> final(self).consistent(),
            r is Ok <==> (old(self).has_candidate(candidate_scid) && old(self).candidate(
                candidate_scid,
            ).occ_count() >= required_slots(amount_msat, old(self).slot_size_msat)),
            r matches Err(e) ==> {
                &&& *final(self) == *old(self)
                &&& (!old(self).has_candidate(candidate_scid) ==> e
                    == ReputationError::ErrChannelNotFound(candidate_scid))
                &&& (old(self).has_candidate(candidate_scid) ==> e
                    == ReputationError::ErrBucketTooEmpty(amount_msat))
            },
            r is Ok ==> {
                &&& occupied_slot_count(final(self).htlc_slots@) == occupied_slot_count(
                    old(self).htlc_slots@,
                ) - required_slots(amount_msat, old(self).slot_size_msat)
                &&& final(self).has_candidate(candidate_scid)
                &&& final(self).candidate(candidate_scid).occ_count() == old(self).candidate(
                    candidate_scid,
                ).occ_count() - required_slots(amount_msat, old(self).slot_size_msat)
                &&& final(self).candidate(candidate_scid).slots@.len() == old(self).candidate(
                    candidate_scid,
                ).slots@.len()
                &&& forall|j: int|
                    0 <= j < old(self).candidate(candidate_scid).slots@.len() ==> (#[trigger] final(self).candidate(candidate_scid).slots@[j]).index == old(self).candidate(
                        candidate_scid,
                    ).slots@[j].index
                &&& final(self).candidates@.len() == old(self).candidates@.len()
                &&& forall|i: int|
                    0 <= i < old(self).candidates@.len() && (#[trigger] old(self).candidates@[i]).scid != candidate_scid ==> final(self).candidates@[i] == old(self).candidates@[i]
                &&& forall|k: int|
                    0 <= k < final(self).htlc_slots@.len() && (#[trigger] final(self).htlc_slots@[k]) ==> old(self).htlc_slots@[k]
            },
    {
        let required = self.required_slot_count(amount_msat);
        let p = match self.find_candidate_pos(candidate_scid) {
            Some(p) => p,
            None => {
                return Err(ReputationError::ErrChannelNotFound(candidate_scid));
            },
        };
        proof {
            let q = self.cand_pos(candidate_scid);
            assert(self.candidates@[q].scid == candidate_scid);
            if q != p as int {
                assert(false);
            }
        }
        let ghost corig = old(self).candidates@[p as int];

        // Gather the positions of the candidate's occupied entries.
        let mut occ: Vec<usize> = Vec::new();
        let mut j: usize = 0;
        let n_slots = self.candidates[p].slots.len();
        while j < n_slots
            invariant
                *self == *old(self),
                old(self).wf(),
                (p as int) < self.candidates@.len(),
                corig == self.candidates@[p as int],
                n_slots == corig.slots@.len(),
                0 <= j <= n_slots,
                occ@.len() == occupied_entry_count(corig.slots@.take(j as int)),
                forall|tt: int| 0 <= tt < occ@.len() ==> (#[trigger] occ@[tt]) < j,
                forall|t1: int, t2: int| 0 <= t1 < t2 < occ@.len() ==> occ@[t1] < occ@[t2],
                forall|tt: int|
                    0 <= tt < occ@.len() ==> corig.slots@[(#[trigger] occ@[tt]) as int].occupied,
            decreases n_slots - j,
        {
            if self.candidates[p].slots[j].occupied {
                occ.push(j);
            }
            proof {
                assert(corig.slots@.take(j + 1).drop_last() =~= corig.slots@.take(j as int));
                assert(corig.slots@.take(j + 1).last() == corig.slots@[j as int]);
            }
            j = j + 1;
        }
        proof {
            assert(corig.slots@.take(corig.slots@.len() as int) =~= corig.slots@);
        }

        if (occ.len() as u64) < required {
            return Err(ReputationError::ErrBucketTooEmpty(amount_msat));
        }

        let ghost start = *self;
        let mut t: usize = 0;
        while (t as u64) < required
            invariant
                start == *old(self),
                start.wf(),
                required == required_slots(amount_msat, start.slot_size_msat),
                required <= occ@.len(),
                occ@.len() <= usize::MAX,
                0 <= t <= required,
                (p as int) < start.candidates@.len(),
                corig == start.candidates@[p as int],
                corig.scid == candidate_scid,
                forall|tt: int| 0 <= tt < occ@.len() ==> (#[trigger] occ@[tt]) < corig.slots@.len(),
                forall|t1: int, t2: int| 0 <= t1 < t2 < occ@.len() ==> occ@[t1] < occ@[t2],
                forall|tt: int|
                    0 <= tt < occ@.len() ==> corig.slots@[(#[trigger] occ@[tt]) as int].occupied,
                // Frame of the removal so far.
                self.same_frame(start),
                self.candidates@.len() == start.candidates@.len(),
                self.htlc_slots@.len() == start.htlc_slots@.len(),
                forall|i: int|
                    0 <= i < start.candidates@.len() && i != p as int ==> self.candidates@[i]
                        == start.candidates@[i],
                self.candidates@[p as int].scid == candidate_scid,
                self.candidates@[p as int].slots@.len() == corig.slots@.len(),
                forall|jj: int|
                    0 <= jj < corig.slots@.len() ==> (#[trigger] self.candidates@[p as int].slots@[jj]).index
                        == corig.slots@[jj].index,
                forall|jj: int|
                    0 <= jj < corig.slots@.len() ==> ((#[trigger] self.candidates@[p as int].slots@[jj]).occupied
                        == (corig.slots@[jj].occupied && !(exists|tt: int|
                        0 <= tt < t && occ@[tt] as int == jj))),
                forall|k: int|
                    0 <= k < start.htlc_slots@.len() ==> ((#[trigger] self.htlc_slots@[k]) == (
                    start.htlc_slots@[k] && !(exists|tt: int|
                        0 <= tt < t && corig.slots@[occ@[tt] as int].index == k as u16))),
                occupied_slot_count(self.htlc_slots@) == occupied_slot_count(start.htlc_slots@)
                    - t,
                occupied_entry_count(self.candidates@[p as int].slots@) == occupied_entry_count(
                    corig.slots@,
                ) - t,
                self.wf(),
                start.consistent() ==> self.consistent(),
            decreases required - t,
        {
            let jj = occ[t];
            let ghost pre = *self;
            proof {
                // The entry at this position is still occupied: the positions
                // already freed are all different from it.
                assert(corig.slots@[jj as int].occupied);
                if exists|tt: int| 0 <= tt < t && occ@[tt] as int == jj as int {
                    let tt = choose|tt: int| 0 <= tt < t && occ@[tt] as int == jj as int;
                    assert(occ@[tt] < occ@[t as int] || tt == t as int);
                    assert(false);
                }
                assert(pre.candidates@[p as int].slots@[jj as int].occupied);
            }
            let idx = self.candidates[p].slots[jj].index;
            proof {
                assert((idx as int) < pre.htlc_slots@.len());
            }
            self.set_entry_occupied(p, jj, false);
            self.htlc_slots.set(idx as usize, false);
            proof {
                lemma_free_preserves(
                    pre.candidates@,
                    self.candidates@,
                    pre.htlc_slots@,
                    p as int,
                    jj as int,
                );
                assert(self.htlc_slots@ == pre.htlc_slots@.update(idx as int, false));
                assert forall|jx: int| 0 <= jx < corig.slots@.len() implies ((
                #[trigger] self.candidates@[p as int].slots@[jx]).occupied == (
                corig.slots@[jx].occupied && !(exists|tt: int|
                    0 <= tt < t + 1 && occ@[tt] as int == jx))) by {
                    if jx == jj as int {
                        assert(occ@[t as int] as int == jx);
                    } else {
                        assert(self.candidates@[p as int].slots@[jx] == pre.candidates@[p as int].slots@[jx]);
                        if exists|tt: int| 0 <= tt < t + 1 && occ@[tt] as int == jx {
                            let tt = choose|tt: int| 0 <= tt < t + 1 && occ@[tt] as int == jx;
                            assert(tt < t);
                        }
                    }
                }
                assert forall|k: int| 0 <= k < start.htlc_slots@.len() implies ((
                #[trigger] self.htlc_slots@[k]) == (start.htlc_slots@[k] && !(exists|tt: int|
                    0 <= tt < t + 1 && corig.slots@[occ@[tt] as int].index == k as u16))) by {
                    if k == idx as int {
                        assert(corig.slots@[occ@[t as int] as int].index == k as u16);
                    } else {
                        assert(self.htlc_slots@[k] == pre.htlc_slots@[k]);
                        if exists|tt: int|
                            0 <= tt < t + 1 && corig.slots@[occ@[tt] as int].index == k as u16 {
                            let tt = choose|tt: int|
                                0 <= tt < t + 1 && corig.slots@[occ@[tt] as int].index == k as u16;
                            assert(tt < t);
                        }
                    }
                }
                assert(self.wf());
            }
            t = t + 1;
        }

        proof {
            assert(self.candidates@[p as int].scid == candidate_scid);
            assert(self.has_candidate(candidate_scid));
            let q = self.cand_pos(candidate_scid);
            assert(self.candidates@[q].scid == candidate_scid);
            if q != p as int {
                assert(false);
            }
            let q0 = old(self).cand_pos(candidate_scid);
            assert(old(self).candidates@[q0].scid == candidate_scid);
            if q0 != p as int {
                assert(false);
            }
        }
        Ok(())
    }
}

/// Whether a vector of slot indices contains the index given.
fn vec_contains_u16(v: &Vec<u16>, x: u16) -> (r: bool)
    ensures
        r == v@.contains(x),
{
    let mut i: usize = 0;
    let n = v.len();
    while i < n
        invariant
            n == v@.len(),
            0 <= i <= n,
            forall|ii: int| 0 <= ii < i ==> v@[ii] != x,
        decreases n - i,
    {
        if v[i] == x {
            return true;
        }
        i = i + 1;
    }
    false
}

/// The list `cands2` is `cands` with entry `jj` of candidate `p` set to the
/// occupancy given, everything else equal.
pub open spec fn is_set_entry(
    cands: Seq<CandidateSlots>,
    cands2: Seq<CandidateSlots>,
    p: int,
    jj: int,
    occupied: bool,
) -> bool {
    &&& cands2.len() == cands.len()
    &&& forall|i: int| 0 <= i < cands.len() && i != p ==> cands2[i] == cands[i]
    &&& cands2[p].scid == cands[p].scid
    &&& cands2[p].slots@ == cands[p].slots@.update(
        jj,
        SlotEntry { index: cands[p].slots@[jj].index, occupied },
    )
}

/// Reserving one free slot for one candidate keeps the slot state sound,
/// exclusive and consistent, raises both occupancy counts by one, and leaves
/// every other slot and candidate untouched.
pub proof fn lemma_occupy_preserves(
    cands: Seq<CandidateSlots>,
    cands2: Seq<CandidateSlots>,
    global: Seq<bool>,
    p: int,
    jj: int,
)
    requires
        exclusive_seq(cands),
        sound_seq(cands, global),
        0 <= p < cands.len(),
        0 <= jj < cands[p].slots@.len(),
        forall|j1: int, j2: int|
            0 <= j1 < j2 < cands[p].slots@.len() ==> cands[p].slots@[j1].index
                != cands[p].slots@[j2].index,
        global.len() <= 0xffff,
        cands[p].slots@[jj].index < global.len(),
        !global[cands[p].slots@[jj].index as int],
        is_set_entry(cands, cands2, p, jj, true),
    ensures
        ({
            let idx = cands[p].slots@[jj].index;
            let global2 = global.update(idx as int, true);
            &&& !cands[p].slots@[jj].occupied
            &&& exclusive_seq(cands2)
            &&& sound_seq(cands2, global2)
            &&& (consistent_seq(cands, global) ==> consistent_seq(cands2, global2))
            &&& forall|k: u16| k != idx ==> any_occupies(cands2, k) == any_occupies(cands, k)
            &&& any_occupies(cands2, idx)
            &&& occupied_entry_count(cands2[p].slots@) == occupied_entry_count(cands[p].slots@) + 1
            &&& occupied_slot_count(global2) == occupied_slot_count(global) + 1
            &&& cands2.len() == cands.len()
            &&& forall|i: int| 0 <= i < cands.len() && i != p ==> cands2[i] == cands[i]
            &&& cands2[p].scid == cands[p].scid
            &&& cands2[p].slots@.len() == cands[p].slots@.len()
            &&& forall|j: int|
                0 <= j < cands[p].slots@.len() ==> (#[trigger] cands2[p].slots@[j]).index
                    == cands[p].slots@[j].index
            &&& forall|j: int|
                0 <= j < cands[p].slots@.len() && j != jj ==> (#[trigger] cands2[p].slots@[j])
                    == cands[p].slots@[j]
            &&& cands2[p].slots@[jj].occupied
        }),
{
    let idx = cands[p].slots@[jj].index;
    let global2 = global.update(idx as int, true);

    // The entry cannot already be occupied: its global slot is free.
    if cands[p].slots@[jj].occupied {
        assert(cands[p].occupies(idx));
        assert(any_occupies(cands, idx));
        assert(false);
    }

    lemma_occupied_entry_count_update(
        cands[p].slots@,
        jj,
        SlotEntry { index: idx, occupied: true },
    );
    lemma_occupied_slot_count_update(global, idx as int, true);

    // Any occupancy in the new state, other than the reserved slot, was
    // already there; and the old state's occupancies survive.
    assert forall|k: u16| k != idx && any_occupies(cands2, k) implies any_occupies(cands, k) by {
        let i = choose|i: int| 0 <= i < cands2.len() && (#[trigger] cands2[i]).occupies(k);
        if i == p {
            let j = choose|j: int|
                0 <= j < cands2[p].slots@.len() && (#[trigger] cands2[p].slots@[j]).index == k
                    && cands2[p].slots@[j].occupied;
            assert(j != jj);
            assert(cands[p].slots@[j].index == k && cands[p].slots@[j].occupied);
            assert(cands[p].occupies(k));
        } else {
            assert(cands[i].occupies(k));
        }
    }
    assert forall|k: u16| any_occupies(cands, k) implies any_occupies(cands2, k) by {
        let i = choose|i: int| 0 <= i < cands.len() && (#[trigger] cands[i]).occupies(k);
        if i == p {
            let j = choose|j: int|
                0 <= j < cands[p].slots@.len() && (#[trigger] cands[p].slots@[j]).index == k
                    && cands[p].slots@[j].occupied;
            assert(j != jj);
            assert(cands2[p].slots@[j].index == k && cands2[p].slots@[j].occupied);
            assert(cands2[p].occupies(k));
        } else {
            assert(cands2[i].occupies(k));
        }
    }
    assert(cands2[p].slots@[jj].index == idx && cands2[p].slots@[jj].occupied);
    assert(cands2[p].occupies(idx));
    assert(any_occupies(cands2, idx));

    // Exclusivity: an occupier of the reserved slot in the new state can only
    // be the reserving candidate, since the slot was globally free before.
    assert forall|i1: int, i2: int, k: u16|
        0 <= i1 < cands2.len() && 0 <= i2 < cands2.len() && #[trigger] cands2[i1].occupies(k)
            && #[trigger] cands2[i2].occupies(k) implies i1 == i2 by {
        if k == idx {
            assert forall|i: int| 0 <= i < cands2.len() && #[trigger] cands2[i].occupies(idx)
                implies i == p by {
                if i != p {
                    assert(cands[i].occupies(idx));
                    assert(any_occupies(cands, idx));
                }
            }
        } else {
            if i1 != i2 {
                // Trace both occupancies back to the old state.
                assert(any_occupies(cands2, k));
                assert(cands2[i1].occupies(k) ==> cands[i1].occupies(k)) by {
                    if i1 == p && cands2[p].occupies(k) {
                        let j = choose|j: int|
                            0 <= j < cands2[p].slots@.len() && (#[trigger] cands2[p].slots@[j]).index
                                == k && cands2[p].slots@[j].occupied;
                        assert(j != jj);
                        assert(cands[p].occupies(k));
                    }
                }
                assert(cands2[i2].occupies(k) ==> cands[i2].occupies(k)) by {
                    if i2 == p && cands2[p].occupies(k) {
                        let j = choose|j: int|
                            0 <= j < cands2[p].slots@.len() && (#[trigger] cands2[p].slots@[j]).index
                                == k && cands2[p].slots@[j].occupied;
                        assert(j != jj);
                        assert(cands[p].occupies(k));
                    }
                }
                assert(cands[i1].occupies(k) && cands[i2].occupies(k));
            }
        }
    }

    // Soundness and, when it held before, consistency.
    assert forall|k: u16| #[trigger]
        any_occupies(cands2, k) implies k < global2.len() && global2[k as int] by {
        if k != idx {
            assert(any_occupies(cands, k));
        }
    }
    if consistent_seq(cands, global) {
        assert forall|k: int| 0 <= k < global2.len() implies ((#[trigger] global2[k])
            == any_occupies(cands2, k as u16)) by {
            if k == idx as int {
            } else {
                assert(global2[k] == global[k]);
                assert(k as u16 != idx);
            }
        }
    }
}

/// Releasing one occupied slot of one candidate keeps the slot state sound,
/// exclusive and consistent, lowers both occupancy counts by one, and leaves
/// every other slot and candidate untouched.
pub proof fn lemma_free_preserves(
    cands: Seq<CandidateSlots>,
    cands2: Seq<CandidateSlots>,
    global: Seq<bool>,
    p: int,
    jj: int,
)
    requires
        exclusive_seq(cands),
        sound_seq(cands, global),
        0 <= p < cands.len(),
        0 <= jj < cands[p].slots@.len(),
        forall|j1: int, j2: int|
            0 <= j1 < j2 < cands[p].slots@.len() ==> cands[p].slots@[j1].index
                != cands[p].slots@[j2].index,
        global.len() <= 0xffff,
        cands[p].slots@[jj].occupied,
        is_set_entry(cands, cands2, p, jj, false),
    ensures
        ({
            let idx = cands[p].slots@[jj].index;
            let global2 = global.update(idx as int, false);
            &&& idx < global.len() && global[idx as int]
            &&& exclusive_seq(cands2)
            &&& sound_seq(cands2, global2)
            &&& (consistent_seq(cands, global) ==> consistent_seq(cands2, global2))
            &&& forall|k: u16| k != idx ==> any_occupies(cands2, k) == any_occupies(cands, k)
            &&& !any_occupies(cands2, idx)
            &&& occupied_entry_count(cands2[p].slots@) == occupied_entry_count(cands[p].slots@) - 1
            &&& occupied_slot_count(global2) == occupied_slot_count(global) - 1
            &&& cands2.len() == cands.len()
            &&& forall|i: int| 0 <= i < cands.len() && i != p ==> cands2[i] == cands[i]
            &&& cands2[p].scid == cands[p].scid
            &&& cands2[p].slots@.len() == cands[p].slots@.len()
            &&& forall|j: int|
                0 <= j < cands[p].slots@.len() ==> (#[trigger] cands2[p].slots@[j]).index
                    == cands[p].slots@[j].index
            &&& forall|j: int|
                0 <= j < cands[p].slots@.len() && j != jj ==> (#[trigger] cands2[p].slots@[j])
                    == cands[p].slots@[j]
            &&& !cands2[p].slots@[jj].occupied
        }),
{
    let idx = cands[p].slots@[jj].index;
    let global2 = global.update(idx as int, false);

    assert(cands[p].occupies(idx));
    assert(any_occupies(cands, idx));

    lemma_occupied_entry_count_update(
        cands[p].slots@,
        jj,
        SlotEntry { index: idx, occupied: false },
    );
    lemma_occupied_slot_count_update(global, idx as int, false);

    // Nobody occupies the freed slot afterwards: the freeing candidate was
    // the only occupier, and its other entries carry other indices.
    assert forall|k: u16| #[trigger] any_occupies(cands2, k) implies k != idx && any_occupies(
        cands,
        k,
    ) by {
        let i = choose|i: int| 0 <= i < cands2.len() && (#[trigger] cands2[i]).occupies(k);
        if i == p {
            let j = choose|j: int|
                0 <= j < cands2[p].slots@.len() && (#[trigger] cands2[p].slots@[j]).index == k
                    && cands2[p].slots@[j].occupied;
            assert(j != jj);
            assert(cands[p].slots@[j].index == k && cands[p].slots@[j].occupied);
            assert(cands[p].occupies(k));
            if k == idx {
                assert(cands[p].slots@[j].index == cands[p].slots@[jj].index);
                assert(false);
            }
        } else {
            assert(cands[i].occupies(k));
            if k == idx {
                assert(cands[p].occupies(idx));
                assert(i == p);
            }
        }
    }
    assert forall|k: u16| k != idx && any_occupies(cands, k) implies any_occupies(cands2, k) by {
        let i = choose|i: int| 0 <= i < cands.len() && (#[trigger] cands[i]).occupies(k);
        if i == p {
            let j = choose|j: int|
                0 <= j < cands[p].slots@.len() && (#[trigger] cands[p].slots@[j]).index == k
                    && cands[p].slots@[j].occupied;
            assert(j != jj);
            assert(cands2[p].slots@[j].index == k && cands2[p].slots@[j].occupied);
            assert(cands2[p].occupies(k));
        } else {
            assert(cands2[i].occupies(k));
        }
    }

    assert forall|i1: int, i2: int, k: u16|
        0 <= i1 < cands2.len() && 0 <= i2 < cands2.len() && #[trigger] cands2[i1].occupies(k)
            && #[trigger] cands2[i2].occupies(k) implies i1 == i2 by {
        assert(any_occupies(cands2, k));
        assert(cands2[i1].occupies(k) ==> cands[i1].occupies(k)) by {
            if i1 == p && cands2[p].occupies(k) {
                let j = choose|j: int|
                    0 <= j < cands2[p].slots@.len() && (#[trigger] cands2[p].slots@[j]).index == k
                        && cands2[p].slots@[j].occupied;
                assert(j != jj);
                assert(cands[p].occupies(k));
            }
        }
        assert(cands2[i2].occupies(k) ==> cands[i2].occupies(k)) by {
            if i2 == p && cands2[p].occupies(k) {
                let j = choose|j: int|
                    0 <= j < cands2[p].slots@.len() && (#[trigger] cands2[p].slots@[j]).index == k
                        && cands2[p].slots@[j].occupied;
                assert(j != jj);
                assert(cands[p].occupies(k));
            }
        }
    }

    assert forall|k: u16| #[trigger]
        any_occupies(cands2, k) implies k < global2.len() && global2[k as int] by {
        assert(k != idx && any_occupies(cands, k));
    }
    if consistent_seq(cands, global) {
        assert forall|k: int| 0 <= k < global2.len() implies ((#[trigger] global2[k])
            == any_occupies(cands2, k as u16)) by {
            if k == idx as int {
                assert(!global2[k]);
                assert(!any_occupies(cands2, idx));
            } else {
                assert(global2[k] == global[k]);
                assert(k as u16 != idx);
            }
        }
    }
}

/// Tracks the three resource buckets of one channel in the incoming
/// direction of a htlc forward.
pub struct IncomingChannel {
    /// The resources available for htlcs that are not endorsed, or are not
    /// sent by a peer with sufficient reputation.
    pub general_bucket: GeneralBucket,
    /// The resources available for htlcs that are endorsed by peers that do
    /// not have sufficient reputation. This bucket is only used when the
    /// general bucket is full.
    pub congestion_bucket: BucketParameters,
    /// The resources available for htlcs that are endorsed by peers that
    /// have sufficient reputation.
    pub protected_bucket: BucketParameters,
}

impl IncomingChannel {
    /// Creates the channel's buckets, deriving the general bucket's slot
    /// state from its parameters.
    pub fn new(
        scid: u64,
        general_bucket: BucketParameters,
        congestion_bucket: BucketParameters,
        protected_bucket: BucketParameters,
    ) -> (r: Result<IncomingChannel, ReputationError>)
        requires
            general_bucket.slot_count >= 1,
        ensures
            match r {
                Ok(c) => {
                    &&& c.general_bucket.wf()
                    &&& c.general_bucket.consistent()
                    &&& c.general_bucket.scid == scid
                    &&& c.general_bucket.params == general_bucket
                    &&& c.general_bucket.htlc_slots@.len() == general_bucket.slot_count
                    &&& occupied_slot_count(c.general_bucket.htlc_slots@) == 0
                    &&& c.general_bucket.candidates@.len() == 0
                    &&& c.congestion_bucket == congestion_bucket
                    &&& c.protected_bucket == protected_bucket
                },
                Err(e) => e is ErrUnrecoverable,
            },
    {
        Ok(
            IncomingChannel {
                general_bucket: GeneralBucket::new(scid, general_bucket)?,
                congestion_bucket,
                protected_bucket,
            },
        )
    }

    /// Simulates a totally jammed channel: the general bucket advertises no
    /// slots and no liquidity, so every future admission check against its
    /// parameters fails. The slot state itself is kept, so htlcs already in
    /// flight can still be resolved.
    pub fn general_jam_channel(&mut self)
        requires
            old(self).general_bucket.wf(),
        ensures
            final(self).general_bucket.wf(),
            final(self).general_bucket.params.slot_count == 0,
            final(self).general_bucket.params.liquidity_msat == 0,
            final(self).general_bucket.scid == old(self).general_bucket.scid,
            final(self).general_bucket.salt == old(self).general_bucket.salt,
            final(self).general_bucket.htlc_slots == old(self).general_bucket.htlc_slots,
            final(self).general_bucket.slot_size_msat == old(self).general_bucket.slot_size_msat,
            final(self).general_bucket.candidates == old(self).general_bucket.candidates,
            old(self).general_bucket.consistent() ==> final(self).general_bucket.consistent(),
            final(self).congestion_bucket == old(self).congestion_bucket,
            final(self).protected_bucket == old(self).protected_bucket,
    {
        self.general_bucket.params = BucketParameters { slot_count: 0, liquidity_msat: 0 };
    }
}

/// Determinism of slot assignment given a fixed salt: two buckets created
/// with the same salt, the same owning channel and the same slot count assign
/// any candidate channel the same slot sequence.
pub proof fn lemma_slot_assignment_deterministic(b1: GeneralBucket, b2: GeneralBucket, cand: u64)
    requires
        b1.salt@ == b2.salt@,
        b1.scid == b2.scid,
        b1.n() == b2.n(),
    ensures
        b1.assignment_of(cand) == b2.assignment_of(cand),
{
}

/// Add/remove conservation: admitting a htlc and then removing one of the
/// same amount restores both occupancy counters — the global occupied-slot
/// count and the candidate's occupied-entry count — to what they were before
/// the admission. The hypotheses are exactly what `add_htlc` returning `true`
/// and a subsequent successful `remove_htlc` of the same amount ensure.
pub proof fn lemma_add_remove_conserves_counts(
    b0: GeneralBucket,
    b1: GeneralBucket,
    b2: GeneralBucket,
    cand: u64,
    amount_msat: u64,
)
    requires
        b1.slot_size_msat == b0.slot_size_msat,
        occupied_slot_count(b1.htlc_slots@) == occupied_slot_count(b0.htlc_slots@)
            + required_slots(amount_msat, b0.slot_size_msat),
        b1.candidate(cand).occ_count() == (if b0.has_candidate(cand) {
            b0.candidate(cand).occ_count()
        } else {
            0int
        }) + required_slots(amount_msat, b0.slot_size_msat),
        occupied_slot_count(b2.htlc_slots@) == occupied_slot_count(b1.htlc_slots@)
            - required_slots(amount_msat, b1.slot_size_msat),
        b2.candidate(cand).occ_count() == b1.candidate(cand).occ_count() - required_slots(
            amount_msat,
            b1.slot_size_msat,
        ),
    ensures
        occupied_slot_count(b2.htlc_slots@) == occupied_slot_count(b0.htlc_slots@),
        b2.candidate(cand).occ_count() == (if b0.has_candidate(cand) {
            b0.candidate(cand).occ_count()
        } else {
            0int
        }),
{
}

/// Once enough distinct slots have been found, later attempts change nothing.
pub proof fn lemma_derived_slots_stable(
    salt: Seq<u8>,
    own: u64,
    cand: u64,
    n: int,
    a: int,
    b: int,
)
    requires
        0 <= a <= b,
        derived_slots(salt, own, cand, n, a).len() >= ASSIGNED_SLOTS as int,
    ensures
        derived_slots(salt, own, cand, n, b) == derived_slots(salt, own, cand, n, a),
    decreases b,
{
    if b > a {
        lemma_derived_slots_stable(salt, own, cand, n, a, b - 1);
    }
}

} // verus!
