//! The state that a vote account holds in its data: to whom the account's
//! stake is delegated, and the votes not yet rooted.

use vstd::prelude::*;
use vstd::bytes::*;
use vstd::slice::slice_subrange;
use crate::pubkey::Pubkey;
use crate::transaction::append_bytes;
use crate::word256::Word256;

verus! {

/// The address of the vote program, which owns the vote accounts.
pub open spec fn id_spec() -> Pubkey {
    Pubkey { id: Word256 { w0: 132, w1: 0, w2: 0, w3: 0 } }
}

pub fn id() -> (r: Pubkey)
    ensures
        r == id_spec(),
{
    Pubkey { id: Word256 { w0: 132, w1: 0, w2: 0, w3: 0 } }
}

pub fn check_id(program_id: &Pubkey) -> (r: bool)
    ensures
        r == (*program_id == id_spec()),
{
    *program_id == id()
}

/// The greatest number of votes that a vote account keeps.
pub const MAX_LOCKOUT_HISTORY: usize = 31;

/// The size of the data of a vote account: room for the header and
/// `MAX_LOCKOUT_HISTORY` votes.
pub const VOTE_STATE_SIZE: usize = 420;

/// A vote for a slot, and how often later votes confirmed it.
#[derive(Clone, Copy, Debug, PartialEq, Eq, Structural)]
pub struct Lockout {
    pub slot: u64,
    pub confirmation_count: u32,
}

pub struct VoteStateView {
    pub delegate_id: Pubkey,
    pub credits: u64,
    pub votes: Seq<Lockout>,
}

#[derive(Debug, PartialEq, Eq)]
pub struct VoteState {
    /// The node that votes with this account's stake.
    pub delegate_id: Pubkey,
    /// The credits earned by voting.
    pub credits: u64,
    /// The votes not yet rooted, oldest first.
    pub votes: Vec<Lockout>,
}

impl View for VoteState {
    type V = VoteStateView;

    open spec fn view(&self) -> VoteStateView {
        VoteStateView { delegate_id: self.delegate_id, credits: self.credits, votes: self.votes@ }
    }
}

/// The bytes of a list of votes: for each the slot as 8 and the
/// confirmation count as 4 little-endian bytes.
pub open spec fn votes_bytes(votes: Seq<Lockout>) -> Seq<u8>
    decreases votes.len(),
{
    if votes.len() == 0 {
        Seq::empty()
    } else {
        votes_bytes(votes.drop_last()) + spec_u64_to_le_bytes(votes.last().slot)
            + spec_u32_to_le_bytes(votes.last().confirmation_count)
    }
}

/// The votes that `n` records of 12 bytes from place `from` on hold.
pub open spec fn votes_from_bytes(data: Seq<u8>, from: int, n: nat) -> Seq<Lockout>
    decreases n,
{
    if n == 0 {
        Seq::empty()
    } else {
        let at = from + 12 * (n - 1);
        votes_from_bytes(data, from, (n - 1) as nat).push(
            Lockout {
                slot: spec_u64_from_le_bytes(data.subrange(at, at + 8)),
                confirmation_count: spec_u32_from_le_bytes(data.subrange(at + 8, at + 12)),
            },
        )
    }
}

proof fn lemma_votes_bytes_len(votes: Seq<Lockout>)
    ensures
        votes_bytes(votes).len() == 12 * votes.len(),
    decreases votes.len(),
{
    lemma_auto_spec_u64_to_from_le_bytes();
    lemma_auto_spec_u32_to_from_le_bytes();
    if votes.len() > 0 {
        lemma_votes_bytes_len(votes.drop_last());
    }
}

proof fn lemma_votes_round_trip(prefix: Seq<u8>, votes: Seq<Lockout>, suffix: Seq<u8>, n: nat)
    requires
        n <= votes.len(),
    ensures
        votes_from_bytes(prefix + votes_bytes(votes) + suffix, prefix.len() as int, n)
            == votes.subrange(0, n as int),
    decreases n,
{
    lemma_auto_spec_u64_to_from_le_bytes();
    lemma_auto_spec_u32_to_from_le_bytes();
    let data = prefix + votes_bytes(votes) + suffix;
    if n == 0 {
        assert(votes.subrange(0, 0) =~= Seq::<Lockout>::empty());
    } else {
        lemma_votes_round_trip(prefix, votes, suffix, (n - 1) as nat);
        let head = votes.subrange(0, n as int);
        let at = prefix.len() + 12 * (n - 1);
        lemma_votes_bytes_len(votes);
        lemma_votes_bytes_len(head);
        lemma_votes_bytes_len(head.drop_last());
        lemma_votes_prefix(votes, n as int);
        assert(head.drop_last() =~= votes.subrange(0, n - 1));
        let one = spec_u64_to_le_bytes(head.last().slot) + spec_u32_to_le_bytes(
            head.last().confirmation_count,
        );
        assert(votes_bytes(head) == votes_bytes(head.drop_last()) + one);
        assert(data.subrange(at, at + 8) =~= spec_u64_to_le_bytes(head.last().slot)) by {
            assert forall|k: int| 0 <= k < 8 implies data[at + k] == spec_u64_to_le_bytes(
                head.last().slot,
            )[k] by {
                assert(data[at + k] == votes_bytes(votes)[12 * (n - 1) + k]);
                assert(votes_bytes(votes)[12 * (n - 1) + k] == votes_bytes(head)[12 * (n - 1) + k]);
                assert(votes_bytes(head)[12 * (n - 1) + k] == one[k]);
            }
        }
        assert(data.subrange(at + 8, at + 12) =~= spec_u32_to_le_bytes(
            head.last().confirmation_count,
        )) by {
            assert forall|k: int| 0 <= k < 4 implies data[at + 8 + k] == spec_u32_to_le_bytes(
                head.last().confirmation_count,
            )[k] by {
                assert(data[at + 8 + k] == votes_bytes(votes)[12 * (n - 1) + 8 + k]);
                assert(votes_bytes(votes)[12 * (n - 1) + 8 + k] == votes_bytes(head)[12 * (n - 1)
                    + 8 + k]);
                assert(votes_bytes(head)[12 * (n - 1) + 8 + k] == one[8 + k]);
            }
        }
        assert(votes.subrange(0, n as int) =~= votes.subrange(0, n - 1).push(head.last()));
    }
}

/// The bytes of the first `n` votes are the first bytes of the bytes of all.
proof fn lemma_votes_prefix(votes: Seq<Lockout>, n: int)
    requires
        0 <= n <= votes.len(),
    ensures
        votes_bytes(votes.subrange(0, n)) =~= votes_bytes(votes).subrange(0, 12 * n),
    decreases votes.len() - n,
{
    lemma_auto_spec_u64_to_from_le_bytes();
    lemma_auto_spec_u32_to_from_le_bytes();
    lemma_votes_bytes_len(votes);
    lemma_votes_bytes_len(votes.subrange(0, n));
    if n == votes.len() {
        assert(votes.subrange(0, n) =~= votes);
    } else {
        lemma_votes_prefix(votes, n + 1);
        let longer = votes.subrange(0, n + 1);
        assert(longer.drop_last() =~= votes.subrange(0, n));
        lemma_votes_bytes_len(longer);
    }
}

impl VoteState {
    /// The state of a fresh vote account of a node.
    pub fn new(delegate_id: &Pubkey) -> (r: VoteState)
        ensures
            r@ == (VoteStateView { delegate_id: *delegate_id, credits: 0, votes: Seq::empty() }),
    {
        VoteState { delegate_id: *delegate_id, credits: 0, votes: Vec::new() }
    }

    /// The size of the data of a vote account.
    pub fn max_size() -> (r: usize)
        ensures
            r == VOTE_STATE_SIZE,
    {
        VOTE_STATE_SIZE
    }

    /// The encoding of a state: the delegate's 32 bytes, the credits and
    /// the number of votes as 8 little-endian bytes each, then the votes.
    pub open spec fn serialize_spec(state: VoteStateView) -> Seq<u8> {
        state.delegate_id.to_bytes_spec() + spec_u64_to_le_bytes(state.credits)
            + spec_u64_to_le_bytes(state.votes.len() as u64) + votes_bytes(state.votes)
    }

    /// The state that a byte string starts with, if it starts with one.
    pub open spec fn deserialize_spec(data: Seq<u8>) -> Option<VoteStateView> {
        if data.len() < 48 {
            None
        } else {
            let n = spec_u64_from_le_bytes(data.subrange(40, 48));
            if n > MAX_LOCKOUT_HISTORY || data.len() < 48 + 12 * n {
                None
            } else {
                Some(
                    VoteStateView {
                        delegate_id: Pubkey { id: Word256::from_bytes_spec(data.subrange(0, 32)) },
                        credits: spec_u64_from_le_bytes(data.subrange(32, 40)),
                        votes: votes_from_bytes(data, 48, n as nat),
                    },
                )
            }
        }
    }

    /// The encoding of the state.
    pub fn serialize(&self) -> (r: Vec<u8>)
        ensures
            r@ == VoteState::serialize_spec(self@),
    {
        let mut out = self.delegate_id.to_bytes();
        append_bytes(&mut out, &u64_to_le_bytes(self.credits));
        append_bytes(&mut out, &u64_to_le_bytes(self.votes.len() as u64));
        let ghost head = out@;
        let mut i: usize = 0;
        proof {
            assert(out@ =~= head + votes_bytes(self.votes@.subrange(0, 0)));
        }
        while i < self.votes.len()
            invariant
                i <= self.votes@.len(),
                out@ == head + votes_bytes(self.votes@.subrange(0, i as int)),
            decreases self.votes@.len() - i,
        {
            append_bytes(&mut out, &u64_to_le_bytes(self.votes[i].slot));
            append_bytes(&mut out, &u32_to_le_bytes(self.votes[i].confirmation_count));
            proof {
                let next = self.votes@.subrange(0, i + 1);
                assert(next.drop_last() =~= self.votes@.subrange(0, i as int));
                assert(next.last() == self.votes@[i as int]);
                assert(out@ =~= head + votes_bytes(next));
            }
            i += 1;
        }
        proof {
            assert(self.votes@.subrange(0, self.votes@.len() as int) =~= self.votes@);
        }
        out
    }

    /// Reads a state from the start of a byte string.
    pub fn deserialize(data: &[u8]) -> (r: Option<VoteState>)
        ensures
            match r {
                Some(state) => VoteState::deserialize_spec(data@) == Some(state@),
                None => VoteState::deserialize_spec(data@) is None,
            },
    {
        if data.len() < 48 {
            return None;
        }
        let n = u64_from_le_bytes(slice_subrange(data, 40, 48));
        if n > MAX_LOCKOUT_HISTORY as u64 {
            return None;
        }
        let n = n as usize;
        if data.len() < 48 + 12 * n {
            return None;
        }
        let mut votes: Vec<Lockout> = Vec::new();
        let mut i: usize = 0;
        while i < n
            invariant
                i <= n <= MAX_LOCKOUT_HISTORY,
                data@.len() >= 48 + 12 * n,
                votes@ == votes_from_bytes(data@, 48, i as nat),
            decreases n - i,
        {
            let at = 48 + 12 * i;
            votes.push(
                Lockout {
                    slot: u64_from_le_bytes(slice_subrange(data, at, at + 8)),
                    confirmation_count: u32_from_le_bytes(slice_subrange(data, at + 8, at + 12)),
                },
            );
            i += 1;
        }
        Some(
            VoteState {
                delegate_id: Pubkey { id: Word256::from_bytes(slice_subrange(data, 0, 32)) },
                credits: u64_from_le_bytes(slice_subrange(data, 32, 40)),
                votes,
            },
        )
    }

    /// Reading an encoded state gives the state again, whatever follows
    /// the encoding.
    pub proof fn lemma_round_trip(state: VoteStateView, suffix: Seq<u8>)
        requires
            state.votes.len() <= MAX_LOCKOUT_HISTORY,
        ensures
            VoteState::deserialize_spec(VoteState::serialize_spec(state) + suffix) == Some(state),
    {
        lemma_auto_spec_u64_to_from_le_bytes();
        lemma_votes_bytes_len(state.votes);
        state.delegate_id.id.lemma_bytes_round_trip();
        let head = state.delegate_id.to_bytes_spec() + spec_u64_to_le_bytes(state.credits)
            + spec_u64_to_le_bytes(state.votes.len() as u64);
        let data = VoteState::serialize_spec(state) + suffix;
        assert(data =~= head + votes_bytes(state.votes) + suffix);
        assert(data.subrange(0, 32) =~= state.delegate_id.to_bytes_spec());
        assert(data.subrange(32, 40) =~= spec_u64_to_le_bytes(state.credits));
        assert(data.subrange(40, 48) =~= spec_u64_to_le_bytes(state.votes.len() as u64));
        lemma_votes_round_trip(head, state.votes, suffix, state.votes.len());
        assert(state.votes.subrange(0, state.votes.len() as int) =~= state.votes);
        let got = VoteState::deserialize_spec(data)->Some_0;
        assert(got.votes == state.votes);
    }
}

} // verus!
