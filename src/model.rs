//! The mathematical model of the registry and of each of its transitions.
use vstd::prelude::*;

verus! {

/// Errors that a mutating operation reports; an error leaves the registry unchanged.
#[derive(Clone, Copy, Debug, PartialEq, Eq, Structural)]
pub enum ConflictError {
    /// The caller is not the configured authority.
    Unauthorized,
    /// No conflict was created under the given id.
    NotFound,
    /// The conflict has already been resolved.
    AlreadyResolved,
    /// The caller has already voted on this conflict.
    DuplicateVote,
    /// A close was attempted on a conflict without any supporting ballot.
    NoSupportingVotes,
    /// A null was attempted on a conflict with a supporting ballot.
    UnexpectedSupportingVotes,
}

/// Where a conflict stands in its lifecycle.
#[derive(Clone, Copy, Debug, PartialEq, Eq, Structural)]
pub enum Status {
    Open,
    /// Closed with a majority (or a tie) of supporting ballots.
    Valid,
    /// Closed without a majority of supporting ballots.
    Invalid,
    /// Nullified because no ballot supported it.
    Null,
}

/// A ballot as the model sees it: the voter's identity and the choice.
pub type BallotView = (Seq<char>, bool);

pub struct ConflictView {
    pub proposal_id: u128,
    pub ballots: Seq<BallotView>,
    pub status: Status,
}

pub struct ContractView {
    pub authority: Seq<char>,
    /// The conflict with id `k` stands at index `k - 1`.
    pub conflicts: Seq<ConflictView>,
    pub valid_count: nat,
    pub invalid_count: nat,
    pub null_count: nat,
}

/// The stored fate of a conflict: absent while open, `false` for both invalid and null.
pub open spec fn fate_of(s: Status) -> Option<bool> {
    match s {
        Status::Open => None,
        Status::Valid => Some(true),
        Status::Invalid => Some(false),
        Status::Null => Some(false),
    }
}

/// Number of supporting (`true`) ballots.
pub open spec fn upvotes(ballots: Seq<BallotView>) -> nat
    decreases ballots.len(),
{
    if ballots.len() == 0 {
        0
    } else {
        upvotes(ballots.drop_last()) + if ballots.last().1 { 1nat } else { 0nat }
    }
}

pub open spec fn has_voted(ballots: Seq<BallotView>, voter: Seq<char>) -> bool {
    exists|j: int| 0 <= j < ballots.len() && ballots[j].0 == voter
}

pub open spec fn voters_distinct(ballots: Seq<BallotView>) -> bool {
    forall|j: int, k: int| 0 <= j < k < ballots.len() ==> ballots[j].0 != ballots[k].0
}

/// The close rule: valid when supporting ballots are at least half of all ballots.
pub open spec fn close_outcome(ballots: Seq<BallotView>) -> bool {
    2 * upvotes(ballots) >= ballots.len()
}

/// Number of conflicts with the given status.
pub open spec fn count_status(cs: Seq<ConflictView>, st: Status) -> nat
    decreases cs.len(),
{
    if cs.len() == 0 {
        0
    } else {
        count_status(cs.drop_last(), st) + if cs.last().status == st { 1nat } else { 0nat }
    }
}

impl ContractView {
    /// A fresh registry governed by `authority`.
    pub open spec fn initial(authority: Seq<char>) -> ContractView {
        ContractView {
            authority,
            conflicts: Seq::empty(),
            valid_count: 0,
            invalid_count: 0,
            null_count: 0,
        }
    }

    /// The number of conflicts fits a machine word, no voter appears twice in a
    /// conflict, and each counter equals the number of conflicts resolved its way.
    pub open spec fn inv(self) -> bool {
        &&& self.conflicts.len() <= usize::MAX
        &&& forall|i: int| 0 <= i < self.conflicts.len() ==> voters_distinct(#[trigger] self.conflicts[i].ballots)
        &&& self.valid_count == count_status(self.conflicts, Status::Valid)
        &&& self.invalid_count == count_status(self.conflicts, Status::Invalid)
        &&& self.null_count == count_status(self.conflicts, Status::Null)
    }

    pub open spec fn has_conflict(self, id: u128) -> bool {
        1 <= id && id <= self.conflicts.len()
    }

    pub open spec fn conflict(self, id: u128) -> ConflictView {
        self.conflicts[id - 1]
    }

    /// The ballots of a conflict; empty for an id that was never created.
    pub open spec fn votes_of(self, id: u128) -> Seq<BallotView> {
        if self.has_conflict(id) {
            self.conflict(id).ballots
        } else {
            Seq::empty()
        }
    }

    /// The proposal that a conflict refers to; absent for an unknown id.
    pub open spec fn proposal_of(self, id: u128) -> Option<u128> {
        if self.has_conflict(id) {
            Some(self.conflict(id).proposal_id)
        } else {
            None
        }
    }

    /// The fate of a conflict; absent for an open conflict or an unknown id.
    pub open spec fn fate(self, id: u128) -> Option<bool> {
        if self.has_conflict(id) {
            fate_of(self.conflict(id).status)
        } else {
            None
        }
    }

    /// Creation: only the authority may create; the new conflict takes the next id.
    pub open spec fn create_spec(self, caller: Seq<char>, proposal_id: u128) -> Result<(ContractView, u128), ConflictError> {
        if caller != self.authority {
            Err(ConflictError::Unauthorized)
        } else {
            let c = ConflictView { proposal_id, ballots: Seq::empty(), status: Status::Open };
            Ok((ContractView { conflicts: self.conflicts.push(c), ..self }, (self.conflicts.len() + 1) as u128))
        }
    }

    /// Voting: checks existence, then openness, then that the voter is new.
    pub open spec fn vote_spec(self, caller: Seq<char>, id: u128, choice: bool) -> Result<ContractView, ConflictError> {
        if !self.has_conflict(id) {
            Err(ConflictError::NotFound)
        } else if self.conflict(id).status != Status::Open {
            Err(ConflictError::AlreadyResolved)
        } else if has_voted(self.conflict(id).ballots, caller) {
            Err(ConflictError::DuplicateVote)
        } else {
            let c = self.conflict(id);
            let c2 = ConflictView { ballots: c.ballots.push((caller, choice)), ..c };
            Ok(ContractView { conflicts: self.conflicts.update(id - 1, c2), ..self })
        }
    }

    /// The registry after the conflict `id` is resolved as `st`, with its counter raised.
    pub open spec fn resolved(self, id: u128, st: Status) -> ContractView {
        let c = self.conflict(id);
        ContractView {
            conflicts: self.conflicts.update(id - 1, ConflictView { status: st, ..c }),
            valid_count: self.valid_count + if st == Status::Valid { 1nat } else { 0nat },
            invalid_count: self.invalid_count + if st == Status::Invalid { 1nat } else { 0nat },
            null_count: self.null_count + if st == Status::Null { 1nat } else { 0nat },
            ..self
        }
    }

    /// The checks that both ways of resolving make first, in this order.
    pub open spec fn resolve_check(self, caller: Seq<char>, id: u128) -> Option<ConflictError> {
        if caller != self.authority {
            Some(ConflictError::Unauthorized)
        } else if !self.has_conflict(id) {
            Some(ConflictError::NotFound)
        } else if self.conflict(id).status != Status::Open {
            Some(ConflictError::AlreadyResolved)
        } else {
            None
        }
    }

    /// Closing: needs a supporting ballot; resolves by `close_outcome`.
    pub open spec fn close_spec(self, caller: Seq<char>, id: u128) -> Result<(ContractView, bool), ConflictError> {
        match self.resolve_check(caller, id) {
            Some(e) => Err(e),
            None => if upvotes(self.conflict(id).ballots) == 0 {
                Err(ConflictError::NoSupportingVotes)
            } else {
                let b = close_outcome(self.conflict(id).ballots);
                Ok((self.resolved(id, if b { Status::Valid } else { Status::Invalid }), b))
            },
        }
    }

    /// Nullifying: needs no supporting ballot; resolves as null.
    pub open spec fn null_spec(self, caller: Seq<char>, id: u128) -> Result<ContractView, ConflictError> {
        match self.resolve_check(caller, id) {
            Some(e) => Err(e),
            None => if upvotes(self.conflict(id).ballots) != 0 {
                Err(ConflictError::UnexpectedSupportingVotes)
            } else {
                Ok(self.resolved(id, Status::Null))
            },
        }
    }
}

/// A status is held by at most every conflict.
pub proof fn lemma_count_status_le(cs: Seq<ConflictView>, st: Status)
    ensures
        count_status(cs, st) <= cs.len(),
    decreases cs.len(),
{
    if cs.len() > 0 {
        lemma_count_status_le(cs.drop_last(), st);
    }
}

/// Appending a conflict counts it under its own status.
pub proof fn lemma_count_status_push(cs: Seq<ConflictView>, c: ConflictView, st: Status)
    ensures
        count_status(cs.push(c), st) == count_status(cs, st) + if c.status == st { 1nat } else { 0nat },
{
    assert(cs.push(c).drop_last() =~= cs);
}

/// Replacing one conflict moves one unit of count from its old status to its new one.
pub proof fn lemma_count_status_update(cs: Seq<ConflictView>, i: int, c: ConflictView, st: Status)
    requires
        0 <= i < cs.len(),
    ensures
        count_status(cs.update(i, c), st) + (if cs[i].status == st { 1int } else { 0int })
            == count_status(cs, st) + (if c.status == st { 1int } else { 0int }),
    decreases cs.len(),
{
    if i == cs.len() - 1 {
        assert(cs.update(i, c).drop_last() =~= cs.drop_last());
    } else {
        assert(cs.update(i, c).drop_last() =~= cs.drop_last().update(i, c));
        lemma_count_status_update(cs.drop_last(), i, c, st);
    }
}

/// Appending a ballot adds one supporting vote when its choice is `true`.
pub proof fn lemma_upvotes_push(ballots: Seq<BallotView>, b: BallotView)
    ensures
        upvotes(ballots.push(b)) == upvotes(ballots) + if b.1 { 1nat } else { 0nat },
{
    assert(ballots.push(b).drop_last() =~= ballots);
}

} // verus!
