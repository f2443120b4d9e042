//! The conflict registry: conflicts in creation order, with their ballots and fates.
use vstd::prelude::*;

use crate::model::{
    BallotView, ConflictError, ConflictView, ContractView, Status, has_voted, upvotes, voters_distinct,
    lemma_count_status_le, lemma_count_status_push, lemma_count_status_update, lemma_upvotes_push,
};

verus! {

/// A ballot: the voter's identity and the choice.
pub type Ballot = (String, bool);

pub open spec fn ballot_view(b: Ballot) -> BallotView {
    (b.0@, b.1)
}

pub open spec fn ballots_view(v: Seq<Ballot>) -> Seq<BallotView> {
    v.map_values(|b: Ballot| ballot_view(b))
}

struct Conflict {
    proposal_id: u128,
    ballots: Vec<Ballot>,
    status: Status,
}

impl View for Conflict {
    type V = ConflictView;

    closed spec fn view(&self) -> ConflictView {
        ConflictView { proposal_id: self.proposal_id, ballots: ballots_view(self.ballots@), status: self.status }
    }
}

/// The registry. The conflict with id `k` is the `k`-th one created.
pub struct Contract {
    authority: String,
    conflicts: Vec<Conflict>,
    conflict_valid_count: u128,
    conflict_invalid_count: u128,
    conflict_null_count: u128,
}

impl View for Contract {
    type V = ContractView;

    closed spec fn view(&self) -> ContractView {
        ContractView {
            authority: self.authority@,
            conflicts: self.conflicts@.map_values(|c: Conflict| c@),
            valid_count: self.conflict_valid_count as nat,
            invalid_count: self.conflict_invalid_count as nat,
            null_count: self.conflict_null_count as nat,
        }
    }
}

/// Whether `voter` already has a ballot in `ballots`.
fn voted_already(ballots: &Vec<Ballot>, voter: &String) -> (r: bool)
    ensures
        r == has_voted(ballots_view(ballots@), voter@),
{
    let mut i: usize = 0;
    while i < ballots.len()
        invariant
            i <= ballots@.len(),
            forall|j: int| 0 <= j < i ==> (#[trigger] ballots@[j]).0@ != voter@,
        decreases ballots@.len() - i,
    {
        if ballots[i].0 == *voter {
            assert(ballots_view(ballots@)[i as int].0 == voter@);
            return true;
        }
        i = i + 1;
    }
    assert forall|j: int| 0 <= j < ballots@.len() implies ballots_view(ballots@)[j].0 != voter@ by {
        assert(ballots@[j].0@ != voter@);
    }
    false
}

/// The number of supporting ballots.
fn count_upvotes(ballots: &Vec<Ballot>) -> (r: usize)
    ensures
        r as nat == upvotes(ballots_view(ballots@)),
{
    let mut n: usize = 0;
    let mut i: usize = 0;
    while i < ballots.len()
        invariant
            i <= ballots@.len(),
            n as nat == upvotes(ballots_view(ballots@.take(i as int))),
            n <= i,
        decreases ballots@.len() - i,
    {
        proof {
            assert(ballots_view(ballots@.take(i + 1)) =~= ballots_view(ballots@.take(i as int)).push(
                ballot_view(ballots@[i as int]),
            ));
            lemma_upvotes_push(ballots_view(ballots@.take(i as int)), ballot_view(ballots@[i as int]));
        }
        if ballots[i].1 {
            n = n + 1;
        }
        i = i + 1;
    }
    assert(ballots@.take(i as int) =~= ballots@);
    n
}

impl Contract {
    /// A fresh registry whose conflicts only `authority` may create and resolve.
    pub fn new(authority: String) -> (r: Contract)
        ensures
            r@ == ContractView::initial(authority@),
            r@.inv(),
    {
        let r = Contract {
            authority,
            conflicts: Vec::new(),
            conflict_valid_count: 0,
            conflict_invalid_count: 0,
            conflict_null_count: 0,
        };
        assert(r@.conflicts =~= Seq::<ConflictView>::empty());
        r
    }

    /// The number of conflicts ever created.
    pub fn get_conflict_count(&self) -> (r: u128)
        ensures
            r == self@.conflicts.len(),
    {
        self.conflicts.len() as u128
    }

    /// Index of the conflict `conflict_id`, if it exists.
    fn index_of(&self, conflict_id: u128) -> (r: Option<usize>)
        ensures
            r is Some <==> self@.has_conflict(conflict_id),
            r is Some ==> r->0 == conflict_id - 1,
    {
        if conflict_id == 0 || conflict_id > self.conflicts.len() as u128 {
            None
        } else {
            Some((conflict_id - 1) as usize)
        }
    }

    /// The ballots cast on a conflict, in the order cast; empty for an unknown id.
    pub fn get_all_votes(&self, conflict_id: u128) -> (r: Vec<Ballot>)
        ensures
            ballots_view(r@) == self@.votes_of(conflict_id),
    {
        let mut out: Vec<Ballot> = Vec::new();
        match self.index_of(conflict_id) {
            None => {
                assert(ballots_view(out@) =~= Seq::<BallotView>::empty());
            },
            Some(idx) => {
                let ballots = &self.conflicts[idx].ballots;
                let mut i: usize = 0;
                while i < ballots.len()
                    invariant
                        i <= ballots@.len(),
                        ballots_view(out@) =~= ballots_view(ballots@.take(i as int)),
                    decreases ballots@.len() - i,
                {
                    let b: Ballot = (ballots[i].0.clone(), ballots[i].1);
                    assert(ballots_view(ballots@.take(i + 1)) =~= ballots_view(ballots@.take(i as int)).push(
                        ballot_view(b),
                    ));
                    out.push(b);
                    i = i + 1;
                }
                assert(ballots@.take(i as int) =~= ballots@);
                assert(self@.conflict(conflict_id) == self.conflicts@[idx as int]@);
            },
        }
        out
    }
    /// Marks the open conflict at `idx` as resolved with `st` and raises that counter.
    fn resolve(&mut self, idx: usize, st: Status)
        requires
            old(self)@.inv(),
            idx < old(self)@.conflicts.len(),
            old(self)@.conflicts[idx as int].status == Status::Open,
            st != Status::Open,
        ensures
            final(self)@ == old(self)@.resolved((idx + 1) as u128, st),
            final(self)@.inv(),
    {
        let ghost pre = self@;
        let ghost c = pre.conflicts[idx as int];
        let ghost c2 = ConflictView { status: st, ..c };
        proof {
            lemma_count_status_le(pre.conflicts, Status::Valid);
            lemma_count_status_le(pre.conflicts, Status::Invalid);
            lemma_count_status_le(pre.conflicts, Status::Null);
            lemma_count_status_update(pre.conflicts, idx as int, c2, Status::Valid);
            lemma_count_status_update(pre.conflicts, idx as int, c2, Status::Invalid);
            lemma_count_status_update(pre.conflicts, idx as int, c2, Status::Null);
        }
        assert(pre.conflicts.len() == self.conflicts.len());
        assert(self.conflict_valid_count <= usize::MAX && self.conflict_invalid_count <= usize::MAX
            && self.conflict_null_count <= usize::MAX);
        self.conflicts[idx].status = st;
        match st {
            Status::Valid => {
                self.conflict_valid_count = self.conflict_valid_count + 1;
            },
            Status::Invalid => {
                self.conflict_invalid_count = self.conflict_invalid_count + 1;
            },
            _ => {
                self.conflict_null_count = self.conflict_null_count + 1;
            },
        }
        assert(self@.conflicts =~= pre.conflicts.update(idx as int, c2));
        assert forall|i: int| 0 <= i < self@.conflicts.len() implies voters_distinct(
            #[trigger] self@.conflicts[i].ballots,
        ) by {
            assert(self@.conflicts[i].ballots == pre.conflicts[i].ballots);
        }
    }

    /// Resolves an open conflict by its ballots: valid when supporting ballots are at
    /// least half of all ballots, invalid otherwise. Only the authority may close, and
    /// only a conflict with at least one supporting ballot.
    pub fn close_conflict(&mut self, caller: &String, conflict_id: u128) -> (r: Result<bool, ConflictError>)
        requires
            old(self)@.inv(),
        ensures
            final(self)@.inv(),
            match r {
                Ok(b) => old(self)@.close_spec(caller@, conflict_id) == Ok::<(ContractView, bool), ConflictError>(
                    (final(self)@, b),
                ),
                Err(e) => old(self)@.close_spec(caller@, conflict_id) == Err::<(ContractView, bool), ConflictError>(e)
                    && final(self)@ == old(self)@,
            },
    {
        if !(*caller == self.authority) {
            return Err(ConflictError::Unauthorized);
        }
        let idx = match self.index_of(conflict_id) {
            None => {
                return Err(ConflictError::NotFound);
            },
            Some(i) => i,
        };
        assert(self@.conflict(conflict_id) == self.conflicts@[idx as int]@);
        if self.conflicts[idx].status != Status::Open {
            return Err(ConflictError::AlreadyResolved);
        }
        let upvotes_n = count_upvotes(&self.conflicts[idx].ballots);
        if upvotes_n == 0 {
            return Err(ConflictError::NoSupportingVotes);
        }
        let total = self.conflicts[idx].ballots.len();
        let valid = 2 * (upvotes_n as u128) >= total as u128;
        if valid {
            self.resolve(idx, Status::Valid);
        } else {
            self.resolve(idx, Status::Invalid);
        }
        Ok(valid)
    }

    /// Resolves an open conflict without any supporting ballot as null; returns `true`.
    /// Only the authority may do so.
    pub fn null_conflict(&mut self, caller: &String, conflict_id: u128) -> (r: Result<bool, ConflictError>)
        requires
            old(self)@.inv(),
        ensures
            final(self)@.inv(),
            match r {
                Ok(b) => b && old(self)@.null_spec(caller@, conflict_id) == Ok::<ContractView, ConflictError>(final(self)@),
                Err(e) => old(self)@.null_spec(caller@, conflict_id) == Err::<ContractView, ConflictError>(e)
                    && final(self)@ == old(self)@,
            },
    {
        if !(*caller == self.authority) {
            return Err(ConflictError::Unauthorized);
        }
        let idx = match self.index_of(conflict_id) {
            None => {
                return Err(ConflictError::NotFound);
            },
            Some(i) => i,
        };
        assert(self@.conflict(conflict_id) == self.conflicts@[idx as int]@);
        if self.conflicts[idx].status != Status::Open {
            return Err(ConflictError::AlreadyResolved);
        }
        let upvotes_n = count_upvotes(&self.conflicts[idx].ballots);
        if upvotes_n != 0 {
            return Err(ConflictError::UnexpectedSupportingVotes);
        }
        self.resolve(idx, Status::Null);
        Ok(true)
    }

    /// Casts the caller's ballot on an open conflict; each identity votes once.
    pub fn vote_on_conflict(&mut self, caller: &String, conflict_id: u128, vote_choice: bool) -> (r: Result<(), ConflictError>)
        requires
            old(self)@.inv(),
        ensures
            final(self)@.inv(),
            match r {
                Ok(_) => old(self)@.vote_spec(caller@, conflict_id, vote_choice) == Ok::<ContractView, ConflictError>(
                    final(self)@,
                ),
                Err(e) => old(self)@.vote_spec(caller@, conflict_id, vote_choice) == Err::<ContractView, ConflictError>(e)
                    && final(self)@ == old(self)@,
            },
    {
        let idx = match self.index_of(conflict_id) {
            None => {
                return Err(ConflictError::NotFound);
            },
            Some(i) => i,
        };
        let ghost pre = self@;
        assert(pre.conflict(conflict_id) == self.conflicts@[idx as int]@);
        if self.conflicts[idx].status != Status::Open {
            return Err(ConflictError::AlreadyResolved);
        }
        if voted_already(&self.conflicts[idx].ballots, caller) {
            return Err(ConflictError::DuplicateVote);
        }
        let ghost c = pre.conflicts[idx as int];
        let b: Ballot = (caller.clone(), vote_choice);
        let ghost c2 = ConflictView { ballots: c.ballots.push(ballot_view(b)), ..c };
        self.conflicts[idx].ballots.push(b);
        proof {
            assert(self.conflicts@[idx as int]@.ballots =~= c2.ballots);
            assert(self@.conflicts =~= pre.conflicts.update(idx as int, c2));
            lemma_count_status_update(pre.conflicts, idx as int, c2, Status::Valid);
            lemma_count_status_update(pre.conflicts, idx as int, c2, Status::Invalid);
            lemma_count_status_update(pre.conflicts, idx as int, c2, Status::Null);
            assert(voters_distinct(c2.ballots)) by {
                assert(!has_voted(c.ballots, caller@));
                assert forall|j: int, k: int| 0 <= j < k < c2.ballots.len() implies c2.ballots[j].0 != c2.ballots[k].0 by {
                    if k == c.ballots.len() {
                        assert(c.ballots[j].0 != caller@);
                    }
                }
            }
            assert forall|i: int| 0 <= i < self@.conflicts.len() implies voters_distinct(
                #[trigger] self@.conflicts[i].ballots,
            ) by {
                if i != idx {
                    assert(self@.conflicts[i] == pre.conflicts[i]);
                }
            }
        }
        Ok(())
    }

    /// Opens a new conflict for `proposal_id` and returns its id, the next in sequence.
    /// Only the authority may create conflicts.
    pub fn create_conflict(&mut self, caller: &String, proposal_id: u128) -> (r: Result<u128, ConflictError>)
        requires
            old(self)@.inv(),
        ensures
            final(self)@.inv(),
            match r {
                Ok(id) => old(self)@.create_spec(caller@, proposal_id) == Ok::<(ContractView, u128), ConflictError>(
                    (final(self)@, id),
                ),
                Err(e) => old(self)@.create_spec(caller@, proposal_id) == Err::<(ContractView, u128), ConflictError>(e)
                    && final(self)@ == old(self)@,
            },
    {
        if !(*caller == self.authority) {
            return Err(ConflictError::Unauthorized);
        }
        let ghost pre = self@;
        let c = Conflict { proposal_id, ballots: Vec::new(), status: Status::Open };
        assert(c@.ballots =~= Seq::<BallotView>::empty());
        self.conflicts.push(c);
        let id = self.conflicts.len() as u128;
        proof {
            assert(self@.conflicts =~= pre.conflicts.push(c@));
            lemma_count_status_push(pre.conflicts, c@, Status::Valid);
            lemma_count_status_push(pre.conflicts, c@, Status::Invalid);
            lemma_count_status_push(pre.conflicts, c@, Status::Null);
        }
        Ok(id)
    }

    /// The fate of a conflict: `None` while open or for an unknown id, else whether it
    /// was resolved valid.
    pub fn get_fate(&self, conflict_id: u128) -> (r: Option<bool>)
        ensures
            r == self@.fate(conflict_id),
    {
        match self.index_of(conflict_id) {
            None => None,
            Some(idx) => {
                assert(self@.conflict(conflict_id) == self.conflicts@[idx as int]@);
                match self.conflicts[idx].status {
                    Status::Open => None,
                    Status::Valid => Some(true),
                    _ => Some(false),
                }
            },
        }
    }

    /// The proposal that a conflict refers to; `None` for an unknown id.
    pub fn get_proposal_id(&self, conflict_id: u128) -> (r: Option<u128>)
        ensures
            r == self@.proposal_of(conflict_id),
    {
        match self.index_of(conflict_id) {
            None => None,
            Some(idx) => {
                assert(self@.conflict(conflict_id) == self.conflicts@[idx as int]@);
                Some(self.conflicts[idx].proposal_id)
            },
        }
    }

    /// The number of conflicts resolved valid.
    pub fn get_valid_count(&self) -> (r: u128)
        ensures
            r == self@.valid_count,
    {
        self.conflict_valid_count
    }

    /// The number of conflicts closed as invalid.
    pub fn get_invalid_count(&self) -> (r: u128)
        ensures
            r == self@.invalid_count,
    {
        self.conflict_invalid_count
    }

    /// The number of conflicts nullified.
    pub fn get_null_count(&self) -> (r: u128)
        ensures
            r == self@.null_count,
    {
        self.conflict_null_count
    }
}

impl Default for Contract {
    /// A fresh registry with the lead validator as its authority.
    fn default() -> (r: Contract)
        ensures
            r@ == ContractView::initial("harry.near"@),
            r@.inv(),
    {
        Contract::new("harry.near".to_owned())
    }
}

} // verus!
