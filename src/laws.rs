//! Properties of the registry that relate several operations.
use vstd::prelude::*;

use crate::model::{BallotView, ConflictError, ContractView, Status, has_voted, upvotes, voters_distinct};

verus! {

/// The registry after `votes` are cast in order on the conflict `id`, or the first error.
pub open spec fn cast_all(v: ContractView, id: u128, votes: Seq<BallotView>) -> Result<ContractView, ConflictError>
    decreases votes.len(),
{
    if votes.len() == 0 {
        Ok(v)
    } else {
        match cast_all(v, id, votes.drop_last()) {
            Ok(w) => w.vote_spec(votes.last().0, id, votes.last().1),
            Err(e) => Err(e),
        }
    }
}

/// A fresh registry holds no conflict, and its ballots are empty for every id.
pub proof fn initial_registry_is_empty(authority: Seq<char>, id: u128)
    ensures
        ContractView::initial(authority).inv(),
        ContractView::initial(authority).conflicts.len() == 0,
        ContractView::initial(authority).votes_of(id) == Seq::<BallotView>::empty(),
{
}

/// Creation by the authority adds exactly one conflict under the next id; creation
/// by anyone else fails with `Unauthorized`.
pub proof fn creation_assigns_next_id(v: ContractView, caller: Seq<char>, proposal_id: u128)
    requires
        v.inv(),
    ensures
        caller == v.authority ==> {
            &&& v.create_spec(caller, proposal_id) is Ok
            &&& v.create_spec(caller, proposal_id)->Ok_0.0.conflicts.len() == v.conflicts.len() + 1
            &&& v.create_spec(caller, proposal_id)->Ok_0.1 == v.conflicts.len() + 1
            &&& v.create_spec(caller, proposal_id)->Ok_0.0.votes_of((v.conflicts.len() + 1) as u128)
                == Seq::<BallotView>::empty()
        },
        caller != v.authority ==> v.create_spec(caller, proposal_id) == Err::<(ContractView, u128), ConflictError>(
            ConflictError::Unauthorized,
        ),
{
}

/// Distinct voters, each voting once on an open conflict, all succeed, and the
/// conflict's ballots are then those cast, in the order cast, after the earlier ones.
pub proof fn votes_are_kept_in_order(v: ContractView, id: u128, votes: Seq<BallotView>)
    requires
        v.has_conflict(id),
        v.conflict(id).status == Status::Open,
        voters_distinct(v.votes_of(id) + votes),
    ensures
        cast_all(v, id, votes) is Ok,
        cast_all(v, id, votes)->Ok_0.has_conflict(id),
        cast_all(v, id, votes)->Ok_0.conflict(id).status == Status::Open,
        cast_all(v, id, votes)->Ok_0.votes_of(id) == v.votes_of(id) + votes,
    decreases votes.len(),
{
    if votes.len() > 0 {
        let all = v.votes_of(id) + votes;
        let front = votes.drop_last();
        assert(v.votes_of(id) + front =~= all.drop_last());
        votes_are_kept_in_order(v, id, front);
        let w = cast_all(v, id, front)->Ok_0;
        let voter = votes.last().0;
        assert(all[all.len() - 1].0 == voter);
        assert(!has_voted(w.conflict(id).ballots, voter)) by {
            assert forall|j: int| 0 <= j < w.conflict(id).ballots.len() implies w.conflict(id).ballots[j].0 != voter by {
                assert(w.conflict(id).ballots[j] == all[j]);
            }
        }
        assert(w.conflict(id).ballots.push(votes.last()) =~= v.votes_of(id) + votes);
    }
}

/// A second ballot by the same identity on the same conflict, whatever its choice,
/// fails with `DuplicateVote`.
pub proof fn second_vote_is_rejected(v: ContractView, voter: Seq<char>, id: u128, first: bool, second: bool)
    requires
        v.vote_spec(voter, id, first) is Ok,
    ensures
        v.vote_spec(voter, id, first)->Ok_0.vote_spec(voter, id, second) == Err::<ContractView, ConflictError>(
            ConflictError::DuplicateVote,
        ),
{
    let w = v.vote_spec(voter, id, first)->Ok_0;
    let n = v.conflict(id).ballots.len();
    assert(w.conflict(id).ballots[n as int].0 == voter);
}

/// A ballot on an id that was never created fails with `NotFound`; one on a resolved
/// conflict fails with `AlreadyResolved`.
pub proof fn votes_need_an_open_conflict(v: ContractView, voter: Seq<char>, id: u128, choice: bool)
    ensures
        !v.has_conflict(id) ==> v.vote_spec(voter, id, choice) == Err::<ContractView, ConflictError>(
            ConflictError::NotFound,
        ),
        v.fate(id) is Some ==> v.vote_spec(voter, id, choice) == Err::<ContractView, ConflictError>(
            ConflictError::AlreadyResolved,
        ),
{
}

/// After a conflict is closed or nullified, its fate is set and every later ballot,
/// close or null on it fails with `AlreadyResolved`.
pub proof fn resolution_is_final(v: ContractView, caller: Seq<char>, id: u128, voter: Seq<char>, choice: bool, by_close: bool)
    requires
        by_close ==> v.close_spec(caller, id) is Ok,
        !by_close ==> v.null_spec(caller, id) is Ok,
    ensures
        ({
            let w = if by_close { v.close_spec(caller, id)->Ok_0.0 } else { v.null_spec(caller, id)->Ok_0 };
            &&& w.fate(id) is Some
            &&& w.vote_spec(voter, id, choice) == Err::<ContractView, ConflictError>(ConflictError::AlreadyResolved)
            &&& w.close_spec(caller, id) == Err::<(ContractView, bool), ConflictError>(ConflictError::AlreadyResolved)
            &&& w.null_spec(caller, id) == Err::<ContractView, ConflictError>(ConflictError::AlreadyResolved)
        }),
{
}

/// Closing a conflict without a supporting ballot fails with `NoSupportingVotes`.
pub proof fn close_needs_support(v: ContractView, caller: Seq<char>, id: u128)
    requires
        v.resolve_check(caller, id) is None,
        upvotes(v.conflict(id).ballots) == 0,
    ensures
        v.close_spec(caller, id) == Err::<(ContractView, bool), ConflictError>(ConflictError::NoSupportingVotes),
{
}

proof fn lemma_support_counts(ballots: Seq<BallotView>, j: int)
    requires
        0 <= j < ballots.len(),
        ballots[j].1,
    ensures
        upvotes(ballots) > 0,
    decreases ballots.len(),
{
    if j < ballots.len() - 1 {
        lemma_support_counts(ballots.drop_last(), j);
    }
}

/// Nullifying a conflict that holds a supporting ballot fails with
/// `UnexpectedSupportingVotes`.
pub proof fn null_refuses_support(v: ContractView, caller: Seq<char>, id: u128, j: int)
    requires
        v.resolve_check(caller, id) is None,
        0 <= j < v.conflict(id).ballots.len(),
        v.conflict(id).ballots[j].1,
    ensures
        v.null_spec(caller, id) == Err::<ContractView, ConflictError>(ConflictError::UnexpectedSupportingVotes),
{
    lemma_support_counts(v.conflict(id).ballots, j);
}

/// A conflict just created by the authority can be nullified, and a second attempt
/// fails with `AlreadyResolved`.
pub proof fn fresh_conflict_can_be_nullified(v: ContractView, caller: Seq<char>, proposal_id: u128)
    requires
        v.inv(),
        v.create_spec(caller, proposal_id) is Ok,
    ensures
        ({
            let (w, id) = v.create_spec(caller, proposal_id)->Ok_0;
            &&& w.null_spec(caller, id) is Ok
            &&& w.null_spec(caller, id)->Ok_0.null_spec(caller, id) == Err::<ContractView, ConflictError>(
                ConflictError::AlreadyResolved,
            )
        }),
{
    let (w, id) = v.create_spec(caller, proposal_id)->Ok_0;
    assert(upvotes(w.conflict(id).ballots) == 0);
}

/// Resolving two different conflicts gives the same registry, counters included,
/// in either order.
pub proof fn resolutions_commute(v: ContractView, x: u128, sx: Status, y: u128, sy: Status)
    requires
        v.has_conflict(x),
        v.has_conflict(y),
        x != y,
    ensures
        v.resolved(x, sx).resolved(y, sy) == v.resolved(y, sy).resolved(x, sx),
{
    assert(v.resolved(x, sx).resolved(y, sy).conflicts =~= v.resolved(y, sy).resolved(x, sx).conflicts);
}

} // verus!
