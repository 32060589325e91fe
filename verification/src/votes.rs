//! Ballots as the voting client sends them, and the vote records they become.
use vstd::prelude::*;

verus! {

/// The verdict on one submission.
#[derive(Clone, Copy, Debug, PartialEq, Eq, Structural)]
pub enum Rating {
    Up,
    Neutral,
    Down,
}

/// What a voter did with one submission: whether its abstract was expanded,
/// and the verdict.
#[derive(Clone, Copy, Debug, PartialEq, Eq, Structural)]
pub struct SingleVote {
    pub expanded: bool,
    pub vote: Rating,
}

/// A voter's full ballot: the client, a sequence number that grows with every
/// send, and the vote per submission code.
pub struct SubmitVotesPayload {
    clientid: String,
    sequence_number: u32,
    votes: Vec<(String, SingleVote)>,
}

/// The stored form of a ballot: the codes that were shown, expanded, up-voted
/// and down-voted.
pub struct Votes {
    pub shown: Vec<String>,
    pub expanded: Vec<String>,
    pub up: Vec<String>,
    pub down: Vec<String>,
}

/// A ballot to store for one event and client.
pub struct UpdateVoteRequest {
    pub sequence: u32,
    pub votes: Votes,
    pub event: String,
    pub client: String,
}

/// Which client's ballot to delete, per event slug.
pub struct DeleteVoteRequest {
    pub client_ids: Vec<(String, String)>,
}

/// The codes of the votes for which `keep` holds, in ballot order.
pub open spec fn codes_where(votes: Seq<(String, SingleVote)>, keep: spec_fn(SingleVote) -> bool) -> Seq<Seq<char>>
    decreases votes.len(),
{
    if votes.len() == 0 {
        Seq::empty()
    } else {
        let rest = codes_where(votes.drop_last(), keep);
        if keep(votes.last().1) { rest.push(votes.last().0@) } else { rest }
    }
}

pub open spec fn any_vote() -> spec_fn(SingleVote) -> bool {
    |v: SingleVote| true
}

pub open spec fn is_expanded() -> spec_fn(SingleVote) -> bool {
    |v: SingleVote| v.expanded
}

pub open spec fn is_up() -> spec_fn(SingleVote) -> bool {
    |v: SingleVote| v.vote == Rating::Up
}

pub open spec fn is_down() -> spec_fn(SingleVote) -> bool {
    |v: SingleVote| v.vote == Rating::Down
}

/// Every code a ballot expands, up-votes or down-votes is also among the codes
/// it shows.
pub proof fn lemma_ballot_parts_shown(votes: Seq<(String, SingleVote)>, keep: spec_fn(SingleVote) -> bool, c: Seq<char>)
    requires
        codes_where(votes, keep).contains(c),
    ensures
        codes_where(votes, any_vote()).contains(c),
    decreases votes.len(),
{
    let rest = codes_where(votes.drop_last(), keep);
    let all_rest = codes_where(votes.drop_last(), any_vote());
    if rest.contains(c) {
        lemma_ballot_parts_shown(votes.drop_last(), keep, c);
        let k = choose|k: int| 0 <= k < all_rest.len() && all_rest[k] == c;
        assert(codes_where(votes, any_vote())[k] == c);
    } else {
        assert(keep(votes.last().1) && votes.last().0@ == c) by {
            if !keep(votes.last().1) {
                assert(codes_where(votes, keep) == rest);
            } else {
                let k = choose|k: int| 0 <= k < codes_where(votes, keep).len() && codes_where(votes, keep)[k] == c;
                if k < rest.len() {
                    assert(rest[k] == c);
                }
            }
        }
        assert(codes_where(votes, any_vote())[all_rest.len() as int] == c);
    }
}

/// No code occurs twice among the votes of a ballot.
pub open spec fn codes_distinct(votes: Seq<(String, SingleVote)>) -> bool {
    forall|i: int, j: int| 0 <= i < j < votes.len() ==> (#[trigger] votes[i]).0@ != (#[trigger] votes[j]).0@
}

/// A ballot with distinct codes never both up-votes and down-votes a code.
pub proof fn lemma_up_down_disjoint(votes: Seq<(String, SingleVote)>, c: Seq<char>)
    requires
        codes_distinct(votes),
    ensures
        !(codes_where(votes, is_up()).contains(c) && codes_where(votes, is_down()).contains(c)),
    decreases votes.len(),
{
    if votes.len() > 0 {
        let init = votes.drop_last();
        assert forall|i: int, j: int| 0 <= i < j < init.len() implies (#[trigger] init[i]).0@ != (#[trigger] init[j]).0@ by {
            assert(init[i] == votes[i] && init[j] == votes[j]);
        }
        lemma_up_down_disjoint(init, c);
        let last = votes.last();
        if last.0@ == c {
            assert forall|k: int| 0 <= k < init.len() implies (#[trigger] init[k]).0@ != c by {
                assert(init[k] == votes[k]);
            }
            lemma_codes_where_from(init, is_up(), c);
            lemma_codes_where_from(init, is_down(), c);
        }
    }
}

/// A code that no entry has is not among the codes picked from them.
proof fn lemma_codes_where_from(votes: Seq<(String, SingleVote)>, keep: spec_fn(SingleVote) -> bool, c: Seq<char>)
    requires
        forall|k: int| 0 <= k < votes.len() ==> (#[trigger] votes[k]).0@ != c,
    ensures
        !codes_where(votes, keep).contains(c),
    decreases votes.len(),
{
    if votes.len() > 0 {
        let init = votes.drop_last();
        assert forall|k: int| 0 <= k < init.len() implies (#[trigger] init[k]).0@ != c by {
            assert(init[k] == votes[k]);
        }
        lemma_codes_where_from(init, keep, c);
        if codes_where(votes, keep).contains(c) {
            let k = choose|k: int| 0 <= k < codes_where(votes, keep).len() && codes_where(votes, keep)[k] == c;
            let rest = codes_where(init, keep);
            if k < rest.len() {
                assert(rest[k] == c);
            }
        }
    }
}

impl SubmitVotesPayload {
    /// A ballot holds one vote per submission code.
    #[verifier::type_invariant]
    closed spec fn well_formed(self) -> bool {
        codes_distinct(self.votes@)
    }

    pub fn new(clientid: String, sequence_number: u32, votes: Vec<(String, SingleVote)>) -> (r: Self)
        requires
            codes_distinct(votes@),
        ensures
            r.spec_clientid() == clientid@,
            r.spec_sequence_number() == sequence_number,
            r.spec_votes() == votes@,
    {
        SubmitVotesPayload { clientid, sequence_number, votes }
    }

    pub closed spec fn spec_clientid(&self) -> Seq<char> {
        self.clientid@
    }

    pub closed spec fn spec_sequence_number(&self) -> u32 {
        self.sequence_number
    }

    pub closed spec fn spec_votes(&self) -> Seq<(String, SingleVote)> {
        self.votes@
    }

    pub fn clientid(&self) -> (r: &String)
        ensures
            r@ == self.spec_clientid(),
    {
        &self.clientid
    }

    pub fn sequence_number(&self) -> (r: u32)
        ensures
            r == self.spec_sequence_number(),
    {
        self.sequence_number
    }

    pub fn votes(&self) -> (r: &Vec<(String, SingleVote)>)
        ensures
            r@ == self.spec_votes(),
            codes_distinct(r@),
    {
        proof {
            use_type_invariant(self);
        }
        &self.votes
    }
}

impl Votes {
    /// Every code of the ballot is shown; the expanded, up-voted and
    /// down-voted ones also go to their lists; order is ballot order.
    pub fn from_payload(value: SubmitVotesPayload) -> (r: Votes)
        ensures
            r.shown.deep_view() == codes_where(value.spec_votes(), any_vote()),
            r.expanded.deep_view() == codes_where(value.spec_votes(), is_expanded()),
            r.up.deep_view() == codes_where(value.spec_votes(), is_up()),
            r.down.deep_view() == codes_where(value.spec_votes(), is_down()),
            forall|c: Seq<char>| !(#[trigger] r.up.deep_view().contains(c) && r.down.deep_view().contains(c)),
    {
        proof {
            use_type_invariant(&value);
            assert forall|c: Seq<char>| !(#[trigger] codes_where(value.votes@, is_up()).contains(c)
                && codes_where(value.votes@, is_down()).contains(c)) by {
                lemma_up_down_disjoint(value.votes@, c);
            }
        }
        let votes = &value.votes;
        let ghost vs = votes@;
        let mut vecs = Votes { shown: Vec::new(), expanded: Vec::new(), up: Vec::new(), down: Vec::new() };
        for i in 0..votes.len()
            invariant
                vs == votes@,
                vecs.shown.deep_view() == codes_where(vs.take(i as int), any_vote()),
                vecs.expanded.deep_view() == codes_where(vs.take(i as int), is_expanded()),
                vecs.up.deep_view() == codes_where(vs.take(i as int), is_up()),
                vecs.down.deep_view() == codes_where(vs.take(i as int), is_down()),
        {
            assert(vs.take(i + 1).drop_last() == vs.take(i as int));
            assert(vs.take(i + 1).last() == vs[i as int]);
            let code = &votes[i].0;
            let value = votes[i].1;
            let ghost s0 = vecs.shown.deep_view();
            let ghost e0 = vecs.expanded.deep_view();
            let ghost u0 = vecs.up.deep_view();
            let ghost d0 = vecs.down.deep_view();
            vecs.shown.push(code.clone());
            assert(vecs.shown.deep_view() =~= s0.push(code@));
            if value.expanded {
                vecs.expanded.push(code.clone());
                assert(vecs.expanded.deep_view() =~= e0.push(code@));
            }
            match value.vote {
                Rating::Up => {
                    vecs.up.push(code.clone());
                    assert(vecs.up.deep_view() =~= u0.push(code@));
                },
                Rating::Neutral => {},
                Rating::Down => {
                    vecs.down.push(code.clone());
                    assert(vecs.down.deep_view() =~= d0.push(code@));
                },
            };
        }
        assert(vs.take(votes.len() as int) == vs);
        vecs
    }
}

impl UpdateVoteRequest {
    /// The request that stores `payload` for the event `slug`.
    pub fn from_submission(slug: String, payload: SubmitVotesPayload) -> (r: UpdateVoteRequest)
        ensures
            r.sequence == payload.spec_sequence_number(),
            r.event@ == slug@,
            r.client@ == payload.spec_clientid(),
            r.votes.shown.deep_view() == codes_where(payload.spec_votes(), any_vote()),
            r.votes.expanded.deep_view() == codes_where(payload.spec_votes(), is_expanded()),
            r.votes.up.deep_view() == codes_where(payload.spec_votes(), is_up()),
            r.votes.down.deep_view() == codes_where(payload.spec_votes(), is_down()),
            forall|c: Seq<char>| !(#[trigger] r.votes.up.deep_view().contains(c) && r.votes.down.deep_view().contains(c)),
    {
        let seq = payload.sequence_number;
        let client = payload.clientid.clone();
        let votes = Votes::from_payload(payload);
        UpdateVoteRequest { sequence: seq, votes, event: slug, client }
    }
}

impl DeleteVoteRequest {
    /// The request that deletes the ballot of `client_id` for the event `slug`.
    pub fn for_event(slug: String, client_id: String) -> (r: DeleteVoteRequest)
        ensures
            r.client_ids@.len() == 1,
            r.client_ids@[0].0@ == slug@,
            r.client_ids@[0].1@ == client_id@,
    {
        let mut client_ids = Vec::new();
        client_ids.push((slug, client_id));
        DeleteVoteRequest { client_ids }
    }

    /// A request without pairs deletes nothing.
    pub fn is_empty(&self) -> (r: bool)
        ensures
            r == (self.client_ids@.len() == 0),
    {
        self.client_ids.len() == 0
    }
}

} // verus!
