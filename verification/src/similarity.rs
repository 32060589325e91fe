//! The pairs of submissions whose similarity is measured, and the index of
//! their codes that the metrics count against.
use vstd::prelude::*;
use crate::bits::max_bits;
use crate::vote_metric::{
    CodeIndexMapper, JaccardVoteMetric, LiftVoteMetric, PairsIterator, VoteColumn, VoteMetric,
    VoteSelector, index_fn, jaccard_bounded, lemma_jaccard_step_bounded, lemma_lift_step_bounded,
    lift_bounded, marked, pairs_below, slots_below,
};

verus! {

/// The first position of `c` in `codes` (meaningful when `codes` holds `c`).
pub open spec fn first_pos(codes: Seq<Seq<char>>, c: Seq<char>) -> int {
    choose|i: int| 0 <= i < codes.len() && codes[i] == c && forall|j: int| 0 <= j < i ==> codes[j] != c
}

/// The first position of `c` in `codes`, if it occurs.
pub open spec fn first_index(codes: Seq<Seq<char>>, c: Seq<char>) -> Option<usize> {
    if codes.contains(c) {
        Some(first_pos(codes, c) as usize)
    } else {
        None
    }
}

/// `first_pos` is the position of the first occurrence, and that is unique.
pub proof fn lemma_first_pos(codes: Seq<Seq<char>>, c: Seq<char>, k: int)
    requires
        0 <= k < codes.len(),
        codes[k] == c,
        forall|j: int| 0 <= j < k ==> codes[j] != c,
    ensures
        first_pos(codes, c) == k,
{
    let w = first_pos(codes, c);
    assert(0 <= w < codes.len() && codes[w] == c && forall|j: int| 0 <= j < w ==> codes[j] != c);
    if w < k {
        assert(codes[w] != c);
    } else if w > k {
        assert(codes[k] != c);
    }
}

/// When `codes` holds `c`, `first_pos` is an occurrence with none before it.
pub proof fn lemma_first_pos_props(codes: Seq<Seq<char>>, c: Seq<char>)
    requires
        codes.contains(c),
    ensures
        0 <= first_pos(codes, c) < codes.len(),
        codes[first_pos(codes, c)] == c,
        forall|j: int| 0 <= j < first_pos(codes, c) ==> codes[j] != c,
{
    let w = choose|i: int| 0 <= i < codes.len() && codes[i] == c;
    lemma_least_occurrence(codes, c, w);
}

proof fn lemma_least_occurrence(codes: Seq<Seq<char>>, c: Seq<char>, w: int)
    requires
        0 <= w < codes.len(),
        codes[w] == c,
    ensures
        0 <= first_pos(codes, c) < codes.len(),
        codes[first_pos(codes, c)] == c,
        forall|j: int| 0 <= j < first_pos(codes, c) ==> codes[j] != c,
    decreases w,
{
    if forall|j: int| 0 <= j < w ==> codes[j] != c {
        lemma_first_pos(codes, c, w);
    } else {
        let v = choose|v: int| 0 <= v < w && codes[v] == c;
        lemma_least_occurrence(codes, c, v);
    }
}

/// The distinct submission codes of a similarity computation; a code's slot is
/// its position.
pub struct CodeIndex {
    codes: Vec<String>,
}

impl CodeIndex {
    pub closed spec fn spec_codes(&self) -> Seq<Seq<char>> {
        self.codes.deep_view()
    }

    /// The codes, slot by slot.
    pub fn codes(&self) -> (r: &Vec<String>)
        ensures
            r.deep_view() == self.spec_codes(),
    {
        &self.codes
    }
}

impl CodeIndexMapper for CodeIndex {
    open spec fn spec_index(&self, code: Seq<char>) -> Option<usize> {
        first_index(self.spec_codes(), code)
    }

    fn vote_to_index(&self, code: &String) -> (r: Option<usize>) {
        let ghost codes = self.spec_codes();
        let n = self.codes.len();
        for i in 0..n
            invariant
                n == codes.len(),
                codes == self.codes.deep_view(),
                forall|j: int| 0 <= j < i ==> codes[j] != code@,
        {
            if self.codes[i] == *code {
                assert(codes[i as int] == code@);
                proof {
                    lemma_first_pos(codes, code@, i as int);
                }
                return Some(i);
            }
        }
        assert(!codes.contains(code@));
        None
    }
}

/// With distinct codes, a code's slot is the one position that holds it.
pub proof fn lemma_first_index_distinct(codes: Seq<Seq<char>>, j: int)
    requires
        codes.no_duplicates(),
        0 <= j < codes.len(),
        codes.len() <= usize::MAX,
    ensures
        first_index(codes, codes[j]) == Some(j as usize),
{
    assert(codes.contains(codes[j]));
    lemma_first_pos(codes, codes[j], j);
}

/// A ballot column marks the slot of a code exactly when the column holds that
/// code: the bit-vectors of a similarity computation say which codes a ballot
/// holds.
pub proof fn lemma_marked_iff_contains(codes: Seq<Seq<char>>, votes: Seq<Seq<char>>, j: int)
    requires
        codes.no_duplicates(),
        0 <= j < codes.len(),
        codes.len() <= usize::MAX,
    ensures
        marked(|c: Seq<char>| first_index(codes, c), votes, j) <==> votes.contains(codes[j]),
{
    let idx = |c: Seq<char>| first_index(codes, c);
    lemma_first_index_distinct(codes, j);
    if votes.contains(codes[j]) {
        let k = choose|k: int| 0 <= k < votes.len() && votes[k] == codes[j];
        assert(idx(votes[k]) == Some(j as usize));
    }
    if marked(idx, votes, j) {
        let k = choose|k: int| 0 <= k < votes.len() && #[trigger] idx(votes[k]) == Some(j as usize);
        assert(codes.contains(votes[k]));
        lemma_first_pos_props(codes, votes[k]);
        assert(first_index(codes, votes[k]) == Some(j as usize));
        assert(first_pos(codes, votes[k]) == j);
        assert(votes[k] == codes[j]);
    }
}

/// Adding a code keeps the codes already there and holds the new one.
pub proof fn lemma_add_code(codes: Seq<Seq<char>>, c: Seq<char>)
    ensures
        add_code(codes, c).contains(c),
        forall|x: Seq<char>| codes.contains(x) ==> #[trigger] add_code(codes, c).contains(x),
        codes.no_duplicates() ==> add_code(codes, c).no_duplicates(),
        add_code(codes, c).len() <= codes.len() + 1,
{
    let d = add_code(codes, c);
    if !codes.contains(c) {
        assert(d[codes.len() as int] == c);
        assert forall|x: Seq<char>| codes.contains(x) implies #[trigger] d.contains(x) by {
            let w = choose|w: int| 0 <= w < codes.len() && codes[w] == x;
            assert(d[w] == x);
        }
    }
}

/// `codes` with `c` appended unless it is already there.
pub open spec fn add_code(codes: Seq<Seq<char>>, c: Seq<char>) -> Seq<Seq<char>> {
    if codes.contains(c) { codes } else { codes.push(c) }
}

/// The distinct codes of `pairs`, in the order of their first appearance
/// (first then second code of each pair).
pub open spec fn codes_of_pairs(pairs: Seq<(Seq<char>, Seq<char>)>) -> Seq<Seq<char>>
    decreases pairs.len(),
{
    if pairs.len() == 0 {
        Seq::empty()
    } else {
        add_code(add_code(codes_of_pairs(pairs.drop_last()), pairs.last().0), pairs.last().1)
    }
}

/// One row of the overlap query: two submissions scheduled at the same time.
pub struct SubmissionConflictQueryItem {
    pub fullcode_a: String,
    pub fullcode_b: String,
}

/// The similarity computation over a list of pairs of submissions, with the
/// counters of metric `T`.
pub struct SimilarityStruct<T: VoteMetric> {
    fullcodes: Vec<(String, String)>,
    pairs: Vec<(usize, usize)>,
    all_conflict_fullcodes: CodeIndex,
    metrics: T,
}

/// Folds the ballots, oldest first, into the counters.
pub open spec fn fold_votes<T: VoteMetric>(
    c: T::Counters,
    votes: Seq<Seq<Seq<Seq<char>>>>,
    idx: spec_fn(Seq<char>) -> Option<usize>,
    pairs: Seq<(usize, usize)>,
) -> T::Counters
    decreases votes.len(),
{
    if votes.len() == 0 {
        c
    } else {
        T::step(fold_votes::<T>(c, votes.drop_last(), idx, pairs), votes.last(), idx, pairs)
    }
}

impl<T: VoteMetric> SimilarityStruct<T> {
    /// The pairs, as code pairs, in entry order.
    pub closed spec fn spec_fullcodes(&self) -> Seq<(Seq<char>, Seq<char>)> {
        self.fullcodes.deep_view()
    }

    /// The distinct codes; a code's slot is its position.
    pub closed spec fn spec_codes(&self) -> Seq<Seq<char>> {
        self.all_conflict_fullcodes.spec_codes()
    }

    /// The pairs, as slot pairs, in entry order.
    pub closed spec fn spec_pairs(&self) -> Seq<(usize, usize)> {
        self.pairs@
    }

    pub closed spec fn counters(&self) -> T::Counters {
        self.metrics.counters()
    }

    /// The slot of a code.
    pub open spec fn spec_slot(&self) -> spec_fn(Seq<char>) -> Option<usize> {
        |c: Seq<char>| first_index(self.spec_codes(), c)
    }

    pub closed spec fn wf(&self) -> bool {
        let codes = self.spec_codes();
        &&& codes.no_duplicates()
        &&& codes.len() <= max_bits()
        &&& self.pairs@.len() == self.fullcodes@.len()
        &&& forall|i: int| 0 <= i < self.pairs@.len() ==> {
            &&& (#[trigger] self.pairs@[i]).0 < codes.len()
            &&& self.pairs@[i].1 < codes.len()
            &&& codes[self.pairs@[i].0 as int] == self.fullcodes@[i].0@
            &&& codes[self.pairs@[i].1 as int] == self.fullcodes@[i].1@
        }
        &&& self.metrics.wf()
        &&& self.metrics.spec_maxindex() == codes.len()
        &&& self.metrics.spec_npairs() == self.pairs@.len()
    }

    /// What a well-formed computation guarantees of its index and pairs.
    pub proof fn lemma_wf(&self)
        requires
            self.wf(),
        ensures
            self.spec_codes().no_duplicates(),
            self.spec_pairs().len() == self.spec_fullcodes().len(),
            forall|i: int| 0 <= i < self.spec_pairs().len() ==> {
                &&& (#[trigger] self.spec_pairs()[i]).0 < self.spec_codes().len()
                &&& self.spec_pairs()[i].1 < self.spec_codes().len()
                &&& self.spec_codes()[self.spec_pairs()[i].0 as int] == self.spec_fullcodes()[i].0
                &&& self.spec_codes()[self.spec_pairs()[i].1 as int] == self.spec_fullcodes()[i].1
            },
    {
        assert forall|i: int| 0 <= i < self.spec_pairs().len() implies {
            &&& (#[trigger] self.spec_pairs()[i]).0 < self.spec_codes().len()
            &&& self.spec_pairs()[i].1 < self.spec_codes().len()
            &&& self.spec_codes()[self.spec_pairs()[i].0 as int] == self.spec_fullcodes()[i].0
            &&& self.spec_codes()[self.spec_pairs()[i].1 as int] == self.spec_fullcodes()[i].1
        } by {
            assert(self.pairs@[i] == self.spec_pairs()[i]);
            assert(self.spec_fullcodes()[i] == (self.fullcodes@[i].0@, self.fullcodes@[i].1@));
        }
    }

    fn internal_constructor(input: Vec<(String, String)>) -> (r: Self)
        requires
            2 * input@.len() <= max_bits(),
        ensures
            r.wf(),
            r.spec_fullcodes() == input.deep_view(),
            r.spec_codes() == codes_of_pairs(input.deep_view()),
            r.counters() == T::initial(input@.len()),
    {
        let ghost inp = input.deep_view();
        let mut codes: Vec<String> = Vec::new();
        let mut fullcodes: Vec<(String, String)> = Vec::new();
        for k in 0..input.len()
            invariant
                inp == input.deep_view(),
                codes.deep_view() == codes_of_pairs(inp.take(k as int)),
                codes.deep_view().no_duplicates(),
                codes@.len() <= 2 * k,
                fullcodes.deep_view() == inp.take(k as int),
                forall|i: int| 0 <= i < k ==> codes.deep_view().contains((#[trigger] inp[i]).0) && codes.deep_view().contains(inp[i].1),
        {
            let ghost before = codes.deep_view();
            assert(inp.take(k + 1).drop_last() == inp.take(k as int));
            assert(inp.take(k + 1).last() == inp[k as int]);
            assert(inp[k as int] == (input@[k as int].0@, input@[k as int].1@));
            let a = input[k].0.clone();
            let b = input[k].1.clone();
            proof {
                lemma_add_code(before, a@);
                lemma_add_code(add_code(before, a@), b@);
            }
            if !crate::vote_metric::contains_code(&codes, &a) {
                codes.push(a.clone());
                assert(codes.deep_view() =~= before.push(a@));
            }
            let ghost mid = codes.deep_view();
            assert(mid == add_code(before, a@));
            if !crate::vote_metric::contains_code(&codes, &b) {
                codes.push(b.clone());
                assert(codes.deep_view() =~= mid.push(b@));
            }
            assert(codes.deep_view() == add_code(mid, b@));
            let ghost fbefore = fullcodes.deep_view();
            let ghost av = a@;
            let ghost bv = b@;
            assert(codes.deep_view().contains(av) && codes.deep_view().contains(bv));
            fullcodes.push((a, b));
            assert(fullcodes.deep_view() =~= fbefore.push(inp[k as int]));
            assert(fullcodes.deep_view()[k as int] == (av, bv));
            assert forall|i: int| 0 <= i < k + 1 implies codes.deep_view().contains((#[trigger] inp[i]).0) && codes.deep_view().contains(inp[i].1) by {
                if i < k {
                    assert(before.contains(inp[i].0) && before.contains(inp[i].1));
                    assert(mid.contains(inp[i].0) && mid.contains(inp[i].1));
                }
            }
        }
        assert(inp.take(input.len() as int) == inp);
        assert(fullcodes.deep_view() == inp);
        let index = CodeIndex { codes };
        let ghost cs = index.spec_codes();
        assert(cs.len() == index.codes@.len());
        assert(cs.len() == index.codes.len());
        let mut pairs: Vec<(usize, usize)> = Vec::new();
        for i in 0..fullcodes.len()
            invariant
                cs == index.spec_codes(),
                cs.len() == index.codes@.len(),
                cs.len() <= usize::MAX,
                cs.no_duplicates(),
                pairs@.len() == i,
                fullcodes.deep_view() == inp,
                forall|m: int| 0 <= m < inp.len() ==> cs.contains((#[trigger] inp[m]).0) && cs.contains(inp[m].1),
                forall|m: int| 0 <= m < i ==> {
                    &&& (#[trigger] pairs@[m]).0 < cs.len()
                    &&& pairs@[m].1 < cs.len()
                    &&& cs[pairs@[m].0 as int] == fullcodes@[m].0@
                    &&& cs[pairs@[m].1 as int] == fullcodes@[m].1@
                },
        {
            assert(fullcodes.deep_view()[i as int] == (fullcodes@[i as int].0@, fullcodes@[i as int].1@));
            assert(inp[i as int] == (fullcodes@[i as int].0@, fullcodes@[i as int].1@));
            assert(cs.contains(inp[i as int].0));
            assert(cs.contains(inp[i as int].1));
            proof {
                lemma_first_pos_props(cs, fullcodes@[i as int].0@);
                lemma_first_pos_props(cs, fullcodes@[i as int].1@);
            }
            let ia = index.vote_to_index(&fullcodes[i].0);
            let ib = index.vote_to_index(&fullcodes[i].1);
            let x = ia.unwrap();
            let y = ib.unwrap();
            assert(x as int == first_pos(cs, fullcodes@[i as int].0@));
            assert(y as int == first_pos(cs, fullcodes@[i as int].1@));
            let ghost pbefore = pairs@;
            pairs.push((x, y));
            assert(pairs@[i as int] == (x, y));
            assert forall|m: int| 0 <= m < i + 1 implies {
                &&& (#[trigger] pairs@[m]).0 < cs.len()
                &&& pairs@[m].1 < cs.len()
                &&& cs[pairs@[m].0 as int] == fullcodes@[m].0@
                &&& cs[pairs@[m].1 as int] == fullcodes@[m].1@
            } by {
                if m < i {
                    assert(pairs@[m] == pbefore[m]);
                }
            }
        }
        let metrics = T::with_size(index.codes.len(), pairs.len());
        Self { fullcodes, pairs, all_conflict_fullcodes: index, metrics }
    }

    /// The pairs `(submission_id, o)` for every `o` of `other_submissions`.
    pub fn from_single_submission(submission_id: String, other_submissions: Vec<String>) -> (r: Self)
        requires
            2 * other_submissions@.len() <= max_bits(),
        ensures
            r.wf(),
            r.spec_fullcodes() == Seq::new(other_submissions@.len(), |i: int| (submission_id@, other_submissions@[i]@)),
            r.spec_codes() == codes_of_pairs(r.spec_fullcodes()),
            r.counters() == T::initial(other_submissions@.len()),
    {
        let mut input: Vec<(String, String)> = Vec::new();
        for i in 0..other_submissions.len()
            invariant
                input@.len() == i,
                forall|j: int| 0 <= j < i ==> #[trigger] input.deep_view()[j] == (submission_id@, other_submissions@[j]@),
        {
            let ghost before = input.deep_view();
            input.push((submission_id.clone(), other_submissions[i].clone()));
            assert(input.deep_view() =~= before.push((submission_id@, other_submissions@[i as int]@)));
        }
        let r = Self::internal_constructor(input);
        assert(r.spec_fullcodes() =~= Seq::new(other_submissions@.len(), |i: int| (submission_id@, other_submissions@[i]@)));
        r
    }

    /// The pairs of the overlap query, in query order.
    pub fn from_query_results(submission_conflicts: Vec<SubmissionConflictQueryItem>) -> (r: Self)
        requires
            2 * submission_conflicts@.len() <= max_bits(),
        ensures
            r.wf(),
            r.spec_fullcodes() == Seq::new(submission_conflicts@.len(), |i: int| (submission_conflicts@[i].fullcode_a@, submission_conflicts@[i].fullcode_b@)),
            r.spec_codes() == codes_of_pairs(r.spec_fullcodes()),
            r.counters() == T::initial(submission_conflicts@.len()),
    {
        let mut input: Vec<(String, String)> = Vec::new();
        for i in 0..submission_conflicts.len()
            invariant
                input@.len() == i,
                forall|j: int| 0 <= j < i ==> #[trigger] input.deep_view()[j] == (submission_conflicts@[j].fullcode_a@, submission_conflicts@[j].fullcode_b@),
        {
            let ghost before = input.deep_view();
            input.push((submission_conflicts[i].fullcode_a.clone(), submission_conflicts[i].fullcode_b.clone()));
            assert(input.deep_view() =~= before.push((submission_conflicts@[i as int].fullcode_a@, submission_conflicts@[i as int].fullcode_b@)));
        }
        let r = Self::internal_constructor(input);
        assert(r.spec_fullcodes() =~= Seq::new(submission_conflicts@.len(), |i: int| (submission_conflicts@[i].fullcode_a@, submission_conflicts@[i].fullcode_b@)));
        r
    }

    /// The ballot columns the metric reads, in order.
    pub fn get_columns(&self) -> (r: Vec<VoteColumn>)
        ensures
            r@ == T::spec_columns(),
    {
        T::get_columns()
    }

    /// Folds the ballot rows, in order, into the counters.
    pub fn process_votes(&mut self, votes: Vec<Vec<Vec<String>>>)
        requires
            old(self).wf(),
            forall|i: int| 0 <= i < votes@.len() ==> (#[trigger] votes@[i])@.len() == T::spec_columns().len(),
            T::room(old(self).counters(), votes@.len()),
        ensures
            final(self).wf(),
            final(self).spec_fullcodes() == old(self).spec_fullcodes(),
            final(self).spec_codes() == old(self).spec_codes(),
            final(self).spec_pairs() == old(self).spec_pairs(),
            final(self).counters() == fold_votes::<T>(old(self).counters(), votes.deep_view(), old(self).spec_slot(), old(self).spec_pairs()),
    {
        let ghost vs = votes.deep_view();
        let ghost n = votes@.len();
        let ghost c0 = self.counters();
        let ghost idx = self.spec_slot();
        let ghost vv = votes@;
        assert(idx == index_fn(&self.all_conflict_fullcodes));
        for vote in iter: votes.into_iter()
            invariant
                iter.seq() == vv,
                vv.len() == n,
                vs.len() == n,
                forall|i: int| 0 <= i < n ==> #[trigger] vs[i] == vv[i].deep_view(),
                forall|i: int| 0 <= i < n ==> (#[trigger] vv[i])@.len() == T::spec_columns().len(),
                self.wf(),
                self.spec_slot() == idx,
                idx == index_fn(&self.all_conflict_fullcodes),
                self.spec_fullcodes() == old(self).spec_fullcodes(),
                self.spec_codes() == old(self).spec_codes(),
                self.spec_pairs() == old(self).spec_pairs(),
                self.counters() == fold_votes::<T>(c0, vs.take(iter.index()), idx, self.pairs@),
                T::room(self.counters(), (n - iter.index()) as nat),
        {
            let ghost k = iter.index();
            assert(vs.take(k + 1).drop_last() == vs.take(k));
            assert(vs.take(k + 1).last() == vs[k]);
            proof {
                T::lemma_room_step(self.counters(), vs[k], idx, self.pairs@, (n - k - 1) as nat);
                T::lemma_room_mono(self.counters(), (n - k) as nat, 1);
                assert forall|c: Seq<char>| (#[trigger] idx(c)) is Some implies idx(c)->0 < self.metrics.spec_maxindex() by {
                    lemma_first_pos_props(self.spec_codes(), c);
                }
                assert(slots_below(idx, self.metrics.spec_maxindex()));
                assert(pairs_below(self.pairs@, self.metrics.spec_maxindex()));
            }
            self.metrics.process_vote(vote, &self.all_conflict_fullcodes, &self.pairs);
        }
        assert(vs.take(n as int) == vs);
    }

    /// The metric's counters.
    pub fn metrics(&self) -> (r: &T)
        ensures
            r.counters() == self.counters(),
    {
        &self.metrics
    }

    /// The pairs as code pairs, in entry order.
    pub fn fullcodes(&self) -> (r: &Vec<(String, String)>)
        ensures
            r.deep_view() == self.spec_fullcodes(),
    {
        &self.fullcodes
    }
}


/// Processing ballots in two batches gives the same counters as processing
/// them all at once.
pub proof fn lemma_fold_batches<T: VoteMetric>(
    c: T::Counters,
    first: Seq<Seq<Seq<Seq<char>>>>,
    second: Seq<Seq<Seq<Seq<char>>>>,
    idx: spec_fn(Seq<char>) -> Option<usize>,
    pairs: Seq<(usize, usize)>,
)
    ensures
        fold_votes::<T>(c, first + second, idx, pairs) == fold_votes::<T>(fold_votes::<T>(c, first, idx, pairs), second, idx, pairs),
    decreases second.len(),
{
    if second.len() == 0 {
        assert(first + second == first);
    } else {
        lemma_fold_batches::<T>(c, first, second.drop_last(), idx, pairs);
        assert((first + second).drop_last() == first + second.drop_last());
        assert((first + second).last() == second.last());
    }
}

/// However many ballots the Jaccard counters count, starting from counters
/// whose every score lies between zero and one (fresh counters, all zero,
/// among them), every score still lies between zero and one.
pub proof fn lemma_jaccard_fold_bounded<S: VoteSelector>(
    c: Seq<(int, int)>,
    votes: Seq<Seq<Seq<Seq<char>>>>,
    idx: spec_fn(Seq<char>) -> Option<usize>,
    pairs: Seq<(usize, usize)>,
)
    requires
        jaccard_bounded(c),
    ensures
        jaccard_bounded(fold_votes::<JaccardVoteMetric<S>>(c, votes, idx, pairs)),
    decreases votes.len(),
{
    if votes.len() > 0 {
        lemma_jaccard_fold_bounded::<S>(c, votes.drop_last(), idx, pairs);
        lemma_jaccard_step_bounded::<S>(
            fold_votes::<JaccardVoteMetric<S>>(c, votes.drop_last(), idx, pairs),
            votes.last(),
            idx,
            pairs,
        );
    }
}

/// However many ballots the lift counters count, starting from counters in
/// which the ballots that chose both submissions are among those that chose
/// each, and those among the ballots that showed both (fresh counters, all
/// zero, among them), that still holds of every entry.
pub proof fn lemma_lift_fold_bounded<S: VoteSelector>(
    c: Seq<(int, int, int, int)>,
    votes: Seq<Seq<Seq<Seq<char>>>>,
    idx: spec_fn(Seq<char>) -> Option<usize>,
    pairs: Seq<(usize, usize)>,
)
    requires
        lift_bounded(c),
    ensures
        lift_bounded(fold_votes::<LiftVoteMetric<S>>(c, votes, idx, pairs)),
    decreases votes.len(),
{
    if votes.len() > 0 {
        lemma_lift_fold_bounded::<S>(c, votes.drop_last(), idx, pairs);
        lemma_lift_step_bounded::<S>(
            fold_votes::<LiftVoteMetric<S>>(c, votes.drop_last(), idx, pairs),
            votes.last(),
            idx,
            pairs,
        );
    }
}

/// Fresh Jaccard and lift counters satisfy the bounds above.
pub proof fn lemma_initial_bounded<S: VoteSelector>(n: nat)
    ensures
        jaccard_bounded(JaccardVoteMetric::<S>::initial(n)),
        lift_bounded(LiftVoteMetric::<S>::initial(n)),
{
}

/// The index of a list of pairs holds each code of the pairs once, and no other
/// code.
pub proof fn lemma_codes_of_pairs(p: Seq<(Seq<char>, Seq<char>)>)
    ensures
        codes_of_pairs(p).no_duplicates(),
        forall|i: int| 0 <= i < p.len() ==> codes_of_pairs(p).contains((#[trigger] p[i]).0) && codes_of_pairs(p).contains(p[i].1),
        forall|c: Seq<char>| #[trigger] codes_of_pairs(p).contains(c) ==> exists|i: int| 0 <= i < p.len() && (p[i].0 == c || p[i].1 == c),
        codes_of_pairs(p).len() <= 2 * p.len(),
    decreases p.len(),
{
    if p.len() > 0 {
        let q = p.drop_last();
        let l = p.last();
        lemma_codes_of_pairs(q);
        let c0 = codes_of_pairs(q);
        let c1 = add_code(c0, l.0);
        let c2 = add_code(c1, l.1);
        lemma_add_code(c0, l.0);
        lemma_add_code(c1, l.1);
        assert forall|i: int| 0 <= i < p.len() implies c2.contains((#[trigger] p[i]).0) && c2.contains(p[i].1) by {
            if i < q.len() {
                assert(p[i] == q[i]);
                assert(c0.contains(q[i].0) && c0.contains(q[i].1));
                assert(c1.contains(q[i].0) && c1.contains(q[i].1));
            }
        }
        assert forall|c: Seq<char>| #[trigger] c2.contains(c) implies exists|i: int| 0 <= i < p.len() && (p[i].0 == c || p[i].1 == c) by {
            if c == l.0 {
                assert(p[p.len() - 1] == l);
            } else if c == l.1 {
                assert(p[p.len() - 1] == l);
            } else {
                let w = choose|w: int| 0 <= w < c2.len() && c2[w] == c;
                if !c1.contains(l.1) {
                    if w == c1.len() {
                        assert(c2[w] == l.1);
                    }
                    assert(c1[w] == c);
                }
                assert(c1.contains(c));
                let v = choose|v: int| 0 <= v < c1.len() && c1[v] == c;
                if !c0.contains(l.0) {
                    if v == c0.len() {
                        assert(c1[v] == l.0);
                    }
                    assert(c0[v] == c);
                }
                assert(c0.contains(c));
                let i = choose|i: int| 0 <= i < q.len() && (q[i].0 == c || q[i].1 == c);
                assert(p[i] == q[i]);
            }
        }
    }
}

} // verus!
