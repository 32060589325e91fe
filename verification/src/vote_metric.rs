//! Counting, per pair of submissions, how the ballots treated both of them.
//!
//! A ballot is a row of columns (each a list of submission codes) read from the
//! vote store. A metric keeps one entry of counters per pair of submissions and
//! folds every ballot into those counters; turning the counters into a score is
//! done by the caller.
use vstd::prelude::*;
use std::marker::PhantomData;
use crate::bits::{Bits, bits_of, max_bits, zeroed, set_bit, get_bit};

verus! {

/// The columns of a stored ballot.
#[derive(Clone, Copy, Debug, PartialEq, Eq, Structural)]
pub enum VoteColumn {
    Shown,
    Expanded,
    Up,
    Down,
}

/// A map from submission codes to slots `0 .. maxindex` of a bit-vector.
pub trait CodeIndexMapper {
    /// The slot of `code`, if the mapper knows the code.
    spec fn spec_index(&self, code: Seq<char>) -> Option<usize>;

    fn vote_to_index(&self, code: &String) -> (r: Option<usize>)
        ensures
            r == self.spec_index(code@),
    ;
}

/// The pairs of slots whose counters a metric keeps, in entry order.
pub trait PairsIterator {
    spec fn spec_pairs(&self) -> Seq<(usize, usize)>;

    fn pairs(&self) -> (r: &Vec<(usize, usize)>)
        ensures
            r@ == self.spec_pairs(),
    ;
}

impl PairsIterator for Vec<(usize, usize)> {
    open spec fn spec_pairs(&self) -> Seq<(usize, usize)> {
        self@
    }

    fn pairs(&self) -> (r: &Vec<(usize, usize)>) {
        self
    }
}

/// The mapper seen as a spec function.
pub open spec fn index_fn<M: CodeIndexMapper>(mapper: &M) -> spec_fn(Seq<char>) -> Option<usize> {
    |c: Seq<char>| mapper.spec_index(c)
}

/// Every slot the mapper hands out is below `maxindex`.
pub open spec fn slots_below(idx: spec_fn(Seq<char>) -> Option<usize>, maxindex: nat) -> bool {
    forall|c: Seq<char>| #[trigger] idx(c) matches Some(j) ==> j < maxindex
}

/// Both slots of every pair are below `maxindex`.
pub open spec fn pairs_below(pairs: Seq<(usize, usize)>, maxindex: nat) -> bool {
    forall|i: int| 0 <= i < pairs.len() ==> #[trigger] pairs[i].0 < maxindex && pairs[i].1 < maxindex
}

/// Slot `j` is marked by some code of `codes`.
pub open spec fn marked(idx: spec_fn(Seq<char>) -> Option<usize>, codes: Seq<Seq<char>>, j: int) -> bool {
    exists|k: int| 0 <= k < codes.len() && #[trigger] idx(codes[k]) == Some(j as usize)
}

/// How many of `codes` (counted with repetition) the mapper knows.
pub open spec fn count_mapped(idx: spec_fn(Seq<char>) -> Option<usize>, codes: Seq<Seq<char>>) -> nat
    decreases codes.len(),
{
    if codes.len() == 0 {
        0
    } else {
        count_mapped(idx, codes.drop_last()) + if idx(codes.last()) is Some { 1nat } else { 0nat }
    }
}

pub proof fn lemma_marked_push(idx: spec_fn(Seq<char>) -> Option<usize>, s: Seq<Seq<char>>, x: Seq<char>, j: int)
    ensures
        marked(idx, s.push(x), j) == (marked(idx, s, j) || idx(x) == Some(j as usize)),
{
    let t = s.push(x);
    if marked(idx, s, j) {
        let k = choose|k: int| 0 <= k < s.len() && #[trigger] idx(s[k]) == Some(j as usize);
        assert(t[k] == s[k]);
    }
    if idx(x) == Some(j as usize) {
        assert(t[s.len() as int] == x);
    }
    if marked(idx, t, j) {
        let k = choose|k: int| 0 <= k < t.len() && #[trigger] idx(t[k]) == Some(j as usize);
        if k < s.len() {
            assert(t[k] == s[k]);
        }
    }
}

/// The bit-vector of `maxindex` slots in which exactly the slots of the mapped
/// codes of `votes` are set.
pub fn vote_to_bitvec<M: CodeIndexMapper>(mapper: &M, votes: &Vec<String>, maxindex: usize) -> (r: Bits)
    requires
        maxindex <= max_bits(),
        slots_below(index_fn(mapper), maxindex as nat),
    ensures
        bits_of(r).len() == maxindex,
        forall|j: int| 0 <= j < maxindex ==> #[trigger] bits_of(r)[j] == marked(index_fn(mapper), votes.deep_view(), j),
{
    let ghost idx = index_fn(mapper);
    let ghost codes = votes.deep_view();
    let mut votevec = zeroed(maxindex);
    for k in 0..votes.len()
        invariant
            idx == index_fn(mapper),
            codes == votes.deep_view(),
            slots_below(idx, maxindex as nat),
            bits_of(votevec).len() == maxindex,
            forall|j: int| 0 <= j < maxindex ==> #[trigger] bits_of(votevec)[j] == marked(idx, codes.take(k as int), j),
    {
        proof {
            assert(codes[k as int] == votes[k as int]@);
            assert(codes.take(k + 1) == codes.take(k as int).push(codes[k as int]));
            assert forall|j: int| 0 <= j < maxindex implies
                marked(idx, codes.take(k + 1), j) == (marked(idx, codes.take(k as int), j) || idx(codes[k as int]) == Some(j as usize)) by {
                lemma_marked_push(idx, codes.take(k as int), codes[k as int], j);
            }
        }
        match mapper.vote_to_index(&votes[k]) {
            Some(v) => {
                assert(idx(codes[k as int]) == Some(v));
                let ghost before = bits_of(votevec);
                set_bit(&mut votevec, v, true);
                assert forall|j: int| 0 <= j < maxindex implies #[trigger] bits_of(votevec)[j] == marked(idx, codes.take(k + 1), j) by {
                    assert(before[j] == marked(idx, codes.take(k as int), j));
                    if j != v as int {
                        assert(Some(v) != Some(j as usize));
                    }
                }
            },
            None => {
                assert(idx(codes[k as int]) is None);
                assert(forall|j: int| 0 <= j < maxindex ==> #[trigger] bits_of(votevec)[j] == marked(idx, codes.take(k + 1), j));
            },
        }
    }
    assert(codes.take(votes.len() as int) == codes);
    votevec
}


/// Whether `code` occurs in `codes`.
pub fn contains_code(codes: &Vec<String>, code: &String) -> (r: bool)
    ensures
        r == codes.deep_view().contains(code@),
{
    for i in 0..codes.len()
        invariant
            forall|k: int| 0 <= k < i ==> codes.deep_view()[k] != code@,
    {
        if codes[i] == *code {
            assert(codes.deep_view()[i as int] == code@);
            return true;
        }
    }
    false
}

/// `s` without the codes that occur in `removed`, order kept.
pub open spec fn without(s: Seq<Seq<char>>, removed: Seq<Seq<char>>) -> Seq<Seq<char>>
    decreases s.len(),
{
    if s.len() == 0 {
        s
    } else {
        let rest = without(s.drop_last(), removed);
        if removed.contains(s.last()) { rest } else { rest.push(s.last()) }
    }
}

/// Which submissions of a ballot count as chosen, and from which columns.
pub trait VoteSelector {
    /// The columns the selector reads, in the order it reads them.
    spec fn spec_columns() -> Seq<VoteColumn>;

    /// The chosen codes of a ballot whose leading columns are `spec_columns()`.
    spec fn spec_votes(dbres: Seq<Seq<Seq<char>>>) -> Seq<Seq<char>>;

    fn get_columns() -> (r: Vec<VoteColumn>)
        ensures
            r@ == Self::spec_columns(),
    ;

    fn get_votes(dbres: &[Vec<String>]) -> (r: Vec<String>)
        requires
            dbres@.len() >= Self::spec_columns().len(),
        ensures
            r.deep_view() == Self::spec_votes(dbres.deep_view()),
    ;
}

/// Chooses the up-voted submissions.
pub struct UpVoteSelector {}

impl VoteSelector for UpVoteSelector {
    open spec fn spec_columns() -> Seq<VoteColumn> {
        seq![VoteColumn::Up]
    }

    open spec fn spec_votes(dbres: Seq<Seq<Seq<char>>>) -> Seq<Seq<char>> {
        dbres[0]
    }

    fn get_columns() -> (r: Vec<VoteColumn>) {
        let r = vec![VoteColumn::Up];
        assert(r@ == seq![VoteColumn::Up]);
        r
    }

    fn get_votes(dbres: &[Vec<String>]) -> (r: Vec<String>) {
        let r = dbres[0].clone();
        assert(r.deep_view() =~= dbres[0].deep_view());
        r
    }
}

/// Chooses the submissions whose abstract was expanded.
pub struct ExpandedVoteSelector {}

impl VoteSelector for ExpandedVoteSelector {
    open spec fn spec_columns() -> Seq<VoteColumn> {
        seq![VoteColumn::Expanded]
    }

    open spec fn spec_votes(dbres: Seq<Seq<Seq<char>>>) -> Seq<Seq<char>> {
        dbres[0]
    }

    fn get_columns() -> (r: Vec<VoteColumn>) {
        let r = vec![VoteColumn::Expanded];
        assert(r@ == seq![VoteColumn::Expanded]);
        r
    }

    fn get_votes(dbres: &[Vec<String>]) -> (r: Vec<String>) {
        let r = dbres[0].clone();
        assert(r.deep_view() =~= dbres[0].deep_view());
        r
    }
}

/// Chooses the expanded submissions that were not down-voted.
pub struct ExpandedWithoutDownVoteSelector {}

impl VoteSelector for ExpandedWithoutDownVoteSelector {
    open spec fn spec_columns() -> Seq<VoteColumn> {
        seq![VoteColumn::Expanded, VoteColumn::Down]
    }

    open spec fn spec_votes(dbres: Seq<Seq<Seq<char>>>) -> Seq<Seq<char>> {
        without(dbres[0], dbres[1])
    }

    fn get_columns() -> (r: Vec<VoteColumn>) {
        let r = vec![VoteColumn::Expanded, VoteColumn::Down];
        assert(r@ == seq![VoteColumn::Expanded, VoteColumn::Down]);
        r
    }

    fn get_votes(dbres: &[Vec<String>]) -> (r: Vec<String>) {
        let expanded = &dbres[0];
        let down = &dbres[1];
        let ghost ex = expanded.deep_view();
        let ghost dn = down.deep_view();
        assert(ex == dbres.deep_view()[0] && dn == dbres.deep_view()[1]);
        let mut r: Vec<String> = Vec::new();
        for i in 0..expanded.len()
            invariant
                ex == expanded.deep_view(),
                dn == down.deep_view(),
                r.deep_view() == without(ex.take(i as int), dn),
        {
            assert(ex.take(i + 1).drop_last() == ex.take(i as int));
            assert(ex.take(i + 1).last() == expanded[i as int]@);
            if !contains_code(down, &expanded[i]) {
                let c = expanded[i].clone();
                r.push(c);
                assert(r.deep_view() =~= without(ex.take(i as int), dn).push(expanded[i as int]@));
            }
        }
        assert(ex.take(expanded.len() as int) == ex);
        r
    }
}


/// The bits of the chosen codes and of the shown codes of one ballot row whose
/// last column is `Shown`.
fn ballot_bits<T: VoteSelector, M: CodeIndexMapper>(vote: &Vec<Vec<String>>, mapper: &M, maxindex: usize) -> (r: (Bits, Bits))
    requires
        vote@.len() == T::spec_columns().len() + 1,
        maxindex <= max_bits(),
        slots_below(index_fn(mapper), maxindex as nat),
    ensures
        bits_of(r.0).len() == maxindex,
        bits_of(r.1).len() == maxindex,
        forall|j: int| 0 <= j < maxindex ==> #[trigger] bits_of(r.0)[j] == marked(index_fn(mapper), T::spec_votes(vote.deep_view()), j),
        forall|j: int| 0 <= j < maxindex ==> #[trigger] bits_of(r.1)[j] == marked(index_fn(mapper), vote.deep_view().last(), j),
{
    let ncols = vote.len();
    let slice = vote.as_slice();
    assert(slice.deep_view() =~= vote.deep_view());
    let converted_votes = T::get_votes(slice);
    let views = &vote[ncols - 1];
    assert(views.deep_view() == vote.deep_view().last());
    let votevec = vote_to_bitvec(mapper, &converted_votes, maxindex);
    let viewvec = vote_to_bitvec(mapper, views, maxindex);
    (votevec, viewvec)
}

/// A per-pair counter table that folds ballots in one at a time.
pub trait VoteMetric: Sized {
    /// The counters as plain values, one entry per pair.
    type Counters;

    spec fn counters(&self) -> Self::Counters;

    spec fn spec_maxindex(&self) -> nat;

    spec fn spec_npairs(&self) -> nat;

    spec fn wf(&self) -> bool;

    /// The columns of a ballot row, in the order `process_vote` reads them.
    spec fn spec_columns() -> Seq<VoteColumn>;

    /// The counters of a fresh table of `npairs` entries.
    spec fn initial(npairs: nat) -> Self::Counters;

    /// The counters after one more ballot row.
    spec fn step(
        c: Self::Counters,
        vote: Seq<Seq<Seq<char>>>,
        idx: spec_fn(Seq<char>) -> Option<usize>,
        pairs: Seq<(usize, usize)>,
    ) -> Self::Counters;

    /// `n` more ballots fit in the counters without overflow.
    spec fn room(c: Self::Counters, n: nat) -> bool;

    proof fn lemma_room_initial(npairs: nat, n: nat)
        requires
            n <= 100_000_000,
        ensures
            Self::room(Self::initial(npairs), n),
    ;

    proof fn lemma_room_mono(c: Self::Counters, m: nat, n: nat)
        requires
            Self::room(c, m),
            n <= m,
        ensures
            Self::room(c, n),
    ;

    proof fn lemma_room_step(
        c: Self::Counters,
        vote: Seq<Seq<Seq<char>>>,
        idx: spec_fn(Seq<char>) -> Option<usize>,
        pairs: Seq<(usize, usize)>,
        n: nat,
    )
        requires
            Self::room(c, n + 1),
        ensures
            Self::room(Self::step(c, vote, idx, pairs), n),
    ;

    fn with_size(maxindex: usize, maxpairs: usize) -> (r: Self)
        requires
            maxindex <= max_bits(),
        ensures
            r.wf(),
            r.spec_maxindex() == maxindex,
            r.spec_npairs() == maxpairs,
            r.counters() == Self::initial(maxpairs as nat),
    ;

    fn get_columns() -> (r: Vec<VoteColumn>)
        ensures
            r@ == Self::spec_columns(),
    ;

    fn process_vote<M: CodeIndexMapper, P: PairsIterator>(&mut self, vote: Vec<Vec<String>>, mapper: &M, pi: &P)
        requires
            old(self).wf(),
            vote@.len() == Self::spec_columns().len(),
            slots_below(index_fn(mapper), old(self).spec_maxindex()),
            pi.spec_pairs().len() == old(self).spec_npairs(),
            pairs_below(pi.spec_pairs(), old(self).spec_maxindex()),
            Self::room(old(self).counters(), 1),
        ensures
            final(self).wf(),
            final(self).spec_maxindex() == old(self).spec_maxindex(),
            final(self).spec_npairs() == old(self).spec_npairs(),
            final(self).counters() == Self::step(old(self).counters(), vote.deep_view(), index_fn(mapper), pi.spec_pairs()),
    ;
}

/// Both slots of `pair` are marked by `codes`.
pub open spec fn both_marked(idx: spec_fn(Seq<char>) -> Option<usize>, codes: Seq<Seq<char>>, pair: (usize, usize)) -> bool {
    marked(idx, codes, pair.0 as int) && marked(idx, codes, pair.1 as int)
}

pub open spec fn one_if(b: bool) -> int {
    if b { 1 } else { 0 }
}

/// Counts, for one pair, the ballots that chose both (`numerator`) and the
/// ballots that showed both (`denominator`).
#[derive(Clone, Copy, Debug)]
pub struct JaccardSupportVoteEntry {
    pub numerator: u32,
    pub denominator: u32,
}

/// The support entry after one ballot: chosen-both and shown-both are counted
/// independently.
pub open spec fn support_entry(
    e: (int, int),
    pair: (usize, usize),
    sel: Seq<Seq<char>>,
    views: Seq<Seq<char>>,
    idx: spec_fn(Seq<char>) -> Option<usize>,
) -> (int, int) {
    (e.0 + one_if(both_marked(idx, sel, pair)), e.1 + one_if(both_marked(idx, views, pair)))
}

pub open spec fn support_counters(v: Seq<JaccardSupportVoteEntry>) -> Seq<(int, int)> {
    Seq::new(v.len(), |i: int| (v[i].numerator as int, v[i].denominator as int))
}

/// Both counters of an entry stay within `u32` after `n` more increments.
pub open spec fn entry_room(e: (int, int), n: nat) -> bool {
    0 <= e.0 && e.0 + n <= u32::MAX && 0 <= e.1 && e.1 + n <= u32::MAX
}

pub open spec fn pair_room(c: Seq<(int, int)>, n: nat) -> bool {
    forall|i: int| 0 <= i < c.len() ==> entry_room(#[trigger] c[i], n)
}

/// The share of ballots showing both submissions that also chose both.
pub struct SupportVoteMetric<T> {
    vote_pair: Vec<JaccardSupportVoteEntry>,
    maxindex: usize,
    vote_type: PhantomData<T>,
}

impl<T: VoteSelector> SupportVoteMetric<T> {
    /// The entries, one per pair.
    pub fn entries(&self) -> (r: &Vec<JaccardSupportVoteEntry>)
        ensures
            support_counters(r@) == self.counters(),
    {
        &self.vote_pair
    }

    fn total_columns() -> (r: Vec<VoteColumn>)
        ensures
            r@ == T::spec_columns().push(VoteColumn::Shown),
    {
        let mut vote_columns = T::get_columns();
        vote_columns.push(VoteColumn::Shown);
        vote_columns
    }
}

impl<T: VoteSelector> VoteMetric for SupportVoteMetric<T> {
    type Counters = Seq<(int, int)>;

    closed spec fn counters(&self) -> Seq<(int, int)> {
        support_counters(self.vote_pair@)
    }

    closed spec fn spec_maxindex(&self) -> nat {
        self.maxindex as nat
    }

    closed spec fn spec_npairs(&self) -> nat {
        self.vote_pair@.len()
    }

    closed spec fn wf(&self) -> bool {
        self.maxindex <= max_bits()
    }

    open spec fn spec_columns() -> Seq<VoteColumn> {
        T::spec_columns().push(VoteColumn::Shown)
    }

    open spec fn initial(npairs: nat) -> Seq<(int, int)> {
        Seq::new(npairs, |i: int| (0int, 0int))
    }

    open spec fn step(
        c: Seq<(int, int)>,
        vote: Seq<Seq<Seq<char>>>,
        idx: spec_fn(Seq<char>) -> Option<usize>,
        pairs: Seq<(usize, usize)>,
    ) -> Seq<(int, int)> {
        Seq::new(c.len(), |i: int| support_entry(c[i], pairs[i], T::spec_votes(vote), vote.last(), idx))
    }

    open spec fn room(c: Seq<(int, int)>, n: nat) -> bool {
        pair_room(c, n)
    }

    proof fn lemma_room_initial(npairs: nat, n: nat) {
    }

    proof fn lemma_room_mono(c: Self::Counters, m: nat, n: nat) {
    }

    proof fn lemma_room_step(
        c: Seq<(int, int)>,
        vote: Seq<Seq<Seq<char>>>,
        idx: spec_fn(Seq<char>) -> Option<usize>,
        pairs: Seq<(usize, usize)>,
        n: nat,
    ) {
    }

    fn with_size(maxindex: usize, pairs: usize) -> (r: Self) {
        let mut vote_pair: Vec<JaccardSupportVoteEntry> = Vec::new();
        for i in 0..pairs
            invariant
                vote_pair@.len() == i,
                forall|j: int| 0 <= j < i ==> #[trigger] vote_pair@[j] == (JaccardSupportVoteEntry { numerator: 0, denominator: 0 }),
        {
            vote_pair.push(JaccardSupportVoteEntry { numerator: 0, denominator: 0 });
        }
        let r = Self { vote_pair, maxindex, vote_type: PhantomData };
        assert(r.counters() =~= Self::initial(pairs as nat));
        r
    }

    fn get_columns() -> (r: Vec<VoteColumn>) {
        Self::total_columns()
    }

    fn process_vote<M: CodeIndexMapper, P: PairsIterator>(&mut self, vote: Vec<Vec<String>>, mapper: &M, pi: &P) {
        let ghost idx = index_fn(mapper);
        let ghost row = vote.deep_view();
        let ghost old_c = self.counters();
        let ghost old_vp = self.vote_pair@;
        let (votevec, viewvec) = ballot_bits::<T, M>(&vote, mapper, self.maxindex);
        let pairs = pi.pairs();
        let ghost sel = T::spec_votes(row);
        for i in 0..pairs.len()
            invariant
                idx == index_fn(mapper),
                sel == T::spec_votes(row),
                pairs@ == pi.spec_pairs(),
                pairs_below(pairs@, self.maxindex as nat),
                self.vote_pair@.len() == pairs@.len(),
                old_c.len() == pairs@.len(),
                pair_room(old_c, 1),
                self.maxindex <= max_bits(),
                bits_of(votevec).len() == self.maxindex,
                bits_of(viewvec).len() == self.maxindex,
                forall|j: int| 0 <= j < self.maxindex ==> #[trigger] bits_of(votevec)[j] == marked(idx, sel, j),
                forall|j: int| 0 <= j < self.maxindex ==> #[trigger] bits_of(viewvec)[j] == marked(idx, row.last(), j),
                old_c == support_counters(old_vp),
                row.len() >= 1,
                forall|j: int| 0 <= j < i ==> (#[trigger] self.vote_pair@[j].numerator as int, self.vote_pair@[j].denominator as int) == support_entry(old_c[j], pairs@[j], sel, row.last(), idx),
                forall|j: int| i <= j < pairs@.len() ==> #[trigger] self.vote_pair@[j] == old_vp[j],
        {
            let (a, b) = pairs[i];
            assert(pairs@[i as int].0 < self.maxindex && pairs@[i as int].1 < self.maxindex);
            let voteboth = get_bit(&votevec, a) && get_bit(&votevec, b);
            let viewboth = get_bit(&viewvec, a) && get_bit(&viewvec, b);
            let mut entry = self.vote_pair[i];
            assert(old_c[i as int] == (old_vp[i as int].numerator as int, old_vp[i as int].denominator as int));
            assert(entry_room(old_c[i as int], 1));
            if viewboth {
                entry.denominator += 1;
            }
            if voteboth {
                entry.numerator += 1;
            }
            self.vote_pair.set(i, entry);
        }
        assert(self.counters() =~= Self::step(old_c, row, idx, pi.spec_pairs()));
    }
}


/// The Jaccard entry after one ballot: among the ballots that showed both
/// submissions and chose at least one, count those that chose both.
pub open spec fn jaccard_entry(
    e: (int, int),
    pair: (usize, usize),
    sel: Seq<Seq<char>>,
    views: Seq<Seq<char>>,
    idx: spec_fn(Seq<char>) -> Option<usize>,
) -> (int, int) {
    let ain = marked(idx, sel, pair.0 as int);
    let bin = marked(idx, sel, pair.1 as int);
    if (ain || bin) && both_marked(idx, views, pair) {
        (e.0 + one_if(ain && bin), e.1 + 1)
    } else {
        e
    }
}

/// The Jaccard index of two submissions among the ballots that showed both.
pub struct JaccardVoteMetric<T: VoteSelector> {
    vote_pair: Vec<JaccardSupportVoteEntry>,
    maxindex: usize,
    vote_type: PhantomData<T>,
    columns: Vec<VoteColumn>,
}

impl<T: VoteSelector> JaccardVoteMetric<T> {
    /// The entries, one per pair.
    pub fn entries(&self) -> (r: &Vec<JaccardSupportVoteEntry>)
        ensures
            support_counters(r@) == self.counters(),
    {
        &self.vote_pair
    }
}

impl<T: VoteSelector> VoteMetric for JaccardVoteMetric<T> {
    type Counters = Seq<(int, int)>;

    closed spec fn counters(&self) -> Seq<(int, int)> {
        support_counters(self.vote_pair@)
    }

    closed spec fn spec_maxindex(&self) -> nat {
        self.maxindex as nat
    }

    closed spec fn spec_npairs(&self) -> nat {
        self.vote_pair@.len()
    }

    closed spec fn wf(&self) -> bool {
        &&& self.maxindex <= max_bits()
        &&& self.columns@ == T::spec_columns()
    }

    open spec fn spec_columns() -> Seq<VoteColumn> {
        T::spec_columns().push(VoteColumn::Shown)
    }

    open spec fn initial(npairs: nat) -> Seq<(int, int)> {
        Seq::new(npairs, |i: int| (0int, 0int))
    }

    open spec fn step(
        c: Seq<(int, int)>,
        vote: Seq<Seq<Seq<char>>>,
        idx: spec_fn(Seq<char>) -> Option<usize>,
        pairs: Seq<(usize, usize)>,
    ) -> Seq<(int, int)> {
        Seq::new(c.len(), |i: int| jaccard_entry(c[i], pairs[i], T::spec_votes(vote), vote.last(), idx))
    }

    open spec fn room(c: Seq<(int, int)>, n: nat) -> bool {
        pair_room(c, n)
    }

    proof fn lemma_room_initial(npairs: nat, n: nat) {
    }

    proof fn lemma_room_mono(c: Self::Counters, m: nat, n: nat) {
    }

    proof fn lemma_room_step(
        c: Seq<(int, int)>,
        vote: Seq<Seq<Seq<char>>>,
        idx: spec_fn(Seq<char>) -> Option<usize>,
        pairs: Seq<(usize, usize)>,
        n: nat,
    ) {
        let d = Self::step(c, vote, idx, pairs);
        assert forall|i: int| 0 <= i < d.len() implies entry_room(#[trigger] d[i], n) by {
            assert(entry_room(c[i], n + 1));
        }
    }

    fn with_size(maxindex: usize, pairs: usize) -> (r: Self) {
        let mut vote_pair: Vec<JaccardSupportVoteEntry> = Vec::new();
        for i in 0..pairs
            invariant
                vote_pair@.len() == i,
                forall|j: int| 0 <= j < i ==> #[trigger] vote_pair@[j] == (JaccardSupportVoteEntry { numerator: 0, denominator: 0 }),
        {
            vote_pair.push(JaccardSupportVoteEntry { numerator: 0, denominator: 0 });
        }
        let r = Self { vote_pair, maxindex, vote_type: PhantomData, columns: T::get_columns() };
        assert(r.counters() =~= Self::initial(pairs as nat));
        r
    }

    fn get_columns() -> (r: Vec<VoteColumn>) {
        let mut vote_columns = T::get_columns();
        vote_columns.push(VoteColumn::Shown);
        vote_columns
    }

    fn process_vote<M: CodeIndexMapper, P: PairsIterator>(&mut self, vote: Vec<Vec<String>>, mapper: &M, pi: &P)
        ensures
            jaccard_bounded(old(self).counters()) ==> jaccard_bounded(final(self).counters()),
    {
        let ghost idx = index_fn(mapper);
        let ghost row = vote.deep_view();
        let ghost old_c = self.counters();
        let ghost old_vp = self.vote_pair@;
        let (votevec, viewvec) = ballot_bits::<T, M>(&vote, mapper, self.maxindex);
        let pairs = pi.pairs();
        let ghost sel = T::spec_votes(row);
        for i in 0..pairs.len()
            invariant
                idx == index_fn(mapper),
                sel == T::spec_votes(row),
                pairs@ == pi.spec_pairs(),
                pairs_below(pairs@, self.maxindex as nat),
                self.vote_pair@.len() == pairs@.len(),
                old_c.len() == pairs@.len(),
                pair_room(old_c, 1),
                self.maxindex <= max_bits(),
                self.columns@ == T::spec_columns(),
                bits_of(votevec).len() == self.maxindex,
                bits_of(viewvec).len() == self.maxindex,
                forall|j: int| 0 <= j < self.maxindex ==> #[trigger] bits_of(votevec)[j] == marked(idx, sel, j),
                forall|j: int| 0 <= j < self.maxindex ==> #[trigger] bits_of(viewvec)[j] == marked(idx, row.last(), j),
                old_c == support_counters(old_vp),
                row.len() >= 1,
                forall|j: int| 0 <= j < i ==> (#[trigger] self.vote_pair@[j].numerator as int, self.vote_pair@[j].denominator as int) == jaccard_entry(old_c[j], pairs@[j], sel, row.last(), idx),
                forall|j: int| i <= j < pairs@.len() ==> #[trigger] self.vote_pair@[j] == old_vp[j],
        {
            let (a, b) = pairs[i];
            assert(pairs@[i as int].0 < self.maxindex && pairs@[i as int].1 < self.maxindex);
            let ain = get_bit(&votevec, a);
            let bin = get_bit(&votevec, b);
            let mut entry = self.vote_pair[i];
            assert(old_c[i as int] == (old_vp[i as int].numerator as int, old_vp[i as int].denominator as int));
            assert(entry_room(old_c[i as int], 1));
            if (ain || bin) && get_bit(&viewvec, a) && get_bit(&viewvec, b) {
                entry.denominator += 1;
                if ain && bin {
                    entry.numerator += 1;
                }
            }
            self.vote_pair.set(i, entry);
        }
        assert(self.counters() =~= Self::step(old_c, row, idx, pi.spec_pairs()));
        proof {
            if jaccard_bounded(old_c) {
                lemma_jaccard_step_bounded::<T>(old_c, row, idx, pi.spec_pairs());
            }
        }
    }
}

/// Counts, for one pair, the ballots that showed both (`views`) and, among
/// them, those that chose the first (`a`), the second (`b`) and both (`joint`).
#[derive(Clone, Copy, Debug)]
pub struct LiftVoteEntry {
    pub a: u32,
    pub b: u32,
    pub joint: u32,
    pub views: u32,
}

pub open spec fn lift_counters(v: Seq<LiftVoteEntry>) -> Seq<(int, int, int, int)> {
    Seq::new(v.len(), |i: int| (v[i].a as int, v[i].b as int, v[i].joint as int, v[i].views as int))
}

/// The lift entry after one ballot.
pub open spec fn lift_entry(
    e: (int, int, int, int),
    pair: (usize, usize),
    sel: Seq<Seq<char>>,
    views: Seq<Seq<char>>,
    idx: spec_fn(Seq<char>) -> Option<usize>,
) -> (int, int, int, int) {
    let ain = marked(idx, sel, pair.0 as int);
    let bin = marked(idx, sel, pair.1 as int);
    if both_marked(idx, views, pair) {
        (e.0 + one_if(ain), e.1 + one_if(bin), e.2 + one_if(ain && bin), e.3 + 1)
    } else {
        e
    }
}

pub open spec fn lift_entry_room(e: (int, int, int, int), n: nat) -> bool {
    &&& 0 <= e.0 && e.0 + n <= u32::MAX
    &&& 0 <= e.1 && e.1 + n <= u32::MAX
    &&& 0 <= e.2 && e.2 + n <= u32::MAX
    &&& 0 <= e.3 && e.3 + n <= u32::MAX
}

/// The lift of two submissions among the ballots that showed both.
pub struct LiftVoteMetric<T> {
    vote_pair: Vec<LiftVoteEntry>,
    maxindex: usize,
    vote_type: PhantomData<T>,
}

impl<T: VoteSelector> LiftVoteMetric<T> {
    /// The entries, one per pair.
    pub fn entries(&self) -> (r: &Vec<LiftVoteEntry>)
        ensures
            lift_counters(r@) == self.counters(),
    {
        &self.vote_pair
    }
}

impl<T: VoteSelector> VoteMetric for LiftVoteMetric<T> {
    type Counters = Seq<(int, int, int, int)>;

    closed spec fn counters(&self) -> Seq<(int, int, int, int)> {
        lift_counters(self.vote_pair@)
    }

    closed spec fn spec_maxindex(&self) -> nat {
        self.maxindex as nat
    }

    closed spec fn spec_npairs(&self) -> nat {
        self.vote_pair@.len()
    }

    closed spec fn wf(&self) -> bool {
        self.maxindex <= max_bits()
    }

    open spec fn spec_columns() -> Seq<VoteColumn> {
        T::spec_columns().push(VoteColumn::Shown)
    }

    open spec fn initial(npairs: nat) -> Seq<(int, int, int, int)> {
        Seq::new(npairs, |i: int| (0int, 0int, 0int, 0int))
    }

    open spec fn step(
        c: Seq<(int, int, int, int)>,
        vote: Seq<Seq<Seq<char>>>,
        idx: spec_fn(Seq<char>) -> Option<usize>,
        pairs: Seq<(usize, usize)>,
    ) -> Seq<(int, int, int, int)> {
        Seq::new(c.len(), |i: int| lift_entry(c[i], pairs[i], T::spec_votes(vote), vote.last(), idx))
    }

    open spec fn room(c: Seq<(int, int, int, int)>, n: nat) -> bool {
        forall|i: int| 0 <= i < c.len() ==> lift_entry_room(#[trigger] c[i], n)
    }

    proof fn lemma_room_initial(npairs: nat, n: nat) {
    }

    proof fn lemma_room_mono(c: Self::Counters, m: nat, n: nat) {
    }

    proof fn lemma_room_step(
        c: Seq<(int, int, int, int)>,
        vote: Seq<Seq<Seq<char>>>,
        idx: spec_fn(Seq<char>) -> Option<usize>,
        pairs: Seq<(usize, usize)>,
        n: nat,
    ) {
        let d = Self::step(c, vote, idx, pairs);
        assert forall|i: int| 0 <= i < d.len() implies lift_entry_room(#[trigger] d[i], n) by {
            assert(lift_entry_room(c[i], n + 1));
        }
    }

    fn with_size(maxindex: usize, pairs: usize) -> (r: Self) {
        let mut vote_pair: Vec<LiftVoteEntry> = Vec::new();
        for i in 0..pairs
            invariant
                vote_pair@.len() == i,
                forall|j: int| 0 <= j < i ==> #[trigger] vote_pair@[j] == (LiftVoteEntry { a: 0, b: 0, joint: 0, views: 0 }),
        {
            vote_pair.push(LiftVoteEntry { a: 0, b: 0, joint: 0, views: 0 });
        }
        let r = Self { vote_pair, maxindex, vote_type: PhantomData };
        assert(r.counters() =~= Self::initial(pairs as nat));
        r
    }

    fn get_columns() -> (r: Vec<VoteColumn>) {
        let mut vote_columns = T::get_columns();
        vote_columns.push(VoteColumn::Shown);
        vote_columns
    }

    fn process_vote<M: CodeIndexMapper, P: PairsIterator>(&mut self, vote: Vec<Vec<String>>, mapper: &M, pi: &P)
        ensures
            lift_bounded(old(self).counters()) ==> lift_bounded(final(self).counters()),
    {
        let ghost idx = index_fn(mapper);
        let ghost row = vote.deep_view();
        let ghost old_c = self.counters();
        let ghost old_vp = self.vote_pair@;
        let (votevec, viewvec) = ballot_bits::<T, M>(&vote, mapper, self.maxindex);
        let pairs = pi.pairs();
        let ghost sel = T::spec_votes(row);
        for i in 0..pairs.len()
            invariant
                idx == index_fn(mapper),
                sel == T::spec_votes(row),
                pairs@ == pi.spec_pairs(),
                pairs_below(pairs@, self.maxindex as nat),
                self.vote_pair@.len() == pairs@.len(),
                old_c.len() == pairs@.len(),
                Self::room(old_c, 1),
                self.maxindex <= max_bits(),
                bits_of(votevec).len() == self.maxindex,
                bits_of(viewvec).len() == self.maxindex,
                forall|j: int| 0 <= j < self.maxindex ==> #[trigger] bits_of(votevec)[j] == marked(idx, sel, j),
                forall|j: int| 0 <= j < self.maxindex ==> #[trigger] bits_of(viewvec)[j] == marked(idx, row.last(), j),
                old_c == lift_counters(old_vp),
                row.len() >= 1,
                forall|j: int| 0 <= j < i ==> (#[trigger] self.vote_pair@[j].a as int, self.vote_pair@[j].b as int, self.vote_pair@[j].joint as int, self.vote_pair@[j].views as int) == lift_entry(old_c[j], pairs@[j], sel, row.last(), idx),
                forall|j: int| i <= j < pairs@.len() ==> #[trigger] self.vote_pair@[j] == old_vp[j],
        {
            let (a, b) = pairs[i];
            assert(pairs@[i as int].0 < self.maxindex && pairs@[i as int].1 < self.maxindex);
            let votea = get_bit(&votevec, a);
            let voteb = get_bit(&votevec, b);
            let voteboth = votea && voteb;
            let viewboth = get_bit(&viewvec, a) && get_bit(&viewvec, b);
            let mut entry = self.vote_pair[i];
            assert(old_c[i as int] == (old_vp[i as int].a as int, old_vp[i as int].b as int, old_vp[i as int].joint as int, old_vp[i as int].views as int));
            assert(lift_entry_room(old_c[i as int], 1));
            if viewboth {
                entry.views += 1;
                if votea {
                    entry.a += 1;
                }
                if voteb {
                    entry.b += 1;
                }
                if voteboth {
                    entry.joint += 1;
                }
            }
            self.vote_pair.set(i, entry);
        }
        assert(self.counters() =~= Self::step(old_c, row, idx, pi.spec_pairs()));
        proof {
            if lift_bounded(old_c) {
                lemma_lift_step_bounded::<T>(old_c, row, idx, pi.spec_pairs());
            }
        }
    }
}


/// The weight that the cosine metric gives to one submission in one ballot:
/// an up-vote counts most, then an expansion, then a down-vote (negative).
pub open spec fn spec_cosine_weight(up: bool, expanded: bool, down: bool) -> int {
    if up { 4 } else if expanded { 1 } else if down { -4 } else { 0 }
}

pub fn cosine_weight(up: bool, expanded: bool, down: bool) -> (w: i32)
    ensures
        w == spec_cosine_weight(up, expanded, down),
        up ==> w == 4,
        !up && expanded ==> w == 1,
        !up && !expanded && down ==> w == -4,
        !up && !expanded && !down ==> w == 0,
{
    if up { 4 } else if expanded { 1 } else if down { -4 } else { 0 }
}

/// Sums, for one pair, the products of the two weights (`dotprod`) and the
/// squares of each weight (`a`, `b`) over the ballots that showed both.
#[derive(Clone, Copy, Debug)]
pub struct CosineVoteEntry {
    pub dotprod: i32,
    pub a: i32,
    pub b: i32,
}

pub open spec fn cosine_counters(v: Seq<CosineVoteEntry>) -> Seq<(int, int, int)> {
    Seq::new(v.len(), |i: int| (v[i].dotprod as int, v[i].a as int, v[i].b as int))
}

/// The cosine weight of slot `j` in a ballot row `[up, expanded, down, shown]`.
pub open spec fn slot_weight(idx: spec_fn(Seq<char>) -> Option<usize>, vote: Seq<Seq<Seq<char>>>, j: int) -> int {
    spec_cosine_weight(marked(idx, vote[0], j), marked(idx, vote[1], j), marked(idx, vote[2], j))
}

/// The cosine entry after one ballot row `[up, expanded, down, shown]`.
pub open spec fn cosine_entry(
    e: (int, int, int),
    pair: (usize, usize),
    vote: Seq<Seq<Seq<char>>>,
    idx: spec_fn(Seq<char>) -> Option<usize>,
) -> (int, int, int) {
    if both_marked(idx, vote[3], pair) {
        let wa = slot_weight(idx, vote, pair.0 as int);
        let wb = slot_weight(idx, vote, pair.1 as int);
        (e.0 + wa * wb, e.1 + wa * wa, e.2 + wb * wb)
    } else {
        e
    }
}

pub open spec fn cosine_entry_room(e: (int, int, int), n: nat) -> bool {
    &&& -(i32::MAX as int) + 16 * n <= e.0 <= i32::MAX - 16 * n
    &&& 0 <= e.1 <= i32::MAX - 16 * n
    &&& 0 <= e.2 <= i32::MAX - 16 * n
}

pub proof fn lemma_weight_products(x: (bool, bool, bool), y: (bool, bool, bool))
    ensures
        -16 <= spec_cosine_weight(x.0, x.1, x.2) * spec_cosine_weight(y.0, y.1, y.2) <= 16,
        0 <= spec_cosine_weight(x.0, x.1, x.2) * spec_cosine_weight(x.0, x.1, x.2) <= 16,
{
    let wa = spec_cosine_weight(x.0, x.1, x.2);
    let wb = spec_cosine_weight(y.0, y.1, y.2);
    assert(-16 <= wa * wb <= 16 && 0 <= wa * wa <= 16) by (nonlinear_arith)
        requires
            wa == 4 || wa == 1 || wa == -4 || wa == 0,
            wb == 4 || wb == 1 || wb == -4 || wb == 0,
    ;
}

/// The product of two cosine weights.
fn weight_product(wa: i32, wb: i32) -> (r: i32)
    requires
        wa == 4 || wa == 1 || wa == -4 || wa == 0,
        wb == 4 || wb == 1 || wb == -4 || wb == 0,
    ensures
        r == wa * wb,
{
    assert(-16 <= wa * wb <= 16) by (nonlinear_arith)
        requires
            wa == 4 || wa == 1 || wa == -4 || wa == 0,
            wb == 4 || wb == 1 || wb == -4 || wb == 0,
    ;
    wa * wb
}

/// The cosine similarity of the weight vectors of two submissions, over the
/// ballots that showed both.
pub struct CosineVoteMetric {
    vote_pair: Vec<CosineVoteEntry>,
    maxindex: usize,
}

impl CosineVoteMetric {
    /// The entries, one per pair.
    pub fn entries(&self) -> (r: &Vec<CosineVoteEntry>)
        ensures
            cosine_counters(r@) == self.counters(),
    {
        &self.vote_pair
    }
}

impl VoteMetric for CosineVoteMetric {
    type Counters = Seq<(int, int, int)>;

    closed spec fn counters(&self) -> Seq<(int, int, int)> {
        cosine_counters(self.vote_pair@)
    }

    closed spec fn spec_maxindex(&self) -> nat {
        self.maxindex as nat
    }

    closed spec fn spec_npairs(&self) -> nat {
        self.vote_pair@.len()
    }

    closed spec fn wf(&self) -> bool {
        self.maxindex <= max_bits()
    }

    open spec fn spec_columns() -> Seq<VoteColumn> {
        seq![VoteColumn::Up, VoteColumn::Expanded, VoteColumn::Down, VoteColumn::Shown]
    }

    open spec fn initial(npairs: nat) -> Seq<(int, int, int)> {
        Seq::new(npairs, |i: int| (0int, 0int, 0int))
    }

    open spec fn step(
        c: Seq<(int, int, int)>,
        vote: Seq<Seq<Seq<char>>>,
        idx: spec_fn(Seq<char>) -> Option<usize>,
        pairs: Seq<(usize, usize)>,
    ) -> Seq<(int, int, int)> {
        Seq::new(c.len(), |i: int| cosine_entry(c[i], pairs[i], vote, idx))
    }

    open spec fn room(c: Seq<(int, int, int)>, n: nat) -> bool {
        forall|i: int| 0 <= i < c.len() ==> cosine_entry_room(#[trigger] c[i], n)
    }

    proof fn lemma_room_initial(npairs: nat, n: nat) {
    }

    proof fn lemma_room_mono(c: Self::Counters, m: nat, n: nat) {
    }

    proof fn lemma_room_step(
        c: Seq<(int, int, int)>,
        vote: Seq<Seq<Seq<char>>>,
        idx: spec_fn(Seq<char>) -> Option<usize>,
        pairs: Seq<(usize, usize)>,
        n: nat,
    ) {
        let d = Self::step(c, vote, idx, pairs);
        assert forall|i: int| 0 <= i < d.len() implies cosine_entry_room(#[trigger] d[i], n) by {
            assert(cosine_entry_room(c[i], n + 1));
            let p = pairs[i];
            let x = (marked(idx, vote[0], p.0 as int), marked(idx, vote[1], p.0 as int), marked(idx, vote[2], p.0 as int));
            let y = (marked(idx, vote[0], p.1 as int), marked(idx, vote[1], p.1 as int), marked(idx, vote[2], p.1 as int));
            lemma_weight_products(x, y);
            lemma_weight_products(y, x);
        }
    }

    fn with_size(maxindex: usize, pairs: usize) -> (r: Self) {
        let mut vote_pair: Vec<CosineVoteEntry> = Vec::new();
        for i in 0..pairs
            invariant
                vote_pair@.len() == i,
                forall|j: int| 0 <= j < i ==> #[trigger] vote_pair@[j] == (CosineVoteEntry { dotprod: 0, a: 0, b: 0 }),
        {
            vote_pair.push(CosineVoteEntry { dotprod: 0, a: 0, b: 0 });
        }
        let r = Self { vote_pair, maxindex };
        assert(r.counters() =~= Self::initial(pairs as nat));
        r
    }

    fn get_columns() -> (r: Vec<VoteColumn>) {
        let r = vec![VoteColumn::Up, VoteColumn::Expanded, VoteColumn::Down, VoteColumn::Shown];
        assert(r@ == Self::spec_columns());
        r
    }

    fn process_vote<M: CodeIndexMapper, P: PairsIterator>(&mut self, vote: Vec<Vec<String>>, mapper: &M, pi: &P) {
        let ghost idx = index_fn(mapper);
        let ghost row = vote.deep_view();
        let ghost old_c = self.counters();
        let ghost old_vp = self.vote_pair@;
        assert(row[0] == vote[0].deep_view() && row[1] == vote[1].deep_view());
        assert(row[2] == vote[2].deep_view() && row[3] == vote[3].deep_view());
        let vote_up = vote_to_bitvec(mapper, &vote[0], self.maxindex);
        let vote_ex = vote_to_bitvec(mapper, &vote[1], self.maxindex);
        let vote_down = vote_to_bitvec(mapper, &vote[2], self.maxindex);
        let vote_view = vote_to_bitvec(mapper, &vote[3], self.maxindex);
        let pairs = pi.pairs();
        for i in 0..pairs.len()
            invariant
                idx == index_fn(mapper),
                row.len() == 4,
                pairs@ == pi.spec_pairs(),
                pairs_below(pairs@, self.maxindex as nat),
                self.vote_pair@.len() == pairs@.len(),
                old_c.len() == pairs@.len(),
                Self::room(old_c, 1),
                self.maxindex <= max_bits(),
                bits_of(vote_up).len() == self.maxindex,
                bits_of(vote_ex).len() == self.maxindex,
                bits_of(vote_down).len() == self.maxindex,
                bits_of(vote_view).len() == self.maxindex,
                forall|j: int| 0 <= j < self.maxindex ==> #[trigger] bits_of(vote_up)[j] == marked(idx, row[0], j),
                forall|j: int| 0 <= j < self.maxindex ==> #[trigger] bits_of(vote_ex)[j] == marked(idx, row[1], j),
                forall|j: int| 0 <= j < self.maxindex ==> #[trigger] bits_of(vote_down)[j] == marked(idx, row[2], j),
                forall|j: int| 0 <= j < self.maxindex ==> #[trigger] bits_of(vote_view)[j] == marked(idx, row[3], j),
                old_c == cosine_counters(old_vp),
                forall|j: int| 0 <= j < i ==> (#[trigger] self.vote_pair@[j].dotprod as int, self.vote_pair@[j].a as int, self.vote_pair@[j].b as int) == cosine_entry(old_c[j], pairs@[j], row, idx),
                forall|j: int| i <= j < pairs@.len() ==> #[trigger] self.vote_pair@[j] == old_vp[j],
        {
            let (a, b) = pairs[i];
            assert(pairs@[i as int].0 < self.maxindex && pairs@[i as int].1 < self.maxindex);
            if get_bit(&vote_view, a) && get_bit(&vote_view, b) {
                let mut entry = self.vote_pair[i];
                assert(old_c[i as int] == (old_vp[i as int].dotprod as int, old_vp[i as int].a as int, old_vp[i as int].b as int));
                assert(cosine_entry_room(old_c[i as int], 1));
                let weight_a = cosine_weight(get_bit(&vote_up, a), get_bit(&vote_ex, a), get_bit(&vote_down, a));
                let weight_b = cosine_weight(get_bit(&vote_up, b), get_bit(&vote_ex, b), get_bit(&vote_down, b));
                proof {
                    let x = (marked(idx, row[0], a as int), marked(idx, row[1], a as int), marked(idx, row[2], a as int));
                    let y = (marked(idx, row[0], b as int), marked(idx, row[1], b as int), marked(idx, row[2], b as int));
                    lemma_weight_products(x, y);
                    lemma_weight_products(y, x);
                }
                entry.a += weight_product(weight_a, weight_a);
                entry.b += weight_product(weight_b, weight_b);
                entry.dotprod += weight_product(weight_a, weight_b);
                self.vote_pair.set(i, entry);
            }
        }
        assert(self.counters() =~= Self::step(old_c, row, idx, pi.spec_pairs()));
    }
}


/// Like `vote_to_bitvec`, and also counts the codes of `votes` (with repetition)
/// that the mapper knows.
pub fn vote_to_bitvec_counted<M: CodeIndexMapper>(mapper: &M, votes: &Vec<String>, maxindex: usize) -> (r: (Bits, usize))
    requires
        maxindex <= max_bits(),
        slots_below(index_fn(mapper), maxindex as nat),
    ensures
        bits_of(r.0).len() == maxindex,
        forall|j: int| 0 <= j < maxindex ==> #[trigger] bits_of(r.0)[j] == marked(index_fn(mapper), votes.deep_view(), j),
        r.1 == count_mapped(index_fn(mapper), votes.deep_view()),
{
    let ghost idx = index_fn(mapper);
    let ghost codes = votes.deep_view();
    let mut votevec = zeroed(maxindex);
    let mut totalvotes: usize = 0;
    for k in 0..votes.len()
        invariant
            idx == index_fn(mapper),
            codes == votes.deep_view(),
            slots_below(idx, maxindex as nat),
            bits_of(votevec).len() == maxindex,
            forall|j: int| 0 <= j < maxindex ==> #[trigger] bits_of(votevec)[j] == marked(idx, codes.take(k as int), j),
            totalvotes == count_mapped(idx, codes.take(k as int)),
            totalvotes <= k,
    {
        proof {
            assert(codes[k as int] == votes[k as int]@);
            assert(codes.take(k + 1) == codes.take(k as int).push(codes[k as int]));
            assert(codes.take(k + 1).drop_last() == codes.take(k as int));
            assert forall|j: int| 0 <= j < maxindex implies
                marked(idx, codes.take(k + 1), j) == (marked(idx, codes.take(k as int), j) || idx(codes[k as int]) == Some(j as usize)) by {
                lemma_marked_push(idx, codes.take(k as int), codes[k as int], j);
            }
        }
        match mapper.vote_to_index(&votes[k]) {
            Some(v) => {
                assert(idx(codes[k as int]) == Some(v));
                let ghost before = bits_of(votevec);
                set_bit(&mut votevec, v, true);
                totalvotes += 1;
                assert forall|j: int| 0 <= j < maxindex implies #[trigger] bits_of(votevec)[j] == marked(idx, codes.take(k + 1), j) by {
                    assert(before[j] == marked(idx, codes.take(k as int), j));
                    if j != v as int {
                        assert(Some(v) != Some(j as usize));
                    }
                }
            },
            None => {
                assert(idx(codes[k as int]) is None);
            },
        }
    }
    assert(codes.take(votes.len() as int) == codes);
    (votevec, totalvotes)
}

/// For one pair: the number of chosen codes of each ballot that chose both
/// submissions (each such ballot adds one over that number to the score's
/// numerator), and the number of ballots that showed both (`denominator`).
pub struct WeightedSupportVoteEntry {
    pub hits: Vec<usize>,
    pub denominator: u32,
}

pub open spec fn weighted_counters(v: Seq<WeightedSupportVoteEntry>) -> Seq<(Seq<usize>, int)> {
    Seq::new(v.len(), |i: int| (v[i].hits@, v[i].denominator as int))
}

/// The weighted support entry after one ballot that chose `total` known codes.
pub open spec fn weighted_entry(
    e: (Seq<usize>, int),
    pair: (usize, usize),
    sel: Seq<Seq<char>>,
    views: Seq<Seq<char>>,
    idx: spec_fn(Seq<char>) -> Option<usize>,
) -> (Seq<usize>, int) {
    (
        if both_marked(idx, sel, pair) { e.0.push(count_mapped(idx, sel) as usize) } else { e.0 },
        e.1 + one_if(both_marked(idx, views, pair)),
    )
}

/// Like the support, but a ballot that chose both counts one over the number
/// of submissions it chose.
pub struct WeightedSupportMetric<T> {
    vote_pair: Vec<WeightedSupportVoteEntry>,
    maxindex: usize,
    vote_type: PhantomData<T>,
}

impl<T: VoteSelector> WeightedSupportMetric<T> {
    /// The entries, one per pair.
    pub fn entries(&self) -> (r: &Vec<WeightedSupportVoteEntry>)
        ensures
            weighted_counters(r@) == self.counters(),
    {
        &self.vote_pair
    }

    fn total_columns() -> (r: Vec<VoteColumn>)
        ensures
            r@ == T::spec_columns().push(VoteColumn::Shown),
    {
        let mut vote_columns = T::get_columns();
        vote_columns.push(VoteColumn::Shown);
        vote_columns
    }
}

impl<T: VoteSelector> VoteMetric for WeightedSupportMetric<T> {
    type Counters = Seq<(Seq<usize>, int)>;

    closed spec fn counters(&self) -> Seq<(Seq<usize>, int)> {
        weighted_counters(self.vote_pair@)
    }

    closed spec fn spec_maxindex(&self) -> nat {
        self.maxindex as nat
    }

    closed spec fn spec_npairs(&self) -> nat {
        self.vote_pair@.len()
    }

    closed spec fn wf(&self) -> bool {
        self.maxindex <= max_bits()
    }

    open spec fn spec_columns() -> Seq<VoteColumn> {
        T::spec_columns().push(VoteColumn::Shown)
    }

    open spec fn initial(npairs: nat) -> Seq<(Seq<usize>, int)> {
        Seq::new(npairs, |i: int| (Seq::<usize>::empty(), 0int))
    }

    open spec fn step(
        c: Seq<(Seq<usize>, int)>,
        vote: Seq<Seq<Seq<char>>>,
        idx: spec_fn(Seq<char>) -> Option<usize>,
        pairs: Seq<(usize, usize)>,
    ) -> Seq<(Seq<usize>, int)> {
        Seq::new(c.len(), |i: int| weighted_entry(c[i], pairs[i], T::spec_votes(vote), vote.last(), idx))
    }

    open spec fn room(c: Seq<(Seq<usize>, int)>, n: nat) -> bool {
        forall|i: int| 0 <= i < c.len() ==> 0 <= (#[trigger] c[i]).1 && c[i].1 + n <= u32::MAX
    }

    proof fn lemma_room_initial(npairs: nat, n: nat) {
    }

    proof fn lemma_room_mono(c: Self::Counters, m: nat, n: nat) {
    }

    proof fn lemma_room_step(
        c: Seq<(Seq<usize>, int)>,
        vote: Seq<Seq<Seq<char>>>,
        idx: spec_fn(Seq<char>) -> Option<usize>,
        pairs: Seq<(usize, usize)>,
        n: nat,
    ) {
        let d = Self::step(c, vote, idx, pairs);
        assert forall|i: int| 0 <= i < d.len() implies 0 <= (#[trigger] d[i]).1 && d[i].1 + n <= u32::MAX by {
            assert(0 <= c[i].1 && c[i].1 + n + 1 <= u32::MAX);
        }
    }

    fn with_size(maxindex: usize, pairs: usize) -> (r: Self) {
        let mut vote_pair: Vec<WeightedSupportVoteEntry> = Vec::new();
        for i in 0..pairs
            invariant
                vote_pair@.len() == i,
                forall|j: int| 0 <= j < i ==> (#[trigger] vote_pair@[j]).hits@ == Seq::<usize>::empty() && vote_pair@[j].denominator == 0,
        {
            vote_pair.push(WeightedSupportVoteEntry { hits: Vec::new(), denominator: 0 });
        }
        let r = Self { vote_pair, maxindex, vote_type: PhantomData };
        assert(r.counters() =~= Self::initial(pairs as nat));
        r
    }

    fn get_columns() -> (r: Vec<VoteColumn>) {
        Self::total_columns()
    }

    fn process_vote<M: CodeIndexMapper, P: PairsIterator>(&mut self, vote: Vec<Vec<String>>, mapper: &M, pi: &P) {
        let ghost idx = index_fn(mapper);
        let ghost row = vote.deep_view();
        let ghost old_c = self.counters();
        let ghost old_vp = self.vote_pair@;
        let ncols = vote.len();
        let slice = vote.as_slice();
        assert(slice.deep_view() =~= row);
        let converted_votes = T::get_votes(slice);
        let views = &vote[ncols - 1];
        assert(views.deep_view() == row.last());
        let (votevec, totalvotes) = vote_to_bitvec_counted(mapper, &converted_votes, self.maxindex);
        let viewvec = vote_to_bitvec(mapper, views, self.maxindex);
        let pairs = pi.pairs();
        let ghost sel = T::spec_votes(row);
        for i in 0..pairs.len()
            invariant
                idx == index_fn(mapper),
                sel == T::spec_votes(row),
                totalvotes == count_mapped(idx, sel),
                pairs@ == pi.spec_pairs(),
                pairs_below(pairs@, self.maxindex as nat),
                self.vote_pair@.len() == pairs@.len(),
                old_c.len() == pairs@.len(),
                Self::room(old_c, 1),
                self.maxindex <= max_bits(),
                bits_of(votevec).len() == self.maxindex,
                bits_of(viewvec).len() == self.maxindex,
                forall|j: int| 0 <= j < self.maxindex ==> #[trigger] bits_of(votevec)[j] == marked(idx, sel, j),
                forall|j: int| 0 <= j < self.maxindex ==> #[trigger] bits_of(viewvec)[j] == marked(idx, row.last(), j),
                old_c == weighted_counters(old_vp),
                row.len() >= 1,
                forall|j: int| 0 <= j < i ==> ((#[trigger] self.vote_pair@[j]).hits@, self.vote_pair@[j].denominator as int) == weighted_entry(old_c[j], pairs@[j], sel, row.last(), idx),
                forall|j: int| i <= j < pairs@.len() ==> (#[trigger] self.vote_pair@[j]).hits@ == old_vp[j].hits@ && self.vote_pair@[j].denominator == old_vp[j].denominator,
        {
            let (a, b) = pairs[i];
            assert(pairs@[i as int].0 < self.maxindex && pairs@[i as int].1 < self.maxindex);
            let voteboth = get_bit(&votevec, a) && get_bit(&votevec, b);
            let viewboth = get_bit(&viewvec, a) && get_bit(&viewvec, b);
            assert(old_c[i as int] == (old_vp[i as int].hits@, old_vp[i as int].denominator as int));
            assert(0 <= old_c[i as int].1 && old_c[i as int].1 + 1 <= u32::MAX);
            let entry = &mut self.vote_pair[i];
            if viewboth {
                entry.denominator += 1;
            }
            if voteboth {
                entry.hits.push(totalvotes);
            }
        }
        assert(self.counters() =~= Self::step(old_c, row, idx, pi.spec_pairs()));
    }
}


/// Every Jaccard entry counts no more ballots that chose both submissions than
/// ballots it counts at all, so its score stays between zero and one; one more
/// ballot keeps that.
pub proof fn lemma_jaccard_step_bounded<T: VoteSelector>(
    c: Seq<(int, int)>,
    vote: Seq<Seq<Seq<char>>>,
    idx: spec_fn(Seq<char>) -> Option<usize>,
    pairs: Seq<(usize, usize)>,
)
    requires
        jaccard_bounded(c),
    ensures
        jaccard_bounded(JaccardVoteMetric::<T>::step(c, vote, idx, pairs)),
{
    let d = JaccardVoteMetric::<T>::step(c, vote, idx, pairs);
    assert forall|i: int| 0 <= i < d.len() implies 0 <= (#[trigger] d[i]).0 <= d[i].1 by {
        assert(0 <= c[i].0 <= c[i].1);
    }
}

/// Every Jaccard entry counts no more ballots that chose both submissions than
/// ballots it counts at all.
pub open spec fn jaccard_bounded(c: Seq<(int, int)>) -> bool {
    forall|i: int| 0 <= i < c.len() ==> 0 <= (#[trigger] c[i]).0 <= c[i].1
}

/// In every lift entry the ballots that chose both submissions are among those
/// that chose each, and those are among the ballots that showed both.
pub open spec fn lift_bounded(c: Seq<(int, int, int, int)>) -> bool {
    forall|i: int| 0 <= i < c.len() ==> {
        &&& 0 <= (#[trigger] c[i]).2
        &&& c[i].2 <= c[i].0 <= c[i].3
        &&& c[i].2 <= c[i].1 <= c[i].3
    }
}

/// In every lift entry the ballots that chose both submissions are among those
/// that chose each, and those are among the ballots that showed both; one more
/// ballot keeps that.
pub proof fn lemma_lift_step_bounded<T: VoteSelector>(
    c: Seq<(int, int, int, int)>,
    vote: Seq<Seq<Seq<char>>>,
    idx: spec_fn(Seq<char>) -> Option<usize>,
    pairs: Seq<(usize, usize)>,
)
    requires
        lift_bounded(c),
    ensures
        lift_bounded(LiftVoteMetric::<T>::step(c, vote, idx, pairs)),
{
    let d = LiftVoteMetric::<T>::step(c, vote, idx, pairs);
    assert forall|i: int| 0 <= i < d.len() implies {
        &&& 0 <= (#[trigger] d[i]).2
        &&& d[i].2 <= d[i].0 <= d[i].3
        &&& d[i].2 <= d[i].1 <= d[i].3
    } by {
        assert(0 <= c[i].2 && c[i].2 <= c[i].0 <= c[i].3 && c[i].2 <= c[i].1 <= c[i].3);
    }
}

proof fn lemma_quadratic_form(a: int, b: int, d: int, x: int, y: int)
    requires
        0 <= a,
        0 <= b,
        d * d <= a * b,
    ensures
        2 * (d * (x * y)) <= a * (y * y) + b * (x * x),
{
    let u = a * (y * y);
    let v = b * (x * x);
    let t = d * (x * y);
    let m = (x * x) * (y * y);
    assert(y * y >= 0 && x * x >= 0) by (nonlinear_arith);
    assert(u >= 0) by (nonlinear_arith)
        requires
            a >= 0,
            y * y >= 0,
            u == a * (y * y),
    ;
    assert(v >= 0) by (nonlinear_arith)
        requires
            b >= 0,
            x * x >= 0,
            v == b * (x * x),
    ;
    assert(m >= 0) by (nonlinear_arith)
        requires
            x * x >= 0,
            y * y >= 0,
            m == (x * x) * (y * y),
    ;
    assert(t * t == (d * d) * m) by (nonlinear_arith)
        requires
            t == d * (x * y),
            m == (x * x) * (y * y),
    ;
    assert(u * v == (a * b) * m) by (nonlinear_arith)
        requires
            u == a * (y * y),
            v == b * (x * x),
            m == (x * x) * (y * y),
    ;
    assert((d * d) * m <= (a * b) * m) by (nonlinear_arith)
        requires
            d * d <= a * b,
            m >= 0,
    ;
    assert(2 * t <= u + v) by (nonlinear_arith)
        requires
            u >= 0,
            v >= 0,
            t * t <= u * v,
    ;
}

/// Cauchy-Schwarz for the cosine counters: the squared dot product never
/// exceeds the product of the squared norms, so the cosine score stays
/// between minus one and one; one more ballot keeps that.
pub proof fn lemma_cosine_step_bounded(
    c: Seq<(int, int, int)>,
    vote: Seq<Seq<Seq<char>>>,
    idx: spec_fn(Seq<char>) -> Option<usize>,
    pairs: Seq<(usize, usize)>,
)
    requires
        forall|i: int| 0 <= i < c.len() ==> 0 <= (#[trigger] c[i]).1 && 0 <= c[i].2 && c[i].0 * c[i].0 <= c[i].1 * c[i].2,
    ensures
        forall|i: int| 0 <= i < c.len() ==> {
            let e = #[trigger] CosineVoteMetric::step(c, vote, idx, pairs)[i];
            0 <= e.1 && 0 <= e.2 && e.0 * e.0 <= e.1 * e.2
        },
{
    assert forall|i: int| 0 <= i < c.len() implies {
        let e = #[trigger] CosineVoteMetric::step(c, vote, idx, pairs)[i];
        0 <= e.1 && 0 <= e.2 && e.0 * e.0 <= e.1 * e.2
    } by {
        let e = CosineVoteMetric::step(c, vote, idx, pairs)[i];
        let p = pairs[i];
        if both_marked(idx, vote[3], p) {
            let x = slot_weight(idx, vote, p.0 as int);
            let y = slot_weight(idx, vote, p.1 as int);
            let (d, a, b) = (c[i].0, c[i].1, c[i].2);
            assert(x * x >= 0 && y * y >= 0) by (nonlinear_arith);
            lemma_quadratic_form(a, b, d, x, y);
            let p2 = x * y;
            let xx = x * x;
            let yy = y * y;
            assert(p2 * p2 == xx * yy) by (nonlinear_arith)
                requires
                    p2 == x * y,
                    xx == x * x,
                    yy == y * y,
            ;
            assert((d + p2) * (d + p2) == d * d + 2 * (d * p2) + p2 * p2) by (nonlinear_arith);
            assert((a + xx) * (b + yy) == a * b + a * yy + b * xx + xx * yy) by (nonlinear_arith);
            assert((d + p2) * (d + p2) <= (a + xx) * (b + yy));
            assert(e == (d + x * y, a + x * x, b + y * y));
        }
    }
}

/// Every total recorded by the weighted support is at least one, so the score
/// never divides by zero; one more ballot keeps that.
pub proof fn lemma_weighted_step_positive<T: VoteSelector>(
    c: Seq<(Seq<usize>, int)>,
    vote: Seq<Seq<Seq<char>>>,
    idx: spec_fn(Seq<char>) -> Option<usize>,
    pairs: Seq<(usize, usize)>,
)
    requires
        forall|i: int, k: int| 0 <= i < c.len() && 0 <= k < c[i].0.len() ==> #[trigger] c[i].0[k] >= 1,
        count_mapped(idx, T::spec_votes(vote)) <= usize::MAX,
    ensures
        forall|i: int, k: int| 0 <= i < c.len() && 0 <= k < WeightedSupportMetric::<T>::step(c, vote, idx, pairs)[i].0.len()
            ==> #[trigger] WeightedSupportMetric::<T>::step(c, vote, idx, pairs)[i].0[k] >= 1,
{
    let sel = T::spec_votes(vote);
    assert forall|i: int, k: int| 0 <= i < c.len() && 0 <= k < WeightedSupportMetric::<T>::step(c, vote, idx, pairs)[i].0.len()
        implies #[trigger] WeightedSupportMetric::<T>::step(c, vote, idx, pairs)[i].0[k] >= 1 by {
        let p = pairs[i];
        if both_marked(idx, sel, p) && k == c[i].0.len() {
            let w = choose|w: int| 0 <= w < sel.len() && #[trigger] idx(sel[w]) == Some(p.0 as usize);
            lemma_count_mapped_positive(idx, sel, w);
        }
    }
}

/// A mapped code makes the count at least one.
pub proof fn lemma_count_mapped_positive(idx: spec_fn(Seq<char>) -> Option<usize>, codes: Seq<Seq<char>>, w: int)
    requires
        0 <= w < codes.len(),
        idx(codes[w]) is Some,
    ensures
        count_mapped(idx, codes) >= 1,
    decreases codes.len(),
{
    if w < codes.len() - 1 {
        assert(codes.drop_last()[w] == codes[w]);
        lemma_count_mapped_positive(idx, codes.drop_last(), w);
    }
}

/// Whether slot `j` is among the submissions the ballot `vote` chose, as
/// selector `S` reads the ballot.
pub open spec fn chose<S: VoteSelector>(idx: spec_fn(Seq<char>) -> Option<usize>, vote: Seq<Seq<Seq<char>>>, j: int) -> bool {
    marked(idx, S::spec_votes(vote), j)
}

/// Whether the ballot `vote` showed both submissions of `pair` (its last
/// column lists the shown ones).
pub open spec fn showed_both(idx: spec_fn(Seq<char>) -> Option<usize>, vote: Seq<Seq<Seq<char>>>, pair: (usize, usize)) -> bool {
    marked(idx, vote.last(), pair.0 as int) && marked(idx, vote.last(), pair.1 as int)
}

/// What one ballot does to the support counters of pair `i`: the numerator
/// goes up by one exactly when the ballot chose both submissions, and the
/// denominator by one exactly when it showed both.
pub proof fn lemma_support_counts<S: VoteSelector>(
    c: Seq<(int, int)>,
    vote: Seq<Seq<Seq<char>>>,
    idx: spec_fn(Seq<char>) -> Option<usize>,
    pairs: Seq<(usize, usize)>,
    i: int,
)
    requires
        0 <= i < c.len(),
    ensures
        SupportVoteMetric::<S>::step(c, vote, idx, pairs).len() == c.len(),
        SupportVoteMetric::<S>::step(c, vote, idx, pairs)[i].0
            == c[i].0 + (if chose::<S>(idx, vote, pairs[i].0 as int) && chose::<S>(idx, vote, pairs[i].1 as int) { 1int } else { 0int }),
        SupportVoteMetric::<S>::step(c, vote, idx, pairs)[i].1
            == c[i].1 + (if showed_both(idx, vote, pairs[i]) { 1int } else { 0int }),
{
}

/// What one ballot does to the Jaccard counters of pair `i`: a ballot that
/// showed both submissions and chose at least one of them adds one to the
/// denominator, and one to the numerator when it chose both; a ballot that
/// did not show both, or showed both and chose neither, leaves the entry as
/// it was. Over the ballots that showed both, the numerator therefore counts
/// those that chose both and the denominator those that chose either, so
/// their ratio is the Jaccard index |A and B| / |A or B|.
pub proof fn lemma_jaccard_counts<S: VoteSelector>(
    c: Seq<(int, int)>,
    vote: Seq<Seq<Seq<char>>>,
    idx: spec_fn(Seq<char>) -> Option<usize>,
    pairs: Seq<(usize, usize)>,
    i: int,
)
    requires
        0 <= i < c.len(),
    ensures
        JaccardVoteMetric::<S>::step(c, vote, idx, pairs).len() == c.len(),
        !showed_both(idx, vote, pairs[i]) ==> JaccardVoteMetric::<S>::step(c, vote, idx, pairs)[i] == c[i],
        !chose::<S>(idx, vote, pairs[i].0 as int) && !chose::<S>(idx, vote, pairs[i].1 as int)
            ==> JaccardVoteMetric::<S>::step(c, vote, idx, pairs)[i] == c[i],
        showed_both(idx, vote, pairs[i]) && (chose::<S>(idx, vote, pairs[i].0 as int) || chose::<S>(idx, vote, pairs[i].1 as int))
            ==> JaccardVoteMetric::<S>::step(c, vote, idx, pairs)[i].1 == c[i].1 + 1,
        JaccardVoteMetric::<S>::step(c, vote, idx, pairs)[i].0 == c[i].0 + (if showed_both(idx, vote, pairs[i])
            && chose::<S>(idx, vote, pairs[i].0 as int) && chose::<S>(idx, vote, pairs[i].1 as int) { 1int } else { 0int }),
{
}

/// What one ballot does to the lift counters of pair `i`: every ballot that
/// showed both submissions adds one to `views`, whether or not it chose
/// either; among those, one that chose the first adds one to `a`, one that
/// chose the second adds one to `b`, one that chose both adds one to `joint`.
/// A ballot that did not show both leaves the entry as it was.
pub proof fn lemma_lift_counts<S: VoteSelector>(
    c: Seq<(int, int, int, int)>,
    vote: Seq<Seq<Seq<char>>>,
    idx: spec_fn(Seq<char>) -> Option<usize>,
    pairs: Seq<(usize, usize)>,
    i: int,
)
    requires
        0 <= i < c.len(),
    ensures
        LiftVoteMetric::<S>::step(c, vote, idx, pairs).len() == c.len(),
        LiftVoteMetric::<S>::step(c, vote, idx, pairs)[i].3
            == c[i].3 + (if showed_both(idx, vote, pairs[i]) { 1int } else { 0int }),
        LiftVoteMetric::<S>::step(c, vote, idx, pairs)[i].0
            == c[i].0 + (if showed_both(idx, vote, pairs[i]) && chose::<S>(idx, vote, pairs[i].0 as int) { 1int } else { 0int }),
        LiftVoteMetric::<S>::step(c, vote, idx, pairs)[i].1
            == c[i].1 + (if showed_both(idx, vote, pairs[i]) && chose::<S>(idx, vote, pairs[i].1 as int) { 1int } else { 0int }),
        LiftVoteMetric::<S>::step(c, vote, idx, pairs)[i].2 == c[i].2 + (if showed_both(idx, vote, pairs[i])
            && chose::<S>(idx, vote, pairs[i].0 as int) && chose::<S>(idx, vote, pairs[i].1 as int) { 1int } else { 0int }),
{
}

/// What one ballot does to the weighted support counters of pair `i`: every
/// ballot that showed both submissions adds one to the denominator, whether or
/// not it chose either; a ballot that chose both records the number of known
/// submissions it chose (its share is one over that number), and any other
/// ballot records nothing.
pub proof fn lemma_weighted_counts<S: VoteSelector>(
    c: Seq<(Seq<usize>, int)>,
    vote: Seq<Seq<Seq<char>>>,
    idx: spec_fn(Seq<char>) -> Option<usize>,
    pairs: Seq<(usize, usize)>,
    i: int,
)
    requires
        0 <= i < c.len(),
    ensures
        WeightedSupportMetric::<S>::step(c, vote, idx, pairs).len() == c.len(),
        WeightedSupportMetric::<S>::step(c, vote, idx, pairs)[i].1
            == c[i].1 + (if showed_both(idx, vote, pairs[i]) { 1int } else { 0int }),
        chose::<S>(idx, vote, pairs[i].0 as int) && chose::<S>(idx, vote, pairs[i].1 as int)
            ==> WeightedSupportMetric::<S>::step(c, vote, idx, pairs)[i].0
                == c[i].0.push(count_mapped(idx, S::spec_votes(vote)) as usize),
        !(chose::<S>(idx, vote, pairs[i].0 as int) && chose::<S>(idx, vote, pairs[i].1 as int))
            ==> WeightedSupportMetric::<S>::step(c, vote, idx, pairs)[i].0 == c[i].0,
{
}

/// The cosine weight of a submission in a ballot: an up-vote weighs 4 whatever
/// the other flags; otherwise an expansion weighs 1; otherwise a down-vote
/// weighs -4; a submission with none of them weighs 0.
pub proof fn lemma_cosine_weight_values(up: bool, expanded: bool, down: bool)
    ensures
        up ==> spec_cosine_weight(up, expanded, down) == 4,
        !up && expanded ==> spec_cosine_weight(up, expanded, down) == 1,
        !up && !expanded && down ==> spec_cosine_weight(up, expanded, down) == -4,
        !up && !expanded && !down ==> spec_cosine_weight(up, expanded, down) == 0,
{
}

/// What one ballot `[up, expanded, down, shown]` does to the cosine counters
/// of pair `i`: a ballot that did not show both submissions leaves the entry
/// as it was; one that showed both adds the product of the two weights to
/// `dotprod` and the square of each weight to `a` and `b`, where a weight is 4
/// for an up-voted submission, else 1 for an expanded one, else -4 for a
/// down-voted one, else 0.
pub proof fn lemma_cosine_counts(
    c: Seq<(int, int, int)>,
    vote: Seq<Seq<Seq<char>>>,
    idx: spec_fn(Seq<char>) -> Option<usize>,
    pairs: Seq<(usize, usize)>,
    i: int,
    wa: int,
    wb: int,
)
    requires
        0 <= i < c.len(),
        wa == (if marked(idx, vote[0], pairs[i].0 as int) { 4int } else if marked(idx, vote[1], pairs[i].0 as int) { 1int }
            else if marked(idx, vote[2], pairs[i].0 as int) { -4int } else { 0int }),
        wb == (if marked(idx, vote[0], pairs[i].1 as int) { 4int } else if marked(idx, vote[1], pairs[i].1 as int) { 1int }
            else if marked(idx, vote[2], pairs[i].1 as int) { -4int } else { 0int }),
    ensures
        CosineVoteMetric::step(c, vote, idx, pairs).len() == c.len(),
        !(marked(idx, vote[3], pairs[i].0 as int) && marked(idx, vote[3], pairs[i].1 as int))
            ==> CosineVoteMetric::step(c, vote, idx, pairs)[i] == c[i],
        marked(idx, vote[3], pairs[i].0 as int) && marked(idx, vote[3], pairs[i].1 as int)
            ==> CosineVoteMetric::step(c, vote, idx, pairs)[i] == (c[i].0 + wa * wb, c[i].1 + wa * wa, c[i].2 + wb * wb),
{
}

/// The expanded-without-down selector chooses exactly the expanded
/// submissions that were not down-voted: a code is among its choices if and
/// only if it is in the ballot's expanded column and not in its down column.
pub proof fn lemma_expanded_without_down_choice(dbres: Seq<Seq<Seq<char>>>, c: Seq<char>)
    ensures
        ExpandedWithoutDownVoteSelector::spec_votes(dbres).contains(c)
            <==> (dbres[0].contains(c) && !dbres[1].contains(c)),
{
    lemma_without_contains(dbres[0], dbres[1], c);
}

proof fn lemma_without_contains(s: Seq<Seq<char>>, removed: Seq<Seq<char>>, c: Seq<char>)
    ensures
        without(s, removed).contains(c) <==> (s.contains(c) && !removed.contains(c)),
    decreases s.len(),
{
    if s.len() > 0 {
        let init = s.drop_last();
        lemma_without_contains(init, removed, c);
        let rest = without(init, removed);
        if s.contains(c) && !removed.contains(c) {
            let k = choose|k: int| 0 <= k < s.len() && s[k] == c;
            if k < init.len() {
                assert(init[k] == c);
                let j = choose|j: int| 0 <= j < rest.len() && rest[j] == c;
                if !removed.contains(s.last()) {
                    assert(rest.push(s.last())[j] == c);
                }
            } else {
                assert(rest.push(s.last())[rest.len() as int] == c);
            }
        }
        if without(s, removed).contains(c) {
            let j = choose|j: int| 0 <= j < without(s, removed).len() && without(s, removed)[j] == c;
            if j < rest.len() {
                assert(rest[j] == c);
                let k = choose|k: int| 0 <= k < init.len() && init[k] == c;
                assert(s[k] == c);
            } else {
                assert(s[s.len() - 1] == c);
            }
        }
    }
}

} // verus!
