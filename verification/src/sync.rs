//! What a sync of a submission source writes: which stored submissions go,
//! which come, and which change.
use vstd::prelude::*;
use crate::roles::str_eq;
use crate::schedule::{
    SubmissionRecord, SubmissionStartEnd, SubmissionTimeUpdate, Timestamp, lookup, time_update,
    lemma_time_update_settles,
};
use crate::mutation::Mutation;

verus! {

/// `markdown::to_html` with the default options: the HTML of a CommonMark
/// text, a function of the text alone.
pub uninterp spec fn markdown_html(s: Seq<char>) -> Seq<char>;

/// `markdown::to_html`: claimed only to return the HTML that the crate renders
/// for its argument (the rendering itself is not stated). With the default
/// options the crate never fails.
#[verifier::external_body]
pub(crate) fn to_html(s: &str) -> (r: String)
    ensures
        r@ == markdown_html(s@),
{
    markdown::to_html(s)
}

/// One submission as the source lists it.
pub struct SubmissionSyncItem {
    pub title: String,
    pub abstract_text: String,
    pub code: String,
    pub schedule_time: Option<SubmissionStartEnd>,
}

/// The submission types of a source, by number.
pub struct SubmissionTypesField {
    pub items: Vec<(i32, String)>,
}

/// A source's listing: its submissions by code, and optionally its submission
/// types.
pub struct SyncSourceRequest {
    pub source_id: i32,
    pub submission_types: Option<Vec<(i32, String)>>,
    pub submissions: Vec<(String, SubmissionSyncItem)>,
}

/// The submission types stored with the source.
pub enum StoredTypes {
    Missing,
    Unreadable,
    Types(Vec<(i32, String)>),
}

/// A submission to insert.
pub struct NewSubmission {
    pub code: String,
    pub title: String,
    pub abstract_text: String,
    pub html: String,
    pub source: i32,
    pub start: Option<Timestamp>,
    pub end: Option<Timestamp>,
    pub created: Timestamp,
    pub updated: Timestamp,
}

/// A change to a stored submission: new text (and times), or new times only.
pub enum SubmissionChange {
    Content {
        code: String,
        title: String,
        abstract_text: String,
        html: String,
        source: i32,
        start: Option<Timestamp>,
        end: Option<Timestamp>,
        updated: Timestamp,
    },
    Time(SubmissionTimeUpdate),
}

/// Everything a sync writes.
pub struct SyncPlan {
    pub to_delete: Vec<String>,
    pub to_create: Vec<NewSubmission>,
    pub updates: Vec<SubmissionChange>,
    /// The submissions themselves changed, so the event's content is rebuilt.
    pub real_update: bool,
    /// The submission types changed, so the source is rewritten.
    pub force_update: bool,
    /// Anything is written at all.
    pub write: bool,
}

pub open spec fn start_of(t: Option<SubmissionStartEnd>) -> Option<Timestamp> {
    match t {
        Some(t) => Some(t.start),
        None => None,
    }
}

pub open spec fn end_of(t: Option<SubmissionStartEnd>) -> Option<Timestamp> {
    match t {
        Some(t) => Some(t.end),
        None => None,
    }
}

/// The positions `i < n` for which `keep` holds, in order.
pub open spec fn kept_positions(n: nat, keep: spec_fn(int) -> bool) -> Seq<int>
    decreases n,
{
    if n == 0 {
        Seq::empty()
    } else {
        let rest = kept_positions((n - 1) as nat, keep);
        if keep(n - 1) { rest.push(n - 1) } else { rest }
    }
}

pub proof fn lemma_kept_positions(n: nat, keep: spec_fn(int) -> bool)
    ensures
        kept_positions(n, keep).len() <= n,
        forall|k: int| 0 <= k < kept_positions(n, keep).len() ==> 0 <= #[trigger] kept_positions(n, keep)[k] < n && keep(kept_positions(n, keep)[k]),
        forall|i: int| 0 <= i < n && #[trigger] keep(i) ==> exists|k: int| 0 <= k < kept_positions(n, keep).len() && kept_positions(n, keep)[k] == i,
    decreases n,
{
    if n > 0 {
        lemma_kept_positions((n - 1) as nat, keep);
        let rest = kept_positions((n - 1) as nat, keep);
        assert forall|i: int| 0 <= i < n && #[trigger] keep(i) implies exists|k: int| 0 <= k < kept_positions(n, keep).len() && kept_positions(n, keep)[k] == i by {
            if i == n - 1 {
                assert(kept_positions(n, keep)[rest.len() as int] == i);
            } else {
                let k = choose|k: int| 0 <= k < rest.len() && rest[k] == i;
                assert(kept_positions(n, keep)[k] == i);
            }
        }
    }
}

/// A stored submission with this code exists.
pub open spec fn stored(current: Seq<SubmissionRecord>, code: Seq<char>) -> bool {
    exists|i: int| 0 <= i < current.len() && #[trigger] current[i].code@ == code
}

/// The listed text differs from the stored text.
pub open spec fn content_changed(old: SubmissionRecord, item: SubmissionSyncItem) -> bool {
    old.abstract_text@ != item.abstract_text@ || old.title@ != item.title@
}

/// Whether the stored submission at position `i` changes.
pub open spec fn changes(current: Seq<SubmissionRecord>, new: Seq<(String, SubmissionSyncItem)>, i: int) -> bool {
    match lookup(new, current[i].code@) {
        Some(item) => content_changed(current[i], item) || time_update(current[i].start, current[i].end, item.schedule_time) is Some,
        None => false,
    }
}

pub open spec fn delete_positions(current: Seq<SubmissionRecord>, new: Seq<(String, SubmissionSyncItem)>) -> Seq<int> {
    kept_positions(current.len(), |i: int| lookup(new, current[i].code@) is None)
}

pub open spec fn create_positions(current: Seq<SubmissionRecord>, new: Seq<(String, SubmissionSyncItem)>) -> Seq<int> {
    kept_positions(new.len(), |j: int| !stored(current, new[j].0@))
}

pub open spec fn update_positions(current: Seq<SubmissionRecord>, new: Seq<(String, SubmissionSyncItem)>) -> Seq<int> {
    kept_positions(current.len(), |i: int| changes(current, new, i))
}

/// The insert of the listed submission `(key, item)`.
pub open spec fn creates(n: NewSubmission, key: String, item: SubmissionSyncItem, source_id: i32, now: Timestamp) -> bool {
    &&& n.code@ == key@
    &&& n.title@ == item.title@
    &&& n.abstract_text@ == item.abstract_text@
    &&& n.html@ == markdown_html(item.abstract_text@)
    &&& n.source == source_id
    &&& n.start == start_of(item.schedule_time)
    &&& n.end == end_of(item.schedule_time)
    &&& n.created == now
    &&& n.updated == now
}

/// The change of the stored submission `old` against its listing `item`.
pub open spec fn changes_to(c: SubmissionChange, old: SubmissionRecord, item: SubmissionSyncItem, source_id: i32, now: Timestamp) -> bool {
    if content_changed(old, item) {
        c matches SubmissionChange::Content { code, title, abstract_text, html, source, start, end, updated }
            && code@ == old.code@ && title@ == item.title@ && abstract_text@ == item.abstract_text@
            && html@ == markdown_html(item.abstract_text@) && source == source_id
            && start == start_of(item.schedule_time) && end == end_of(item.schedule_time) && updated == now
    } else {
        c matches SubmissionChange::Time(u) && u.code@ == old.code@ && u.source == source_id
            && time_update(old.start, old.end, item.schedule_time) == Some((u.start, u.end))
    }
}

/// The submission types as a map comparison does it: the same number of types,
/// and each stored type listed with the same name.
pub open spec fn lookup_type(types: Seq<(i32, String)>, key: i32) -> Option<Seq<char>>
    decreases types.len(),
{
    if types.len() == 0 {
        None
    } else if types[0].0 == key {
        Some(types[0].1@)
    } else {
        lookup_type(types.drop_first(), key)
    }
}

pub open spec fn same_types(stored: Seq<(i32, String)>, listed: Seq<(i32, String)>) -> bool {
    stored.len() == listed.len() && forall|i: int| 0 <= i < stored.len() ==> lookup_type(listed, #[trigger] stored[i].0) == Some(stored[i].1@)
}

/// Whether the listed submission types force the source to be rewritten.
pub open spec fn types_force_update(listed: Option<Seq<(i32, String)>>, stored: StoredTypes) -> bool {
    match listed {
        None => false,
        Some(t) => match stored {
            StoredTypes::Missing => true,
            StoredTypes::Unreadable => true,
            StoredTypes::Types(old) => !same_types(old@, t),
        },
    }
}

/// The name listed for type `key`.
fn find_type(types: &Vec<(i32, String)>, key: i32) -> (r: Option<&String>)
    ensures
        match r {
            Some(s) => lookup_type(types@, key) == Some(s@),
            None => lookup_type(types@, key) is None,
        },
{
    let mut i: usize = 0;
    assert(types@.skip(0) == types@);
    while i < types.len()
        invariant
            i <= types@.len(),
            lookup_type(types@, key) == lookup_type(types@.skip(i as int), key),
        decreases types@.len() - i,
    {
        assert(types@.skip(i as int).drop_first() == types@.skip(i + 1));
        assert(types@.skip(i as int)[0] == types@[i as int]);
        if types[i].0 == key {
            return Some(&types[i].1);
        }
        i += 1;
    }
    None
}

/// Whether two lists of submission types are the same map.
pub fn types_equal(stored: &Vec<(i32, String)>, listed: &Vec<(i32, String)>) -> (r: bool)
    ensures
        r == same_types(stored@, listed@),
{
    if stored.len() != listed.len() {
        return false;
    }
    for i in 0..stored.len()
        invariant
            stored@.len() == listed@.len(),
            forall|k: int| 0 <= k < i ==> lookup_type(listed@, #[trigger] stored@[k].0) == Some(stored@[k].1@),
    {
        match find_type(listed, stored[i].0) {
            Some(name) => {
                if !str_eq(name.as_str(), stored[i].1.as_str()) {
                    return false;
                }
            },
            None => {
                return false;
            },
        }
    }
    true
}

/// The listing entry for `code`.
pub fn find_item<'a>(items: &'a Vec<(String, SubmissionSyncItem)>, code: &String) -> (r: Option<&'a SubmissionSyncItem>)
    ensures
        match r {
            Some(t) => lookup(items@, code@) == Some(*t),
            None => lookup(items@, code@) is None,
        },
{
    let mut i: usize = 0;
    assert(items@.skip(0) == items@);
    while i < items.len()
        invariant
            i <= items@.len(),
            lookup(items@, code@) == lookup(items@.skip(i as int), code@),
        decreases items@.len() - i,
    {
        assert(items@.skip(i as int).drop_first() == items@.skip(i + 1));
        assert(items@.skip(i as int)[0] == items@[i as int]);
        if str_eq(items[i].0.as_str(), code.as_str()) {
            return Some(&items[i].1);
        }
        i += 1;
    }
    None
}

/// Whether a stored submission has this code.
pub fn is_stored(current: &Vec<SubmissionRecord>, code: &String) -> (r: bool)
    ensures
        r == stored(current@, code@),
{
    for i in 0..current.len()
        invariant
            forall|k: int| 0 <= k < i ==> current@[k].code@ != code@,
    {
        if str_eq(current[i].code.as_str(), code.as_str()) {
            assert(current@[i as int].code@ == code@);
            return true;
        }
    }
    false
}


/// Some stored submission gets new text.
pub open spec fn any_content_change(current: Seq<SubmissionRecord>, new: Seq<(String, SubmissionSyncItem)>) -> bool {
    exists|i: int| 0 <= i < current.len() && #[trigger] content_change_at(current, new, i)
}

/// The stored submission at position `i` is listed with other text.
pub open spec fn content_change_at(current: Seq<SubmissionRecord>, new: Seq<(String, SubmissionSyncItem)>, i: int) -> bool {
    match lookup(new, current[i].code@) {
        Some(item) => content_changed(current[i], item),
        None => false,
    }
}

pub open spec fn listed_types(req: &SyncSourceRequest) -> Option<Seq<(i32, String)>> {
    match &req.submission_types {
        Some(v) => Some(v@),
        None => None,
    }
}

/// The plan of a sync: the stored submissions missing from the listing are
/// deleted, the listed submissions not stored are created, the stored ones that
/// are listed with other text get the new text (and times), those with the same
/// text get new times when `time_update` says so; the event content is rebuilt
/// when submissions were deleted, created or got new text; and anything is
/// written when something changes or the listed submission types differ from
/// the stored ones.
pub open spec fn plan_of(
    plan: &SyncPlan,
    req: &SyncSourceRequest,
    current: Seq<SubmissionRecord>,
    stored_types: StoredTypes,
    now: Timestamp,
) -> bool {
    let new = req.submissions@;
    let dp = delete_positions(current, new);
    let cp = create_positions(current, new);
    let up = update_positions(current, new);
    &&& plan.to_delete@.len() == dp.len()
    &&& forall|k: int| 0 <= k < dp.len() ==> (#[trigger] plan.to_delete@[k])@ == current[dp[k]].code@
    &&& plan.to_create@.len() == cp.len()
    &&& forall|k: int| 0 <= k < cp.len() ==> creates(#[trigger] plan.to_create@[k], new[cp[k]].0, new[cp[k]].1, req.source_id, now)
    &&& plan.updates@.len() == up.len()
    &&& forall|k: int| 0 <= k < up.len() ==> changes_to(#[trigger] plan.updates@[k], current[up[k]], lookup(new, current[up[k]].code@)->0, req.source_id, now)
    &&& plan.real_update == (any_content_change(current, new) || dp.len() > 0 || cp.len() > 0)
    &&& plan.force_update == types_force_update(listed_types(req), stored_types)
    &&& plan.write == (dp.len() > 0 || cp.len() > 0 || up.len() > 0 || plan.force_update)
}

/// The listing has an entry for `code`.
pub open spec fn listed(new: Seq<(String, SubmissionSyncItem)>, code: Seq<char>) -> bool {
    exists|j: int| 0 <= j < new.len() && #[trigger] new[j].0@ == code
}

/// The plan deletes the stored submission `code`.
pub open spec fn deletes(plan: &SyncPlan, code: Seq<char>) -> bool {
    exists|k: int| 0 <= k < plan.to_delete@.len() && (#[trigger] plan.to_delete@[k])@ == code
}

/// The plan inserts a submission `code`.
pub open spec fn inserts(plan: &SyncPlan, code: Seq<char>) -> bool {
    exists|k: int| 0 <= k < plan.to_create@.len() && (#[trigger] plan.to_create@[k]).code@ == code
}

/// A code has an entry exactly when `lookup` finds one.
pub proof fn lemma_lookup_listed<V>(entries: Seq<(String, V)>, code: Seq<char>)
    ensures
        (lookup(entries, code) is Some) <==> exists|j: int| 0 <= j < entries.len() && #[trigger] entries[j].0@ == code,
    decreases entries.len(),
{
    if entries.len() > 0 {
        lemma_lookup_listed(entries.drop_first(), code);
        if lookup(entries, code) is Some && entries[0].0@ != code {
            let j = choose|j: int| 0 <= j < entries.drop_first().len() && #[trigger] entries.drop_first()[j].0@ == code;
            assert(entries[j + 1].0@ == code);
        }
        if exists|j: int| 0 <= j < entries.len() && #[trigger] entries[j].0@ == code {
            let j = choose|j: int| 0 <= j < entries.len() && #[trigger] entries[j].0@ == code;
            if j > 0 {
                assert(entries.drop_first()[j - 1].0@ == code);
            }
        }
    }
}

/// After a sync the source holds exactly the listed submissions: a code is
/// stored and kept, or inserted, if and only if the listing has it.
pub proof fn lemma_sync_converges(
    plan: &SyncPlan,
    req: &SyncSourceRequest,
    current: Seq<SubmissionRecord>,
    stored_types: StoredTypes,
    now: Timestamp,
    code: Seq<char>,
)
    requires
        plan_of(plan, req, current, stored_types, now),
    ensures
        ((stored(current, code) && !deletes(plan, code)) || inserts(plan, code)) <==> listed(req.submissions@, code),
{
    let new = req.submissions@;
    let dkeep = |i: int| lookup(new, current[i].code@) is None;
    let ckeep = |j: int| !stored(current, new[j].0@);
    lemma_kept_positions(current.len(), dkeep);
    lemma_kept_positions(new.len(), ckeep);
    lemma_lookup_listed(new, code);
    let dp = delete_positions(current, new);
    let cp = create_positions(current, new);
    assert(dp == kept_positions(current.len(), dkeep));
    assert(cp == kept_positions(new.len(), ckeep));
    if stored(current, code) && !deletes(plan, code) && !listed(new, code) {
        let i = choose|i: int| 0 <= i < current.len() && #[trigger] current[i].code@ == code;
        assert(dkeep(i));
        let k = choose|k: int| 0 <= k < dp.len() && dp[k] == i;
        assert(plan.to_delete@[k]@ == code);
    }
    if inserts(plan, code) {
        let k = choose|k: int| 0 <= k < plan.to_create@.len() && (#[trigger] plan.to_create@[k]).code@ == code;
        assert(creates(plan.to_create@[k], new[cp[k]].0, new[cp[k]].1, req.source_id, now));
        assert(new[cp[k]].0@ == code);
    }
    if listed(new, code) && stored(current, code) && deletes(plan, code) {
        let k = choose|k: int| 0 <= k < plan.to_delete@.len() && (#[trigger] plan.to_delete@[k])@ == code;
        assert(dkeep(dp[k]));
    }
    if listed(new, code) && !stored(current, code) {
        let j = choose|j: int| 0 <= j < new.len() && #[trigger] new[j].0@ == code;
        assert(ckeep(j));
        let k = choose|k: int| 0 <= k < cp.len() && cp[k] == j;
        assert(creates(plan.to_create@[k], new[cp[k]].0, new[cp[k]].1, req.source_id, now));
        assert(plan.to_create@[k].code@ == code);
    }
}

/// A stored submission with this title, text and times is stored as `item`
/// lists it: a sync asks nothing more of it.
pub open spec fn settled(title: Seq<char>, abstract_text: Seq<char>, start: Option<Timestamp>, end: Option<Timestamp>, item: SubmissionSyncItem) -> bool {
    &&& title == item.title@
    &&& abstract_text == item.abstract_text@
    &&& time_update(start, end, item.schedule_time) is None
}

/// The title, text and times of the stored submission `old` once `c` is
/// written.
pub open spec fn after_change(old: SubmissionRecord, c: SubmissionChange) -> (Seq<char>, Seq<char>, Option<Timestamp>, Option<Timestamp>) {
    match c {
        SubmissionChange::Content { title, abstract_text, start, end, .. } => (title@, abstract_text@, start, end),
        SubmissionChange::Time(u) => (old.title@, old.abstract_text@, u.start, u.end),
    }
}

/// Once a sync's writes are carried out, every listed submission is stored as
/// it is listed: each changed submission after its change, each inserted one,
/// and each listed one that the sync leaves alone.
pub proof fn lemma_sync_settles(
    plan: &SyncPlan,
    req: &SyncSourceRequest,
    current: Seq<SubmissionRecord>,
    stored_types: StoredTypes,
    now: Timestamp,
)
    requires
        plan_of(plan, req, current, stored_types, now),
    ensures
        forall|k: int| 0 <= k < plan.updates@.len() ==> {
            let old = current[update_positions(current, req.submissions@)[k]];
            let a = after_change(old, #[trigger] plan.updates@[k]);
            settled(a.0, a.1, a.2, a.3, lookup(req.submissions@, old.code@)->0)
        },
        forall|k: int| 0 <= k < plan.to_create@.len() ==> {
            let n = #[trigger] plan.to_create@[k];
            settled(n.title@, n.abstract_text@, n.start, n.end, req.submissions@[create_positions(current, req.submissions@)[k]].1)
        },
        forall|i: int| 0 <= i < current.len() && #[trigger] lookup(req.submissions@, current[i].code@) is Some
            && !changes(current, req.submissions@, i) ==>
            settled(current[i].title@, current[i].abstract_text@, current[i].start, current[i].end, lookup(req.submissions@, current[i].code@)->0),
{
    let new = req.submissions@;
    let up = update_positions(current, new);
    let cp = create_positions(current, new);
    lemma_kept_positions(current.len(), |i: int| changes(current, new, i));
    lemma_kept_positions(new.len(), |j: int| !stored(current, new[j].0@));
    assert forall|k: int| 0 <= k < plan.updates@.len() implies {
        let old = current[up[k]];
        let a = after_change(old, #[trigger] plan.updates@[k]);
        settled(a.0, a.1, a.2, a.3, lookup(new, old.code@)->0)
    } by {
        let old = current[up[k]];
        let item = lookup(new, old.code@)->0;
        assert(changes_to(plan.updates@[k], old, item, req.source_id, now));
        lemma_time_update_settles(old.start, old.end, item.schedule_time);
    }
    assert forall|k: int| 0 <= k < plan.to_create@.len() implies {
        let n = #[trigger] plan.to_create@[k];
        settled(n.title@, n.abstract_text@, n.start, n.end, new[cp[k]].1)
    } by {
        assert(creates(plan.to_create@[k], new[cp[k]].0, new[cp[k]].1, req.source_id, now));
    }
}

/// The stored submissions already are the listing: each stored code is listed
/// with the same text and times that need no rewrite, and each listed code is
/// stored.
pub open spec fn in_sync(current: Seq<SubmissionRecord>, new: Seq<(String, SubmissionSyncItem)>) -> bool {
    &&& forall|i: int| 0 <= i < current.len() ==> match #[trigger] lookup(new, current[i].code@) {
        Some(item) => !content_changed(current[i], item) && time_update(current[i].start, current[i].end, item.schedule_time) is None,
        None => false,
    }
    &&& forall|j: int| 0 <= j < new.len() ==> stored(current, #[trigger] new[j].0@)
}

/// When `keep` holds at no position below `n`, no position is kept.
pub proof fn lemma_kept_none(n: nat, keep: spec_fn(int) -> bool)
    requires
        forall|i: int| 0 <= i < n ==> !#[trigger] keep(i),
    ensures
        kept_positions(n, keep).len() == 0,
    decreases n,
{
    if n > 0 {
        lemma_kept_none((n - 1) as nat, keep);
    }
}

/// A sync of a listing that the stored submissions already match deletes,
/// creates and changes nothing, and rebuilds no content; it writes only when
/// the submission types differ.
pub proof fn lemma_sync_in_sync_is_quiet(
    plan: &SyncPlan,
    req: &SyncSourceRequest,
    current: Seq<SubmissionRecord>,
    stored_types: StoredTypes,
    now: Timestamp,
)
    requires
        plan_of(plan, req, current, stored_types, now),
        in_sync(current, req.submissions@),
    ensures
        plan.to_delete@.len() == 0,
        plan.to_create@.len() == 0,
        plan.updates@.len() == 0,
        !plan.real_update,
        plan.write == plan.force_update,
{
    let new = req.submissions@;
    let dkeep = |i: int| lookup(new, current[i].code@) is None;
    let ckeep = |j: int| !stored(current, new[j].0@);
    let ukeep = |i: int| changes(current, new, i);
    assert forall|i: int| 0 <= i < current.len() implies !#[trigger] dkeep(i) by {
        assert(lookup(new, current[i].code@) is Some);
    }
    assert forall|j: int| 0 <= j < new.len() implies !#[trigger] ckeep(j) by {
        assert(stored(current, new[j].0@));
    }
    assert forall|i: int| 0 <= i < current.len() implies !#[trigger] ukeep(i) by {
        assert(lookup(new, current[i].code@) is Some);
    }
    lemma_kept_none(current.len(), dkeep);
    lemma_kept_none(new.len(), ckeep);
    lemma_kept_none(current.len(), ukeep);
    assert(delete_positions(current, new) == kept_positions(current.len(), dkeep));
    assert(create_positions(current, new) == kept_positions(new.len(), ckeep));
    assert(update_positions(current, new) == kept_positions(current.len(), ukeep));
    if any_content_change(current, new) {
        let i = choose|i: int| 0 <= i < current.len() && #[trigger] content_change_at(current, new, i);
        assert(lookup(new, current[i].code@) is Some);
    }
}

impl Mutation {
    /// Plans the sync of a source listing `req` against its stored submissions
    /// `current` and stored submission types, at time `now`.
    pub fn sync_source(req: &SyncSourceRequest, current: &Vec<SubmissionRecord>, stored_types: &StoredTypes, now: Timestamp) -> (plan: SyncPlan)
        ensures
            plan_of(&plan, req, current@, *stored_types, now),
    {
        let new = &req.submissions;
        let ghost nv = new@;
        let ghost cv = current@;
        let ghost dkeep = |i: int| lookup(nv, cv[i].code@) is None;
        let ghost ckeep = |j: int| !stored(cv, nv[j].0@);
        let ghost ukeep = |i: int| changes(cv, nv, i);

        let mut to_delete: Vec<String> = Vec::new();
        for i in 0..current.len()
            invariant
                cv == current@,
                nv == new@,
                dkeep == (|i: int| lookup(nv, cv[i].code@) is None),
                to_delete@.len() == kept_positions(i as nat, dkeep).len(),
                forall|k: int| 0 <= k < to_delete@.len() ==> (#[trigger] to_delete@[k])@ == cv[kept_positions(i as nat, dkeep)[k]].code@,
        {
            proof {
                lemma_kept_positions(i as nat, dkeep);
            }
            let ghost d0 = to_delete@;
            if find_item(new, &current[i].code).is_none() {
                to_delete.push(current[i].code.clone());
                assert(kept_positions((i + 1) as nat, dkeep) == kept_positions(i as nat, dkeep).push(i as int));
                assert forall|k: int| 0 <= k < to_delete@.len() implies (#[trigger] to_delete@[k])@ == cv[kept_positions((i + 1) as nat, dkeep)[k]].code@ by {
                    if k < d0.len() {
                        assert(to_delete@[k] == d0[k]);
                    }
                }
            } else {
                assert(kept_positions((i + 1) as nat, dkeep) == kept_positions(i as nat, dkeep));
            }
        }

        let mut to_create: Vec<NewSubmission> = Vec::new();
        for j in 0..new.len()
            invariant
                cv == current@,
                nv == new@,
                ckeep == (|j: int| !stored(cv, nv[j].0@)),
                to_create@.len() == kept_positions(j as nat, ckeep).len(),
                forall|k: int| 0 <= k < to_create@.len() ==> creates(#[trigger] to_create@[k], nv[kept_positions(j as nat, ckeep)[k]].0, nv[kept_positions(j as nat, ckeep)[k]].1, req.source_id, now),
        {
            proof {
                lemma_kept_positions(j as nat, ckeep);
            }
            let ghost c0 = to_create@;
            if !is_stored(current, &new[j].0) {
                let template = &new[j].1;
                let submission = NewSubmission {
                    code: new[j].0.clone(),
                    title: template.title.clone(),
                    html: to_html(template.abstract_text.as_str()),
                    abstract_text: template.abstract_text.clone(),
                    source: req.source_id,
                    start: match &template.schedule_time { Some(t) => Some(t.start), None => None },
                    end: match &template.schedule_time { Some(t) => Some(t.end), None => None },
                    created: now,
                    updated: now,
                };
                to_create.push(submission);
                assert(kept_positions((j + 1) as nat, ckeep) == kept_positions(j as nat, ckeep).push(j as int));
                assert forall|k: int| 0 <= k < to_create@.len() implies creates(#[trigger] to_create@[k], nv[kept_positions((j + 1) as nat, ckeep)[k]].0, nv[kept_positions((j + 1) as nat, ckeep)[k]].1, req.source_id, now) by {
                    if k < c0.len() {
                        assert(to_create@[k] == c0[k]);
                    }
                }
            } else {
                assert(kept_positions((j + 1) as nat, ckeep) == kept_positions(j as nat, ckeep));
            }
        }

        let mut updates: Vec<SubmissionChange> = Vec::new();
        let mut content_change = false;
        for i in 0..current.len()
            invariant
                cv == current@,
                nv == new@,
                ukeep == (|i: int| changes(cv, nv, i)),
                updates@.len() == kept_positions(i as nat, ukeep).len(),
                forall|k: int| 0 <= k < updates@.len() ==> changes_to(#[trigger] updates@[k], cv[kept_positions(i as nat, ukeep)[k]], lookup(nv, cv[kept_positions(i as nat, ukeep)[k]].code@)->0, req.source_id, now),
                content_change == exists|m: int| 0 <= m < i && #[trigger] content_change_at(cv, nv, m),
        {
            proof {
                lemma_kept_positions(i as nat, ukeep);
            }
            let ghost u0 = updates@;
            let old = &current[i];
            let mut change: Option<SubmissionChange> = None;
            match find_item(new, &old.code) {
                Some(item) => {
                    if !str_eq(old.abstract_text.as_str(), item.abstract_text.as_str()) || !str_eq(old.title.as_str(), item.title.as_str()) {
                        content_change = true;
                        change = Some(SubmissionChange::Content {
                            code: old.code.clone(),
                            title: item.title.clone(),
                            abstract_text: item.abstract_text.clone(),
                            html: to_html(item.abstract_text.as_str()),
                            source: req.source_id,
                            start: match &item.schedule_time { Some(t) => Some(t.start), None => None },
                            end: match &item.schedule_time { Some(t) => Some(t.end), None => None },
                            updated: now,
                        });
                    } else {
                        let sched = match &item.schedule_time { Some(t) => Some(t), None => None };
                        match Mutation::update_submission_time(&old.code, req.source_id, old, &sched) {
                            Some(u) => {
                                change = Some(SubmissionChange::Time(u));
                            },
                            None => {},
                        }
                    }
                },
                None => {},
            }
            assert(content_change == exists|m: int| 0 <= m < i + 1 && #[trigger] content_change_at(cv, nv, m)) by {
                if content_change_at(cv, nv, i as int) {
                    assert(content_change);
                }
            }
            match change {
                Some(c) => {
                    updates.push(c);
                    assert(kept_positions((i + 1) as nat, ukeep) == kept_positions(i as nat, ukeep).push(i as int));
                    assert forall|k: int| 0 <= k < updates@.len() implies changes_to(#[trigger] updates@[k], cv[kept_positions((i + 1) as nat, ukeep)[k]], lookup(nv, cv[kept_positions((i + 1) as nat, ukeep)[k]].code@)->0, req.source_id, now) by {
                        if k < u0.len() {
                            assert(updates@[k] == u0[k]);
                        }
                    }
                },
                None => {
                    assert(kept_positions((i + 1) as nat, ukeep) == kept_positions(i as nat, ukeep));
                },
            }
        }

        let force_update = match &req.submission_types {
            Some(submission_types) => match stored_types {
                StoredTypes::Types(old_types) => !types_equal(old_types, submission_types),
                StoredTypes::Unreadable => true,
                StoredTypes::Missing => true,
            },
            None => false,
        };
        let real_update = content_change || to_delete.len() > 0 || to_create.len() > 0;
        let write = to_delete.len() > 0 || to_create.len() > 0 || updates.len() > 0 || force_update;
        SyncPlan { to_delete, to_create, updates, real_update, force_update, write }
    }
}

} // verus!
