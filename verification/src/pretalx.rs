//! Reading a source from a pretalx server: the addresses of its submission list
//! and schedule, the walk through the pages of the list, and the listing a sync
//! is made from.
use vstd::prelude::*;
use crate::roles::SourceFilter;
use crate::schedule::{SubmissionStartEnd, Timestamp, lookup, find_schedule};
use crate::sync::{SubmissionSyncItem, SyncSourceRequest};
use crate::urls::{url_join, url_parse, url_with_https, join_url, parse_url, with_https, scheme_is_https, is_https};
use crate::keyed::{keys_distinct, has_key, value_of, put, lemma_value_at};

verus! {

/// A source that is due for an update, with what its update needs.
pub struct SourceToUpdate {
    pub update_url: String,
    pub event_slug: String,
    pub apikey: String,
    pub source_id: i32,
    pub event_id: i32,
    pub filter: SourceFilter,
    pub type_filter: Vec<i32>,
}

/// A submission as the pretalx submission list gives it.
pub struct PretalxSubmission {
    pub code: String,
    pub title: String,
    pub abstract_text: Option<String>,
}

/// A page of the submission list, with the address of the next page.
pub struct PretalxSubmissionsResponse {
    pub next: Option<String>,
    pub results: Vec<PretalxSubmission>,
}

/// A slot of the schedule; its times in UTC.
pub struct PretalxScheduleSlot {
    pub start: Option<Timestamp>,
    pub end: Option<Timestamp>,
    pub submission: Option<String>,
}

/// The schedule of an event.
pub struct PretalxScheduleResponse {
    pub slots: Vec<PretalxScheduleSlot>,
}

/// A result's texts.
pub open spec fn text_result(r: Result<String, String>) -> Result<Seq<char>, Seq<char>> {
    match r {
        Ok(s) => Ok(s@),
        Err(e) => Err(e@),
    }
}

/// The states of the submissions a filter asks for.
pub open spec fn state_query(f: SourceFilter) -> Seq<char> {
    match f {
        SourceFilter::Confirmed => "state=confirmed"@,
        SourceFilter::Accepted => "state=accepted&state=confirmed"@,
    }
}

/// The path of the submission list of an event, with its slots.
pub open spec fn submissions_path(event_slug: Seq<char>, f: SourceFilter) -> Seq<char> {
    "/api/events/"@ + event_slug + "/submissions/?"@ + state_query(f) + "&expand=slots"@
}

/// The path of the schedule in progress of an event, with its slots.
pub open spec fn schedule_path(event_slug: Seq<char>) -> Seq<char> {
    "/api/events/"@ + event_slug + "/schedules/wip/?expand=slots"@
}

/// The address of the submission list of the source: its path joined to the
/// source's address.
pub fn submissions_url(source: &SourceToUpdate) -> (r: Result<String, String>)
    ensures
        text_result(r) == url_join(source.update_url@, submissions_path(source.event_slug@, source.filter)),
{
    let state = match source.filter {
        SourceFilter::Confirmed => "state=confirmed",
        SourceFilter::Accepted => "state=accepted&state=confirmed",
    };
    let mut path = "/api/events/".to_string();
    path.append(source.event_slug.as_str());
    path.append("/submissions/?");
    path.append(state);
    path.append("&expand=slots");
    join_url(source.update_url.as_str(), path.as_str())
}

/// The address of the schedule in progress of the source.
pub fn schedule_url(source: &SourceToUpdate) -> (r: Result<String, String>)
    ensures
        text_result(r) == url_join(source.update_url@, schedule_path(source.event_slug@)),
{
    let mut path = "/api/events/".to_string();
    path.append(source.event_slug.as_str());
    path.append("/schedules/wip/?expand=slots");
    join_url(source.update_url.as_str(), path.as_str())
}

/// Whether the address of the next page can be moved to `https` where the walk
/// asks for it.
pub open spec fn upgrade_possible(next: Seq<char>, on_https: bool) -> bool {
    (on_https && url_parse(next) is Ok) ==> url_with_https(url_parse(next)->Ok_0) is Some
}

/// The address to fetch for the next page: the `next` link parsed, and moved to
/// `https` when the walk started on `https`.
pub open spec fn next_page(next: Seq<char>, on_https: bool) -> Result<Seq<char>, Seq<char>> {
    match url_parse(next) {
        Err(e) => Err(e),
        Ok(u) => if on_https { Ok(url_with_https(u)->0) } else { Ok(u) },
    }
}

/// The address of the next page, as `next_page` says; the move to `https` is
/// required to succeed.
pub fn next_page_url(next: &str, on_https: bool) -> (r: Result<String, String>)
    requires
        upgrade_possible(next@, on_https),
    ensures
        text_result(r) == next_page(next@, on_https),
        on_https && r is Ok ==> scheme_is_https(r->Ok_0@),
{
    let u = parse_url(next)?;
    if on_https {
        match with_https(u.as_str()) {
            Some(h) => Ok(h),
            None => Ok(u),
        }
    } else {
        Ok(u)
    }
}

/// The address of the next page, or none when the move to `https` is refused.
pub fn try_next_page_url(next: &str, on_https: bool) -> (r: Option<Result<String, String>>)
    ensures
        match r {
            None => !upgrade_possible(next@, on_https),
            Some(x) => upgrade_possible(next@, on_https) && text_result(x) == next_page(next@, on_https)
                && (on_https && x is Ok ==> scheme_is_https(x->Ok_0@)),
        },
{
    if on_https {
        if let Ok(u) = parse_url(next) {
            if with_https(u.as_str()).is_none() {
                return None;
            }
        }
    }
    Some(next_page_url(next, on_https))
}

/// The walk through the pages of a submission list: the address of the page
/// to fetch, whether the walk started on `https`, and the submissions read so
/// far.
pub struct SubmissionPager {
    pub url: String,
    pub on_https: bool,
    pub collected: Vec<PretalxSubmission>,
}

/// What the walk does after a page.
pub enum PageStep {
    /// Fetch the page at the pager's new address.
    Fetch,
    /// The list is complete.
    Done,
    /// The `next` link does not parse.
    Failed(String),
}

impl SubmissionPager {
    /// The walk through the submission list of `source`, from its first page.
    pub fn start(source: &SourceToUpdate) -> (r: Result<SubmissionPager, String>)
        ensures
            match url_join(source.update_url@, submissions_path(source.event_slug@, source.filter)) {
                Ok(u) => r matches Ok(p) && p.url@ == u && p.on_https == scheme_is_https(u) && p.collected@.len() == 0,
                Err(e) => r matches Err(m) && m@ == e,
            },
    {
        let url = submissions_url(source)?;
        let on_https = is_https(url.as_str());
        Ok(SubmissionPager { url, on_https, collected: Vec::new() })
    }

    /// Takes in a fetched page: its submissions are added, and the walk goes
    /// on at the `next` link, ends without one, or fails when the link does
    /// not parse. None when the move of the link to `https` is refused.
    pub fn receive(&mut self, page: PretalxSubmissionsResponse) -> (r: Option<PageStep>)
        ensures
            final(self).collected@ == old(self).collected@ + page.results@,
            final(self).on_https == old(self).on_https,
            (old(self).on_https && (r matches Some(PageStep::Fetch))) ==> scheme_is_https(final(self).url@),
            match page.next {
                None => r matches Some(PageStep::Done) && final(self).url == old(self).url,
                Some(n) => if !upgrade_possible(n@, old(self).on_https) {
                    r is None
                } else {
                    match next_page(n@, old(self).on_https) {
                        Ok(u) => r matches Some(PageStep::Fetch) && final(self).url@ == u,
                        Err(e) => r matches Some(PageStep::Failed(m)) && m@ == e,
                    }
                },
            },
    {
        let PretalxSubmissionsResponse { next, mut results } = page;
        self.collected.append(&mut results);
        match next {
            None => Some(PageStep::Done),
            Some(n) => match try_next_page_url(n.as_str(), self.on_https) {
                None => None,
                Some(Err(e)) => Some(PageStep::Failed(e)),
                Some(Ok(u)) => {
                    self.url = u;
                    Some(PageStep::Fetch)
                },
            },
        }
    }
}

/// A slot with a submission, a start and an end.
pub open spec fn complete_slot(s: PretalxScheduleSlot) -> bool {
    s.start is Some && s.end is Some && s.submission is Some
}

/// The times of the last complete slot of submission `code`.
pub open spec fn slot_time(slots: Seq<PretalxScheduleSlot>, code: Seq<char>) -> Option<SubmissionStartEnd>
    decreases slots.len(),
{
    if slots.len() == 0 {
        None
    } else {
        let s = slots.last();
        if complete_slot(s) && s.submission->0@ == code {
            Some(SubmissionStartEnd { start: s.start->0, end: s.end->0 })
        } else {
            slot_time(slots.drop_last(), code)
        }
    }
}

/// The schedule by submission code: the times of each submission's last
/// complete slot.
pub fn schedule_from_slots(slots: &Vec<PretalxScheduleSlot>) -> (r: Vec<(String, SubmissionStartEnd)>)
    ensures
        keys_distinct(r@),
        forall|k: Seq<char>| #[trigger] value_of(r@, k) == slot_time(slots@, k),
{
    let mut r: Vec<(String, SubmissionStartEnd)> = Vec::new();
    for i in 0..slots.len()
        invariant
            keys_distinct(r@),
            forall|k: Seq<char>| #[trigger] value_of(r@, k) == slot_time(slots@.take(i as int), k),
    {
        let ghost prev = slots@.take(i as int);
        let ghost next = slots@.take(i + 1);
        assert(next.drop_last() == prev);
        assert(next.last() == slots@[i as int]);
        let s = &slots[i];
        match (&s.submission, s.start, s.end) {
            (Some(code), Some(start), Some(end)) => {
                put(&mut r, code.clone(), SubmissionStartEnd { start, end });
            },
            _ => {},
        }
        assert forall|k: Seq<char>| #[trigger] value_of(r@, k) == slot_time(next, k) by {}
    }
    assert(slots@.take(slots@.len() as int) == slots@);
    r
}

/// The last listed submission with code `code`.
pub open spec fn listed_submission(subs: Seq<PretalxSubmission>, code: Seq<char>) -> Option<PretalxSubmission>
    decreases subs.len(),
{
    if subs.len() == 0 {
        None
    } else if subs.last().code@ == code {
        Some(subs.last())
    } else {
        listed_submission(subs.drop_last(), code)
    }
}

/// The sync item of a listed submission: its texts (an absent abstract as an
/// empty one) and its scheduled time.
pub open spec fn sync_item_of(s: PretalxSubmission, schedule: Seq<(String, SubmissionStartEnd)>, item: SubmissionSyncItem) -> bool {
    &&& item.title@ == s.title@
    &&& item.code@ == s.code@
    &&& item.abstract_text@ == match s.abstract_text { Some(a) => a@, None => Seq::<char>::empty() }
    &&& item.schedule_time == lookup(schedule, s.code@)
}

/// The listing of a source: one item per submission code, made from the last
/// listed submission with that code.
pub fn sync_items(subs: Vec<PretalxSubmission>, schedule: &Vec<(String, SubmissionStartEnd)>) -> (r: Vec<(String, SubmissionSyncItem)>)
    ensures
        keys_distinct(r@),
        forall|k: Seq<char>| #[trigger] has_key(r@, k) <==> listed_submission(subs@, k) is Some,
        forall|j: int| 0 <= j < r@.len() ==> sync_item_of(listed_submission(subs@, (#[trigger] r@[j]).0@)->0, schedule@, r@[j].1),
{
    let mut r: Vec<(String, SubmissionSyncItem)> = Vec::new();
    for i in 0..subs.len()
        invariant
            keys_distinct(r@),
            forall|k: Seq<char>| #![trigger value_of(r@, k)]
                (value_of(r@, k) is Some <==> listed_submission(subs@.take(i as int), k) is Some)
                && (value_of(r@, k) is Some ==> sync_item_of(listed_submission(subs@.take(i as int), k)->0, schedule@, value_of(r@, k)->0)),
    {
        let ghost prev = subs@.take(i as int);
        let ghost next = subs@.take(i + 1);
        assert(next.drop_last() == prev);
        assert(next.last() == subs@[i as int]);
        let s = &subs[i];
        let abstract_text = match &s.abstract_text {
            Some(a) => a.clone(),
            None => String::new(),
        };
        let schedule_time = match find_schedule(schedule, &s.code) {
            Some(t) => Some(*t),
            None => None,
        };
        let item = SubmissionSyncItem {
            title: s.title.clone(),
            abstract_text,
            code: s.code.clone(),
            schedule_time,
        };
        put(&mut r, s.code.clone(), item);
        assert forall|k: Seq<char>| #![trigger value_of(r@, k)]
            (value_of(r@, k) is Some <==> listed_submission(next, k) is Some)
            && (value_of(r@, k) is Some ==> sync_item_of(listed_submission(next, k)->0, schedule@, value_of(r@, k)->0)) by {}
    }
    assert(subs@.take(subs@.len() as int) == subs@);
    assert forall|k: Seq<char>| #[trigger] has_key(r@, k) <==> listed_submission(subs@, k) is Some by {
        assert(value_of(r@, k) is Some <==> has_key(r@, k));
    }
    assert forall|j: int| 0 <= j < r@.len() implies sync_item_of(listed_submission(subs@, (#[trigger] r@[j]).0@)->0, schedule@, r@[j].1) by {
        lemma_value_at(r@, j);
    }
    r
}

/// The sync request of a source, from its complete submission list and its
/// schedule.
pub fn listing_request(source_id: i32, subs: Vec<PretalxSubmission>, schedule: &PretalxScheduleResponse) -> (r: SyncSourceRequest)
    ensures
        r.source_id == source_id,
        r.submission_types is None,
        keys_distinct(r.submissions@),
        forall|k: Seq<char>| #[trigger] has_key(r.submissions@, k) <==> listed_submission(subs@, k) is Some,
        forall|j: int| 0 <= j < r.submissions@.len() ==> {
            let s = listed_submission(subs@, (#[trigger] r.submissions@[j]).0@)->0;
            &&& r.submissions@[j].1.title@ == s.title@
            &&& r.submissions@[j].1.code@ == s.code@
            &&& r.submissions@[j].1.abstract_text@ == match s.abstract_text { Some(a) => a@, None => Seq::<char>::empty() }
            &&& r.submissions@[j].1.schedule_time == slot_time(schedule.slots@, s.code@)
        },
{
    let times = schedule_from_slots(&schedule.slots);
    let items = sync_items(subs, &times);
    proof {
        assert forall|k: Seq<char>| lookup(times@, k) == slot_time(schedule.slots@, k) by {
            crate::keyed::lemma_value_of_lookup(times@, k);
        }
        assert forall|j: int| 0 <= j < items@.len() implies {
            let s = listed_submission(subs@, (#[trigger] items@[j]).0@)->0;
            items@[j].1.schedule_time == slot_time(schedule.slots@, s.code@)
        } by {
            let s = listed_submission(subs@, items@[j].0@)->0;
            assert(lookup(times@, s.code@) == slot_time(schedule.slots@, s.code@));
        }
    }
    SyncSourceRequest { source_id, submission_types: None, submissions: items }
}

} // verus!
