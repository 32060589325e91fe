//! When the scheduled time of a stored submission has to be rewritten.
use vstd::prelude::*;
use crate::roles::str_eq;
use crate::mutation::Mutation;

verus! {

/// An instant in UTC: whole seconds since the Unix epoch and the nanoseconds
/// past that second.
#[derive(Clone, Copy, Debug, PartialEq, Eq, Structural)]
pub struct Timestamp {
    pub secs: i64,
    pub nanos: u32,
}

/// The instant in nanoseconds since the epoch.
pub open spec fn total_nanos(t: Timestamp) -> int {
    t.secs * 1_000_000_000 + t.nanos
}

/// The whole milliseconds in `a - b`, rounded toward zero.
pub open spec fn millis_between(a: Timestamp, b: Timestamp) -> int {
    let d = total_nanos(a) - total_nanos(b);
    if d >= 0 { d / 1_000_000 } else { -((-d) / 1_000_000) }
}

/// A start and an end time.
#[derive(Clone, Copy, Debug, PartialEq, Eq, Structural)]
pub struct SubmissionStartEnd {
    pub start: Timestamp,
    pub end: Timestamp,
}

/// A stored submission of a source.
pub struct SubmissionRecord {
    pub code: String,
    pub title: String,
    pub abstract_text: String,
    pub start: Option<Timestamp>,
    pub end: Option<Timestamp>,
}

/// A rewrite of the scheduled time of one stored submission.
pub struct SubmissionTimeUpdate {
    pub code: String,
    pub source: i32,
    pub start: Option<Timestamp>,
    pub end: Option<Timestamp>,
}

/// Whether the stored time `old` lies more than half a second after `new`.
pub fn later_by_more_than_half_second(old: Timestamp, new: Timestamp) -> (r: bool)
    ensures
        r == (millis_between(old, new) > 500),
{
    let d: i128 = (old.secs as i128 - new.secs as i128) * 1_000_000_000 + (old.nanos as i128 - new.nanos as i128);
    assert(d == total_nanos(old) - total_nanos(new));
    d >= 501_000_000
}

/// The new stored times of a submission whose stored times are `old_start`,
/// `old_end` and whose schedule says `schedule_time`, or `None` when nothing
/// changes. A scheduled submission is rewritten when a stored time is missing
/// or when a stored time lies more than half a second after the scheduled one;
/// an unscheduled submission loses its stored times if it has both.
pub open spec fn time_update(
    old_start: Option<Timestamp>,
    old_end: Option<Timestamp>,
    schedule_time: Option<SubmissionStartEnd>,
) -> Option<(Option<Timestamp>, Option<Timestamp>)> {
    match schedule_time {
        Some(t) => {
            if old_start is None || old_end is None {
                Some((Some(t.start), Some(t.end)))
            } else if millis_between(old_start->0, t.start) > 500 || millis_between(old_end->0, t.end) > 500 {
                Some((Some(t.start), Some(t.end)))
            } else {
                None
            }
        },
        None => {
            if !(old_start is None || old_end is None) {
                Some((None, None))
            } else {
                None
            }
        },
    }
}

/// Once the times are rewritten as `time_update` says, the same schedule asks
/// for no further rewrite.
pub proof fn lemma_time_update_settles(
    old_start: Option<Timestamp>,
    old_end: Option<Timestamp>,
    schedule_time: Option<SubmissionStartEnd>,
)
    ensures
        match time_update(old_start, old_end, schedule_time) {
            Some((start, end)) => time_update(start, end, schedule_time) is None,
            None => true,
        },
{
}

/// Stored times that lie no more than half a second after the scheduled ones
/// are kept.
pub proof fn lemma_time_update_tolerates(start: Timestamp, end: Timestamp, t: SubmissionStartEnd)
    requires
        millis_between(start, t.start) <= 500,
        millis_between(end, t.end) <= 500,
    ensures
        time_update(Some(start), Some(end), Some(t)) is None,
{
}

/// When the stored times of a scheduled submission are rewritten: whenever a
/// stored time is missing, and whenever the stored start or the stored end
/// lies at least 501 ms after the scheduled one (more than half a second in
/// whole milliseconds), each on its own; the rewrite sets exactly the
/// scheduled start and end. Stored times that lie less than 501 ms after the
/// scheduled ones (or before them) are kept. A submission that is no longer
/// scheduled loses its times when it has both, and is otherwise left alone.
pub proof fn lemma_time_update_cases(
    old_start: Option<Timestamp>,
    old_end: Option<Timestamp>,
    t: SubmissionStartEnd,
)
    ensures
        old_start is None || old_end is None ==> time_update(old_start, old_end, Some(t)) == Some((Some(t.start), Some(t.end))),
        old_start matches Some(s) && old_end is Some && total_nanos(s) - total_nanos(t.start) >= 501_000_000
            ==> time_update(old_start, old_end, Some(t)) == Some((Some(t.start), Some(t.end))),
        old_end matches Some(e) && old_start is Some && total_nanos(e) - total_nanos(t.end) >= 501_000_000
            ==> time_update(old_start, old_end, Some(t)) == Some((Some(t.start), Some(t.end))),
        old_start matches Some(s) && old_end matches Some(e) && total_nanos(s) - total_nanos(t.start) < 501_000_000
            && total_nanos(e) - total_nanos(t.end) < 501_000_000 ==> time_update(old_start, old_end, Some(t)) is None,
        old_start is Some && old_end is Some ==> time_update(old_start, old_end, None) == Some((None::<Timestamp>, None::<Timestamp>)),
        old_start is None || old_end is None ==> time_update(old_start, old_end, None) is None,
{
    if let (Some(s), Some(e)) = (old_start, old_end) {
        let ds = total_nanos(s) - total_nanos(t.start);
        let de = total_nanos(e) - total_nanos(t.end);
        assert(ds >= 501_000_000 ==> ds / 1_000_000 > 500);
        assert(de >= 501_000_000 ==> de / 1_000_000 > 500);
        assert(0 <= ds < 501_000_000 ==> ds / 1_000_000 <= 500);
        assert(0 <= de < 501_000_000 ==> de / 1_000_000 <= 500);
    }
}

/// The entry for `code` in a list of (code, value) pairs: the first one.
pub open spec fn lookup<V>(entries: Seq<(String, V)>, code: Seq<char>) -> Option<V>
    decreases entries.len(),
{
    if entries.len() == 0 {
        None
    } else if entries[0].0@ == code {
        Some(entries[0].1)
    } else {
        lookup(entries.drop_first(), code)
    }
}

/// The scheduled time listed for `code`.
pub fn find_schedule<'a>(schedule: &'a Vec<(String, SubmissionStartEnd)>, code: &String) -> (r: Option<&'a SubmissionStartEnd>)
    ensures
        match r {
            Some(t) => lookup(schedule@, code@) == Some(*t),
            None => lookup(schedule@, code@) is None,
        },
{
    let mut i: usize = 0;
    assert(schedule@.skip(0) == schedule@);
    while i < schedule.len()
        invariant
            i <= schedule@.len(),
            lookup(schedule@, code@) == lookup(schedule@.skip(i as int), code@),
        decreases schedule@.len() - i,
    {
        assert(schedule@.skip(i as int).drop_first() == schedule@.skip(i + 1));
        assert(schedule@.skip(i as int)[0] == schedule@[i as int]);
        if str_eq(schedule[i].0.as_str(), code.as_str()) {
            return Some(&schedule[i].1);
        }
        i += 1;
    }
    None
}

/// What `time_update` decides for one stored submission, given the schedule.
pub open spec fn scheduled_update(m: SubmissionRecord, schedule: Seq<(String, SubmissionStartEnd)>) -> Option<(Option<Timestamp>, Option<Timestamp>)> {
    time_update(m.start, m.end, lookup(schedule, m.code@))
}

/// The positions of the stored submissions whose times change, in order.
pub open spec fn changed_positions(current: Seq<SubmissionRecord>, schedule: Seq<(String, SubmissionStartEnd)>) -> Seq<int>
    decreases current.len(),
{
    if current.len() == 0 {
        Seq::empty()
    } else {
        let rest = changed_positions(current.drop_last(), schedule);
        if scheduled_update(current.last(), schedule) is Some { rest.push(current.len() - 1) } else { rest }
    }
}

/// The changed positions are positions of stored submissions.
pub proof fn lemma_changed_positions(current: Seq<SubmissionRecord>, schedule: Seq<(String, SubmissionStartEnd)>)
    ensures
        changed_positions(current, schedule).len() <= current.len(),
        forall|k: int| 0 <= k < changed_positions(current, schedule).len() ==>
            0 <= #[trigger] changed_positions(current, schedule)[k] < current.len(),
    decreases current.len(),
{
    if current.len() > 0 {
        lemma_changed_positions(current.drop_last(), schedule);
    }
}

impl Mutation {
    /// The rewrite of the scheduled time of the stored submission `old` with code
    /// `code` of source `source_id`, as `time_update` decides it.
    pub fn update_submission_time(
        code: &String,
        source_id: i32,
        old: &SubmissionRecord,
        schedule_time: &Option<&SubmissionStartEnd>,
    ) -> (r: Option<SubmissionTimeUpdate>)
        ensures
            match time_update(old.start, old.end, match *schedule_time { Some(t) => Some(*t), None => None }) {
                Some((start, end)) => r matches Some(u) && u.code@ == code@ && u.source == source_id && u.start == start && u.end == end,
                None => r is None,
            },
    {
        match schedule_time {
            Some(scheduled_time) => {
                if old.start.is_none() || old.end.is_none() {
                    Some(SubmissionTimeUpdate {
                        code: code.clone(),
                        source: source_id,
                        start: Some(scheduled_time.start),
                        end: Some(scheduled_time.end),
                    })
                } else {
                    let old_start = old.start.unwrap();
                    let old_end = old.end.unwrap();
                    if later_by_more_than_half_second(old_start, scheduled_time.start)
                        || later_by_more_than_half_second(old_end, scheduled_time.end) {
                        Some(SubmissionTimeUpdate {
                            code: code.clone(),
                            source: source_id,
                            start: Some(scheduled_time.start),
                            end: Some(scheduled_time.end),
                        })
                    } else {
                        None
                    }
                }
            },
            None => {
                if !(old.start.is_none() || old.end.is_none()) {
                    Some(SubmissionTimeUpdate { code: code.clone(), source: source_id, start: None, end: None })
                } else {
                    None
                }
            },
        }
    }

    /// The time rewrites of a whole source against a new schedule: one per stored
    /// submission whose times change, in stored order.
    pub fn sync_schedule(
        source_id: i32,
        current: &Vec<SubmissionRecord>,
        schedule: &Vec<(String, SubmissionStartEnd)>,
    ) -> (r: Vec<SubmissionTimeUpdate>)
        ensures
            r@.len() == changed_positions(current@, schedule@).len(),
            forall|k: int| 0 <= k < r@.len() ==> {
                let m = current@[changed_positions(current@, schedule@)[k]];
                &&& (#[trigger] r@[k]).code@ == m.code@
                &&& r@[k].source == source_id
                &&& scheduled_update(m, schedule@) == Some((r@[k].start, r@[k].end))
            },
    {
        let mut r: Vec<SubmissionTimeUpdate> = Vec::new();
        proof {
            lemma_changed_positions(current@, schedule@);
        }
        for i in 0..current.len()
            invariant
                r@.len() == changed_positions(current@.take(i as int), schedule@).len(),
                forall|k: int| 0 <= k < r@.len() ==> {
                    let m = current@[changed_positions(current@.take(i as int), schedule@)[k]];
                    &&& (#[trigger] r@[k]).code@ == m.code@
                    &&& r@[k].source == source_id
                    &&& scheduled_update(m, schedule@) == Some((r@[k].start, r@[k].end))
                },
        {
            let ghost prev = current@.take(i as int);
            let ghost next = current@.take(i + 1);
            proof {
                lemma_changed_positions(prev, schedule@);
                lemma_changed_positions(next, schedule@);
            }
            assert(next.drop_last() == prev);
            assert(next.last() == current@[i as int]);
            let m = &current[i];
            let found = find_schedule(schedule, &m.code);
            let u = Mutation::update_submission_time(&m.code, source_id, m, &found);
            assert(lookup(schedule@, m.code@) == match found { Some(t) => Some(*t), None => None::<SubmissionStartEnd> });
            let ghost r0 = r@;
            match u {
                Some(u) => {
                    r.push(u);
                    assert(changed_positions(next, schedule@) == changed_positions(prev, schedule@).push(i as int));
                    assert forall|k: int| 0 <= k < r@.len() implies {
                        let m = current@[changed_positions(next, schedule@)[k]];
                        &&& (#[trigger] r@[k]).code@ == m.code@
                        &&& r@[k].source == source_id
                        &&& scheduled_update(m, schedule@) == Some((r@[k].start, r@[k].end))
                    } by {
                        if k < r0.len() {
                            assert(r@[k] == r0[k]);
                        }
                    }
                },
                None => {
                    assert(changed_positions(next, schedule@) == changed_positions(prev, schedule@));
                },
            }
        }
        assert(current@.take(current@.len() as int) == current@);
        r
    }
}

} // verus!
