//! The published content of an event: its submissions under their full codes.
use vstd::prelude::*;
use crate::schedule::Timestamp;
use crate::roles::str_eq;
use crate::mutation::Mutation;

verus! {

/// The full code of a submission: the source's slug, a slash, the code.
pub open spec fn spec_fullcode(slug: Seq<char>, code: Seq<char>) -> Seq<char> {
    slug + "/"@ + code
}

pub fn fullcode(slug: &str, code: &str) -> (r: String)
    ensures
        r@ == spec_fullcode(slug@, code@),
{
    let mut s = slug.to_string();
    s.append("/");
    s.append(code);
    s
}

/// A stored submission as the queries read it.
pub struct StoredSubmission {
    pub code: String,
    pub title: String,
    pub abstract_text: String,
    pub html: String,
    pub start: Option<Timestamp>,
    pub end: Option<Timestamp>,
    pub updated: Timestamp,
    pub room: Option<String>,
}

/// A source's slug with its stored submissions.
pub struct SourceSubmissions {
    pub slug: String,
    pub submissions: Vec<StoredSubmission>,
}

/// One submission of the published content: the text is the rendered HTML.
pub struct ContentItem {
    pub code: String,
    pub title: String,
    pub abstract_html: String,
}

/// The (source, submission) positions of all submissions, source by source.
pub open spec fn all_positions(sources: Seq<SourceSubmissions>) -> Seq<(int, int)>
    decreases sources.len(),
{
    if sources.len() == 0 {
        Seq::empty()
    } else {
        let n = sources.len() - 1;
        all_positions(sources.drop_last()) + Seq::new(sources.last().submissions@.len(), |j: int| (n, j))
    }
}

pub proof fn lemma_all_positions(sources: Seq<SourceSubmissions>)
    ensures
        forall|k: int| 0 <= k < all_positions(sources).len() ==> {
            let p = #[trigger] all_positions(sources)[k];
            0 <= p.0 < sources.len() && 0 <= p.1 < sources[p.0].submissions@.len()
        },
    decreases sources.len(),
{
    if sources.len() > 0 {
        lemma_all_positions(sources.drop_last());
        let prev = all_positions(sources.drop_last());
        assert forall|k: int| 0 <= k < all_positions(sources).len() implies {
            let p = #[trigger] all_positions(sources)[k];
            0 <= p.0 < sources.len() && 0 <= p.1 < sources[p.0].submissions@.len()
        } by {
            if k < prev.len() {
                assert(all_positions(sources)[k] == prev[k]);
                assert(sources.drop_last()[prev[k].0] == sources[prev[k].0]);
            }
        }
    }
}

/// The published content of an event: every submission of every source, under
/// its full code, with its title and rendered text.
pub open spec fn published_content(r: Seq<(String, ContentItem)>, sources: Seq<SourceSubmissions>) -> bool {
    &&& r.len() == all_positions(sources).len()
    &&& forall|k: int| 0 <= k < r.len() ==> {
        let p = all_positions(sources)[k];
        let su = sources[p.0].submissions@[p.1];
        &&& (#[trigger] r[k]).0@ == spec_fullcode(sources[p.0].slug@, su.code@)
        &&& r[k].1.code@ == su.code@
        &&& r[k].1.title@ == su.title@
        &&& r[k].1.abstract_html@ == su.html@
    }
}

pub fn event_content(sources: &Vec<SourceSubmissions>) -> (r: Vec<(String, ContentItem)>)
    ensures
        published_content(r@, sources@),
{
    let mut r: Vec<(String, ContentItem)> = Vec::new();
    for i in 0..sources.len()
        invariant
            r@.len() == all_positions(sources@.take(i as int)).len(),
            forall|k: int| 0 <= k < r@.len() ==> {
                let p = all_positions(sources@.take(i as int))[k];
                let su = sources@[p.0].submissions@[p.1];
                &&& (#[trigger] r@[k]).0@ == spec_fullcode(sources@[p.0].slug@, su.code@)
                &&& r@[k].1.code@ == su.code@
                &&& r@[k].1.title@ == su.title@
                &&& r@[k].1.abstract_html@ == su.html@
            },
    {
        let ghost prev = all_positions(sources@.take(i as int));
        proof {
            assert(sources@.take(i + 1).drop_last() == sources@.take(i as int));
            assert(sources@.take(i + 1).last() == sources@[i as int]);
            lemma_all_positions(sources@.take(i as int));
            assert forall|k: int| 0 <= k < prev.len() implies 0 <= (#[trigger] prev[k]).0 < i by {
                let p = prev[k];
                assert(0 <= p.0 < sources@.take(i as int).len());
            }
        }
        let source = &sources[i];
        for j in 0..source.submissions.len()
            invariant
                source == &sources@[i as int],
                prev == all_positions(sources@.take(i as int)),
                forall|k: int| 0 <= k < prev.len() ==> 0 <= (#[trigger] prev[k]).0 < i,
                i < sources@.len(),
                r@.len() == prev.len() + j,
                forall|k: int| 0 <= k < r@.len() ==> {
                    let p = (prev + Seq::new(j as nat, |m: int| (i as int, m)))[k];
                    let su = sources@[p.0].submissions@[p.1];
                    &&& (#[trigger] r@[k]).0@ == spec_fullcode(sources@[p.0].slug@, su.code@)
                    &&& r@[k].1.code@ == su.code@
                    &&& r@[k].1.title@ == su.title@
                    &&& r@[k].1.abstract_html@ == su.html@
                },
        {
            let submission = &source.submissions[j];
            let ghost r0 = r@;
            let item = ContentItem {
                code: submission.code.clone(),
                title: submission.title.clone(),
                abstract_html: submission.html.clone(),
            };
            r.push((fullcode(source.slug.as_str(), submission.code.as_str()), item));
            assert forall|k: int| 0 <= k < r@.len() implies {
                let p = (prev + Seq::new((j + 1) as nat, |m: int| (i as int, m)))[k];
                let su = sources@[p.0].submissions@[p.1];
                &&& (#[trigger] r@[k]).0@ == spec_fullcode(sources@[p.0].slug@, su.code@)
                &&& r@[k].1.code@ == su.code@
                &&& r@[k].1.title@ == su.title@
                &&& r@[k].1.abstract_html@ == su.html@
            } by {
                if k < r0.len() {
                    assert(r@[k] == r0[k]);
                    assert((prev + Seq::new((j + 1) as nat, |m: int| (i as int, m)))[k] == (prev + Seq::new(j as nat, |m: int| (i as int, m)))[k]);
                }
            }
        }
        assert(all_positions(sources@.take(i + 1)) =~= prev + Seq::new(source.submissions@.len(), |m: int| (i as int, m)));
    }
    assert(sources@.take(sources@.len() as int) == sources@);
    r
}

/// The version after a rebuild of the content. The version is a 32-bit
/// number; its largest value has no successor.
pub fn next_version(version: i32) -> (r: i32)
    requires
        version < i32::MAX,
    ensures
        r == version + 1,
{
    version + 1
}

impl Mutation {
    /// The rebuilt content of an event with these sources, and the event's
    /// next version.
    pub fn update_event_schedule(sources: &Vec<SourceSubmissions>, version: i32) -> (r: (Vec<(String, ContentItem)>, i32))
        requires
            version < i32::MAX,
        ensures
            published_content(r.0@, sources@),
            r.1 == version + 1,
    {
        (event_content(sources), next_version(version))
    }
}

/// The full code of submission `b` of source `a`.
pub open spec fn fullcode_at(sources: Seq<SourceSubmissions>, a: int, b: int) -> Seq<char> {
    spec_fullcode(sources[a].slug@, sources[a].submissions@[b].code@)
}

/// `c` is the full code of some submission of the event.
pub open spec fn is_event_fullcode(sources: Seq<SourceSubmissions>, c: Seq<char>) -> bool {
    exists|a: int, b: int| 0 <= a < sources.len() && 0 <= b < sources[a].submissions@.len() && #[trigger] fullcode_at(sources, a, b) == c
}

/// The full codes of all submissions of an event except `submission_id`,
/// source by source.
pub fn all_ids_except(sources: &Vec<SourceSubmissions>, submission_id: &String) -> (r: Vec<String>)
    ensures
        forall|k: int| 0 <= k < r@.len() ==> (#[trigger] r@[k])@ != submission_id@ && is_event_fullcode(sources@, r@[k]@),
        forall|a: int, b: int| 0 <= a < sources@.len() && 0 <= b < sources@[a].submissions@.len()
            && #[trigger] fullcode_at(sources@, a, b) != submission_id@
            ==> r.deep_view().contains(fullcode_at(sources@, a, b)),
{
    let mut r: Vec<String> = Vec::new();
    for i in 0..sources.len()
        invariant
            forall|k: int| 0 <= k < r@.len() ==> (#[trigger] r@[k])@ != submission_id@ && is_event_fullcode(sources@, r@[k]@),
            forall|a: int, b: int| 0 <= a < i && 0 <= b < sources@[a].submissions@.len()
                && #[trigger] fullcode_at(sources@, a, b) != submission_id@
                ==> r.deep_view().contains(fullcode_at(sources@, a, b)),
    {
        let source = &sources[i];
        for j in 0..source.submissions.len()
            invariant
                source == &sources@[i as int],
                i < sources@.len(),
                forall|k: int| 0 <= k < r@.len() ==> (#[trigger] r@[k])@ != submission_id@ && is_event_fullcode(sources@, r@[k]@),
                forall|a: int, b: int| ((0 <= a < i && 0 <= b < sources@[a].submissions@.len()) || (a == i && 0 <= b < j))
                    && #[trigger] fullcode_at(sources@, a, b) != submission_id@
                    ==> r.deep_view().contains(fullcode_at(sources@, a, b)),
        {
            let id = fullcode(source.slug.as_str(), source.submissions[j].code.as_str());
            assert(id@ == fullcode_at(sources@, i as int, j as int));
            let ghost r0 = r.deep_view();
            let ghost rv = r@;
            if !str_eq(id.as_str(), submission_id.as_str()) {
                r.push(id);
                assert(r.deep_view() =~= r0.push(fullcode_at(sources@, i as int, j as int)));
                assert forall|k: int| 0 <= k < r@.len() implies (#[trigger] r@[k])@ != submission_id@ && is_event_fullcode(sources@, r@[k]@) by {
                    if k < rv.len() {
                        assert(r@[k] == rv[k]);
                    } else {
                        assert(r@[k]@ == fullcode_at(sources@, i as int, j as int));
                    }
                }
                assert forall|a: int, b: int| ((0 <= a < i && 0 <= b < sources@[a].submissions@.len()) || (a == i && 0 <= b < j + 1))
                    && #[trigger] fullcode_at(sources@, a, b) != submission_id@
                    implies r.deep_view().contains(fullcode_at(sources@, a, b)) by {
                    if a == i && b == j {
                        assert(r.deep_view()[r0.len() as int] == fullcode_at(sources@, a, b));
                    } else {
                        let k = choose|k: int| 0 <= k < r0.len() && r0[k] == fullcode_at(sources@, a, b);
                        assert(r.deep_view()[k] == r0[k]);
                    }
                }
            }
        }
    }
    r
}

/// A scheduled slot as the submissions listing shows it: start and end as
/// 32-bit Unix seconds, and the room.
pub struct ScheduledTime {
    pub start: u32,
    pub end: u32,
    pub room: Option<String>,
}

/// One submission of the admin listing.
pub struct SubmissionsResponseItem {
    pub code: String,
    pub lastupdate: u32,
    pub title: String,
    pub abstract_text: String,
    pub time: Option<ScheduledTime>,
}

/// The admin listing entry of a stored submission: the last update and the
/// times as Unix seconds cut to 32 bits, and a time only when both start and
/// end are stored.
pub open spec fn response_item_of(r: SubmissionsResponseItem, su: StoredSubmission) -> bool {
    &&& r.code@ == su.code@
    &&& r.title@ == su.title@
    &&& r.abstract_text@ == su.abstract_text@
    &&& r.lastupdate == su.updated.secs as u32
    &&& (su.start is Some && su.end is Some) ==> (r.time matches Some(t) && t.start == su.start->0.secs as u32
        && t.end == su.end->0.secs as u32 && t.room == su.room)
    &&& !(su.start is Some && su.end is Some) ==> r.time is None
}

pub fn submission_response_item(su: &StoredSubmission) -> (r: SubmissionsResponseItem)
    ensures
        response_item_of(r, *su),
        r.code@ == su.code@,
        r.title@ == su.title@,
        r.abstract_text@ == su.abstract_text@,
        r.lastupdate == su.updated.secs as u32,
        (su.start is Some && su.end is Some) ==> (r.time matches Some(t) && t.start == su.start->0.secs as u32
            && t.end == su.end->0.secs as u32 && t.room == su.room),
        !(su.start is Some && su.end is Some) ==> r.time is None,
{
    let time = match (&su.start, &su.end) {
        (Some(start), Some(end)) => Some(ScheduledTime {
            start: start.secs as u32,
            end: end.secs as u32,
            room: match &su.room { Some(room) => Some(room.clone()), None => None },
        }),
        _ => None,
    };
    SubmissionsResponseItem {
        code: su.code.clone(),
        lastupdate: su.updated.secs as u32,
        title: su.title.clone(),
        abstract_text: su.abstract_text.clone(),
        time,
    }
}

/// The version reported with an event's content: the event's own when an
/// active event was found (one whose version is below the client's, when the
/// client names one), else the client's version (zero when the client has
/// none).
pub fn conditional_version(found: Option<i32>, requested: Option<i32>) -> (r: i32)
    ensures
        found matches Some(v) ==> r == v,
        found is None ==> r == match requested { Some(v) => v, None => 0 },
{
    match found {
        Some(v) => v,
        None => match requested {
            Some(v) => v,
            None => 0,
        },
    }
}

} // verus!
