//! What the application's queries make of the rows they read.
use vstd::prelude::*;
use crate::roles::{message, role_of, user_role_of, get_filter, filter_code, conference_user_role, ConferenceUserRole, SourceFilter};
use crate::text::{decimal, int_text};
use crate::pretalx::SourceToUpdate;
use crate::content::{all_positions, lemma_all_positions, spec_fullcode, fullcode, response_item_of,
    submission_response_item, SourceSubmissions, SubmissionsResponseItem};
use crate::urls::{url_join, join_url};
use crate::keyed::{keys_distinct, has_key, value_of, put, put_if_absent, lemma_value_at};
use crate::access::{event_list, listed_rows, event_entry, EventReseponse, EventWithPerm, MembershipRow, UserInfo};

verus! {

/// The application's queries.
pub struct Query;

/// A stored source as the queries read it.
pub struct SourceRow {
    pub id: i32,
    pub event: i32,
    pub url: Option<String>,
    pub apikey: Option<String>,
    pub event_slug: Option<String>,
    pub filter: Option<i32>,
    pub type_filter: Vec<i32>,
}

/// Counts of an event's sources, submissions and ballots.
pub struct EventOverview {
    pub sources: i32,
    pub submissions: i32,
    pub votes: i32,
}

/// The event and client a ballot export asks for, by event slug.
pub struct ExportRequest {
    pub events: Vec<(String, String)>,
}

/// A stored ballot as the export reads it, with its event's slug.
pub struct VoteAndSlug {
    pub client: String,
    pub sequence: i32,
    pub shown: Vec<String>,
    pub expanded: Vec<String>,
    pub up: Vec<String>,
    pub down: Vec<String>,
    pub slug: String,
}

/// An exported ballot.
pub struct VoteExport {
    pub seq: u32,
    pub client: String,
    pub up: Vec<String>,
    pub down: Vec<String>,
    pub shown: Vec<String>,
    pub expanded: Vec<String>,
}

/// The exported ballots, by event slug.
pub struct ExportResult {
    pub events: Vec<(String, VoteExport)>,
}

/// The counts of one submission's ratings.
pub struct EventRatingItem {
    pub up: i64,
    pub down: i64,
    pub views: i64,
    pub expanded: i64,
}

/// A row of the rating counts: the full code and the counts.
pub struct EvenRatingQueryItem {
    pub code: String,
    pub views: i64,
    pub expanded: i64,
    pub up: i64,
    pub down: i64,
}

/// The rating counts of an event, by full code.
pub struct EventRatingsResponse {
    pub response: Vec<(String, EventRatingItem)>,
}

/// A member of an event as the user list reads it.
pub struct MemberRow {
    pub perm: String,
    pub id: i32,
    pub name: String,
    pub email: String,
}

/// A member of an event as the user list shows it.
pub struct ConferenceUser {
    pub id: String,
    pub name: String,
    pub email: String,
    pub permissions: ConferenceUserRole,
}

pub struct ConferenceUserList {
    pub users: Vec<ConferenceUser>,
}

/// A user found by a search.
pub struct SearchUser {
    pub id: String,
    pub name: String,
    pub email: String,
}

pub struct SearchUserList {
    pub users: Vec<SearchUser>,
}

/// The address a source's submissions can be pushed to.
pub struct EventUrlItem {
    pub submission_update_url: String,
}

/// The push addresses of an event's sources, by source slug.
pub struct EventUrlsResponse {
    pub urls: Vec<(String, EventUrlItem)>,
}

/// The stored source as a source to update: it needs an address, a key, an
/// event slug and a readable filter.
pub open spec fn source_to_update(event: i32, row: SourceRow, s: SourceToUpdate) -> bool {
    &&& s.update_url == row.url->0
    &&& s.apikey == row.apikey->0
    &&& s.event_slug == row.event_slug->0
    &&& s.source_id == row.id
    &&& s.event_id == event
    &&& filter_code(s.filter) == row.filter->0
    &&& s.type_filter == row.type_filter
}

/// A stored filter number that names a filter.
pub open spec fn known_filter(code: i32) -> bool {
    code == 0 || code == 1
}

/// A stored source has all that an update needs.
pub open spec fn updatable(row: SourceRow) -> bool {
    row.url is Some && row.apikey is Some && row.event_slug is Some && row.filter is Some
}

/// The message for a stored filter number that names no filter.
pub open spec fn bad_filter_message(code: i32) -> Seq<char> {
    "Can't convert filter: "@ + ("Invalid value for SourceFilter: "@ + decimal(code as int))
}

impl Query {
    /// The source `row` of `event` (none when no such source is stored) as a
    /// source to update; `Can't find the source` when it lacks what an update
    /// needs, the filter's message when its filter is unreadable.
    pub fn get_source(event: i32, row: Option<SourceRow>) -> (r: Result<SourceToUpdate, String>)
        ensures
            match row {
                Some(m) => if updatable(m) {
                    if known_filter(m.filter->0) {
                        r matches Ok(s) && source_to_update(event, m, s)
                    } else {
                        r matches Err(e) && e@ == bad_filter_message(m.filter->0)
                    }
                } else {
                    r matches Err(e) && e@ == "Can't find the source"@
                },
                None => r matches Err(e) && e@ == "Can't find the source"@,
            },
    {
        if let Some(s) = row {
            let SourceRow { id, event: _, url, apikey, event_slug, filter, type_filter } = s;
            if let Some(url) = url {
                if let Some(apikey) = apikey {
                    if let Some(event_slug) = event_slug {
                        let f = get_filter(filter)?;
                        if let Some(filter) = f {
                            return Ok(SourceToUpdate {
                                update_url: url,
                                event_slug,
                                apikey,
                                source_id: id,
                                event_id: event,
                                filter,
                                type_filter,
                            });
                        }
                    }
                }
            }
        }
        Err("Can't find the source".to_string())
    }

    /// The sources due for an update, as sources to update. The query selects
    /// only sources with all an update needs; a filter number that names no
    /// filter is left out by `requires`.
    pub fn get_sources_for_updates(rows: Vec<SourceRow>) -> (r: Vec<SourceToUpdate>)
        requires
            forall|i: int| 0 <= i < rows@.len() ==> updatable(#[trigger] rows@[i]) && known_filter(rows@[i].filter->0),
        ensures
            r@.len() == rows@.len(),
            forall|i: int| 0 <= i < r@.len() ==> source_to_update(rows@[i].event, rows@[i], #[trigger] r@[i]),
    {
        let mut r: Vec<SourceToUpdate> = Vec::new();
        let mut rows = rows;
        let ghost all = rows@;
        let mut taken: Vec<SourceToUpdate> = Vec::new();
        while rows.len() > 0
            invariant
                rows@.len() + taken@.len() == all.len(),
                rows@ == all.subrange(0, rows@.len() as int),
                forall|i: int| 0 <= i < all.len() ==> updatable(#[trigger] all[i]) && known_filter(all[i].filter->0),
                forall|k: int| 0 <= k < taken@.len() ==> source_to_update(all[all.len() - 1 - k].event, all[all.len() - 1 - k], #[trigger] taken@[k]),
            decreases rows@.len(),
        {
            let ghost before = rows@;
            let m = rows.pop().unwrap();
            assert(m == all[rows@.len() as int]);
            assert(rows@ =~= all.subrange(0, rows@.len() as int));
            let SourceRow { id, event, url, apikey, event_slug, filter, type_filter } = m;
            let code = filter.unwrap();
            let f = if code == 0 { SourceFilter::Accepted } else { SourceFilter::Confirmed };
            let ghost t0 = taken@;
            taken.push(SourceToUpdate {
                update_url: url.unwrap(),
                event_slug: event_slug.unwrap(),
                apikey: apikey.unwrap(),
                source_id: id,
                event_id: event,
                filter: f,
                type_filter,
            });
            assert forall|k: int| 0 <= k < taken@.len() implies source_to_update(all[all.len() - 1 - k].event, all[all.len() - 1 - k], #[trigger] taken@[k]) by {
                if k < t0.len() {
                    assert(taken@[k] == t0[k]);
                }
            }
        }
        while taken.len() > 0
            invariant
                r@.len() + taken@.len() == all.len(),
                forall|k: int| 0 <= k < taken@.len() ==> source_to_update(all[all.len() - 1 - k].event, all[all.len() - 1 - k], #[trigger] taken@[k]),
                forall|i: int| 0 <= i < r@.len() ==> source_to_update(all[i].event, all[i], #[trigger] r@[i]),
            decreases taken@.len(),
        {
            let ghost r0 = r@;
            let s = taken.pop().unwrap();
            r.push(s);
            assert forall|i: int| 0 <= i < r@.len() implies source_to_update(all[i].event, all[i], #[trigger] r@[i]) by {
                if i < r0.len() {
                    assert(r@[i] == r0[i]);
                }
            }
        }
        r
    }

    /// The source that an update token opens: the token must match exactly one
    /// source, else `Token not found`.
    pub fn verify_update_token(ids: &Vec<i32>) -> (r: Result<i32, String>)
        ensures
            ids@.len() == 1 ==> r == Ok::<i32, String>(ids@[0]),
            ids@.len() != 1 ==> (r matches Err(e) && e@ == "Token not found"@),
    {
        if ids.len() == 1 {
            Ok(ids[0])
        } else {
            Err("Token not found".to_string())
        }
    }

    /// The overview of an event from its counts, each cut to an `i32` as the
    /// stored counts are.
    pub fn get_event_overview(sources: u64, submissions: u64, votes: u64) -> (r: EventOverview)
        ensures
            r.sources == sources as i32,
            r.submissions == submissions as i32,
            r.votes == votes as i32,
    {
        EventOverview { sources: sources as i32, submissions: submissions as i32, votes: votes as i32 }
    }
}

/// The last entry of `s` whose key is `k`, by the key function `key`.
pub open spec fn last_with<T>(s: Seq<T>, key: spec_fn(T) -> Seq<char>, k: Seq<char>) -> Option<T>
    decreases s.len(),
{
    if s.len() == 0 {
        None
    } else {
        match last_with(s.drop_first(), key, k) {
            Some(v) => Some(v),
            None => if key(s[0]) == k { Some(s[0]) } else { None },
        }
    }
}

pub open spec fn vote_slug(v: VoteAndSlug) -> Seq<char> {
    v.slug@
}

/// The export of a stored ballot; its sequence number read as unsigned.
pub open spec fn export_of(v: VoteAndSlug) -> VoteExport {
    VoteExport { seq: v.sequence as u32, client: v.client, up: v.up, down: v.down, shown: v.shown, expanded: v.expanded }
}

/// A ballot's sequence number, stored as an `i32`, exports as the number the
/// client sent.
pub proof fn lemma_sequence_roundtrip(sequence: u32)
    ensures
        ((sequence as i32) as u32) == sequence,
{
    assert(((sequence as i32) as u32) == sequence) by (bit_vector);
}

pub open spec fn rating_code(v: EvenRatingQueryItem) -> Seq<char> {
    v.code@
}

pub open spec fn rating_of(v: EvenRatingQueryItem) -> EventRatingItem {
    EventRatingItem { up: v.up, down: v.down, views: v.views, expanded: v.expanded }
}

/// The user list entry of member `m` for `viewer`.
pub open spec fn listed_member(u: ConferenceUser, m: MemberRow, viewer: i32) -> bool {
    &&& u.id@ == decimal(m.id as int)
    &&& u.name == m.name
    &&& u.email == m.email
    &&& u.permissions == if m.id == viewer { ConferenceUserRole::Own } else { user_role_of(role_of(m.perm@)->0) }
}

/// Whether member `m` can be listed: the viewer always, others with a
/// readable role.
pub open spec fn member_listable(m: MemberRow, viewer: i32) -> bool {
    m.id == viewer || role_of(m.perm@) is Some
}

/// A user as a search finds it.
pub struct UserRow {
    pub id: i32,
    pub name: String,
    pub email: String,
}

/// The prefix of the push addresses of an event's sources.
pub open spec fn update_prefix(external_url: Seq<char>, slug: Seq<char>) -> Result<Seq<char>, Seq<char>> {
    match url_join(external_url, "api/admin/updatesource/"@) {
        Ok(a) => url_join(a, slug + "/"@),
        Err(e) => Err(e),
    }
}

/// The push address of a source `(slug, update key)` under `prefix`.
pub open spec fn push_url(prefix: Seq<char>, source: (String, String)) -> Result<Seq<char>, Seq<char>> {
    url_join(prefix, source.0@ + "/"@ + source.1@)
}

pub open spec fn source_slug(s: (String, String)) -> Seq<char> {
    s.0@
}

impl Query {
    /// The exported ballots: nothing when no event is asked for, else the ballots
    /// read, by event slug, the last one read for a slug winning.
    pub fn export_for_events(request: &ExportRequest, records: Vec<VoteAndSlug>) -> (r: ExportResult)
        ensures
            request.events@.len() == 0 ==> r.events@.len() == 0,
            request.events@.len() != 0 ==> {
                &&& keys_distinct(r.events@)
                &&& forall|k: Seq<char>| #[trigger] value_of(r.events@, k) == match last_with(records@, |v: VoteAndSlug| vote_slug(v), k) {
                    Some(v) => Some(export_of(v)),
                    None => None,
                }
            },
    {
        let mut events: Vec<(String, VoteExport)> = Vec::new();
        if request.events.len() == 0 {
            return ExportResult { events };
        }
        let ghost all = records@;
        let ghost key = |v: VoteAndSlug| vote_slug(v);
        let mut records = records;
        while records.len() > 0
            invariant
                records@.len() <= all.len(),
                records@ == all.subrange(0, records@.len() as int),
                keys_distinct(events@),
                key == (|v: VoteAndSlug| vote_slug(v)),
                forall|k: Seq<char>| #[trigger] value_of(events@, k) == match last_with(all.subrange(records@.len() as int, all.len() as int), key, k) {
                    Some(v) => Some(export_of(v)),
                    None => None,
                },
            decreases records@.len(),
        {
            let ghost n = records@.len() as int;
            let v = records.pop().unwrap();
            let ghost suffix = all.subrange(n - 1, all.len() as int);
            assert(suffix.drop_first() =~= all.subrange(n, all.len() as int));
            assert(suffix[0] == v);
            assert(records@ =~= all.subrange(0, n - 1));
            let VoteAndSlug { client, sequence, shown, expanded, up, down, slug } = v;
            put_if_absent(&mut events, slug, VoteExport { seq: sequence as u32, client, up, down, shown, expanded });
            assert forall|k: Seq<char>| #[trigger] value_of(events@, k) == match last_with(suffix, key, k) {
                Some(v) => Some(export_of(v)),
                None => None,
            } by {}
        }
        assert(all.subrange(0, all.len() as int) =~= all);
        ExportResult { events }
    }

    /// The rating counts of an event by full code, the last row for a code
    /// winning.
    pub fn get_event_ratings(rows: Vec<EvenRatingQueryItem>) -> (r: EventRatingsResponse)
        ensures
            keys_distinct(r.response@),
            forall|k: Seq<char>| #[trigger] value_of(r.response@, k) == match last_with(rows@, |v: EvenRatingQueryItem| rating_code(v), k) {
                Some(v) => Some(rating_of(v)),
                None => None,
            },
    {
        let mut response: Vec<(String, EventRatingItem)> = Vec::new();
        let ghost all = rows@;
        let ghost key = |v: EvenRatingQueryItem| rating_code(v);
        let mut rows = rows;
        while rows.len() > 0
            invariant
                rows@.len() <= all.len(),
                rows@ == all.subrange(0, rows@.len() as int),
                keys_distinct(response@),
                key == (|v: EvenRatingQueryItem| rating_code(v)),
                forall|k: Seq<char>| #[trigger] value_of(response@, k) == match last_with(all.subrange(rows@.len() as int, all.len() as int), key, k) {
                    Some(v) => Some(rating_of(v)),
                    None => None,
                },
            decreases rows@.len(),
        {
            let ghost n = rows@.len() as int;
            let v = rows.pop().unwrap();
            let ghost suffix = all.subrange(n - 1, all.len() as int);
            assert(suffix.drop_first() =~= all.subrange(n, all.len() as int));
            assert(suffix[0] == v);
            assert(rows@ =~= all.subrange(0, n - 1));
            let EvenRatingQueryItem { code, views, expanded, up, down } = v;
            put_if_absent(&mut response, code, EventRatingItem { up, down, views, expanded });
            assert forall|k: Seq<char>| #[trigger] value_of(response@, k) == match last_with(suffix, key, k) {
                Some(v) => Some(rating_of(v)),
                None => None,
            } by {}
        }
        assert(all.subrange(0, all.len() as int) =~= all);
        EventRatingsResponse { response }
    }

    /// The user list of an event as `viewer` sees it, in the order of the
    /// members; the first member with an unreadable role makes it fail with
    /// `Could not get role info: Invalid value: <role>`.
    pub fn get_conference_users(viewer: i32, rows: &Vec<MemberRow>) -> (r: Result<ConferenceUserList, String>)
        ensures
            r is Ok <==> forall|i: int| 0 <= i < rows@.len() ==> member_listable(#[trigger] rows@[i], viewer),
            (forall|i: int| 0 <= i < rows@.len() ==> member_listable(#[trigger] rows@[i], viewer)) ==> (r matches Ok(l)
                && l.users@.len() == rows@.len()
                && forall|i: int| 0 <= i < rows@.len() ==> listed_member(#[trigger] l.users@[i], rows@[i], viewer)),
            r matches Err(e) ==> exists|i: int| 0 <= i < rows@.len() && !member_listable(#[trigger] rows@[i], viewer)
                && (forall|j: int| 0 <= j < i ==> member_listable(#[trigger] rows@[j], viewer))
                && e@ == "Could not get role info: "@ + ("Invalid value: "@ + rows@[i].perm@),
    {
        let mut users: Vec<ConferenceUser> = Vec::new();
        for i in 0..rows.len()
            invariant
                users@.len() == i,
                forall|j: int| 0 <= j < i ==> member_listable(#[trigger] rows@[j], viewer),
                forall|j: int| 0 <= j < i ==> listed_member(#[trigger] users@[j], rows@[j], viewer),
        {
            let m = &rows[i];
            match conference_user_role(m.id, viewer, m.perm.as_str()) {
                Ok(role) => {
                    users.push(ConferenceUser { id: int_text(m.id), name: m.name.clone(), email: m.email.clone(), permissions: role });
                },
                Err(e) => {
                    return Err(message("Could not get role info: ", e.as_str()));
                },
            }
        }
        Ok(ConferenceUserList { users })
    }

    /// The users a search found, in the order found.
    pub fn search_users(rows: Vec<UserRow>) -> (r: SearchUserList)
        ensures
            r.users@.len() == rows@.len(),
            forall|i: int| 0 <= i < rows@.len() ==> (#[trigger] r.users@[i]).id@ == decimal(rows@[i].id as int)
                && r.users@[i].name == rows@[i].name && r.users@[i].email == rows@[i].email,
    {
        let mut users: Vec<SearchUser> = Vec::new();
        for i in 0..rows.len()
            invariant
                users@.len() == i,
                forall|j: int| 0 <= j < i ==> (#[trigger] users@[j]).id@ == decimal(rows@[j].id as int)
                    && users@[j].name == rows@[j].name && users@[j].email == rows@[j].email,
        {
            let u = &rows[i];
            users.push(SearchUser { id: int_text(u.id), name: u.name.clone(), email: u.email.clone() });
        }
        SearchUserList { users }
    }

    /// The prefix of the push addresses of event `slug`, under the
    /// application's external address.
    pub fn update_url_prefix(external_url: &str, slug: &str) -> (r: Result<String, String>)
        ensures
            match r {
                Ok(p) => update_prefix(external_url@, slug@) == Ok::<Seq<char>, Seq<char>>(p@),
                Err(e) => update_prefix(external_url@, slug@) == Err::<Seq<char>, Seq<char>>(e@),
            },
    {
        let base = join_url(external_url, "api/admin/updatesource/")?;
        let mut part = slug.to_string();
        part.append("/");
        join_url(base.as_str(), part.as_str())
    }

    /// The push addresses of sources `(slug, update key)` under `prefix`, by
    /// slug (the last source with a slug winning); the first address that
    /// cannot be formed makes it fail with `Could not parse url parts: <error>`.
    pub fn get_update_urls(prefix: &str, sources: &Vec<(String, String)>) -> (r: Result<EventUrlsResponse, String>)
        ensures
            r is Ok <==> forall|i: int| 0 <= i < sources@.len() ==> push_url(prefix@, #[trigger] sources@[i]) is Ok,
            (forall|i: int| 0 <= i < sources@.len() ==> push_url(prefix@, #[trigger] sources@[i]) is Ok) ==> (r matches Ok(resp) && {
                &&& keys_distinct(resp.urls@)
                &&& forall|k: Seq<char>| #[trigger] has_key(resp.urls@, k) <==> last_with(sources@, |s: (String, String)| source_slug(s), k) is Some
                &&& forall|j: int| 0 <= j < resp.urls@.len() ==> (#[trigger] resp.urls@[j]).1.submission_update_url@
                    == push_url(prefix@, last_with(sources@, |s: (String, String)| source_slug(s), resp.urls@[j].0@)->0)->Ok_0
            }),
            r matches Err(e) ==> exists|i: int| 0 <= i < sources@.len() && push_url(prefix@, #[trigger] sources@[i]) is Err
                && (forall|j: int| 0 <= j < i ==> push_url(prefix@, #[trigger] sources@[j]) is Ok)
                && e@ == "Could not parse url parts: "@ + push_url(prefix@, sources@[i])->Err_0,
    {
        let mut addresses: Vec<String> = Vec::new();
        for i in 0..sources.len()
            invariant
                addresses@.len() == i,
                forall|j: int| 0 <= j < i ==> push_url(prefix@, #[trigger] sources@[j]) == Ok::<Seq<char>, Seq<char>>(addresses@[j]@),
        {
            let mut part = sources[i].0.clone();
            part.append("/");
            part.append(sources[i].1.as_str());
            match join_url(prefix, part.as_str()) {
                Ok(u) => {
                    addresses.push(u);
                },
                Err(e) => {
                    return Err(message("Could not parse url parts: ", e.as_str()));
                },
            }
        }
        let ghost key = |s: (String, String)| source_slug(s);
        let mut urls: Vec<(String, EventUrlItem)> = Vec::new();
        let mut n = sources.len();
        while n > 0
            invariant
                n <= sources@.len(),
                addresses@.len() == sources@.len(),
                forall|j: int| 0 <= j < sources@.len() ==> push_url(prefix@, #[trigger] sources@[j]) == Ok::<Seq<char>, Seq<char>>(addresses@[j]@),
                keys_distinct(urls@),
                key == (|s: (String, String)| source_slug(s)),
                forall|k: Seq<char>| #![trigger value_of(urls@, k)]
                    (value_of(urls@, k) is Some <==> last_with(sources@.subrange(n as int, sources@.len() as int), key, k) is Some)
                    && (value_of(urls@, k) is Some ==> value_of(urls@, k)->0.submission_update_url@
                        == push_url(prefix@, last_with(sources@.subrange(n as int, sources@.len() as int), key, k)->0)->Ok_0),
            decreases n,
        {
            let ghost suffix = sources@.subrange(n - 1, sources@.len() as int);
            assert(suffix.drop_first() =~= sources@.subrange(n as int, sources@.len() as int));
            n -= 1;
            assert(suffix[0] == sources@[n as int]);
            put_if_absent(&mut urls, sources[n].0.clone(), EventUrlItem { submission_update_url: addresses[n].clone() });
            assert forall|k: Seq<char>| #![trigger value_of(urls@, k)]
                (value_of(urls@, k) is Some <==> last_with(suffix, key, k) is Some)
                && (value_of(urls@, k) is Some ==> value_of(urls@, k)->0.submission_update_url@
                    == push_url(prefix@, last_with(suffix, key, k)->0)->Ok_0) by {}
        }
        assert(sources@.subrange(0, sources@.len() as int) =~= sources@);
        assert forall|k: Seq<char>| #[trigger] has_key(urls@, k) <==> last_with(sources@, key, k) is Some by {
            assert(value_of(urls@, k) is Some <==> has_key(urls@, k));
        }
        assert forall|j: int| 0 <= j < urls@.len() implies (#[trigger] urls@[j]).1.submission_update_url@
            == push_url(prefix@, last_with(sources@, key, urls@[j].0@)->0)->Ok_0 by {
            lemma_value_at(urls@, j);
        }
        Ok(EventUrlsResponse { urls })
    }
}

/// The submissions listing of an event, by full code.
pub struct SubmissionsResponse {
    pub submissions: Vec<(String, SubmissionsResponseItem)>,
}

impl Query {
    /// The submissions listing of an event: every submission of every source,
    /// under its full code, source by source.
    pub fn get_submissions(sources: &Vec<SourceSubmissions>) -> (r: SubmissionsResponse)
        ensures
            r.submissions@.len() == all_positions(sources@).len(),
            forall|k: int| 0 <= k < r.submissions@.len() ==> {
                let p = all_positions(sources@)[k];
                let su = sources@[p.0].submissions@[p.1];
                &&& (#[trigger] r.submissions@[k]).0@ == spec_fullcode(sources@[p.0].slug@, su.code@)
                &&& response_item_of(r.submissions@[k].1, su)
            },
    {
        let mut r: Vec<(String, SubmissionsResponseItem)> = Vec::new();
        for i in 0..sources.len()
            invariant
                r@.len() == all_positions(sources@.take(i as int)).len(),
                forall|k: int| 0 <= k < r@.len() ==> {
                    let p = all_positions(sources@.take(i as int))[k];
                    let su = sources@[p.0].submissions@[p.1];
                    &&& (#[trigger] r@[k]).0@ == spec_fullcode(sources@[p.0].slug@, su.code@)
                    &&& response_item_of(r@[k].1, su)
                },
        {
            let ghost prev = all_positions(sources@.take(i as int));
            proof {
                assert(sources@.take(i + 1).drop_last() == sources@.take(i as int));
                assert(sources@.take(i + 1).last() == sources@[i as int]);
                lemma_all_positions(sources@.take(i as int));
                assert forall|k: int| 0 <= k < prev.len() implies 0 <= (#[trigger] prev[k]).0 < i by {
                    let p = prev[k];
                    assert(0 <= p.0 < sources@.take(i as int).len());
                }
            }
            let source = &sources[i];
            for j in 0..source.submissions.len()
                invariant
                    source == &sources@[i as int],
                    prev == all_positions(sources@.take(i as int)),
                    forall|k: int| 0 <= k < prev.len() ==> 0 <= (#[trigger] prev[k]).0 < i,
                    i < sources@.len(),
                    r@.len() == prev.len() + j,
                    forall|k: int| 0 <= k < r@.len() ==> {
                        let p = (prev + Seq::new(j as nat, |m: int| (i as int, m)))[k];
                        let su = sources@[p.0].submissions@[p.1];
                        &&& (#[trigger] r@[k]).0@ == spec_fullcode(sources@[p.0].slug@, su.code@)
                        &&& response_item_of(r@[k].1, su)
                    },
            {
                let submission = &source.submissions[j];
                let ghost r0 = r@;
                let item = submission_response_item(submission);
                r.push((fullcode(source.slug.as_str(), submission.code.as_str()), item));
                assert forall|k: int| 0 <= k < r@.len() implies {
                    let p = (prev + Seq::new((j + 1) as nat, |m: int| (i as int, m)))[k];
                    let su = sources@[p.0].submissions@[p.1];
                    &&& (#[trigger] r@[k]).0@ == spec_fullcode(sources@[p.0].slug@, su.code@)
                    &&& response_item_of(r@[k].1, su)
                } by {
                    if k < r0.len() {
                        assert(r@[k] == r0[k]);
                        assert((prev + Seq::new((j + 1) as nat, |m: int| (i as int, m)))[k] == (prev + Seq::new(j as nat, |m: int| (i as int, m)))[k]);
                    }
                }
            }
            assert(all_positions(sources@.take(i + 1)) =~= prev + Seq::new(source.submissions@.len(), |m: int| (i as int, m)));
        }
        assert(sources@.take(sources@.len() as int) == sources@);
        SubmissionsResponse { submissions: r }
    }
}

/// A source as the source list shows it.
pub struct SourceResponseItem {
    pub autoupdate: bool,
    pub url: Option<String>,
    pub event_slug: Option<String>,
    pub interval: Option<i32>,
    pub filter: Option<SourceFilter>,
    pub submission_types: Option<Vec<(i32, String)>>,
    pub type_filter: Vec<i32>,
}

/// The source list of an event, by slug.
pub struct SoureceResponse {
    pub sources: Vec<(String, SourceResponseItem)>,
}

/// A stored source with the settings the source list shows; the stored
/// submission types already read.
pub struct SourceSettingsRow {
    pub slug: String,
    pub autoupdate: bool,
    pub url: Option<String>,
    pub event_slug: Option<String>,
    pub interval: Option<i32>,
    pub filter: Option<i32>,
    pub submission_types: Option<Vec<(i32, String)>>,
    pub type_filter: Vec<i32>,
}

pub open spec fn readable_filter(f: Option<i32>) -> bool {
    f is None || known_filter(f->0)
}

/// The list entry of a stored source.
pub open spec fn source_entry(e: SourceResponseItem, m: SourceSettingsRow) -> bool {
    &&& e.autoupdate == m.autoupdate
    &&& e.url == m.url
    &&& e.event_slug == m.event_slug
    &&& e.interval == m.interval
    &&& e.filter == match m.filter { Some(c) => Some(if c == 0 { SourceFilter::Accepted } else { SourceFilter::Confirmed }), None => None::<SourceFilter> }
    &&& e.submission_types == m.submission_types
    &&& e.type_filter == m.type_filter
}

impl Query {
    /// The source list of an event, in stored order (by slug); the first
    /// source with an unreadable filter makes it fail with the filter's
    /// message.
    pub fn get_sources(rows: Vec<SourceSettingsRow>) -> (r: Result<SoureceResponse, String>)
        ensures
            r is Ok <==> forall|i: int| 0 <= i < rows@.len() ==> readable_filter((#[trigger] rows@[i]).filter),
            (forall|i: int| 0 <= i < rows@.len() ==> readable_filter((#[trigger] rows@[i]).filter)) ==> (r matches Ok(l)
                && l.sources@.len() == rows@.len()
                && forall|i: int| 0 <= i < rows@.len() ==> (#[trigger] l.sources@[i]).0 == rows@[i].slug
                    && source_entry(l.sources@[i].1, rows@[i])),
            r matches Err(e) ==> exists|i: int| 0 <= i < rows@.len() && !readable_filter((#[trigger] rows@[i]).filter)
                && (forall|j: int| 0 <= j < i ==> readable_filter((#[trigger] rows@[j]).filter))
                && e@ == bad_filter_message(rows@[i].filter->0),
    {
        for i in 0..rows.len()
            invariant
                forall|j: int| 0 <= j < i ==> readable_filter((#[trigger] rows@[j]).filter),
        {
            if let Err(e) = get_filter(rows[i].filter) {
                assert(!readable_filter(rows@[i as int].filter));
                return Err(e);
            }
        }
        let ghost all = rows@;
        let mut rest = rows;
        let mut rev: Vec<(String, SourceResponseItem)> = Vec::new();
        while rest.len() > 0
            invariant
                rest@.len() <= all.len(),
                rest@ == all.subrange(0, rest@.len() as int),
                rev@.len() + rest@.len() == all.len(),
                forall|j: int| 0 <= j < all.len() ==> readable_filter((#[trigger] all[j]).filter),
                forall|k: int| 0 <= k < rev@.len() ==> (#[trigger] rev@[k]).0 == all[all.len() - 1 - k].slug
                    && source_entry(rev@[k].1, all[all.len() - 1 - k]),
            decreases rest@.len(),
        {
            let m = rest.pop().unwrap();
            assert(m == all[rest@.len() as int]);
            assert(rest@ =~= all.subrange(0, rest@.len() as int));
            let SourceSettingsRow { slug, autoupdate, url, event_slug, interval, filter, submission_types, type_filter } = m;
            let filter = match filter {
                Some(c) => Some(if c == 0 { SourceFilter::Accepted } else { SourceFilter::Confirmed }),
                None => None,
            };
            let ghost r0 = rev@;
            rev.push((slug, SourceResponseItem { autoupdate, url, event_slug, interval, filter, submission_types, type_filter }));
            assert forall|k: int| 0 <= k < rev@.len() implies (#[trigger] rev@[k]).0 == all[all.len() - 1 - k].slug
                && source_entry(rev@[k].1, all[all.len() - 1 - k]) by {
                if k < r0.len() {
                    assert(rev@[k] == r0[k]);
                }
            }
        }
        let mut out: Vec<(String, SourceResponseItem)> = Vec::new();
        while rev.len() > 0
            invariant
                out@.len() + rev@.len() == all.len(),
                forall|k: int| 0 <= k < rev@.len() ==> (#[trigger] rev@[k]).0 == all[all.len() - 1 - k].slug
                    && source_entry(rev@[k].1, all[all.len() - 1 - k]),
                forall|j: int| 0 <= j < out@.len() ==> (#[trigger] out@[j]).0 == all[j].slug && source_entry(out@[j].1, all[j]),
            decreases rev@.len(),
        {
            let ghost o0 = out@;
            let e = rev.pop().unwrap();
            out.push(e);
            assert forall|j: int| 0 <= j < out@.len() implies (#[trigger] out@[j]).0 == all[j].slug && source_entry(out@[j].1, all[j]) by {
                if j < o0.len() {
                    assert(out@[j] == o0[j]);
                }
            }
        }
        Ok(SoureceResponse { sources: out })
    }
}

impl Query {
    /// A user's membership in an event, read from the stored `(event, role)`
    /// (none when the user is no member); an unreadable role fails with its
    /// message.
    pub fn get_event_perm_for_user(stored: Option<(i32, String)>) -> (r: Result<Option<EventWithPerm>, String>)
        ensures
            match stored {
                None => r == Ok::<Option<EventWithPerm>, String>(None),
                Some((event, perm)) => match role_of(perm@) {
                    Some(role) => r matches Ok(Some(m)) && m.event == event && m.perm == role,
                    None => r matches Err(e) && e@ == "Invalid value: "@ + perm@,
                },
            },
    {
        match stored {
            None => Ok(None),
            Some((event, perm)) => match EventWithPerm::from_stored(event, perm.as_str()) {
                Ok(m) => Ok(Some(m)),
                Err(e) => Err(e),
            },
        }
    }

    /// Whether a user may create events; `User not found` when no such user
    /// is stored.
    pub fn user_can_create(stored: Option<bool>) -> (r: Result<bool, String>)
        ensures
            match stored {
                Some(b) => r == Ok::<bool, String>(b),
                None => r matches Err(e) && e@ == "User not found"@,
            },
    {
        match stored {
            Some(b) => Ok(b),
            None => Err("User not found".to_string()),
        }
    }

    /// The event list of a user (none when the user is not stored): the user,
    /// whether it may create events, and its memberships as `event_list`
    /// lists them.
    pub fn get_events(user: Option<(UserInfo, bool)>, rows: Vec<MembershipRow>) -> (r: Option<EventReseponse>)
        ensures
            match user {
                None => r is None,
                Some((info, can_create)) => r matches Some(resp) && resp.can_create == can_create && resp.user == info
                    && resp.events@.len() == listed_rows(rows@).len()
                    && forall|k: int| 0 <= k < resp.events@.len() ==> event_entry(#[trigger] resp.events@[k], rows@[listed_rows(rows@)[k]]),
            },
    {
        match user {
            None => None,
            Some((info, can_create)) => Some(event_list(can_create, info, rows)),
        }
    }
}

} // verus!
