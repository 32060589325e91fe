use voter::content::{conditional_version, event_content, fullcode, next_version, submission_response_item, SourceSubmissions, StoredSubmission};
use voter::mutation::Mutation;
use voter::pretalx::{
    listing_request, schedule_from_slots, schedule_url, submissions_url, sync_items, try_next_page_url, PageStep,
    PretalxScheduleResponse, PretalxScheduleSlot, PretalxSubmission, PretalxSubmissionsResponse, SourceToUpdate, SubmissionPager,
};
use voter::query::{
    EvenRatingQueryItem, ExportRequest, MemberRow, Query, SourceRow, SourceSettingsRow, UserRow, VoteAndSlug,
};
use voter::roles::{get_filter, ConferenceUserRole, ConflcitMode, RoleInfo, SourceFilter};
use voter::schedule::{
    later_by_more_than_half_second, SubmissionRecord, SubmissionStartEnd, Timestamp,
};
use voter::sync::{StoredTypes, SubmissionChange, SubmissionSyncItem, SyncSourceRequest};
use voter::urls::is_https;

fn ts(secs: i64) -> Timestamp {
    Timestamp { secs, nanos: 0 }
}

fn span(a: i64, b: i64) -> SubmissionStartEnd {
    SubmissionStartEnd { start: ts(a), end: ts(b) }
}

fn record(code: &str, title: &str, abs: &str, time: Option<(i64, i64)>) -> SubmissionRecord {
    SubmissionRecord {
        code: code.to_string(),
        title: title.to_string(),
        abstract_text: abs.to_string(),
        start: time.map(|t| ts(t.0)),
        end: time.map(|t| ts(t.1)),
    }
}

fn item(code: &str, title: &str, abs: &str, time: Option<(i64, i64)>) -> (String, SubmissionSyncItem) {
    (
        code.to_string(),
        SubmissionSyncItem {
            title: title.to_string(),
            abstract_text: abs.to_string(),
            code: code.to_string(),
            schedule_time: time.map(|t| span(t.0, t.1)),
        },
    )
}

fn source(url: &str, filter: SourceFilter) -> SourceToUpdate {
    SourceToUpdate {
        update_url: url.to_string(),
        event_slug: "conf".to_string(),
        apikey: "k".to_string(),
        source_id: 3,
        event_id: 1,
        filter,
        type_filter: vec![],
    }
}

#[test]
fn markdown_renders_html() {
    let req = SyncSourceRequest {
        source_id: 1,
        submission_types: None,
        submissions: vec![item("a", "A", "*hi*", None), item("b", "B", "", None)],
    };
    let plan = Mutation::sync_source(&req, &vec![], &StoredTypes::Missing, ts(0));
    assert_eq!(plan.to_create[0].html, "<p><em>hi</em></p>");
    assert_eq!(plan.to_create[1].html, "");
}

#[test]
fn half_second_tolerance() {
    let a = Timestamp { secs: 10, nanos: 500_000_000 };
    assert!(!later_by_more_than_half_second(a, ts(10)));
    assert!(later_by_more_than_half_second(Timestamp { secs: 10, nanos: 501_000_000 }, ts(10)));
    assert!(!later_by_more_than_half_second(ts(10), ts(20)));
}

#[test]
fn submission_time_updates() {
    let old = record("a", "t", "x", Some((100, 200)));
    let same = span(100, 200);
    assert!(Mutation::update_submission_time(&old.code, 3, &old, &Some(&same)).is_none());
    let earlier = span(90, 200);
    let u = Mutation::update_submission_time(&old.code, 3, &old, &Some(&earlier)).unwrap();
    assert_eq!((u.code.as_str(), u.source, u.start, u.end), ("a", 3, Some(ts(90)), Some(ts(200))));
    let later = span(150, 250);
    assert!(Mutation::update_submission_time(&old.code, 3, &old, &Some(&later)).is_none());
    let cleared = Mutation::update_submission_time(&old.code, 3, &old, &None).unwrap();
    assert_eq!((cleared.start, cleared.end), (None, None));
    let unscheduled = record("b", "t", "x", None);
    assert!(Mutation::update_submission_time(&unscheduled.code, 3, &unscheduled, &None).is_none());
    let set = Mutation::update_submission_time(&unscheduled.code, 3, &unscheduled, &Some(&later)).unwrap();
    assert_eq!(set.start, Some(ts(150)));
}

#[test]
fn schedule_sync_rewrites_changed_times() {
    let current = vec![
        record("a", "t", "x", Some((100, 200))),
        record("b", "t", "x", None),
        record("c", "t", "x", Some((10, 20))),
    ];
    let schedule = vec![("a".to_string(), span(100, 200)), ("b".to_string(), span(5, 6))];
    let ups = Mutation::sync_schedule(3, &current, &schedule);
    let codes: Vec<&str> = ups.iter().map(|u| u.code.as_str()).collect();
    assert_eq!(codes, vec!["b", "c"]);
    assert_eq!(ups[0].start, Some(ts(5)));
    assert_eq!(ups[1].start, None);
}

#[test]
fn sync_plan_converges_to_listing() {
    let current = vec![
        record("keep", "Same", "abs", None),
        record("gone", "Old", "abs", None),
        record("edit", "Old title", "abs", None),
        record("move", "T", "abs", Some((100, 200))),
    ];
    let req = SyncSourceRequest {
        source_id: 8,
        submission_types: None,
        submissions: vec![
            item("keep", "Same", "abs", None),
            item("new", "Fresh", "**b**", Some((1, 2))),
            item("edit", "New title", "abs", None),
            item("move", "T", "abs", Some((50, 200))),
        ],
    };
    let plan = Mutation::sync_source(&req, &current, &StoredTypes::Missing, ts(999));
    assert_eq!(plan.to_delete, vec!["gone".to_string()]);
    assert_eq!(plan.to_create.len(), 1);
    let c = &plan.to_create[0];
    assert_eq!((c.code.as_str(), c.title.as_str(), c.html.as_str(), c.source), ("new", "Fresh", "<p><strong>b</strong></p>", 8));
    assert_eq!((c.start, c.end, c.created, c.updated), (Some(ts(1)), Some(ts(2)), ts(999), ts(999)));
    assert_eq!(plan.updates.len(), 2);
    match &plan.updates[0] {
        SubmissionChange::Content { code, title, updated, .. } => {
            assert_eq!((code.as_str(), title.as_str(), *updated), ("edit", "New title", ts(999)));
        },
        _ => panic!("expected new text"),
    }
    match &plan.updates[1] {
        SubmissionChange::Time(u) => assert_eq!((u.code.as_str(), u.start), ("move", Some(ts(50)))),
        _ => panic!("expected new times"),
    }
    assert!(plan.real_update && !plan.force_update && plan.write);
    let mut after: Vec<&str> = current.iter().map(|r| r.code.as_str()).filter(|c| !plan.to_delete.iter().any(|d| d == c)).collect();
    after.extend(plan.to_create.iter().map(|n| n.code.as_str()));
    after.sort();
    assert_eq!(after, vec!["edit", "keep", "move", "new"]);
}

#[test]
fn sync_of_unchanged_listing_writes_nothing() {
    let current = vec![record("a", "T", "x", Some((1, 2)))];
    let req = SyncSourceRequest { source_id: 1, submission_types: None, submissions: vec![item("a", "T", "x", Some((1, 2)))] };
    let plan = Mutation::sync_source(&req, &current, &StoredTypes::Missing, ts(5));
    assert!(plan.to_delete.is_empty() && plan.to_create.is_empty() && plan.updates.is_empty());
    assert!(!plan.real_update && !plan.force_update && !plan.write);
}

#[test]
fn submission_types_force_a_write() {
    let current = vec![record("a", "T", "x", None)];
    let types = vec![(1, "Talk".to_string()), (2, "Workshop".to_string())];
    let req = |t: Option<Vec<(i32, String)>>| SyncSourceRequest { source_id: 1, submission_types: t, submissions: vec![item("a", "T", "x", None)] };
    let same = StoredTypes::Types(vec![(2, "Workshop".to_string()), (1, "Talk".to_string())]);
    assert!(!Mutation::sync_source(&req(Some(types.clone())), &current, &same, ts(0)).write);
    let other = StoredTypes::Types(vec![(1, "Talk".to_string())]);
    let p = Mutation::sync_source(&req(Some(types.clone())), &current, &other, ts(0));
    assert!(p.force_update && p.write && !p.real_update);
    assert!(Mutation::sync_source(&req(Some(types.clone())), &current, &StoredTypes::Unreadable, ts(0)).force_update);
    assert!(Mutation::sync_source(&req(Some(types)), &current, &StoredTypes::Missing, ts(0)).force_update);
    assert!(!Mutation::sync_source(&req(None), &current, &StoredTypes::Unreadable, ts(0)).write);
}

#[test]
fn urls_parse_and_join() {
    assert_eq!(Query::update_url_prefix("https://a.example/x/y", "conf").unwrap(), "https://a.example/x/api/admin/updatesource/conf/");
    assert!(Query::update_url_prefix("nope", "conf").is_err());
    assert_eq!(try_next_page_url("http://a.example:8080/p?q=1", true).unwrap().unwrap(), "https://a.example:8080/p?q=1");
    assert_eq!(try_next_page_url("http://a.example/p", false).unwrap().unwrap(), "http://a.example/p");
    assert_eq!(try_next_page_url("nope", false).unwrap().unwrap_err(), "relative URL without a base");
    assert!(is_https("https://a/"));
    assert!(!is_https("http://a/"));
    assert!(!is_https("https"));
}

#[test]
fn pretalx_addresses() {
    let s = source("https://pretalx.example/", SourceFilter::Accepted);
    assert_eq!(
        submissions_url(&s).unwrap(),
        "https://pretalx.example/api/events/conf/submissions/?state=accepted&state=confirmed&expand=slots"
    );
    let s = source("https://pretalx.example/sub/", SourceFilter::Confirmed);
    assert_eq!(submissions_url(&s).unwrap(), "https://pretalx.example/api/events/conf/submissions/?state=confirmed&expand=slots");
    assert_eq!(schedule_url(&s).unwrap(), "https://pretalx.example/api/events/conf/schedules/wip/?expand=slots");
    assert!(submissions_url(&source("::", SourceFilter::Confirmed)).is_err());
}

fn pretalx_submission(code: &str, title: &str, abs: Option<&str>) -> PretalxSubmission {
    PretalxSubmission { code: code.to_string(), title: title.to_string(), abstract_text: abs.map(|a| a.to_string()) }
}

#[test]
fn pager_walks_pages_on_https() {
    let mut p = SubmissionPager::start(&source("https://pretalx.example/", SourceFilter::Confirmed)).unwrap();
    assert!(p.on_https);
    let page = PretalxSubmissionsResponse {
        next: Some("http://pretalx.example/api/events/conf/submissions/?page=2".to_string()),
        results: vec![pretalx_submission("A", "a", None)],
    };
    assert!(matches!(p.receive(page), Some(PageStep::Fetch)));
    assert_eq!(p.url, "https://pretalx.example/api/events/conf/submissions/?page=2");
    let page = PretalxSubmissionsResponse { next: None, results: vec![pretalx_submission("B", "b", Some("x"))] };
    assert!(matches!(p.receive(page), Some(PageStep::Done)));
    assert_eq!(p.collected.len(), 2);
    let page = PretalxSubmissionsResponse { next: Some("no url".to_string()), results: vec![] };
    assert!(matches!(p.receive(page), Some(PageStep::Failed(e)) if e == "relative URL without a base"));
    assert!(try_next_page_url("mailto:x@y", true).is_none());
    assert_eq!(try_next_page_url("mailto:x@y", false).unwrap().unwrap(), "mailto:x@y");
}

#[test]
fn pager_keeps_http_when_started_on_http() {
    let mut p = SubmissionPager::start(&source("http://pretalx.example/", SourceFilter::Confirmed)).unwrap();
    assert!(!p.on_https);
    let page = PretalxSubmissionsResponse { next: Some("http://pretalx.example/p2".to_string()), results: vec![] };
    assert!(matches!(p.receive(page), Some(PageStep::Fetch)));
    assert_eq!(p.url, "http://pretalx.example/p2");
}

#[test]
fn schedule_keeps_last_complete_slot() {
    let slots = vec![
        PretalxScheduleSlot { start: Some(ts(1)), end: Some(ts(2)), submission: Some("A".to_string()) },
        PretalxScheduleSlot { start: Some(ts(3)), end: None, submission: Some("B".to_string()) },
        PretalxScheduleSlot { start: Some(ts(5)), end: Some(ts(6)), submission: Some("A".to_string()) },
        PretalxScheduleSlot { start: Some(ts(7)), end: Some(ts(8)), submission: None },
    ];
    let s = schedule_from_slots(&slots);
    assert_eq!(s.len(), 1);
    assert_eq!(s[0].0, "A");
    assert_eq!(s[0].1, span(5, 6));
}

#[test]
fn listing_from_pretalx() {
    let subs = vec![
        pretalx_submission("A", "first", None),
        pretalx_submission("B", "b", Some("about b")),
        pretalx_submission("A", "second", Some("about a")),
    ];
    let schedule = vec![("B".to_string(), span(10, 20))];
    let items = sync_items(subs, &schedule);
    assert_eq!(items.len(), 2);
    let a = items.iter().find(|(k, _)| k == "A").unwrap();
    assert_eq!((a.1.title.as_str(), a.1.abstract_text.as_str(), a.1.code.as_str(), a.1.schedule_time), ("second", "about a", "A", None));
    let b = items.iter().find(|(k, _)| k == "B").unwrap();
    assert_eq!(b.1.schedule_time, Some(span(10, 20)));
    let req = listing_request(
        6,
        vec![pretalx_submission("C", "c", None)],
        &PretalxScheduleResponse { slots: vec![PretalxScheduleSlot { start: Some(ts(1)), end: Some(ts(2)), submission: Some("C".to_string()) }] },
    );
    assert_eq!(req.source_id, 6);
    assert!(req.submission_types.is_none());
    assert_eq!(req.submissions[0].1.abstract_text, "");
    assert_eq!(req.submissions[0].1.schedule_time, Some(span(1, 2)));
}

fn source_row(filter: Option<i32>, url: Option<&str>) -> SourceRow {
    SourceRow {
        id: 11,
        event: 2,
        url: url.map(|u| u.to_string()),
        apikey: Some("k".to_string()),
        event_slug: Some("conf".to_string()),
        filter,
        type_filter: vec![4],
    }
}

#[test]
fn stored_sources_to_update() {
    let s = Query::get_source(2, Some(source_row(Some(1), Some("https://p/")))).unwrap();
    assert_eq!((s.update_url.as_str(), s.source_id, s.event_id, s.filter, s.type_filter.clone()), ("https://p/", 11, 2, SourceFilter::Confirmed, vec![4]));
    assert_eq!(Query::get_source(2, None).err().unwrap(), "Can't find the source");
    assert_eq!(Query::get_source(2, Some(source_row(Some(1), None))).err().unwrap(), "Can't find the source");
    assert_eq!(Query::get_source(2, Some(source_row(None, Some("u")))).err().unwrap(), "Can't find the source");
    assert_eq!(
        Query::get_source(2, Some(source_row(Some(9), Some("u")))).err().unwrap(),
        "Can't convert filter: Invalid value for SourceFilter: 9"
    );
    let all = Query::get_sources_for_updates(vec![source_row(Some(0), Some("a")), source_row(Some(1), Some("b"))]);
    assert_eq!(all.len(), 2);
    assert_eq!((all[0].update_url.as_str(), all[0].filter), ("a", SourceFilter::Accepted));
    assert_eq!((all[1].update_url.as_str(), all[1].filter), ("b", SourceFilter::Confirmed));
}

#[test]
fn small_queries() {
    assert_eq!(Query::verify_update_token(&vec![5]), Ok(5));
    assert_eq!(Query::verify_update_token(&vec![]).unwrap_err(), "Token not found");
    assert_eq!(Query::verify_update_token(&vec![1, 2]).unwrap_err(), "Token not found");
    let o = Query::get_event_overview(3, 1 << 32, 7);
    assert_eq!((o.sources, o.submissions, o.votes), (3, 0, 7));
    let users = Query::search_users(vec![UserRow { id: 42, name: "N".to_string(), email: "e".to_string() }]);
    assert_eq!((users.users[0].id.as_str(), users.users[0].name.as_str()), ("42", "N"));
}

fn vote(slug: &str, client: &str, seq: i32) -> VoteAndSlug {
    VoteAndSlug {
        client: client.to_string(),
        sequence: seq,
        shown: vec!["s/a".to_string()],
        expanded: vec![],
        up: vec![],
        down: vec![],
        slug: slug.to_string(),
    }
}

#[test]
fn export_keeps_last_ballot_per_event() {
    let req = ExportRequest { events: vec![("a".to_string(), "c1".to_string())] };
    let r = Query::export_for_events(&req, vec![vote("a", "c1", 1), vote("b", "c2", 2), vote("a", "c3", -1)]);
    assert_eq!(r.events.len(), 2);
    let a = &r.events.iter().find(|(k, _)| k == "a").unwrap().1;
    assert_eq!((a.client.as_str(), a.seq), ("c3", u32::MAX));
    let empty = Query::export_for_events(&ExportRequest { events: vec![] }, vec![vote("a", "c1", 1)]);
    assert!(empty.events.is_empty());
}

#[test]
fn ratings_by_full_code() {
    let rows = vec![
        EvenRatingQueryItem { code: "s/a".to_string(), views: 3, expanded: 2, up: 1, down: 0 },
        EvenRatingQueryItem { code: "s/b".to_string(), views: 1, expanded: 0, up: 0, down: 1 },
    ];
    let r = Query::get_event_ratings(rows);
    let a = &r.response.iter().find(|(k, _)| k == "s/a").unwrap().1;
    assert_eq!((a.views, a.expanded, a.up, a.down), (3, 2, 1, 0));
    assert_eq!(r.response.len(), 2);
}

#[test]
fn conference_user_list() {
    let rows = vec![
        MemberRow { perm: "admin".to_string(), id: 1, name: "Me".to_string(), email: "m".to_string() },
        MemberRow { perm: "view".to_string(), id: 2, name: "You".to_string(), email: "y".to_string() },
    ];
    let l = Query::get_conference_users(1, &rows).unwrap();
    assert_eq!(l.users[0].permissions, ConferenceUserRole::Own);
    assert_eq!(l.users[1].permissions, ConferenceUserRole::View);
    assert_eq!(l.users[1].id, "2");
    let bad = vec![MemberRow { perm: "boss".to_string(), id: 2, name: "X".to_string(), email: "x".to_string() }];
    assert_eq!(Query::get_conference_users(1, &bad).err().unwrap(), "Could not get role info: Invalid value: boss");
}

#[test]
fn push_addresses_of_sources() {
    let prefix = Query::update_url_prefix("https://voter.example/", "conf").unwrap();
    assert_eq!(prefix, "https://voter.example/api/admin/updatesource/conf/");
    let r = Query::get_update_urls(&prefix, &vec![("talks".to_string(), "KEY1".to_string()), ("ws".to_string(), "KEY2".to_string())]).unwrap();
    let t = &r.urls.iter().find(|(k, _)| k == "talks").unwrap().1;
    assert_eq!(t.submission_update_url, "https://voter.example/api/admin/updatesource/conf/talks/KEY1");
    assert_eq!(r.urls.len(), 2);
}

#[test]
fn push_addresses_fail_on_unparsable_prefix() {
    let r = Query::get_update_urls("not an address", &vec![("talks".to_string(), "KEY1".to_string())]);
    let e = r.err().unwrap();
    assert!(e.starts_with("Could not parse url parts: "), "unexpected message {}", e);
    let none = Query::get_update_urls("not an address", &vec![]).unwrap();
    assert_eq!(none.urls.len(), 0);
}

#[test]
fn roles_and_filters_as_text() {
    assert_eq!(RoleInfo::Admin.into(), "admin");
    assert_eq!(RoleInfo::try_from("view"), Ok(RoleInfo::View));
    assert_eq!(RoleInfo::try_from("x").unwrap_err(), "Invalid value: x");
    assert_eq!(SourceFilter::try_from("ACCEPTED"), Ok(SourceFilter::Accepted));
    assert_eq!(SourceFilter::try_from("Confirmed"), Ok(SourceFilter::Confirmed));
    assert_eq!(SourceFilter::try_from("other").unwrap_err(), "Invalid value for SourceFilter: other");
    assert_eq!(SourceFilter::try_from_code(1), Ok(SourceFilter::Confirmed));
    assert_eq!(SourceFilter::try_from_code(-3).unwrap_err(), "Invalid value for SourceFilter: -3");
    assert_eq!(get_filter(None), Ok(None));
    assert_eq!(get_filter(Some(0)), Ok(Some(SourceFilter::Accepted)));
    assert_eq!(get_filter(Some(2)).unwrap_err(), "Can't convert filter: Invalid value for SourceFilter: 2");
    assert!(ConflcitMode::try_from("nonsense").is_err());
}

#[test]
fn event_content_and_listing() {
    let sub = StoredSubmission {
        code: "a".to_string(),
        title: "A".to_string(),
        abstract_text: "abs".to_string(),
        html: "<p>abs</p>".to_string(),
        start: Some(ts(100)),
        end: Some(ts(200)),
        updated: ts(50),
        room: Some("R1".to_string()),
    };
    let item = submission_response_item(&sub);
    assert_eq!((item.code.as_str(), item.lastupdate), ("a", 50));
    let t = item.time.unwrap();
    assert_eq!((t.start, t.end, t.room), (100, 200, Some("R1".to_string())));
    let sources = vec![SourceSubmissions { slug: "talks".to_string(), submissions: vec![sub] }];
    let content = event_content(&sources);
    assert_eq!(content.len(), 1);
    let (rebuilt, version) = Mutation::update_event_schedule(&sources, 6);
    assert_eq!((rebuilt.len(), version), (1, 7));
    assert_eq!(content[0].0, "talks/a");
    assert_eq!(content[0].1.abstract_html, "<p>abs</p>");
    assert_eq!(fullcode("s", "c"), "s/c");
    assert_eq!(next_version(4), 5);
    assert_eq!(conditional_version(Some(3), Some(1)), 3);
    assert_eq!(conditional_version(None, Some(9)), 9);
    assert_eq!(conditional_version(None, None), 0);
}

#[test]
fn submissions_listing_by_full_code() {
    let sub = |code: &str, start: Option<i64>| StoredSubmission {
        code: code.to_string(),
        title: code.to_uppercase(),
        abstract_text: "x".to_string(),
        html: "<p>x</p>".to_string(),
        start: start.map(ts),
        end: start.map(|s| ts(s + 60)),
        updated: ts(7),
        room: None,
    };
    let sources = vec![
        SourceSubmissions { slug: "talks".to_string(), submissions: vec![sub("a", Some(100)), sub("b", None)] },
        SourceSubmissions { slug: "ws".to_string(), submissions: vec![sub("a", None)] },
    ];
    let r = Query::get_submissions(&sources);
    let codes: Vec<&str> = r.submissions.iter().map(|(k, _)| k.as_str()).collect();
    assert_eq!(codes, vec!["talks/a", "talks/b", "ws/a"]);
    let t = r.submissions[0].1.time.as_ref().unwrap();
    assert_eq!((t.start, t.end), (100, 160));
    assert!(r.submissions[1].1.time.is_none());
    assert_eq!(r.submissions[2].1.title, "A");
}

#[test]
fn source_list_reads_filters() {
    let row = |slug: &str, filter: Option<i32>| SourceSettingsRow {
        slug: slug.to_string(),
        autoupdate: true,
        url: Some("https://p/".to_string()),
        event_slug: None,
        interval: Some(300),
        filter,
        submission_types: Some(vec![(1, "Talk".to_string())]),
        type_filter: vec![1],
    };
    let l = Query::get_sources(vec![row("a", Some(0)), row("b", None)]).unwrap();
    assert_eq!(l.sources.len(), 2);
    assert_eq!(l.sources[0].0, "a");
    assert_eq!(l.sources[0].1.filter, Some(SourceFilter::Accepted));
    assert_eq!(l.sources[1].1.filter, None);
    assert_eq!(l.sources[1].1.interval, Some(300));
    assert_eq!(
        Query::get_sources(vec![row("a", Some(0)), row("b", Some(4))]).err().unwrap(),
        "Can't convert filter: Invalid value for SourceFilter: 4"
    );
}

#[test]
fn membership_and_user_queries() {
    assert!(Query::get_event_perm_for_user(None).unwrap().is_none());
    let m = Query::get_event_perm_for_user(Some((4, "admin".to_string()))).unwrap().unwrap();
    assert_eq!((m.event, m.perm), (4, RoleInfo::Admin));
    assert_eq!(Query::get_event_perm_for_user(Some((4, "root".to_string()))).err().unwrap(), "Invalid value: root");
    assert_eq!(Query::user_can_create(Some(true)), Ok(true));
    assert_eq!(Query::user_can_create(None).unwrap_err(), "User not found");
    assert!(Query::get_events(None, vec![]).is_none());
    let info = voter::access::UserInfo { name: "N".to_string(), email: "e".to_string() };
    let rows = vec![voter::access::MembershipRow { perm: "view".to_string(), title: "T".to_string(), slug: "t".to_string(), voting: true }];
    let r = Query::get_events(Some((info, false)), rows).unwrap();
    assert!(!r.can_create);
    assert_eq!(r.events.len(), 1);
}

#[test]
fn rewritten_times_settle() {
    let old = record("a", "t", "x", Some((100, 200)));
    let schedule = span(40, 90);
    let u = Mutation::update_submission_time(&old.code, 1, &old, &Some(&schedule)).unwrap();
    let rewritten = SubmissionRecord { start: u.start, end: u.end, ..record("a", "t", "x", None) };
    assert!(Mutation::update_submission_time(&rewritten.code, 1, &rewritten, &Some(&schedule)).is_none());
    let cleared = Mutation::update_submission_time(&old.code, 1, &old, &None).unwrap();
    let rewritten = SubmissionRecord { start: cleared.start, end: cleared.end, ..record("a", "t", "x", None) };
    assert!(Mutation::update_submission_time(&rewritten.code, 1, &rewritten, &None).is_none());
}

#[test]
fn stored_names_read_back() {
    for role in [RoleInfo::Admin, RoleInfo::Update, RoleInfo::View] {
        assert_eq!(RoleInfo::try_from(role.into().as_str()), Ok(role));
    }
    for filter in [SourceFilter::Accepted, SourceFilter::Confirmed] {
        assert_eq!(SourceFilter::try_from_code(filter.code()), Ok(filter));
    }
}

#[test]
fn sync_settles_after_its_writes() {
    let current = vec![
        record("keep", "Same", "abs", None),
        record("gone", "Old", "abs", None),
        record("edit", "Old title", "abs", Some((5, 6))),
        record("move", "T", "abs", Some((100, 200))),
    ];
    let listing = || vec![
        item("keep", "Same", "abs", None),
        item("new", "Fresh", "b", Some((1, 2))),
        item("edit", "New title", "abs", None),
        item("move", "T", "abs", Some((50, 200))),
    ];
    let req = SyncSourceRequest { source_id: 8, submission_types: None, submissions: listing() };
    let plan = Mutation::sync_source(&req, &current, &StoredTypes::Missing, ts(1));
    let mut after: Vec<SubmissionRecord> = current.into_iter().filter(|r| !plan.to_delete.contains(&r.code)).collect();
    for change in plan.updates {
        match change {
            SubmissionChange::Content { code, title, abstract_text, start, end, .. } => {
                let r = after.iter_mut().find(|r| r.code == code).unwrap();
                r.title = title;
                r.abstract_text = abstract_text;
                r.start = start;
                r.end = end;
            },
            SubmissionChange::Time(u) => {
                let r = after.iter_mut().find(|r| r.code == u.code).unwrap();
                r.start = u.start;
                r.end = u.end;
            },
        }
    }
    for n in plan.to_create {
        after.push(SubmissionRecord { code: n.code, title: n.title, abstract_text: n.abstract_text, start: n.start, end: n.end });
    }
    let again = SyncSourceRequest { source_id: 8, submission_types: None, submissions: listing() };
    let second = Mutation::sync_source(&again, &after, &StoredTypes::Missing, ts(2));
    assert!(!second.write);
}
