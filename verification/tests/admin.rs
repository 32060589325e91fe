use voter::access::{authorize, event_list, permissions_for, role_permits, EventAction, EventWithPerm, MembershipRow, UserInfo};
use voter::mutation::{
    sorted_unique, CreateEventRequest, MembershipChange, Mutation, SourceColumn, UpdateEventRequest,
    UpdateSourceRequest, VoteWrite,
};
use voter::pages::{admin_page, check_claims, client_page, env_flag, manual_update, openid_callback_url, ClientPage, ManualUpdate, ManualUpdateRequest, OpenIdClient};
use voter::roles::{RoleInfo, SourceFilter, TokenCreator};
use voter::text::int_text;
use voter::votes::{Rating, SingleVote, SubmitVotesPayload, UpdateVoteRequest, Votes};
use voter::schedule::{SubmissionStartEnd, Timestamp};

const BASE58: &str = "123456789ABCDEFGHJKLMNPQRSTUVWXYZabcdefghijkmnopqrstuvwxyz";

fn source_request() -> UpdateSourceRequest {
    UpdateSourceRequest {
        autoupdate: None,
        filter: None,
        interval: None,
        url: None,
        event_slug: None,
        apikey: None,
        type_filter: None,
    }
}

#[test]
fn gentoken_is_base58_of_sixteen_bytes() {
    let t = Mutation::gentoken();
    assert!(t.len() >= 16 && t.len() <= 22, "unexpected length {}", t.len());
    assert!(t.chars().all(|c| BASE58.contains(c)));
    let u = Mutation::gentoken();
    assert_ne!(t, u);
}

#[test]
fn event_slug_checks() {
    assert!(Mutation::check_event_slug("my-event").is_ok());
    assert!(Mutation::check_event_slug("conf2024").is_ok());
    assert_eq!(Mutation::check_event_slug("").unwrap_err(), "Invalid slug: ");
    assert_eq!(Mutation::check_event_slug("admin").unwrap_err(), "Invalid slug: admin");
    assert_eq!(Mutation::check_event_slug("static").unwrap_err(), "Invalid slug: static");
    assert_eq!(Mutation::check_event_slug("api").unwrap_err(), "Invalid slug: api");
    assert_eq!(Mutation::check_event_slug("My Event").unwrap_err(), "Invalid slug: My Event");
    assert_eq!(Mutation::check_event_slug("a--b").unwrap_err(), "Invalid slug: a--b");
    assert_eq!(Mutation::check_event_slug("-a").unwrap_err(), "Invalid slug: -a");
    assert_eq!(Mutation::check_event_slug("Ünïcode").unwrap_err(), "Invalid slug: Ünïcode");
}

#[test]
fn create_event_makes_creator_admin() {
    let ev = Mutation::create_event(CreateEventRequest { name: "Conf".to_string(), slug: "conf".to_string() }, 7).unwrap();
    assert_eq!(ev.title, "Conf");
    assert_eq!(ev.slug, "conf");
    assert!(!ev.voting);
    assert_eq!(ev.content_text, "{}");
    assert_eq!(ev.version, 0);
    assert_eq!(ev.admin, 7);
    assert_eq!(ev.admin_perm, "admin");
    let err = Mutation::create_event(CreateEventRequest { name: "X".to_string(), slug: "api".to_string() }, 7);
    assert_eq!(err.err().unwrap(), "Invalid slug: api");
}

#[test]
fn update_source_checks_in_order() {
    let r = Mutation::update_source(1, "Bad Slug".to_string(), source_request());
    assert_eq!(r.err().unwrap(), "invalid slug: Bad Slug");
    let r = Mutation::update_source(1, "".to_string(), source_request());
    assert_eq!(r.err().unwrap(), "invalid slug: ");
    let mut req = source_request();
    req.interval = Some(30);
    assert_eq!(Mutation::update_source(1, "talks".to_string(), req).err().unwrap(), "Invalid interval: 30");
    let mut req = source_request();
    req.interval = Some(7201);
    assert_eq!(Mutation::update_source(1, "talks".to_string(), req).err().unwrap(), "Invalid interval: 7201");
    let mut req = source_request();
    req.interval = Some(-5);
    assert_eq!(Mutation::update_source(1, "talks".to_string(), req).err().unwrap(), "Invalid interval: -5");
    let mut req = source_request();
    req.apikey = Some("key".to_string());
    req.url = Some("not a url".to_string());
    assert_eq!(
        Mutation::update_source(1, "talks".to_string(), req).err().unwrap(),
        "Invalid URL: not a url relative URL without a base"
    );
    let mut req = source_request();
    req.url = Some("not a url".to_string());
    let u = Mutation::update_source(1, "talks".to_string(), req).unwrap();
    assert_eq!(u.url, None);
    assert!(u.to_update.is_empty());
}

#[test]
fn update_source_collects_settings() {
    let req = UpdateSourceRequest {
        autoupdate: Some(true),
        filter: Some(SourceFilter::Confirmed),
        interval: Some(600),
        url: Some("https://pretalx.example/".to_string()),
        event_slug: Some("conf".to_string()),
        apikey: Some("secret".to_string()),
        type_filter: Some(vec![5, 3, 5, 1, 3]),
    };
    let u = Mutation::update_source(4, "talks".to_string(), req).unwrap();
    assert_eq!(u.slug, "talks");
    assert_eq!(u.event, 4);
    assert!(u.updatekey.chars().all(|c| BASE58.contains(c)));
    assert_eq!(u.interval, Some(600));
    assert_eq!(u.autoupdate, Some(true));
    assert_eq!(u.filter, Some(1));
    assert_eq!(u.type_filter, Some(vec![1, 3, 5]));
    assert_eq!(u.apikey, Some("secret".to_string()));
    assert_eq!(u.url, Some("https://pretalx.example/".to_string()));
    assert_eq!(u.event_slug, Some("conf".to_string()));
    assert_eq!(
        u.to_update,
        vec![
            SourceColumn::Interval,
            SourceColumn::Autoupdate,
            SourceColumn::Filter,
            SourceColumn::TypeFilter,
            SourceColumn::Apikey,
            SourceColumn::Url,
            SourceColumn::EventSlug
        ]
    );
}

#[test]
fn plan_source_update_uses_given_key() {
    let mut req = source_request();
    req.event_slug = Some("conf".to_string());
    let u = Mutation::plan_source_update(2, "talks".to_string(), req, "KEY".to_string()).unwrap();
    assert_eq!(u.updatekey, "KEY");
    assert_eq!(u.event_slug, None);
    assert!(u.to_update.is_empty());
}

#[test]
fn sorted_unique_orders_and_dedups() {
    assert_eq!(sorted_unique(&vec![3, -1, 3, 2, -1, 10]), vec![-1, 2, 3, 10]);
    assert_eq!(sorted_unique(&vec![]), Vec::<i32>::new());
}

#[test]
fn created_user_can_log_in() {
    let u = Mutation::create_user("Ann".to_string(), "ann@example.com".to_string(), "pw1".to_string(), true).unwrap();
    assert_eq!(u.name, "Ann");
    assert_eq!(u.email, "ann@example.com");
    assert!(u.can_create);
    let hash = u.password.clone().unwrap();
    assert!(hash.starts_with("$argon2id$"));
    let token = Mutation::login(Some(hash), "pw1".to_string()).unwrap();
    assert!(token.chars().all(|c| BASE58.contains(c)));
}

#[test]
fn login_errors() {
    assert_eq!(Mutation::login(None, "pw".to_string()).unwrap_err(), "Login failed");
    assert_eq!(
        Mutation::login(Some("not a hash".to_string()), "pw".to_string()).unwrap_err(),
        "Could not parse password hash"
    );
    let u = Mutation::create_user("B".to_string(), "b@example.com".to_string(), "right".to_string(), false).unwrap();
    assert_eq!(Mutation::login(u.password, "wrong".to_string()).unwrap_err(), "Invalid password");
}

#[test]
fn token_event_and_membership_records() {
    let t = Mutation::insert_token(3, "tok".to_string(), TokenCreator::UserPassword);
    assert_eq!((t.value.as_str(), t.user, t.creator), ("tok", 3, 1));
    assert_eq!(Mutation::insert_token(3, "t".to_string(), TokenCreator::OpenID).creator, 0);
    assert!(Mutation::update_event(1, UpdateEventRequest { name: None, voting_enabled: None }).is_none());
    let e = Mutation::update_event(1, UpdateEventRequest { name: None, voting_enabled: Some(true) }).unwrap();
    assert_eq!((e.event, e.title, e.voting), (1, None, Some(true)));
    match Mutation::edit_user(5, 6, Some(RoleInfo::Update)) {
        MembershipChange::Grant { event, user, perm } => assert_eq!((event, user, perm.as_str()), (5, 6, "update")),
        _ => panic!("expected a grant"),
    }
    assert!(matches!(Mutation::edit_user(5, 6, None), MembershipChange::Revoke { event: 5, user: 6 }));
}

fn vote_request(sequence: u32) -> UpdateVoteRequest {
    let payload = SubmitVotesPayload::new(
        "client-1".to_string(),
        sequence,
        vec![
            ("s/a".to_string(), SingleVote { expanded: true, vote: Rating::Up }),
            ("s/b".to_string(), SingleVote { expanded: false, vote: Rating::Down }),
            ("s/c".to_string(), SingleVote { expanded: false, vote: Rating::Neutral }),
        ],
    );
    UpdateVoteRequest::from_submission("conf".to_string(), payload)
}

#[test]
fn votes_from_payload() {
    let r = vote_request(4);
    assert_eq!(r.sequence, 4);
    assert_eq!(r.event, "conf");
    assert_eq!(r.client, "client-1");
    let Votes { shown, expanded, up, down } = r.votes;
    assert_eq!(shown, vec!["s/a", "s/b", "s/c"]);
    assert_eq!(expanded, vec!["s/a"]);
    assert_eq!(up, vec!["s/a"]);
    assert_eq!(down, vec!["s/b"]);
}

#[test]
fn newer_ballots_replace_older_ones() {
    assert!(matches!(Mutation::update_votes(None, None, vote_request(1)), VoteWrite::NoEvent));
    match Mutation::update_votes(Some(9), None, vote_request(1)) {
        VoteWrite::Insert(row) => {
            assert_eq!((row.event, row.sequence, row.client.as_str()), (9, 1, "client-1"));
            assert_eq!(row.up, vec!["s/a"]);
        },
        _ => panic!("expected an insert"),
    }
    assert!(matches!(Mutation::update_votes(Some(9), Some(1), vote_request(2)), VoteWrite::Replace(_)));
    assert!(matches!(Mutation::update_votes(Some(9), Some(2), vote_request(2)), VoteWrite::Keep));
    assert!(matches!(Mutation::update_votes(Some(9), Some(3), vote_request(2)), VoteWrite::Keep));
    match Mutation::update_votes(Some(9), None, vote_request(u32::MAX)) {
        VoteWrite::Insert(row) => assert_eq!(row.sequence, -1),
        _ => panic!("expected an insert"),
    }
}

#[test]
fn roles_permit_requests() {
    let all = [
        EventAction::UpdateEvent,
        EventAction::Conflicts,
        EventAction::Ratings,
        EventAction::UpdateUrls,
        EventAction::UpdateSource,
        EventAction::Users,
        EventAction::DeleteSource,
        EventAction::EditUser,
        EventAction::SearchUsers,
        EventAction::Sources,
        EventAction::Overview,
        EventAction::Submissions,
    ];
    assert!(all.iter().all(|a| role_permits(RoleInfo::Admin, *a)));
    let viewer: Vec<EventAction> = all.iter().copied().filter(|a| role_permits(RoleInfo::View, *a)).collect();
    assert_eq!(viewer, vec![EventAction::Conflicts, EventAction::Ratings, EventAction::Sources, EventAction::Overview, EventAction::Submissions]);
    assert!(all.iter().all(|a| !role_permits(RoleInfo::View, *a) || role_permits(RoleInfo::Update, *a)));
    assert!(role_permits(RoleInfo::Update, EventAction::UpdateUrls));
    assert!(!role_permits(RoleInfo::Update, EventAction::UpdateSource));
    assert!(role_permits(RoleInfo::View, EventAction::Ratings));
    assert!(!role_permits(RoleInfo::View, EventAction::UpdateUrls));
    let m = || Some(EventWithPerm { event: 12, perm: RoleInfo::View });
    assert_eq!(authorize(Some(1), m(), EventAction::Overview), Some(12));
    assert_eq!(authorize(Some(1), m(), EventAction::Users), None);
    assert_eq!(authorize(None, m(), EventAction::Overview), None);
    assert_eq!(authorize(Some(1), None, EventAction::Overview), None);
}

#[test]
fn stored_membership_reads_role() {
    let m = EventWithPerm::from_stored(3, "update").unwrap();
    assert_eq!((m.event, m.perm), (3, RoleInfo::Update));
    assert_eq!(EventWithPerm::from_stored(3, "owner").err().unwrap(), "Invalid value: owner");
}

#[test]
fn event_list_shows_admin_and_view_roles() {
    let p = permissions_for("admin").unwrap();
    assert!(p.view && p.configure && p.update && p.role == RoleInfo::Admin);
    let p = permissions_for("view").unwrap();
    assert!(p.view && !p.configure && !p.update && p.role == RoleInfo::View);
    assert!(permissions_for("update").is_none());
    let rows = vec![
        MembershipRow { perm: "admin".to_string(), title: "A".to_string(), slug: "a".to_string(), voting: true },
        MembershipRow { perm: "update".to_string(), title: "B".to_string(), slug: "b".to_string(), voting: false },
        MembershipRow { perm: "view".to_string(), title: "C".to_string(), slug: "c".to_string(), voting: false },
    ];
    let r = event_list(true, UserInfo { name: "N".to_string(), email: "e".to_string() }, rows);
    assert!(r.can_create);
    assert_eq!(r.user.name, "N");
    let slugs: Vec<&str> = r.events.iter().map(|(s, _)| s.as_str()).collect();
    assert_eq!(slugs, vec!["a", "c"]);
    assert_eq!(r.events[0].1.name, "A");
    assert!(r.events[0].1.voting_enabled);
    assert_eq!(r.events[1].1.permissions.role, RoleInfo::View);
}

#[test]
fn manual_update_takes_one_part() {
    let both = ManualUpdateRequest { submissions: Some(vec![]), schedule: Some(vec![]) };
    assert!(manual_update(1, both).is_none());
    assert!(manual_update(1, ManualUpdateRequest { submissions: None, schedule: None }).is_none());
    match manual_update(4, ManualUpdateRequest { submissions: Some(vec![]), schedule: None }) {
        Some(ManualUpdate::Submissions(q)) => {
            assert_eq!(q.source_id, 4);
            assert!(q.submission_types.is_none());
        },
        _ => panic!("expected submissions"),
    }
    let t = SubmissionStartEnd { start: Timestamp { secs: 1, nanos: 0 }, end: Timestamp { secs: 2, nanos: 0 } };
    match manual_update(4, ManualUpdateRequest { submissions: None, schedule: Some(vec![("x".to_string(), t)]) }) {
        Some(ManualUpdate::Schedule(id, s)) => assert_eq!((id, s.len()), (4, 1)),
        _ => panic!("expected a schedule"),
    }
}

#[test]
fn client_and_admin_pages() {
    match client_page("conf", Some("Conf 2024".to_string()), None) {
        ClientPage::App(a) => {
            assert_eq!(a.title, "Conf 2024");
            assert_eq!(a.apiprefix, "/api/client/conf");
            assert_eq!(a.storage, "conf");
        },
        _ => panic!("expected the app"),
    }
    assert!(matches!(client_page("x", None, Some("https://e/".to_string())), ClientPage::Redirect(u) if u == "https://e/"));
    assert!(matches!(client_page("x", None, None), ClientPage::NotFound));
    assert!(admin_page(None, None).is_none());
    let p = admin_page(Some("https://idp/auth".to_string()), None).unwrap();
    assert_eq!((p.apiprefix.as_str(), p.providerurl.as_str(), p.clientid.as_str(), p.callback.as_str()), ("/api/admin", "", "", ""));
    let o = OpenIdClient { client_id: "cid".to_string(), callback_url: "https://app/admin/callback".to_string() };
    let p = admin_page(Some("https://idp/auth".to_string()), Some(o)).unwrap();
    assert_eq!((p.providerurl.as_str(), p.clientid.as_str(), p.callback.as_str()), ("https://idp/auth", "cid", "https://app/admin/callback"));
}

#[test]
fn claims_need_verified_mail_and_name() {
    let ok = check_claims(Some("a@b".to_string()), Some(true), Some("A".to_string())).unwrap();
    assert_eq!(ok, ("a@b".to_string(), "A".to_string()));
    assert_eq!(check_claims(None, Some(true), Some("A".to_string())).unwrap_err(), "No mail supplied");
    assert_eq!(check_claims(Some("a@b".to_string()), None, Some("A".to_string())).unwrap_err(), "Email verified not in claims");
    assert_eq!(check_claims(Some("a@b".to_string()), Some(false), Some("A".to_string())).unwrap_err(), "Email not verified");
    assert_eq!(check_claims(Some("a@b".to_string()), Some(true), None).unwrap_err(), "No name provided");
}

#[test]
fn configuration_switches() {
    assert!(env_flag(Some("true".to_string())));
    assert!(!env_flag(Some("TRUE".to_string())));
    assert!(!env_flag(Some("yes".to_string())));
    assert!(!env_flag(None));
    assert_eq!(openid_callback_url("https://voter.example/").unwrap(), "https://voter.example/admin/callback");
    assert_eq!(openid_callback_url("https://voter.example/app/").unwrap(), "https://voter.example/app/admin/callback");
}

#[test]
fn decimal_text() {
    assert_eq!(int_text(0), "0");
    assert_eq!(int_text(7), "7");
    assert_eq!(int_text(-42), "-42");
    assert_eq!(int_text(i32::MAX), "2147483647");
    assert_eq!(int_text(i32::MIN), "-2147483648");
}
