//! The decisions of the web front: which page a visitor gets, what a pushed
//! update does, whether an identity provider's claims admit a user, and how
//! the switches of the configuration read.
use vstd::prelude::*;
use crate::roles::str_eq;
use crate::schedule::SubmissionStartEnd;
use crate::sync::{SubmissionSyncItem, SyncSourceRequest};
use crate::urls::{url_join, join_url};

verus! {

/// A pushed update of a source: its submissions or its schedule, not both.
pub struct ManualUpdateRequest {
    pub submissions: Option<Vec<(String, SubmissionSyncItem)>>,
    pub schedule: Option<Vec<(String, SubmissionStartEnd)>>,
}

/// What a pushed update does.
pub enum ManualUpdate {
    /// Sync the source's submissions.
    Submissions(SyncSourceRequest),
    /// Sync the times of the source's submissions.
    Schedule(i32, Vec<(String, SubmissionStartEnd)>),
}

/// The work a pushed update for source `source_id` asks for; none (a bad
/// request) when it carries both parts or neither.
pub fn manual_update(source_id: i32, req: ManualUpdateRequest) -> (r: Option<ManualUpdate>)
    ensures
        match (req.submissions, req.schedule) {
            (Some(s), None) => r matches Some(ManualUpdate::Submissions(q))
                && q.source_id == source_id && q.submission_types is None && q.submissions == s,
            (None, Some(t)) => r == Some(ManualUpdate::Schedule(source_id, t)),
            _ => r is None,
        },
{
    match (req.submissions, req.schedule) {
        (Some(submissions), None) => Some(ManualUpdate::Submissions(SyncSourceRequest {
            source_id,
            submission_types: None,
            submissions,
        })),
        (None, Some(schedule)) => Some(ManualUpdate::Schedule(source_id, schedule)),
        _ => None,
    }
}

/// The voting page of an event.
pub struct ClientApp {
    pub title: String,
    pub apiprefix: String,
    pub storage: String,
}

/// What a visitor of an event's address gets.
pub enum ClientPage {
    App(ClientApp),
    Redirect(String),
    NotFound,
}

/// The prefix of the voting API of an event.
pub open spec fn client_prefix(slug: Seq<char>) -> Seq<char> {
    "/api/client/"@ + slug
}

/// The page for event `slug`: its voting page when voting is open (`title`
/// is its title), else the default redirect when one is configured.
pub fn client_page(slug: &str, title: Option<String>, default_redirect: Option<String>) -> (r: ClientPage)
    ensures
        match title {
            Some(t) => r matches ClientPage::App(a) && a.title == t && a.apiprefix@ == client_prefix(slug@)
                && a.storage@ == slug@,
            None => match default_redirect {
                Some(u) => r == ClientPage::Redirect(u),
                None => r is NotFound,
            },
        },
{
    match title {
        Some(t) => {
            let mut prefix = "/api/client/".to_string();
            prefix.append(slug);
            ClientPage::App(ClientApp { title: t, apiprefix: prefix, storage: slug.to_string() })
        },
        None => match default_redirect {
            Some(u) => ClientPage::Redirect(u),
            None => ClientPage::NotFound,
        },
    }
}

/// The identity provider settings the admin page needs.
pub struct OpenIdClient {
    pub client_id: String,
    pub callback_url: String,
}

/// The admin page.
pub struct AdminApp {
    pub apiprefix: String,
    pub providerurl: String,
    pub clientid: String,
    pub callback: String,
}

/// The admin page, given the stored address of the provider's login (none
/// when no provider is stored, which fails the request) and the provider
/// settings (none when login by provider is off, which leaves them empty).
pub fn admin_page(authurl: Option<String>, openid: Option<OpenIdClient>) -> (r: Option<AdminApp>)
    ensures
        match authurl {
            None => r is None,
            Some(a) => r matches Some(p) && p.apiprefix@ == "/api/admin"@ && match openid {
                Some(o) => p.providerurl == a && p.clientid == o.client_id && p.callback == o.callback_url,
                None => p.providerurl@.len() == 0 && p.clientid@.len() == 0 && p.callback@.len() == 0,
            },
        },
{
    let authurl = match authurl {
        Some(a) => a,
        None => {
            return None;
        },
    };
    let apiprefix = "/api/admin".to_string();
    match openid {
        Some(o) => Some(AdminApp { apiprefix, providerurl: authurl, clientid: o.client_id, callback: o.callback_url }),
        None => Some(AdminApp { apiprefix, providerurl: String::new(), clientid: String::new(), callback: String::new() }),
    }
}

/// What the identity provider's claims must hold for a login: an email, the
/// statement that it is verified, and a name; each missing piece has its
/// message, checked in this order.
pub open spec fn claims_check(email: Option<Seq<char>>, email_verified: Option<bool>, name: Option<Seq<char>>) -> Result<(), Seq<char>> {
    if email is None {
        Err("No mail supplied"@)
    } else if email_verified is None {
        Err("Email verified not in claims"@)
    } else if !email_verified->0 {
        Err("Email not verified"@)
    } else if name is None {
        Err("No name provided"@)
    } else {
        Ok(())
    }
}

pub open spec fn opt_text(s: Option<String>) -> Option<Seq<char>> {
    match s {
        Some(t) => Some(t@),
        None => None,
    }
}

/// The email and name of a user whose claims pass `claims_check`, else the
/// message of the first missing piece.
pub fn check_claims(email: Option<String>, email_verified: Option<bool>, name: Option<String>) -> (r: Result<(String, String), String>)
    ensures
        match claims_check(opt_text(email), email_verified, opt_text(name)) {
            Ok(()) => r == Ok::<(String, String), String>((email->0, name->0)),
            Err(e) => r matches Err(m) && m@ == e,
        },
{
    let email = match email {
        Some(e) => e,
        None => {
            return Err("No mail supplied".to_string());
        },
    };
    let verified = match email_verified {
        Some(v) => v,
        None => {
            return Err("Email verified not in claims".to_string());
        },
    };
    if !verified {
        return Err("Email not verified".to_string());
    }
    match name {
        Some(n) => Ok((email, n)),
        None => Err("No name provided".to_string()),
    }
}

/// A switch of the configuration: on exactly when its variable reads `true`
/// (what `bool::from_str` accepts as true); an absent or unreadable value is
/// off.
pub fn env_flag(value: Option<String>) -> (r: bool)
    ensures
        r == (value matches Some(v) && v@ == "true"@),
{
    match value {
        Some(v) => str_eq(v.as_str(), "true"),
        None => false,
    }
}

/// The address the identity provider sends a user back to.
pub fn openid_callback_url(external_url: &str) -> (r: Result<String, String>)
    ensures
        match r {
            Ok(u) => url_join(external_url@, "admin/callback"@) == Ok::<Seq<char>, Seq<char>>(u@),
            Err(e) => url_join(external_url@, "admin/callback"@) == Err::<Seq<char>, Seq<char>>(e@),
        },
{
    join_url(external_url, "admin/callback")
}

} // verus!
