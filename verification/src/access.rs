//! Who may do what in an event, and what the event list shows a user.
use vstd::prelude::*;
use crate::roles::{role_of, RoleInfo};

verus! {

/// The requests on an event that the admin interface serves.
#[derive(Clone, Copy, Debug, PartialEq, Eq, Structural)]
pub enum EventAction {
    UpdateEvent,
    Conflicts,
    Ratings,
    UpdateUrls,
    UpdateSource,
    Users,
    DeleteSource,
    EditUser,
    SearchUsers,
    Sources,
    Overview,
    Submissions,
}

/// The requests that only read an event.
pub open spec fn reads_only(a: EventAction) -> bool {
    match a {
        EventAction::Conflicts | EventAction::Ratings | EventAction::Sources
        | EventAction::Overview | EventAction::Submissions => true,
        _ => false,
    }
}

/// Which role may make which request: admins anything, the update role the
/// reading requests and the update addresses of the sources, viewers only the
/// reading requests.
pub open spec fn permits(role: RoleInfo, a: EventAction) -> bool {
    match role {
        RoleInfo::Admin => true,
        RoleInfo::Update => reads_only(a) || a == EventAction::UpdateUrls,
        RoleInfo::View => reads_only(a),
    }
}

/// Whether `role` may make request `a`.
pub fn role_permits(role: RoleInfo, a: EventAction) -> (r: bool)
    ensures
        r == permits(role, a),
{
    let reading = match a {
        EventAction::Conflicts | EventAction::Ratings | EventAction::Sources
        | EventAction::Overview | EventAction::Submissions => true,
        _ => false,
    };
    match role {
        RoleInfo::Admin => true,
        RoleInfo::Update => reading || a == EventAction::UpdateUrls,
        RoleInfo::View => reading,
    }
}

/// An event and the role a user has in it.
pub struct EventWithPerm {
    pub event: i32,
    pub perm: RoleInfo,
}

impl EventWithPerm {
    /// The membership stored as `(event, perm)`, or the message of a stored
    /// role name that names no role.
    pub fn from_stored(event: i32, perm: &str) -> (r: Result<EventWithPerm, String>)
        ensures
            match role_of(perm@) {
                Some(role) => r matches Ok(m) && m.event == event && m.perm == role,
                None => r matches Err(e) && e@ == "Invalid value: "@ + perm@,
            },
    {
        match RoleInfo::try_from(perm) {
            Ok(role) => Ok(EventWithPerm { event, perm: role }),
            Err(e) => Err(e),
        }
    }
}

/// The event a request may act on: the user must be logged in and a member of
/// the event with a role that permits the request.
pub open spec fn granted(user: Option<i32>, membership: Option<EventWithPerm>, a: EventAction) -> Option<i32> {
    match (user, membership) {
        (Some(_), Some(m)) => if permits(m.perm, a) { Some(m.event) } else { None },
        _ => None,
    }
}

/// The event that request `a` of `user` may act on, given the user's
/// membership in the event the request names; none when the request is
/// refused.
pub fn authorize(user: Option<i32>, membership: Option<EventWithPerm>, a: EventAction) -> (r: Option<i32>)
    ensures
        r == granted(user, membership, a),
{
    match (user, membership) {
        (Some(_), Some(m)) => {
            if role_permits(m.perm, a) {
                Some(m.event)
            } else {
                None
            }
        },
        _ => None,
    }
}

/// An admin may make every request.
pub proof fn lemma_admin_permits_all(a: EventAction)
    ensures
        permits(RoleInfo::Admin, a),
{
}

/// A viewer may make only the reading requests, and each of them.
pub proof fn lemma_view_reads_only(a: EventAction)
    ensures
        permits(RoleInfo::View, a) <==> reads_only(a),
{
}

/// Whatever a viewer may do, the update role may do, and whatever the update
/// role may do, an admin may do.
pub proof fn lemma_roles_nested(a: EventAction)
    ensures
        permits(RoleInfo::View, a) ==> permits(RoleInfo::Update, a),
        permits(RoleInfo::Update, a) ==> permits(RoleInfo::Admin, a),
{
}

/// What a user may do in an event, as the event list shows it.
#[derive(Clone, Copy, Debug, PartialEq, Eq, Structural)]
pub struct PermissionsInfo {
    pub view: bool,
    pub configure: bool,
    pub update: bool,
    pub role: RoleInfo,
}

/// The permissions the event list shows for a stored role name: admins may do
/// everything, viewers only view; other names are not listed.
pub open spec fn listed_permissions(perm: Seq<char>) -> Option<PermissionsInfo> {
    if perm == "admin"@ {
        Some(PermissionsInfo { view: true, configure: true, update: true, role: RoleInfo::Admin })
    } else if perm == "view"@ {
        Some(PermissionsInfo { view: true, configure: false, update: false, role: RoleInfo::View })
    } else {
        None
    }
}

/// The permissions shown for the stored role name `perm`.
pub fn permissions_for(perm: &str) -> (r: Option<PermissionsInfo>)
    ensures
        r == listed_permissions(perm@),
{
    if perm.to_string() == "admin".to_string() {
        Some(PermissionsInfo { view: true, configure: true, update: true, role: RoleInfo::Admin })
    } else if perm.to_string() == "view".to_string() {
        Some(PermissionsInfo { view: true, configure: false, update: false, role: RoleInfo::View })
    } else {
        None
    }
}

/// The name and email of a user.
pub struct UserInfo {
    pub name: String,
    pub email: String,
}

/// One event in the event list.
pub struct EventInfo {
    pub name: String,
    pub slug: String,
    pub voting_enabled: bool,
    pub permissions: PermissionsInfo,
}

/// A membership as the event list reads it: the stored role name and the
/// event's title, slug and voting switch.
pub struct MembershipRow {
    pub perm: String,
    pub title: String,
    pub slug: String,
    pub voting: bool,
}

/// The event list of a user.
pub struct EventReseponse {
    pub can_create: bool,
    pub user: UserInfo,
    pub events: Vec<(String, EventInfo)>,
}

/// The positions of the memberships that the list shows, in order.
pub open spec fn listed_rows(rows: Seq<MembershipRow>) -> Seq<int>
    decreases rows.len(),
{
    if rows.len() == 0 {
        Seq::empty()
    } else {
        let rest = listed_rows(rows.drop_last());
        if listed_permissions(rows.last().perm@) is Some { rest.push(rows.len() - 1) } else { rest }
    }
}

pub proof fn lemma_listed_rows(rows: Seq<MembershipRow>)
    ensures
        listed_rows(rows).len() <= rows.len(),
        forall|k: int| 0 <= k < listed_rows(rows).len() ==> 0 <= #[trigger] listed_rows(rows)[k] < rows.len()
            && listed_permissions(rows[listed_rows(rows)[k]].perm@) is Some,
    decreases rows.len(),
{
    if rows.len() > 0 {
        lemma_listed_rows(rows.drop_last());
    }
}

/// The list entry of membership `m`.
pub open spec fn event_entry(e: (String, EventInfo), m: MembershipRow) -> bool {
    &&& e.0@ == m.slug@
    &&& e.1.name@ == m.title@
    &&& e.1.slug@ == m.slug@
    &&& e.1.voting_enabled == m.voting
    &&& listed_permissions(m.perm@) == Some(e.1.permissions)
}

/// The event list of a user with these memberships: one entry, under the
/// event's slug, for each membership whose role the list shows, in order.
pub fn event_list(can_create: bool, user: UserInfo, rows: Vec<MembershipRow>) -> (r: EventReseponse)
    ensures
        r.can_create == can_create,
        r.user == user,
        r.events@.len() == listed_rows(rows@).len(),
        forall|k: int| 0 <= k < r.events@.len() ==> event_entry(#[trigger] r.events@[k], rows@[listed_rows(rows@)[k]]),
{
    let mut events: Vec<(String, EventInfo)> = Vec::new();
    for i in 0..rows.len()
        invariant
            events@.len() == listed_rows(rows@.take(i as int)).len(),
            forall|k: int| 0 <= k < events@.len() ==> event_entry(#[trigger] events@[k], rows@[listed_rows(rows@.take(i as int))[k]]),
    {
        let ghost prev = rows@.take(i as int);
        let ghost next = rows@.take(i + 1);
        proof {
            lemma_listed_rows(prev);
        }
        assert(next.drop_last() == prev);
        assert(next.last() == rows@[i as int]);
        let row = &rows[i];
        let ghost e0 = events@;
        match permissions_for(row.perm.as_str()) {
            Some(p) => {
                events.push((row.slug.clone(), EventInfo {
                    name: row.title.clone(),
                    slug: row.slug.clone(),
                    voting_enabled: row.voting,
                    permissions: p,
                }));
                assert(listed_rows(next) == listed_rows(prev).push(i as int));
                assert forall|k: int| 0 <= k < events@.len() implies event_entry(#[trigger] events@[k], rows@[listed_rows(next)[k]]) by {
                    if k < e0.len() {
                        assert(events@[k] == e0[k]);
                    }
                }
            },
            None => {
                assert(listed_rows(next) == listed_rows(prev));
            },
        }
    }
    assert(rows@.take(rows@.len() as int) == rows@);
    EventReseponse { can_create, user, events }
}

} // verus!
