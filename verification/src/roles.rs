//! Roles of users in an event, the filters of submission sources, the
//! similarity modes, and their textual forms.
use vstd::prelude::*;
use crate::text::{decimal, int_text};

verus! {

/// Whether two strings hold the same characters.
pub fn str_eq(a: &str, b: &str) -> (r: bool)
    ensures
        r == (a@ == b@),
{
    a.to_string() == b.to_string()
}

/// `prefix` followed by `value`, as a new string.
pub fn message(prefix: &str, value: &str) -> (r: String)
    ensures
        r@ == prefix@ + value@,
{
    let mut s = prefix.to_string();
    s.append(value);
    s
}

/// A user's role in an event.
#[derive(Clone, Copy, Debug, PartialEq, Eq, Structural)]
pub enum RoleInfo {
    Admin,
    Update,
    View,
}

/// The stored name of a role.
pub open spec fn role_str(r: RoleInfo) -> Seq<char> {
    match r {
        RoleInfo::Admin => "admin"@,
        RoleInfo::Update => "update"@,
        RoleInfo::View => "view"@,
    }
}

/// The role a stored name stands for.
pub open spec fn role_of(s: Seq<char>) -> Option<RoleInfo> {
    if s == "admin"@ {
        Some(RoleInfo::Admin)
    } else if s == "update"@ {
        Some(RoleInfo::Update)
    } else if s == "view"@ {
        Some(RoleInfo::View)
    } else {
        None
    }
}

impl RoleInfo {
    /// The stored name of the role.
    pub fn into(self) -> (r: String)
        ensures
            r@ == role_str(self),
    {
        match self {
            RoleInfo::Admin => "admin".to_string(),
            RoleInfo::Update => "update".to_string(),
            RoleInfo::View => "view".to_string(),
        }
    }

    /// The role named by `value`, or the message `Invalid value: <value>`.
    pub fn try_from(value: &str) -> (r: Result<RoleInfo, String>)
        ensures
            role_of(value@) matches Some(role) ==> r == Ok::<RoleInfo, String>(role),
            role_of(value@) is None ==> (r matches Err(e) && e@ == "Invalid value: "@ + value@),
    {
        if str_eq(value, "admin") {
            Ok(RoleInfo::Admin)
        } else if str_eq(value, "update") {
            Ok(RoleInfo::Update)
        } else if str_eq(value, "view") {
            Ok(RoleInfo::View)
        } else {
            Err(message("Invalid value: ", value))
        }
    }
}

/// A role name read back gives the role.
pub proof fn lemma_role_roundtrip(r: RoleInfo)
    ensures
        role_of(role_str(r)) == Some(r),
{
    reveal_strlit("admin");
    reveal_strlit("update");
    reveal_strlit("view");
    assert("admin"@.len() == 5 && "update"@.len() == 6 && "view"@.len() == 4);
}

/// How a user appears in an event's user list: the viewer itself shows as
/// `Own`, everyone else by role.
#[derive(Clone, Copy, Debug, PartialEq, Eq, Structural)]
pub enum ConferenceUserRole {
    View,
    Update,
    Admin,
    Own,
}

pub open spec fn user_role_of(value: RoleInfo) -> ConferenceUserRole {
    match value {
        RoleInfo::Admin => ConferenceUserRole::Admin,
        RoleInfo::Update => ConferenceUserRole::Update,
        RoleInfo::View => ConferenceUserRole::View,
    }
}

impl From<RoleInfo> for ConferenceUserRole {
    fn from(value: RoleInfo) -> (r: Self) {
        match value {
            RoleInfo::Admin => ConferenceUserRole::Admin,
            RoleInfo::Update => ConferenceUserRole::Update,
            RoleInfo::View => ConferenceUserRole::View,
        }
    }
}

impl vstd::std_specs::convert::FromSpecImpl<RoleInfo> for ConferenceUserRole {
    open spec fn obeys_from_spec() -> bool {
        true
    }

    open spec fn from_spec(value: RoleInfo) -> ConferenceUserRole {
        user_role_of(value)
    }
}

/// The role a member of an event list shows with: `Own` for the viewing user,
/// else the member's role.
pub fn conference_user_role(member: i32, viewer: i32, perm: &str) -> (r: Result<ConferenceUserRole, String>)
    ensures
        member == viewer ==> r == Ok::<ConferenceUserRole, String>(ConferenceUserRole::Own),
        member != viewer ==> match role_of(perm@) {
            Some(role) => r == Ok::<ConferenceUserRole, String>(user_role_of(role)),
            None => (r matches Err(e) && e@ == "Invalid value: "@ + perm@),
        },
{
    if member == viewer {
        Ok(ConferenceUserRole::Own)
    } else {
        match RoleInfo::try_from(perm) {
            Ok(role) => Ok(ConferenceUserRole::from(role)),
            Err(e) => Err(e),
        }
    }
}

/// Which submissions of a source to import.
#[derive(Clone, Copy, Debug, PartialEq, Eq, Structural)]
pub enum SourceFilter {
    Accepted,
    Confirmed,
}

/// The stored number of a filter.
pub open spec fn filter_code(f: SourceFilter) -> i32 {
    match f {
        SourceFilter::Accepted => 0,
        SourceFilter::Confirmed => 1,
    }
}

/// The filter a lowercase name stands for.
pub open spec fn filter_named(s: Seq<char>) -> Option<SourceFilter> {
    if s == "accepted"@ {
        Some(SourceFilter::Accepted)
    } else if s == "confirmed"@ {
        Some(SourceFilter::Confirmed)
    } else {
        None
    }
}

/// `str::to_lowercase`: the lowercase mapping of a string, a function of the
/// string alone.
pub uninterp spec fn lowercase(s: Seq<char>) -> Seq<char>;

/// `str::to_lowercase`: claimed only to return the lowercase mapping of its
/// argument, whatever that mapping is (it is given no definition here).
#[verifier::external_body]
fn to_lowercase(s: &str) -> (r: String)
    ensures
        r@ == lowercase(s@),
{
    s.to_lowercase()
}

impl SourceFilter {
    /// The stored number of the filter.
    pub fn code(&self) -> (r: i32)
        ensures
            r == filter_code(*self),
    {
        match self {
            SourceFilter::Accepted => 0,
            SourceFilter::Confirmed => 1,
        }
    }

    /// The filter stored as `value`, or the message
    /// `Invalid value for SourceFilter: <value>`.
    pub fn try_from_code(value: i32) -> (r: Result<SourceFilter, String>)
        ensures
            value == 0 ==> r == Ok::<SourceFilter, String>(SourceFilter::Accepted),
            value == 1 ==> r == Ok::<SourceFilter, String>(SourceFilter::Confirmed),
            value != 0 && value != 1 ==> (r matches Err(e)
                && e@ == "Invalid value for SourceFilter: "@ + decimal(value as int)),
    {
        if value == 0 {
            Ok(SourceFilter::Accepted)
        } else if value == 1 {
            Ok(SourceFilter::Confirmed)
        } else {
            let n = int_text(value);
            Err(message("Invalid value for SourceFilter: ", n.as_str()))
        }
    }

    /// The filter named by `value` in any case, or the message
    /// `Invalid value for SourceFilter: <value>`.
    pub fn try_from(value: &str) -> (r: Result<SourceFilter, String>)
        ensures
            filter_named(lowercase(value@)) matches Some(f) ==> r == Ok::<SourceFilter, String>(f),
            filter_named(lowercase(value@)) is None ==> (r matches Err(e)
                && e@ == "Invalid value for SourceFilter: "@ + value@),
    {
        let lower = to_lowercase(value);
        if str_eq(lower.as_str(), "accepted") {
            Ok(SourceFilter::Accepted)
        } else if str_eq(lower.as_str(), "confirmed") {
            Ok(SourceFilter::Confirmed)
        } else {
            Err(message("Invalid value for SourceFilter: ", value))
        }
    }
}

/// A stored filter number read back gives the filter.
pub proof fn lemma_filter_code_roundtrip(f: SourceFilter)
    ensures
        filter_code(f) == 0 ==> f == SourceFilter::Accepted,
        filter_code(f) == 1 ==> f == SourceFilter::Confirmed,
        filter_code(f) == 0 || filter_code(f) == 1,
{
}

/// The filter of a stored source: none when nothing is stored, else the stored
/// number read back, or the message `Can't convert filter: <reason>`.
pub fn get_filter(m: Option<i32>) -> (r: Result<Option<SourceFilter>, String>)
    ensures
        m is None ==> r == Ok::<Option<SourceFilter>, String>(None),
        m == Some(0i32) ==> r == Ok::<Option<SourceFilter>, String>(Some(SourceFilter::Accepted)),
        m == Some(1i32) ==> r == Ok::<Option<SourceFilter>, String>(Some(SourceFilter::Confirmed)),
        (m matches Some(v) && v != 0 && v != 1) ==> (r matches Err(e)
            && e@ == "Can't convert filter: "@ + ("Invalid value for SourceFilter: "@ + decimal(m->0 as int))),
{
    match m {
        None => Ok(None),
        Some(v) => match SourceFilter::try_from_code(v) {
            Ok(f) => Ok(Some(f)),
            Err(e) => Err(message("Can't convert filter: ", e.as_str())),
        },
    }
}


/// How a similarity between two submissions is measured: the metric, and for
/// the metrics other than the cosine, which ballots count as choosing a
/// submission.
#[derive(Clone, Copy, Debug, PartialEq, Eq, Structural)]
pub enum ConflcitMode {
    JaccardUp,
    JaccardExpanded,
    JaccardExpandedWithoutDown,
    SupportUp,
    SupportExpanded,
    SupportExpandedWithoutDown,
    SupportWeightedUp,
    SupportWeightedExpanded,
    SupportWeightedExpandedWithoutDown,
    LiftUp,
    LiftExpanded,
    LiftExpandedWithoutDown,
    Cosine,
}

/// The mode a name in a request path stands for.
pub open spec fn mode_named(s: Seq<char>) -> Option<ConflcitMode> {
    if s == "jaccard-up"@ {
        Some(ConflcitMode::JaccardUp)
    } else if s == "jaccard-expanded"@ {
        Some(ConflcitMode::JaccardExpanded)
    } else if s == "jaccard-expanded-without-down"@ {
        Some(ConflcitMode::JaccardExpandedWithoutDown)
    } else if s == "support-up"@ {
        Some(ConflcitMode::SupportUp)
    } else if s == "support-expanded"@ {
        Some(ConflcitMode::SupportExpanded)
    } else if s == "support-expanded-without-down"@ {
        Some(ConflcitMode::SupportExpandedWithoutDown)
    } else if s == "support-weighted-up"@ {
        Some(ConflcitMode::SupportWeightedUp)
    } else if s == "support-weighted-expanded"@ {
        Some(ConflcitMode::SupportWeightedExpanded)
    } else if s == "support-weighted-expanded-without-down"@ {
        Some(ConflcitMode::SupportWeightedExpandedWithoutDown)
    } else if s == "lift-up"@ {
        Some(ConflcitMode::LiftUp)
    } else if s == "lift-expanded"@ {
        Some(ConflcitMode::LiftExpanded)
    } else if s == "lift-expanded-without-down"@ {
        Some(ConflcitMode::LiftExpandedWithoutDown)
    } else if s == "cosine"@ {
        Some(ConflcitMode::Cosine)
    } else {
        None
    }
}

impl ConflcitMode {
    /// The mode named by `value`, or the message `Invalid value: <value>`.
    pub fn try_from(value: &str) -> (r: Result<ConflcitMode, String>)
        ensures
            mode_named(value@) matches Some(m) ==> r == Ok::<ConflcitMode, String>(m),
            mode_named(value@) is None ==> (r matches Err(e) && e@ == "Invalid value: "@ + value@),
    {
        if str_eq(value, "jaccard-up") {
            Ok(ConflcitMode::JaccardUp)
        } else if str_eq(value, "jaccard-expanded") {
            Ok(ConflcitMode::JaccardExpanded)
        } else if str_eq(value, "jaccard-expanded-without-down") {
            Ok(ConflcitMode::JaccardExpandedWithoutDown)
        } else if str_eq(value, "support-up") {
            Ok(ConflcitMode::SupportUp)
        } else if str_eq(value, "support-expanded") {
            Ok(ConflcitMode::SupportExpanded)
        } else if str_eq(value, "support-expanded-without-down") {
            Ok(ConflcitMode::SupportExpandedWithoutDown)
        } else if str_eq(value, "support-weighted-up") {
            Ok(ConflcitMode::SupportWeightedUp)
        } else if str_eq(value, "support-weighted-expanded") {
            Ok(ConflcitMode::SupportWeightedExpanded)
        } else if str_eq(value, "support-weighted-expanded-without-down") {
            Ok(ConflcitMode::SupportWeightedExpandedWithoutDown)
        } else if str_eq(value, "lift-up") {
            Ok(ConflcitMode::LiftUp)
        } else if str_eq(value, "lift-expanded") {
            Ok(ConflcitMode::LiftExpanded)
        } else if str_eq(value, "lift-expanded-without-down") {
            Ok(ConflcitMode::LiftExpandedWithoutDown)
        } else if str_eq(value, "cosine") {
            Ok(ConflcitMode::Cosine)
        } else {
            Err(message("Invalid value: ", value))
        }
    }
}

/// How a login token was obtained.
#[derive(Clone, Copy, Debug, PartialEq, Eq, Structural)]
pub enum TokenCreator {
    OpenID,
    UserPassword,
}

pub open spec fn creator_code(c: TokenCreator) -> i32 {
    match c {
        TokenCreator::OpenID => 0,
        TokenCreator::UserPassword => 1,
    }
}

impl TokenCreator {
    /// The stored number of the creator.
    pub fn code(&self) -> (r: i32)
        ensures
            r == creator_code(*self),
    {
        match self {
            TokenCreator::OpenID => 0,
            TokenCreator::UserPassword => 1,
        }
    }
}

} // verus!
