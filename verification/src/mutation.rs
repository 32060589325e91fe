//! What the changes of the application write: login tokens, new events,
//! event settings, memberships and sources, with the checks that refuse bad
//! requests.
use vstd::prelude::*;
use rand_chacha::ChaCha20Rng;
use rand_chacha::rand_core::SeedableRng;
use argon2::{Argon2, PasswordHash, PasswordHasher, PasswordVerifier};
use argon2::password_hash::SaltString;
use argon2::password_hash::rand_core::OsRng;
use crate::roles::{str_eq, message, role_str, filter_code, creator_code, RoleInfo, SourceFilter, TokenCreator};
use crate::text::{decimal, int_text};
use crate::urls::{url_parse, parse_url};
use crate::votes::{UpdateVoteRequest, Votes};

verus! {

/// The random generator the tokens are drawn from.
#[verifier::external_type_specification]
#[verifier::external_body]
pub struct ExChaCha20Rng(ChaCha20Rng);

/// `ChaCha20Rng::from_os_rng`: a generator seeded from the operating system.
/// Nothing is claimed of the seed. The crate panics when the operating system
/// gives no entropy, which no argument can rule out.
#[verifier::external_body]
fn os_seeded_rng() -> ChaCha20Rng {
    ChaCha20Rng::from_os_rng()
}

/// `Rng::fill` on a byte slice: overwrites the bytes with random ones. Only
/// that the length stays is claimed.
#[verifier::external_body]
fn fill_random(rng: &mut ChaCha20Rng, buf: &mut Vec<u8>)
    ensures
        final(buf)@.len() == old(buf)@.len(),
{
    rand::Rng::fill(rng, buf.as_mut_slice());
}

/// The base58 text of a byte string, as the `base58` crate encodes it.
pub uninterp spec fn base58_of(bytes: Seq<u8>) -> Seq<char>;

/// A character of the base58 alphabet.
pub open spec fn base58_char(c: char) -> bool {
    ||| ('1' <= c && c <= '9')
    ||| ('A' <= c && c <= 'Z' && c != 'I' && c != 'O')
    ||| ('a' <= c && c <= 'z' && c != 'l')
}

/// `ToBase58::to_base58` on a byte slice: claimed to return the crate's
/// encoding of the bytes, every character of which is taken from its alphabet.
/// The crate documents that it works up to 128 bytes, which `requires` keeps.
/// Its source writes one `1` for each leading zero byte and then the base-58
/// numeral of the rest without leading zeros; for sixteen bytes that is at
/// least sixteen characters (each nonzero byte needs a digit of its own) and
/// at most twenty-two (58^22 exceeds 2^128), which is claimed as well.
#[verifier::external_body]
fn to_base58(bytes: &Vec<u8>) -> (r: String)
    requires
        bytes@.len() <= 128,
    ensures
        r@ == base58_of(bytes@),
        forall|i: int| 0 <= i < r@.len() ==> base58_char(#[trigger] r@[i]),
        bytes@.len() == 16 ==> 16 <= r@.len() <= 22,
{
    base58::ToBase58::to_base58(bytes.as_slice())
}

/// A token: the base58 text of sixteen bytes, sixteen to twenty-two
/// characters long.
pub open spec fn is_token(t: Seq<char>) -> bool {
    &&& exists|bytes: Seq<u8>| bytes.len() == 16 && t == #[trigger] base58_of(bytes)
    &&& forall|i: int| 0 <= i < t.len() ==> base58_char(#[trigger] t[i])
    &&& 16 <= t.len() <= 22
}

/// A character a slug may hold.
pub open spec fn slug_char(c: char) -> bool {
    ('a' <= c && c <= 'z') || ('0' <= c && c <= '9') || c == '-'
}

/// The form of a slug: lowercase ASCII letters, digits and single dashes, no
/// dash at either end.
pub open spec fn is_slug(s: Seq<char>) -> bool {
    &&& forall|i: int| 0 <= i < s.len() ==> slug_char(#[trigger] s[i])
    &&& s.len() > 0 ==> s[0] != '-' && s[s.len() - 1] != '-'
    &&& forall|i: int| 0 <= i < s.len() - 1 ==> !(#[trigger] s[i] == '-' && s[i + 1] == '-')
}

/// What `slug::slugify` makes of a text.
pub uninterp spec fn slugify_of(s: Seq<char>) -> Seq<char>;

/// `slug::slugify`: claimed to return the crate's slug of the text. The crate
/// documents that a slug consists of `a`-`z`, `0`-`9` and `-`, never holds two
/// dashes in a row and never starts or ends with one; its source passes a text
/// of that form through unchanged. How other characters are transliterated is
/// not stated.
#[verifier::external_body]
fn slugify(s: &str) -> (r: String)
    ensures
        r@ == slugify_of(s@),
        is_slug(r@),
        is_slug(s@) ==> r@ == s@,
{
    slug::slugify(s)
}

/// A text is its own slug exactly when it has the form of a slug.
fn is_own_slug(s: &str) -> (r: bool)
    ensures
        r == is_slug(s@),
{
    let slug = slugify(s);
    str_eq(slug.as_str(), s)
}

/// The slugs no event may take: the paths the application serves itself.
pub open spec fn reserved_slug(s: Seq<char>) -> bool {
    s == "admin"@ || s == "static"@ || s == "api"@
}

/// A slug an event may take.
pub open spec fn valid_event_slug(s: Seq<char>) -> bool {
    s.len() > 0 && !reserved_slug(s) && is_slug(s)
}

/// The application's changes.
pub struct Mutation;

/// A request to create an event.
pub struct CreateEventRequest {
    pub name: String,
    pub slug: String,
}

/// A new event, and the membership that makes its creator an admin.
pub struct NewEvent {
    pub title: String,
    pub slug: String,
    pub voting: bool,
    /// The initial content, stored as a JSON string.
    pub content_text: String,
    pub version: i32,
    pub admin: i32,
    pub admin_perm: String,
}

impl Mutation {
    /// A fresh token: the base58 text of sixteen random bytes.
    pub fn gentoken() -> (r: String)
        ensures
            is_token(r@),
    {
        let mut rng = os_seeded_rng();
        let mut bytes: Vec<u8> = vec![0u8; 16];
        fill_random(&mut rng, &mut bytes);
        assert(bytes@.len() == 16);
        let r = to_base58(&bytes);
        assert(r@ == base58_of(bytes@));
        r
    }

    /// Checks the slug of a new event: it is refused, with the message
    /// `Invalid slug: <slug>`, when it is empty, reserved or not a slug.
    pub fn check_event_slug(slug: &str) -> (r: Result<(), String>)
        ensures
            r is Ok <==> valid_event_slug(slug@),
            r matches Err(e) ==> e@ == "Invalid slug: "@ + slug@,
    {
        if str_eq(slug, "") || str_eq(slug, "admin") || str_eq(slug, "static") || str_eq(slug, "api")
            || !is_own_slug(slug) {
            proof {
                reveal_strlit("");
                assert(""@ =~= Seq::<char>::empty());
            }
            return Err(message("Invalid slug: ", slug));
        }
        proof {
            reveal_strlit("");
            assert(""@ =~= Seq::<char>::empty());
            if slug@.len() == 0 {
                assert(slug@ =~= ""@);
            }
        }
        Ok(())
    }

    /// The event that `req` creates for `user`, who becomes its admin; voting
    /// starts disabled at version 0. A bad slug is refused as
    /// `check_event_slug` says.
    pub fn create_event(req: CreateEventRequest, user: i32) -> (r: Result<NewEvent, String>)
        ensures
            r is Ok <==> valid_event_slug(req.slug@),
            r matches Err(e) ==> e@ == "Invalid slug: "@ + req.slug@,
            r matches Ok(ev) ==> {
                &&& ev.title@ == req.name@
                &&& ev.slug@ == req.slug@
                &&& !ev.voting
                &&& ev.content_text@ == "{}"@
                &&& ev.version == 0
                &&& ev.admin == user
                &&& ev.admin_perm@ == role_str(RoleInfo::Admin)
            },
    {
        match Mutation::check_event_slug(req.slug.as_str()) {
            Err(e) => Err(e),
            Ok(()) => Ok(NewEvent {
                title: req.name,
                slug: req.slug,
                voting: false,
                content_text: "{}".to_string(),
                version: 0,
                admin: user,
                admin_perm: RoleInfo::Admin.into(),
            }),
        }
    }
}

/// The numbers ascend strictly: each occurs once, in increasing order.
pub open spec fn strictly_increasing(s: Seq<i32>) -> bool {
    forall|i: int, j: int| 0 <= i < j < s.len() ==> s[i] < s[j]
}

/// The distinct numbers of `v`, in increasing order.
pub fn sorted_unique(v: &Vec<i32>) -> (r: Vec<i32>)
    ensures
        strictly_increasing(r@),
        forall|x: i32| r@.contains(x) <==> v@.contains(x),
{
    let mut r: Vec<i32> = Vec::new();
    for i in 0..v.len()
        invariant
            strictly_increasing(r@),
            forall|x: i32| r@.contains(x) <==> v@.subrange(0, i as int).contains(x),
    {
        let x = v[i];
        let mut p: usize = 0;
        while p < r.len() && r[p] < x
            invariant
                p <= r@.len(),
                forall|k: int| 0 <= k < p ==> r@[k] < x,
            decreases r@.len() - p,
        {
            p += 1;
        }
        let ghost r0 = r@;
        assert(v@.subrange(0, i + 1) =~= v@.subrange(0, i as int).push(x));
        if p < r.len() && r[p] == x {
            assert forall|y: i32| r@.contains(y) <==> v@.subrange(0, i + 1).contains(y) by {
                if v@.subrange(0, i + 1).contains(y) {
                    let k = choose|k: int| 0 <= k < i + 1 && #[trigger] v@.subrange(0, i + 1)[k] == y;
                    if k < i {
                        assert(v@.subrange(0, i as int)[k] == y);
                    } else {
                        assert(r@[p as int] == y);
                    }
                }
                if r@.contains(y) {
                    let k = choose|k: int| 0 <= k < r@.len() && #[trigger] r@[k] == y;
                    assert(r@[k] == y);
                    assert(v@.subrange(0, i as int).contains(y));
                    let m = choose|m: int| 0 <= m < i && #[trigger] v@.subrange(0, i as int)[m] == y;
                    assert(v@.subrange(0, i + 1)[m] == y);
                }
            }
        } else {
            r.insert(p, x);
            assert(r@ =~= r0.subrange(0, p as int).push(x) + r0.subrange(p as int, r0.len() as int));
            assert forall|a: int, b: int| 0 <= a < b < r@.len() implies r@[a] < r@[b] by {
                if b < p {
                } else if b == p {
                } else if a < p {
                    assert(r@[b] == r0[b - 1]);
                    assert(r0[b - 1] >= r0[p as int]);
                } else if a == p {
                    assert(r@[b] == r0[b - 1]);
                    assert(r0[b - 1] >= r0[p as int]);
                } else {
                    assert(r@[a] == r0[a - 1] && r@[b] == r0[b - 1]);
                }
            }
            assert forall|y: i32| r@.contains(y) <==> v@.subrange(0, i + 1).contains(y) by {
                if v@.subrange(0, i + 1).contains(y) {
                    let k = choose|k: int| 0 <= k < i + 1 && #[trigger] v@.subrange(0, i + 1)[k] == y;
                    if k < i {
                        assert(v@.subrange(0, i as int)[k] == y);
                        assert(r0.contains(y));
                        let m = choose|m: int| 0 <= m < r0.len() && #[trigger] r0[m] == y;
                        if m < p {
                            assert(r@[m] == y);
                        } else {
                            assert(r@[m + 1] == y);
                        }
                    } else {
                        assert(r@[p as int] == y);
                    }
                }
                if r@.contains(y) {
                    let k = choose|k: int| 0 <= k < r@.len() && #[trigger] r@[k] == y;
                    if k == p {
                        assert(v@.subrange(0, i + 1)[i as int] == y);
                    } else {
                        if k < p {
                            assert(r0[k] == y);
                        } else {
                            assert(r0[k - 1] == y);
                        }
                        assert(r0.contains(y));
                        let m = choose|m: int| 0 <= m < i && #[trigger] v@.subrange(0, i as int)[m] == y;
                        assert(v@.subrange(0, i + 1)[m] == y);
                    }
                }
            }
        }
    }
    assert(v@.subrange(0, v@.len() as int) =~= v@);
    r
}

/// A request to create or change a source of an event. The address, the event
/// slug and the key of the source's API are taken only together with a key.
pub struct UpdateSourceRequest {
    pub autoupdate: Option<bool>,
    pub filter: Option<SourceFilter>,
    pub interval: Option<i32>,
    pub url: Option<String>,
    pub event_slug: Option<String>,
    pub apikey: Option<String>,
    pub type_filter: Option<Vec<i32>>,
}

/// A setting of a source that a request changes.
#[derive(Clone, Copy, Debug, PartialEq, Eq, Structural)]
pub enum SourceColumn {
    Interval,
    Autoupdate,
    Filter,
    TypeFilter,
    Apikey,
    Url,
    EventSlug,
}

/// The insert of a source, and the settings that an existing source with the
/// same slug in the same event takes over from it.
pub struct SourceUpsert {
    pub slug: String,
    pub event: i32,
    pub updatekey: String,
    pub interval: Option<i32>,
    pub autoupdate: Option<bool>,
    pub filter: Option<i32>,
    pub type_filter: Option<Vec<i32>>,
    pub apikey: Option<String>,
    pub url: Option<String>,
    pub event_slug: Option<String>,
    pub to_update: Vec<SourceColumn>,
}

/// An update interval a source may have, in seconds.
pub open spec fn interval_ok(i: i32) -> bool {
    60 <= i && i <= 7200
}

/// Why a source update is refused, checked in this order: a bad slug, an
/// interval out of range, an address that does not parse (looked at only when
/// a key is given).
pub open spec fn source_update_error(slug: Seq<char>, update: &UpdateSourceRequest) -> Option<Seq<char>> {
    if slug.len() == 0 || !is_slug(slug) {
        Some("invalid slug: "@ + slug)
    } else if update.interval is Some && !interval_ok(update.interval->0) {
        Some("Invalid interval: "@ + decimal(update.interval->0 as int))
    } else if update.apikey is Some && update.url is Some && url_parse(update.url->0@) is Err {
        Some("Invalid URL: "@ + update.url->0@ + " "@ + url_parse(update.url->0@)->Err_0)
    } else {
        None
    }
}

pub open spec fn column_if(given: bool, c: SourceColumn) -> Seq<SourceColumn> {
    if given { seq![c] } else { Seq::empty() }
}

/// The settings a request changes, in the order the request is read.
pub open spec fn source_columns(update: &UpdateSourceRequest) -> Seq<SourceColumn> {
    let keyed = update.apikey is Some;
    column_if(update.interval is Some, SourceColumn::Interval)
        + column_if(update.autoupdate is Some, SourceColumn::Autoupdate)
        + column_if(update.filter is Some, SourceColumn::Filter)
        + column_if(update.type_filter is Some, SourceColumn::TypeFilter)
        + column_if(keyed, SourceColumn::Apikey)
        + column_if(keyed && update.url is Some, SourceColumn::Url)
        + column_if(keyed && update.event_slug is Some, SourceColumn::EventSlug)
}

/// The upsert of source `slug` of `event` under `updatekey` that `update` asks
/// for: the given settings, the type filter without repeats in increasing
/// order, and the address and event slug only with a key.
pub open spec fn source_upsert(
    u: &SourceUpsert,
    event: i32,
    slug: Seq<char>,
    update: &UpdateSourceRequest,
    updatekey: Seq<char>,
) -> bool {
    let keyed = update.apikey is Some;
    &&& u.slug@ == slug
    &&& u.event == event
    &&& u.updatekey@ == updatekey
    &&& u.interval == update.interval
    &&& u.autoupdate == update.autoupdate
    &&& u.filter == match update.filter { Some(f) => Some(filter_code(f)), None => None::<i32> }
    &&& (u.type_filter is Some <==> update.type_filter is Some)
    &&& (update.type_filter matches Some(t) ==> strictly_increasing(u.type_filter->0@)
        && forall|x: i32| u.type_filter->0@.contains(x) <==> t@.contains(x))
    &&& u.apikey == update.apikey
    &&& u.url == (if keyed { update.url } else { None })
    &&& u.event_slug == (if keyed { update.event_slug } else { None })
    &&& u.to_update@ == source_columns(update)
}

impl Mutation {
    /// Whether `slug` may name a source: a non-empty slug.
    fn check_source_slug(slug: &str) -> (r: Result<(), String>)
        ensures
            r is Ok <==> (slug@.len() > 0 && is_slug(slug@)),
            r matches Err(e) ==> e@ == "invalid slug: "@ + slug@,
    {
        proof {
            reveal_strlit("");
            assert(""@ =~= Seq::<char>::empty());
            if slug@.len() == 0 {
                assert(slug@ =~= ""@);
            }
        }
        if str_eq(slug, "") || !is_own_slug(slug) {
            return Err(message("invalid slug: ", slug));
        }
        Ok(())
    }

    /// The first check of `source_update_error` that a request fails.
    fn check_source_request(slug: &str, update: &UpdateSourceRequest) -> (r: Result<(), String>)
        ensures
            match source_update_error(slug@, update) {
                Some(e) => r matches Err(m) && m@ == e,
                None => r is Ok,
            },
    {
        Mutation::check_source_slug(slug)?;
        if let Some(interval) = update.interval {
            if interval < 60 || interval > 7200 {
                let n = int_text(interval);
                return Err(message("Invalid interval: ", n.as_str()));
            }
        }
        if update.apikey.is_some() {
            if let Some(u) = &update.url {
                if let Err(e) = parse_url(u.as_str()) {
                    let mut m = message("Invalid URL: ", u.as_str());
                    m.append(" ");
                    m.append(e.as_str());
                    return Err(m);
                }
            }
        }
        Ok(())
    }

    /// The settings that `update` changes, as `source_columns` lists them.
    fn columns_of(update: &UpdateSourceRequest) -> (r: Vec<SourceColumn>)
        ensures
            r@ == source_columns(update),
    {
        let mut r: Vec<SourceColumn> = Vec::new();
        let keyed = update.apikey.is_some();
        if update.interval.is_some() {
            r.push(SourceColumn::Interval);
        }
        if update.autoupdate.is_some() {
            r.push(SourceColumn::Autoupdate);
        }
        if update.filter.is_some() {
            r.push(SourceColumn::Filter);
        }
        if update.type_filter.is_some() {
            r.push(SourceColumn::TypeFilter);
        }
        if keyed {
            r.push(SourceColumn::Apikey);
        }
        if keyed && update.url.is_some() {
            r.push(SourceColumn::Url);
        }
        if keyed && update.event_slug.is_some() {
            r.push(SourceColumn::EventSlug);
        }
        assert(r@ =~= source_columns(update));
        r
    }

    /// The upsert of source `slug` of `event` that `update` asks for, under the
    /// update key `updatekey`, or the message of the first check it fails.
    pub fn plan_source_update(event: i32, slug: String, update: UpdateSourceRequest, updatekey: String) -> (r: Result<SourceUpsert, String>)
        ensures
            match source_update_error(slug@, &update) {
                Some(e) => r matches Err(m) && m@ == e,
                None => r matches Ok(u) && source_upsert(&u, event, slug@, &update, updatekey@),
            },
    {
        Mutation::check_source_request(slug.as_str(), &update)?;
        let to_update = Mutation::columns_of(&update);
        let filter = match update.filter {
            Some(f) => Some(f.code()),
            None => None,
        };
        let type_filter = match &update.type_filter {
            Some(t) => Some(sorted_unique(t)),
            None => None,
        };
        let keyed = update.apikey.is_some();
        let UpdateSourceRequest { autoupdate, filter: _, interval, url, event_slug, apikey, type_filter: _ } = update;
        Ok(SourceUpsert {
            slug,
            event,
            updatekey,
            interval,
            autoupdate,
            filter,
            type_filter,
            apikey,
            url: if keyed { url } else { None },
            event_slug: if keyed { event_slug } else { None },
            to_update,
        })
    }

    /// Creates or changes source `source` of `event` as `update` asks, under a
    /// fresh update key; refused as `source_update_error` says. The key is
    /// drawn only for a good slug.
    pub fn update_source(event: i32, source: String, update: UpdateSourceRequest) -> (r: Result<SourceUpsert, String>)
        ensures
            match source_update_error(source@, &update) {
                Some(e) => r matches Err(m) && m@ == e,
                None => r matches Ok(u) && is_token(u.updatekey@) && source_upsert(&u, event, source@, &update, u.updatekey@),
            },
    {
        match Mutation::check_source_slug(source.as_str()) {
            Err(e) => {
                return Err(e);
            },
            Ok(()) => {},
        }
        let updatekey = Mutation::gentoken();
        Mutation::plan_source_update(event, source, update, updatekey)
    }
}

/// Whether `password_hash::PasswordHash::new` parses a text as a PHC string.
pub uninterp spec fn phc_parses(hash: Seq<char>) -> bool;

/// Whether Argon2 with its default settings accepts `password` against the
/// PHC string `hash` (`PasswordVerifier::verify_password` returns `Ok`).
pub uninterp spec fn password_matches(hash: Seq<char>, password: Seq<char>) -> bool;

/// The PHC string that Argon2 with its default settings computes for
/// `password` with the B64 salt `salt`, or nothing when it fails.
pub uninterp spec fn argon2_hash(password: Seq<char>, salt: Seq<char>) -> Option<Seq<char>>;

/// `PasswordHash::new`: claimed only to say whether the text parses.
#[verifier::external_body]
fn parses_as_password_hash(hash: &str) -> (r: bool)
    ensures
        r == phc_parses(hash@),
{
    PasswordHash::new(hash).is_ok()
}

/// `PasswordVerifier::verify_password` of `Argon2::default()`, on the hash that
/// `hash` parses to: claimed only to say whether the password is accepted.
#[verifier::external_body]
fn verify_password(hash: &str, password: &str) -> (r: bool)
    requires
        phc_parses(hash@),
    ensures
        r == password_matches(hash@, password@),
{
    match PasswordHash::new(hash) {
        Ok(h) => Argon2::default().verify_password(password.as_bytes(), &h).is_ok(),
        Err(_) => false,
    }
}

/// `SaltString::generate` with the operating system's generator: a random B64
/// salt. Nothing is claimed of it.
#[verifier::external_body]
fn random_salt() -> String {
    SaltString::generate(&mut OsRng).as_str().to_string()
}

/// `PasswordHasher::hash_password` of `Argon2::default()` with the salt that
/// `salt` reads as: claimed to return the PHC string that `argon2_hash` names.
/// The crate's verification recomputes the hash with the parameters and salt
/// that the PHC string carries and compares the outputs, so the string parses
/// and accepts the same password; that much is claimed too.
#[verifier::external_body]
fn hash_password(password: &str, salt: &str) -> (r: Option<String>)
    ensures
        match r {
            Some(h) => argon2_hash(password@, salt@) == Some(h@),
            None => argon2_hash(password@, salt@) is None,
        },
        r matches Some(h) ==> phc_parses(h@) && password_matches(h@, password@),
{
    match SaltString::from_b64(salt) {
        Ok(s) => match Argon2::default().hash_password(password.as_bytes(), &s) {
            Ok(h) => Some(h.to_string()),
            Err(_) => None,
        },
        Err(_) => None,
    }
}

/// The outcome of a login with `password` for a user whose stored password
/// hash is `stored_hash` (none when the user is unknown or has no password).
pub open spec fn login_check(stored_hash: Option<Seq<char>>, password: Seq<char>) -> Result<(), Seq<char>> {
    match stored_hash {
        None => Err("Login failed"@),
        Some(h) => if !phc_parses(h) {
            Err("Could not parse password hash"@)
        } else if !password_matches(h, password) {
            Err("Invalid password"@)
        } else {
            Ok(())
        },
    }
}

/// A new user with a password.
pub struct NewUser {
    pub name: String,
    pub email: String,
    pub password: Option<String>,
    pub can_create: bool,
}

/// A login token to store.
pub struct NewToken {
    pub value: String,
    pub user: i32,
    pub creator: i32,
}

/// A request to change the settings of an event.
pub struct UpdateEventRequest {
    pub name: Option<String>,
    pub voting_enabled: Option<bool>,
}

/// The new settings of an event; a field left out stays.
pub struct EventUpdate {
    pub event: i32,
    pub title: Option<String>,
    pub voting: Option<bool>,
}

/// A change of a user's membership in an event.
pub enum MembershipChange {
    /// The user gets the role, replacing any earlier one.
    Grant { event: i32, user: i32, perm: String },
    /// The user leaves the event.
    Revoke { event: i32, user: i32 },
}

impl Mutation {
    /// The login of a user whose stored password hash is `stored_hash`: a fresh
    /// token when `login_check` accepts the password, else its message.
    pub fn login(stored_hash: Option<String>, password: String) -> (r: Result<String, String>)
        ensures
            match login_check(match stored_hash { Some(h) => Some(h@), None => None }, password@) {
                Ok(()) => r matches Ok(t) && is_token(t@),
                Err(e) => r matches Err(m) && m@ == e,
            },
    {
        match stored_hash {
            Some(h) => {
                if !parses_as_password_hash(h.as_str()) {
                    return Err("Could not parse password hash".to_string());
                }
                if !verify_password(h.as_str(), password.as_str()) {
                    return Err("Invalid password".to_string());
                }
                Ok(Mutation::gentoken())
            },
            None => Err("Login failed".to_string()),
        }
    }

    /// A new user whose password is stored as its Argon2 hash with a random
    /// salt; refused with `Could not hash password` when hashing fails. A login
    /// with the same password then succeeds.
    pub fn create_user(name: String, email: String, password: String, can_create: bool) -> (r: Result<NewUser, String>)
        ensures
            r matches Ok(u) ==> {
                &&& u.name == name
                &&& u.email == email
                &&& u.can_create == can_create
                &&& u.password matches Some(h) && (exists|salt: Seq<char>| argon2_hash(password@, salt) == Some(h@))
                &&& login_check(Some(u.password->0@), password@) is Ok
            },
            r matches Err(m) ==> m@ == "Could not hash password"@
                && exists|salt: Seq<char>| argon2_hash(password@, salt) is None,
    {
        let salt = random_salt();
        match hash_password(password.as_str(), salt.as_str()) {
            Some(h) => Ok(NewUser { name, email, password: Some(h), can_create }),
            None => Err("Could not hash password".to_string()),
        }
    }

    /// The token record of `token` for `user`, made as `creator` says.
    pub fn insert_token(user: i32, token: String, creator: TokenCreator) -> (r: NewToken)
        ensures
            r.value == token,
            r.user == user,
            r.creator == creator_code(creator),
    {
        NewToken { value: token, user, creator: creator.code() }
    }

    /// The change of `event` that `update` asks for, or none when it asks for
    /// nothing.
    pub fn update_event(event: i32, update: UpdateEventRequest) -> (r: Option<EventUpdate>)
        ensures
            r is Some <==> (update.name is Some || update.voting_enabled is Some),
            r matches Some(u) ==> u.event == event && u.title == update.name && u.voting == update.voting_enabled,
    {
        if update.name.is_none() && update.voting_enabled.is_none() {
            return None;
        }
        Some(EventUpdate { event, title: update.name, voting: update.voting_enabled })
    }

    /// Gives `user` the role `role` in `conference`, or takes the user out of
    /// it when no role is given.
    pub fn edit_user(conference: i32, user: i32, role: Option<RoleInfo>) -> (r: MembershipChange)
        ensures
            match role {
                Some(ro) => r matches MembershipChange::Grant { event, user: u, perm }
                    && event == conference && u == user && perm@ == role_str(ro),
                None => r == (MembershipChange::Revoke { event: conference, user }),
            },
    {
        match role {
            Some(r) => MembershipChange::Grant { event: conference, user, perm: r.into() },
            None => MembershipChange::Revoke { event: conference, user },
        }
    }
}

/// A ballot as stored for an event and a client.
pub struct VoteRow {
    pub client: String,
    pub event: i32,
    pub shown: Vec<String>,
    pub expanded: Vec<String>,
    pub up: Vec<String>,
    pub down: Vec<String>,
    pub sequence: i32,
}

/// What storing a ballot writes.
pub enum VoteWrite {
    /// No event has the ballot's slug; nothing is written.
    NoEvent,
    /// The client's first ballot for the event.
    Insert(VoteRow),
    /// A ballot newer than the stored one replaces it.
    Replace(VoteRow),
    /// The stored ballot is as new or newer; it stays.
    Keep,
}

/// The kind of write for a ballot with sequence number `sequence`, given the
/// event it names (if any) and the sequence number of the client's stored
/// ballot (if any).
#[derive(Clone, Copy, Debug, PartialEq, Eq, Structural)]
pub enum VoteAction {
    NoEvent,
    Insert,
    Replace,
    Keep,
}

pub open spec fn vote_action(event: Option<i32>, stored: Option<i32>, sequence: i32) -> VoteAction {
    match event {
        None => VoteAction::NoEvent,
        Some(_) => match stored {
            None => VoteAction::Insert,
            Some(old) => if old < sequence { VoteAction::Replace } else { VoteAction::Keep },
        },
    }
}

/// The stored row of a ballot request for `event`: its sequence number is
/// stored as an `i32`, wrapping above `i32::MAX`.
pub open spec fn vote_row(row: VoteRow, event: i32, request: UpdateVoteRequest) -> bool {
    &&& row.client == request.client
    &&& row.event == event
    &&& row.shown == request.votes.shown
    &&& row.expanded == request.votes.expanded
    &&& row.up == request.votes.up
    &&& row.down == request.votes.down
    &&& row.sequence == request.sequence as i32
}

pub open spec fn write_action(w: VoteWrite) -> VoteAction {
    match w {
        VoteWrite::NoEvent => VoteAction::NoEvent,
        VoteWrite::Insert(_) => VoteAction::Insert,
        VoteWrite::Replace(_) => VoteAction::Replace,
        VoteWrite::Keep => VoteAction::Keep,
    }
}

impl Mutation {
    /// What storing `request` writes, given the id of the event its slug names
    /// (none when no event has it) and the sequence number of the client's
    /// stored ballot for that event: a ballot replaces the stored one only when
    /// its sequence number is greater.
    pub fn update_votes(event: Option<i32>, stored: Option<i32>, request: UpdateVoteRequest) -> (r: VoteWrite)
        ensures
            write_action(r) == vote_action(event, stored, request.sequence as i32),
            r matches VoteWrite::Insert(row) ==> vote_row(row, event->0, request),
            r matches VoteWrite::Replace(row) ==> vote_row(row, event->0, request),
    {
        let sequence = request.sequence as i32;
        let e = match event {
            Some(e) => e,
            None => {
                return VoteWrite::NoEvent;
            },
        };
        let UpdateVoteRequest { sequence: _, votes, event: _, client } = request;
        let Votes { shown, expanded, up, down } = votes;
        let row = VoteRow { client, event: e, shown, expanded, up, down, sequence };
        match stored {
            None => VoteWrite::Insert(row),
            Some(old) => if old < sequence { VoteWrite::Replace(row) } else { VoteWrite::Keep },
        }
    }
}

/// A ballot is written at most once: once it is stored, sending it again
/// leaves it.
pub proof fn lemma_vote_resend_keeps(event: i32, stored: Option<i32>, sequence: i32)
    requires
        vote_action(Some(event), stored, sequence) == VoteAction::Insert
            || vote_action(Some(event), stored, sequence) == VoteAction::Replace,
    ensures
        vote_action(Some(event), Some(sequence), sequence) == VoteAction::Keep,
{
}

/// A stored ballot is only ever replaced by a newer one: the stored sequence
/// number grows with every write.
pub proof fn lemma_vote_sequence_grows(event: i32, old: i32, sequence: i32)
    requires
        vote_action(Some(event), Some(old), sequence) == VoteAction::Replace,
    ensures
        old < sequence,
{
}

} // verus!
