//! URLs, carried by their serialization.
//!
//! The library holds a URL as the text `url::Url::as_str` gives for it. Each
//! function below whose contract is taken on trust parses the text it is
//! handed, makes one call of the `url` crate, and hands back the
//! serialization of the result or the text of the crate's `ParseError`. The
//! URL Standard, which the crate implements, makes a serialization parse back
//! to the same URL.
use vstd::prelude::*;

verus! {

/// What `url::Url::parse` makes of a text: the serialization of the URL, or the
/// text of the parse error.
pub uninterp spec fn url_parse(input: Seq<char>) -> Result<Seq<char>, Seq<char>>;

/// What `url::Url::join` makes of `input` against the URL that `base` parses to:
/// the serialization of the joined URL, or the text of the parse error (of
/// `base` or of the join).
pub uninterp spec fn url_join(base: Seq<char>, input: Seq<char>) -> Result<Seq<char>, Seq<char>>;

/// What `url::Url::set_scheme("https")` makes of the URL that a text parses to:
/// the serialization of the changed URL, or nothing when the text does not
/// parse or the crate refuses the change.
pub uninterp spec fn url_with_https(url: Seq<char>) -> Option<Seq<char>>;

/// `url::Url::parse`: claimed to return, as text, what `url_parse` names. How a
/// URL is parsed is not stated.
#[verifier::external_body]
pub(crate) fn parse_url(input: &str) -> (r: Result<String, String>)
    ensures
        match r {
            Ok(u) => url_parse(input@) == Ok::<Seq<char>, Seq<char>>(u@),
            Err(e) => url_parse(input@) == Err::<Seq<char>, Seq<char>>(e@),
        },
{
    match url::Url::parse(input) {
        Ok(u) => Ok(u.to_string()),
        Err(e) => Err(e.to_string()),
    }
}

/// `url::Url::join`, on the URL that `base` parses to: claimed to return, as
/// text, what `url_join` names. How a relative reference is resolved is not
/// stated.
#[verifier::external_body]
pub(crate) fn join_url(base: &str, input: &str) -> (r: Result<String, String>)
    ensures
        match r {
            Ok(u) => url_join(base@, input@) == Ok::<Seq<char>, Seq<char>>(u@),
            Err(e) => url_join(base@, input@) == Err::<Seq<char>, Seq<char>>(e@),
        },
{
    match url::Url::parse(base) {
        Ok(b) => match b.join(input) {
            Ok(u) => Ok(u.to_string()),
            Err(e) => Err(e.to_string()),
        },
        Err(e) => Err(e.to_string()),
    }
}

/// `url::Url::set_scheme("https")`, on the URL that `url` parses to: claimed to
/// return, as text, what `url_with_https` names; the crate writes the new
/// scheme and a colon in front of the rest of the serialization, so a changed
/// URL starts with `https:`. When the crate allows the change is not stated.
#[verifier::external_body]
pub(crate) fn with_https(url: &str) -> (r: Option<String>)
    ensures
        match r {
            Some(u) => url_with_https(url@) == Some(u@),
            None => url_with_https(url@) is None,
        },
        r matches Some(u) ==> scheme_is_https(u@),
{
    match url::Url::parse(url) {
        Ok(mut u) => match u.set_scheme("https") {
            Ok(()) => Some(u.to_string()),
            Err(()) => None,
        },
        Err(_) => None,
    }
}

/// Whether a serialized URL has the scheme `https`: `Url::scheme` is the
/// serialization up to its first colon, so this is whether it starts with
/// `https:`.
pub open spec fn scheme_is_https(url: Seq<char>) -> bool {
    url.len() >= 6 && url.subrange(0, 6) == "https:"@
}

/// Whether a serialized URL has the scheme `https`.
pub fn is_https(url: &str) -> (r: bool)
    ensures
        r == scheme_is_https(url@),
{
    proof {
        reveal_strlit("https:");
    }
    let n = url.unicode_len();
    if n < 6 {
        return false;
    }
    let r = url.get_char(0) == 'h' && url.get_char(1) == 't' && url.get_char(2) == 't'
        && url.get_char(3) == 'p' && url.get_char(4) == 's' && url.get_char(5) == ':';
    proof {
        let lit = "https:"@;
        assert(lit.len() == 6 && lit[0] == 'h' && lit[1] == 't' && lit[2] == 't' && lit[3] == 'p'
            && lit[4] == 's' && lit[5] == ':');
        if r {
            assert(url@.subrange(0, 6) =~= lit);
        } else if url@.subrange(0, 6) == lit {
            assert(url@.subrange(0, 6)[0] == url@[0]);
            assert(url@.subrange(0, 6)[1] == url@[1]);
            assert(url@.subrange(0, 6)[2] == url@[2]);
            assert(url@.subrange(0, 6)[3] == url@[3]);
            assert(url@.subrange(0, 6)[4] == url@[4]);
            assert(url@.subrange(0, 6)[5] == url@[5]);
        }
    }
    r
}

} // verus!
