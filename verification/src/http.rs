use vstd::prelude::*;

verus! {

/// A status in the `2xx` range, as `StatusCode::is_success` tells.
pub open spec fn is_success(status: u16) -> bool {
    200 <= status <= 299
}

/// A status in the `3xx` range, as `StatusCode::is_redirection` tells.
pub open spec fn is_redirection(status: u16) -> bool {
    300 <= status <= 399
}

pub fn status_is_success(status: u16) -> (b: bool)
    ensures
        b == is_success(status),
{
    200 <= status && status <= 299
}

pub fn status_is_redirection(status: u16) -> (b: bool)
    ensures
        b == is_redirection(status),
{
    300 <= status && status <= 399
}

/// What the URL `reference` resolves to against the absolute URL `base`, as reqwest's `Url`
/// (the `url` crate) gives it: `Url::parse(base)` and then `Url::join(reference)`,
/// serialized; `None` where either step fails.
pub uninterp spec fn url_join(base: Seq<char>, reference: Seq<char>) -> Option<Seq<char>>;

/// Resolves a `Location` header against the URL that answered, with reqwest's `Url`:
/// `Url::parse` of `base`, then `Url::join` of `location`, serialized with `to_string`.
/// Claimed: an `Ok` is the serialization that `url_join` names, and an `Err` comes exactly
/// where `url_join` is `None`; the error's text (the parse error's `Display`) is left
/// unsaid.
#[verifier::external_body]
pub(crate) fn resolve_redirect_url(base: &str, location: &str) -> (r: Result<String, String>)
    ensures
        match r {
            Ok(u) => url_join(base@, location@) == Some(u@),
            Err(_) => url_join(base@, location@) is None,
        },
{
    match reqwest::Url::parse(base) {
        Ok(b) => match b.join(location) {
            Ok(u) => Ok(u.to_string()),
            Err(e) => Err(e.to_string()),
        },
        Err(e) => Err(e.to_string()),
    }
}

} // verus!
