//! Bearer-token authentication of API requests.

use vstd::prelude::*;
use crate::text::chars::{chars_of, trim_chars, trim_seq, same_chars};
use crate::server::error::AppError;

verus! {

/// Whether `header` is `Bearer ` followed by a token that, trimmed, is the
/// trimmed configured key.
pub open spec fn bearer_matches(key: Seq<char>, header: Seq<char>) -> bool {
    let prefix = "Bearer "@;
    &&& header.len() >= prefix.len()
    &&& header.take(prefix.len() as int) == prefix
    &&& trim_seq(header.skip(prefix.len() as int)) == trim_seq(key)
}

/// Whether a request is let through: always when the configured key is
/// blank, and otherwise when its `Authorization` header carries the key as a
/// bearer token.
pub open spec fn spec_is_authorized(key: Seq<char>, header: Option<Seq<char>>) -> bool {
    ||| trim_seq(key).len() == 0
    ||| (header matches Some(h) && bearer_matches(key, h))
}

/// Decides whether a request may reach the API.  `header` is the value of
/// the `Authorization` header, or `None` where the request has none or it
/// is not visible ASCII.
pub fn is_authorized(configured_api_key: &str, header: Option<&str>) -> (r: bool)
    ensures
        r == spec_is_authorized(configured_api_key@, match header {
            Some(h) => Some(h@),
            None => None,
        }),
{
    let key = trim_chars(&chars_of(configured_api_key));
    if key.len() == 0 {
        return true;
    }
    match header {
        None => false,
        Some(h) => {
            proof {
                reveal_strlit("Bearer ");
            }
            let hc = chars_of(h);
            let prefix = chars_of("Bearer ");
            assert(prefix@.len() == 7);
            if hc.len() < prefix.len() {
                assert(!bearer_matches(configured_api_key@, h@));
                return false;
            }
            let mut i: usize = 0;
            while i < prefix.len()
                invariant
                    i <= prefix.len() <= hc.len(),
                    prefix@ == "Bearer "@,
                    hc@ == h@,
                    header == Some(h),
                    key@ == trim_seq(configured_api_key@),
                    key@.len() > 0,
                    forall|k: int| 0 <= k < i ==> hc@[k] == prefix@[k],
                decreases prefix.len() - i,
            {
                if hc[i] != prefix[i] {
                    assert(hc@.take(prefix.len() as int)[i as int] != prefix@[i as int]);
                    return false;
                }
                i = i + 1;
            }
            assert(hc@.take(prefix.len() as int) =~= prefix@);
            let rest = hc.as_slice().split_at(prefix.len()).1;
            assert(rest@ =~= hc@.skip(prefix.len() as int));
            let token = trim_chars(rest);
            same_chars(&token, &key)
        }
    }
}

/// The error a request without a valid key is answered with.
pub fn unauthorized_error() -> (e: AppError)
    ensures
        e matches AppError::Unauthorized(m) && m@ ==
            "Incorrect API key provided. You can find your API key at https://platform.openai.com/account/api-keys."@,
{
    AppError::Unauthorized(
        "Incorrect API key provided. You can find your API key at https://platform.openai.com/account/api-keys.".to_owned(),
    )
}

/// With a blank configured key every request is let through; with a
/// configured key, a request whose `Authorization` header is `Bearer `
/// followed by that key is let through, and one without the header is not.
pub proof fn lemma_bearer_key_authorizes(key: Seq<char>, header: Option<Seq<char>>)
    ensures
        trim_seq(key).len() == 0 ==> spec_is_authorized(key, header),
        trim_seq(key).len() > 0 ==> spec_is_authorized(key, Some("Bearer "@ + key)),
        trim_seq(key).len() > 0 ==> !spec_is_authorized(key, None),
{
    reveal_strlit("Bearer ");
    let h = "Bearer "@ + key;
    assert(h.take(7) =~= "Bearer "@);
    assert(h.skip(7) =~= key);
}

} // verus!
