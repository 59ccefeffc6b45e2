//! Dashboard API: request authentication and the routes' logic.
pub mod routes;

use vstd::prelude::*;

use crate::text::{chars_of, eq_chars, has_prefix, has_prefix_at, string_of_range};

verus! {

broadcast use vstd::string::group_string_axioms;

/// `Bearer ` (with its space).
pub open spec fn bearer_prefix() -> Seq<char> {
    seq!['B', 'e', 'a', 'r', 'e', 'r', ' ']
}

/// Whether a request may pass: when an API key is configured and non-empty,
/// its `Authorization` header must be `Bearer ` followed by exactly that key;
/// otherwise every request passes.
pub open spec fn authorized_spec(api_key: Option<Seq<char>>, header: Option<Seq<char>>) -> bool {
    match api_key {
        Some(k) if k.len() > 0 => match header {
            Some(h) => has_prefix(h, bearer_prefix()) && h.skip(7) == k,
            None => false,
        },
        _ => true,
    }
}

/// Decides whether a request with the given `Authorization` header value
/// passes authentication (see `authorized_spec`).
pub fn is_authorized(api_key: &Option<String>, header: Option<&str>) -> (ok: bool)
    ensures
        ok == authorized_spec(
            match api_key {
                Some(k) => Some(k@),
                None => None,
            },
            match header {
                Some(h) => Some(h@),
                None => None,
            },
        ),
{
    match api_key {
        Some(key) => {
            let k = chars_of(key.as_str());
            if k.len() == 0 {
                return true;
            }
            match header {
                Some(h) => {
                    let hv = chars_of(h);
                    if !has_prefix_at(&hv, 0, &['B', 'e', 'a', 'r', 'e', 'r', ' ']) {
                        assert(hv@.skip(0) == hv@);
                        return false;
                    }
                    assert(hv@.skip(0) == hv@);
                    let token = string_of_range(&hv, 7, hv.len());
                    let t = chars_of(token.as_str());
                    assert(hv@.subrange(7, hv@.len() as int) == hv@.skip(7));
                    eq_chars(&t, &k)
                },
                None => false,
            }
        },
        None => true,
    }
}

/// With a key configured, exactly the header `Bearer <key>` passes; with
/// none (or an empty one), everything passes.
pub proof fn law_authorization(key: Seq<char>, header: Seq<char>)
    ensures
        key.len() > 0 ==> (authorized_spec(Some(key), Some(header)) <==> header == bearer_prefix() + key),
        key.len() > 0 ==> !authorized_spec(Some(key), None),
        authorized_spec(Some(Seq::<char>::empty()), Some(header)),
        authorized_spec(None, Some(header)),
{
    if key.len() > 0 {
        if header == bearer_prefix() + key {
            assert(header.take(7) == bearer_prefix());
            assert(header.skip(7) == key);
        }
        if has_prefix(header, bearer_prefix()) && header.skip(7) == key {
            assert(header == header.take(7) + header.skip(7));
        }
    }
}

} // verus!
