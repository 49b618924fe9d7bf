//! The shareable URL of an entity, as encoded into its QR code.
//!
//! The QR symbol itself is drawn by the console utility around this crate;
//! here only the URL formatting is defined.

use vstd::prelude::*;

verus! {

/// The base of every shareable URL.
pub const BASE_URL: &'static str = "https://qrbible.app/";

/// The shareable URL of the object with the given index (its type name in
/// the site's routing) and primary key.
pub fn qr_url(index: &str, pk: &str) -> (r: String)
    ensures
        r@ == BASE_URL@ + "/"@ + index@ + "/"@ + pk@,
{
    let mut r = String::new();
    r.append(BASE_URL);
    r.push('/');
    r.append(index);
    r.push('/');
    r.append(pk);
    proof {
        reveal_strlit("/");
        assert(r@ =~= BASE_URL@ + "/"@ + index@ + "/"@ + pk@);
    }
    r
}

} // verus!
