//! Source identity: the default address, the browser identity the site
//! expects, and the choice of the effective base URL.
use vstd::prelude::*;

use crate::text;

verus! {

pub const BASE_URL: &'static str = "https://nnhm7.com";

pub const USER_AGENT: &'static str =
    "Mozilla/5.0 (Windows NT 10.0; Win64; x64) AppleWebKit/537.36 (KHTML, like Gecko) Chrome/120.0.0.0 Safari/537.36";

/// The effective base URL: the custom address setting (`base_url`) when it
/// is not blank, else the address picker's selection (`url`) when it is not
/// blank, else `BASE_URL`. The custom address is the user's explicit
/// choice, so it wins over the picker, which always holds a value.
pub open spec fn effective_base_url(custom: Option<String>, picker: Option<String>) -> Seq<char> {
    if custom is Some && text::trim(custom->0@).len() != 0 {
        custom->0@
    } else if picker is Some && text::trim(picker->0@).len() != 0 {
        picker->0@
    } else {
        BASE_URL@
    }
}

/// The effective base URL, from the stored `base_url` and `url` settings.
pub fn get_base_url(custom: Option<String>, picker: Option<String>) -> (r: String)
    ensures
        r@ == effective_base_url(custom, picker),
{
    match custom {
        Some(url) if !text::is_blank(url.as_str()) => url,
        _ => match picker {
            Some(url) if !text::is_blank(url.as_str()) => url,
            _ => String::from_str(BASE_URL),
        },
    }
}

} // verus!
