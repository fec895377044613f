//! Source identity: the default address, the browser identity the site
//! expects, and the choice of the effective base URL.
use vstd::prelude::*;

use crate::text;

verus! {

pub const BASE_URL: &'static str = "https://rouman5.com";

pub const USER_AGENT: &'static str =
    "Mozilla/5.0 (Windows NT 10.0; Win64; x64) AppleWebKit/537.36 (KHTML, like Gecko) Chrome/120.0.0.0 Safari/537.36";

/// The effective base URL: the custom address setting when it is not blank,
/// else the address picker's selection when it is not blank, else
/// `BASE_URL`.
pub open spec fn effective_base_url(custom: Option<String>, picker: Option<String>) -> Seq<char> {
    if custom is Some && text::trim(custom->0@).len() != 0 {
        custom->0@
    } else if picker is Some && text::trim(picker->0@).len() != 0 {
        picker->0@
    } else {
        BASE_URL@
    }
}

/// The effective base URL, from the stored `base_url` (custom address) and
/// `url` (address picker) settings.
pub fn get_base_url(custom: Option<String>, picker: Option<String>) -> (r: String)
    ensures
        r@ == effective_base_url(custom, picker),
        (custom is None || text::trim(custom->0@).len() == 0) && (picker is None || text::trim(
            picker->0@,
        ).len() == 0) ==> r@ == "https://rouman5.com"@,
{
    match custom {
        Some(url) if !text::is_blank(url.as_str()) => url,
        _ => match picker {
            Some(url) if !text::is_blank(url.as_str()) => url,
            _ => String::from_str(BASE_URL),
        },
    }
}

/// A setting offered to the app.
pub enum SettingSpec {
    /// A free-text setting stored under `key`; changing it refreshes the
    /// listed parts of the app.
    Text {
        key: String,
        title: String,
        placeholder: Option<String>,
        autocorrection_disabled: Option<bool>,
        refreshes: Option<Vec<String>>,
    },
    /// A link the app opens.
    Link { key: String, title: String, url: String, external: Option<bool> },
}

pub enum SettingSpecView {
    Text {
        key: Seq<char>,
        title: Seq<char>,
        placeholder: Option<Seq<char>>,
        autocorrection_disabled: Option<bool>,
        refreshes: Option<Seq<Seq<char>>>,
    },
    Link { key: Seq<char>, title: Seq<char>, url: Seq<char>, external: Option<bool> },
}

impl View for SettingSpec {
    type V = SettingSpecView;

    open spec fn view(&self) -> SettingSpecView {
        match self {
            SettingSpec::Text { key, title, placeholder, autocorrection_disabled, refreshes } =>
                SettingSpecView::Text {
                key: key@,
                title: title@,
                placeholder: text::opt_view(*placeholder),
                autocorrection_disabled: *autocorrection_disabled,
                refreshes: match refreshes {
                    Some(v) => Some(text::views(v@)),
                    None => None,
                },
            },
            SettingSpec::Link { key, title, url, external } => SettingSpecView::Link {
                key: key@,
                title: title@,
                url: url@,
                external: *external,
            },
        }
    }
}

pub open spec fn setting_views(v: Seq<SettingSpec>) -> Seq<SettingSpecView> {
    v.map_values(|s: SettingSpec| s@)
}

/// The settings: the custom address (`base_url`, the highest-priority
/// override of the base URL, see [`effective_base_url`]) and a link to the
/// page where the site publishes its addresses.
pub open spec fn spec_settings() -> Seq<SettingSpecView> {
    seq![
        SettingSpecView::Text {
            key: "base_url"@,
            title: "自定义网址"@,
            placeholder: Some(BASE_URL@),
            autocorrection_disabled: Some(true),
            refreshes: Some(seq!["content"@]),
        },
        SettingSpecView::Link {
            key: "address_link"@,
            title: "地址发布：https://rdz3.xyz/dizhi"@,
            url: "https://rdz3.xyz/dizhi"@,
            external: Some(true),
        },
    ]
}

/// The settings the source offers.
pub fn dynamic_settings() -> (r: Vec<SettingSpec>)
    ensures
        setting_views(r@) == spec_settings(),
        r@.len() == 2,
        r@[0]@ == (SettingSpecView::Text {
            key: "base_url"@,
            title: "自定义网址"@,
            placeholder: Some("https://rouman5.com"@),
            autocorrection_disabled: Some(true),
            refreshes: Some(seq!["content"@]),
        }),
        r@[1]@ == (SettingSpecView::Link {
            key: "address_link"@,
            title: "地址发布：https://rdz3.xyz/dizhi"@,
            url: "https://rdz3.xyz/dizhi"@,
            external: Some(true),
        }),
{
    let mut refreshes: Vec<String> = Vec::new();
    refreshes.push(String::from_str("content"));
    assert(text::views(refreshes@) =~= seq!["content"@]);
    let custom = SettingSpec::Text {
        key: String::from_str("base_url"),
        title: String::from_str("自定义网址"),
        placeholder: Some(String::from_str(BASE_URL)),
        autocorrection_disabled: Some(true),
        refreshes: Some(refreshes),
    };
    let link = SettingSpec::Link {
        key: String::from_str("address_link"),
        title: String::from_str("地址发布：https://rdz3.xyz/dizhi"),
        url: String::from_str("https://rdz3.xyz/dizhi"),
        external: Some(true),
    };
    let mut r: Vec<SettingSpec> = Vec::new();
    r.push(custom);
    r.push(link);
    assert(setting_views(r@) =~= spec_settings());
    assert(r@[0]@ == setting_views(r@)[0]);
    assert(r@[1]@ == setting_views(r@)[1]);
    r
}

} // verus!
