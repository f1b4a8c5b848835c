//! The static catalog of well-known filter lists, keyed by category and
//! index. Entries are immutable, need no engine instance, and always have
//! the complete record shape: absent fields are empty strings and at most
//! three language codes are carried.

use vstd::prelude::*;

verus! {

/// A catalog record describing one filter list.
pub struct FilterListEntry {
    pub uuid: String,
    pub url: String,
    pub title: String,
    pub langs: Vec<String>,
    pub support_url: String,
    pub component_id: String,
    pub base64_public_key: String,
}

/// The spec-level image of a [`FilterListEntry`].
#[verifier::ext_equal]
pub struct FilterListEntryView {
    pub uuid: Seq<char>,
    pub url: Seq<char>,
    pub title: Seq<char>,
    pub langs: Seq<Seq<char>>,
    pub support_url: Seq<char>,
    pub component_id: Seq<char>,
    pub base64_public_key: Seq<char>,
}

impl DeepView for FilterListEntry {
    type V = FilterListEntryView;

    open spec fn deep_view(&self) -> FilterListEntryView {
        FilterListEntryView {
            uuid: self.uuid@,
            url: self.url@,
            title: self.title@,
            langs: self.langs.deep_view(),
            support_url: self.support_url@,
            component_id: self.component_id@,
            base64_public_key: self.base64_public_key@,
        }
    }
}

/// A complete record: identifying fields present, at most three languages.
pub open spec fn entry_wf(e: FilterListEntryView) -> bool {
    e.uuid.len() > 0 && e.url.len() > 0 && e.langs.len() <= 3
}

/// The default catalog: broadly applicable lists, no language codes.
pub open spec fn spec_default_catalog() -> Seq<FilterListEntryView> {
    seq![
        (FilterListEntryView {
            uuid: "easylist"@,
            url: "https://easylist.to/easylist/easylist.txt"@,
            title: "EasyList"@,
            langs: seq![],
            support_url: "https://easylist.to/"@,
            component_id: ""@,
            base64_public_key: ""@,
        }),
        (FilterListEntryView {
            uuid: "easyprivacy"@,
            url: "https://easylist.to/easylist/easyprivacy.txt"@,
            title: "EasyPrivacy"@,
            langs: seq![],
            support_url: "https://easylist.to/"@,
            component_id: ""@,
            base64_public_key: ""@,
        }),
        (FilterListEntryView {
            uuid: "ublock-unbreak"@,
            url: "https://raw.githubusercontent.com/uBlockOrigin/uAssets/master/filters/unbreak.txt"@,
            title: "uBlock Origin Unbreak"@,
            langs: seq![],
            support_url: "https://github.com/uBlockOrigin/uAssets"@,
            component_id: ""@,
            base64_public_key: ""@,
        }),
    ]
}

/// The regional catalog: language-scoped lists.
pub open spec fn spec_regions_catalog() -> Seq<FilterListEntryView> {
    seq![
        (FilterListEntryView {
            uuid: "easylist-germany"@,
            url: "https://easylist.to/easylistgermany/easylistgermany.txt"@,
            title: "EasyList Germany"@,
            langs: seq!["de"@],
            support_url: "https://easylist.to/"@,
            component_id: ""@,
            base64_public_key: ""@,
        }),
        (FilterListEntryView {
            uuid: "liste-fr"@,
            url: "https://easylist-downloads.adblockplus.org/liste_fr.txt"@,
            title: "Liste FR"@,
            langs: seq!["fr"@],
            support_url: "https://forums.lanik.us/viewforum.php?f=91"@,
            component_id: ""@,
            base64_public_key: ""@,
        }),
        (FilterListEntryView {
            uuid: "easylist-italy"@,
            url: "https://easylist-downloads.adblockplus.org/easylistitaly.txt"@,
            title: "EasyList Italy"@,
            langs: seq!["it"@],
            support_url: "https://easylist.to/"@,
            component_id: ""@,
            base64_public_key: ""@,
        }),
        (FilterListEntryView {
            uuid: "ru-adlist"@,
            url: "https://easylist-downloads.adblockplus.org/advblock.txt"@,
            title: "RU AdList"@,
            langs: seq!["ru"@, "uk"@, "be"@],
            support_url: "https://forums.lanik.us/viewforum.php?f=102"@,
            component_id: ""@,
            base64_public_key: ""@,
        }),
    ]
}

/// The catalog selected by a category: the regional one for `regions`,
/// otherwise the default one. An unrecognized category deliberately falls
/// back to the default catalog instead of failing.
pub open spec fn spec_catalog(regions: bool) -> Seq<FilterListEntryView> {
    if regions {
        spec_regions_catalog()
    } else {
        spec_default_catalog()
    }
}

/// Every catalog entry is a complete record with identifying fields.
pub proof fn lemma_catalog_wf(regions: bool)
    ensures
        forall|i: int|
            0 <= i < spec_catalog(regions).len() ==> entry_wf(#[trigger] spec_catalog(regions)[i]),
{
    reveal_strlit("easylist");
    reveal_strlit("https://easylist.to/easylist/easylist.txt");
    reveal_strlit("easyprivacy");
    reveal_strlit("https://easylist.to/easylist/easyprivacy.txt");
    reveal_strlit("ublock-unbreak");
    reveal_strlit("https://raw.githubusercontent.com/uBlockOrigin/uAssets/master/filters/unbreak.txt");
    reveal_strlit("easylist-germany");
    reveal_strlit("https://easylist.to/easylistgermany/easylistgermany.txt");
    reveal_strlit("liste-fr");
    reveal_strlit("https://easylist-downloads.adblockplus.org/liste_fr.txt");
    reveal_strlit("easylist-italy");
    reveal_strlit("https://easylist-downloads.adblockplus.org/easylistitaly.txt");
    reveal_strlit("ru-adlist");
    reveal_strlit("https://easylist-downloads.adblockplus.org/advblock.txt");
    assert forall|i: int|
        0 <= i < spec_catalog(regions).len() implies entry_wf(
        #[trigger] spec_catalog(regions)[i],
    ) by {
        if regions {
            assert(entry_wf(spec_regions_catalog()[0]));
            assert(entry_wf(spec_regions_catalog()[1]));
            assert(entry_wf(spec_regions_catalog()[2]));
            assert(entry_wf(spec_regions_catalog()[3]));
        } else {
            assert(entry_wf(spec_default_catalog()[0]));
            assert(entry_wf(spec_default_catalog()[1]));
            assert(entry_wf(spec_default_catalog()[2]));
        }
    }
}

/// Every category other than `regions` selects the default catalog, so an
/// unrecognized category behaves exactly like `default`.
pub proof fn lemma_unknown_category_defaults(category: Seq<char>)
    requires
        category != "regions"@,
    ensures
        spec_catalog(category == "regions"@) == spec_catalog("default"@ == "regions"@),
{
    reveal_strlit("default");
    reveal_strlit("regions");
    assert("default"@ != "regions"@) by {
        assert("default"@[0] == 'd');
        assert("regions"@[0] == 'r');
    }
}

/// Whether a category name selects the regional catalog.
fn category_is_regions(category: &str) -> (r: bool)
    ensures
        r == (category@ == "regions"@),
{
    let c = category.to_owned();
    let k: String = String::from_str("regions");
    c == k
}

/// The number of entries in the category's catalog. A category other than
/// `regions` is treated as `default`.
pub fn list_size(category: &str) -> (n: usize)
    ensures
        n == spec_catalog(category@ == "regions"@).len(),
{
    if category_is_regions(category) {
        4
    } else {
        3
    }
}

/// One owned catalog record built from borrowed field data.
fn entry(
    uuid: &str,
    url: &str,
    title: &str,
    langs: Vec<String>,
    support_url: &str,
) -> (r: FilterListEntry)
    ensures
        r.deep_view() == (FilterListEntryView {
            uuid: uuid@,
            url: url@,
            title: title@,
            langs: langs.deep_view(),
            support_url: support_url@,
            component_id: ""@,
            base64_public_key: ""@,
        }),
{
    let r = FilterListEntry {
        uuid: uuid.to_owned(),
        url: url.to_owned(),
        title: title.to_owned(),
        langs,
        support_url: support_url.to_owned(),
        component_id: String::new(),
        base64_public_key: String::new(),
    };
    proof {
        reveal_strlit("");
        assert(r.component_id@ =~= ""@);
        assert(r.base64_public_key@ =~= ""@);
        assert(r.deep_view() =~= (FilterListEntryView {
            uuid: uuid@,
            url: url@,
            title: title@,
            langs: r.langs.deep_view(),
            support_url: support_url@,
            component_id: ""@,
            base64_public_key: ""@,
        }));
    }
    r
}

/// The catalog record at `index` in the category's catalog. The caller must
/// keep `index` under [`list_size`]; the record always has its full shape,
/// with a non-empty identifier and source address and at most three
/// language codes.
pub fn list_get(category: &str, index: usize) -> (r: FilterListEntry)
    requires
        index < spec_catalog(category@ == "regions"@).len(),
    ensures
        r.deep_view() == spec_catalog(category@ == "regions"@)[index as int],
        r.uuid@.len() > 0,
        r.url@.len() > 0,
        r.langs@.len() <= 3,
{
    proof {
        lemma_catalog_wf(category@ == "regions"@);
    }
    if category_is_regions(category) {
        if index == 0 {
            let mut langs: Vec<String> = Vec::new();
            langs.push(String::from_str("de"));
            proof {
                assert(langs.deep_view() =~= seq!["de"@]);
            }
            entry(
                "easylist-germany",
                "https://easylist.to/easylistgermany/easylistgermany.txt",
                "EasyList Germany",
                langs,
                "https://easylist.to/",
            )
        } else if index == 1 {
            let mut langs: Vec<String> = Vec::new();
            langs.push(String::from_str("fr"));
            proof {
                assert(langs.deep_view() =~= seq!["fr"@]);
            }
            entry(
                "liste-fr",
                "https://easylist-downloads.adblockplus.org/liste_fr.txt",
                "Liste FR",
                langs,
                "https://forums.lanik.us/viewforum.php?f=91",
            )
        } else if index == 2 {
            let mut langs: Vec<String> = Vec::new();
            langs.push(String::from_str("it"));
            proof {
                assert(langs.deep_view() =~= seq!["it"@]);
            }
            entry(
                "easylist-italy",
                "https://easylist-downloads.adblockplus.org/easylistitaly.txt",
                "EasyList Italy",
                langs,
                "https://easylist.to/",
            )
        } else {
            let mut langs: Vec<String> = Vec::new();
            langs.push(String::from_str("ru"));
            langs.push(String::from_str("uk"));
            langs.push(String::from_str("be"));
            proof {
                assert(langs.deep_view() =~= seq!["ru"@, "uk"@, "be"@]);
            }
            entry(
                "ru-adlist",
                "https://easylist-downloads.adblockplus.org/advblock.txt",
                "RU AdList",
                langs,
                "https://forums.lanik.us/viewforum.php?f=102",
            )
        }
    } else {
        if index == 0 {
            entry(
                "easylist",
                "https://easylist.to/easylist/easylist.txt",
                "EasyList",
                Vec::new(),
                "https://easylist.to/",
            )
        } else if index == 1 {
            entry(
                "easyprivacy",
                "https://easylist.to/easylist/easyprivacy.txt",
                "EasyPrivacy",
                Vec::new(),
                "https://easylist.to/",
            )
        } else {
            entry(
                "ublock-unbreak",
                "https://raw.githubusercontent.com/uBlockOrigin/uAssets/master/filters/unbreak.txt",
                "uBlock Origin Unbreak",
                Vec::new(),
                "https://github.com/uBlockOrigin/uAssets",
            )
        }
    }
}

} // verus!
