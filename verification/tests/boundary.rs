use adblock_bridge::engine::{EngineHandle, MatchRequest};

fn req(url: &str, host: &str, tab_host: &str, resource_type: &str, third_party: Option<bool>) -> MatchRequest {
    MatchRequest {
        url: url.to_string(),
        host: host.to_string(),
        tab_host: tab_host.to_string(),
        resource_type: resource_type.to_string(),
        third_party,
    }
}

fn ad_probe() -> MatchRequest {
    req(
        "https://ads-example.com/banner.png",
        "ads-example.com",
        "news-example.com",
        "image",
        Some(true),
    )
}

fn clean_probe() -> MatchRequest {
    req(
        "https://cdn-example.com/logo.png",
        "cdn-example.com",
        "news-example.com",
        "image",
        Some(true),
    )
}

#[test]
fn create_and_match_blocking() {
    let h = EngineHandle::create("||ads-example.com^");
    let blocked = h.match_request(&ad_probe());
    assert!(blocked.matched);
    let allowed = h.match_request(&clean_probe());
    assert!(!allowed.matched);
    assert!(allowed.redirect.is_none());
}

#[test]
fn destroy_releases_handle() {
    let mut h = EngineHandle::create("||ads-example.com^");
    h.destroy();
}

#[test]
fn exception_precedence() {
    let h = EngineHandle::create(
        "||ad-example.com/track.js\n@@||ad-example.com/track.js$domain=allowed-example.com",
    );
    let on_allowed = h.match_request(&req(
        "https://ad-example.com/track.js",
        "ad-example.com",
        "allowed-example.com",
        "script",
        Some(true),
    ));
    assert!(!on_allowed.matched);
    assert!(on_allowed.saved_from_exception);
    let elsewhere = h.match_request(&req(
        "https://ad-example.com/track.js",
        "ad-example.com",
        "other-example.com",
        "script",
        Some(true),
    ));
    assert!(elsewhere.matched);
    assert!(!elsewhere.saved_from_exception);
}

#[test]
fn tag_gating() {
    let mut h = EngineHandle::create("||tagged-example.com^$tag=testtag");
    let probe = req(
        "https://tagged-example.com/ad.js",
        "tagged-example.com",
        "news-example.com",
        "script",
        Some(true),
    );
    assert!(!h.tag_exists("testtag"));
    assert!(!h.match_request(&probe).matched);
    h.add_tag("testtag");
    assert!(h.tag_exists("testtag"));
    assert!(h.match_request(&probe).matched);
    h.remove_tag("testtag");
    assert!(!h.tag_exists("testtag"));
    assert!(!h.match_request(&probe).matched);
    h.add_tag("testtag");
    assert!(h.match_request(&probe).matched);
}

#[test]
fn unknown_tags_are_inert() {
    let mut h = EngineHandle::create("||ads-example.com^");
    h.add_tag("no-such-tag");
    assert!(h.tag_exists("no-such-tag"));
    h.remove_tag("never-added");
    assert!(!h.tag_exists("never-added"));
    assert!(h.match_request(&ad_probe()).matched);
}

#[test]
fn snapshot_roundtrip() {
    let h1 = EngineHandle::create("||ads-example.com^");
    let before_blocked = h1.match_request(&ad_probe());
    let before_clean = h1.match_request(&clean_probe());
    let bytes = h1.serialize().expect("snapshot");
    let mut h2 = EngineHandle::create("");
    assert!(!h2.match_request(&ad_probe()).matched);
    assert!(h2.deserialize(&bytes));
    let after_blocked = h2.match_request(&ad_probe());
    let after_clean = h2.match_request(&clean_probe());
    assert_eq!(before_blocked.matched, after_blocked.matched);
    assert_eq!(before_blocked.saved_from_exception, after_blocked.saved_from_exception);
    assert_eq!(before_clean.matched, after_clean.matched);
}

#[test]
fn corrupt_snapshot_is_atomic() {
    let mut h = EngineHandle::create("||ads-example.com^");
    assert!(h.match_request(&ad_probe()).matched);
    assert!(!h.match_request(&clean_probe()).matched);
    let garbage: Vec<u8> = vec![0xde, 0xad, 0xbe, 0xef, 0x00, 0x01, 0x02];
    assert!(!h.deserialize(&garbage));
    let header_only: Vec<u8> = vec![0xd1, 0xd9, 0x3a, 0xaf];
    assert!(!h.deserialize(&header_only));
    assert!(!h.deserialize(&Vec::new()));
    assert!(h.match_request(&ad_probe()).matched);
    assert!(!h.match_request(&clean_probe()).matched);
}

#[test]
fn third_party_unknown_counts_as_first_party() {
    let h = EngineHandle::create("||tp-example.com^$third-party");
    let tp = req(
        "https://tp-example.com/w.js",
        "tp-example.com",
        "news-example.com",
        "script",
        Some(true),
    );
    let fp = req(
        "https://tp-example.com/w.js",
        "tp-example.com",
        "news-example.com",
        "script",
        Some(false),
    );
    let unknown = req(
        "https://tp-example.com/w.js",
        "tp-example.com",
        "news-example.com",
        "script",
        None,
    );
    assert!(h.match_request(&tp).matched);
    assert!(!h.match_request(&fp).matched);
    assert!(!h.match_request(&unknown).matched);
}

#[test]
fn add_filter_takes_effect() {
    let mut h = EngineHandle::create("");
    let probe = req(
        "https://added-example.com/spot.gif",
        "added-example.com",
        "news-example.com",
        "image",
        Some(true),
    );
    assert!(!h.match_request(&probe).matched);
    h.add_filter("||added-example.com^");
    assert!(h.match_request(&probe).matched);
}

#[test]
fn add_filter_keeps_tags_and_resources() {
    let mut h = EngineHandle::create("||tagged-example.com^$tag=testtag");
    h.add_tag("testtag");
    h.add_resource("fake.js", "application/javascript", "alert(1)");
    h.add_filter("||added-example.com^");
    assert!(h.tag_exists("testtag"));
    let probe = req(
        "https://tagged-example.com/ad.js",
        "tagged-example.com",
        "news-example.com",
        "script",
        Some(true),
    );
    assert!(h.match_request(&probe).matched);
    h.add_resource("fake.js", "application/javascript", "alert(2)");
}

#[test]
fn resource_redirect() {
    let mut h = EngineHandle::create("||ad-example.com/script.js$redirect=fake.js");
    h.add_resource("fake.js", "application/javascript", "alert(1)");
    let r = h.match_request(&req(
        "https://ad-example.com/script.js",
        "ad-example.com",
        "news-example.com",
        "script",
        Some(true),
    ));
    assert!(r.matched);
    let redirect = r.redirect.expect("redirect resource");
    assert!(redirect.starts_with("data:application/javascript"));
}

#[test]
fn resource_last_write_wins() {
    let mut h = EngineHandle::create("||ad-example.com/script.js$redirect=fake.js");
    h.add_resource("fake.js", "application/javascript", "alert(1)");
    let probe = req(
        "https://ad-example.com/script.js",
        "ad-example.com",
        "news-example.com",
        "script",
        Some(true),
    );
    let first = h.match_request(&probe).redirect.expect("redirect resource");
    assert!(first.contains("YWxlcnQoMSk="));
    h.add_resource("fake.js", "application/javascript", "alert(2)");
    let second = h.match_request(&probe).redirect.expect("redirect resource");
    assert!(second.contains("YWxlcnQoMik="));
}

#[test]
fn json_loaded_resource_name_is_overwritable() {
    let mut h = EngineHandle::create("||ad-example.com/script.js$redirect=fake.js");
    let json = "[{\"name\":\"fake.js\",\"kind\":{\"mime\":\"application/javascript\"},\"content\":\"YWxlcnQoMSk=\"}]";
    assert!(h.add_resources(json));
    let probe = req(
        "https://ad-example.com/script.js",
        "ad-example.com",
        "news-example.com",
        "script",
        Some(true),
    );
    let loaded = h.match_request(&probe).redirect.expect("redirect resource");
    assert!(loaded.contains("YWxlcnQoMSk="));
    h.add_resource("fake.js", "application/javascript", "alert(2)");
    let overwritten = h.match_request(&probe).redirect.expect("redirect resource");
    assert!(overwritten.contains("YWxlcnQoMik="));
}

#[test]
fn add_resources_from_json() {
    let mut h = EngineHandle::create("||ad-example.com/script.js$redirect=fake.js");
    let json = "[{\"name\":\"fake.js\",\"kind\":{\"mime\":\"application/javascript\"},\"content\":\"YWxlcnQoMSk=\"}]";
    assert!(h.add_resources(json));
    let r = h.match_request(&req(
        "https://ad-example.com/script.js",
        "ad-example.com",
        "news-example.com",
        "script",
        Some(true),
    ));
    assert!(r.matched);
    assert!(r.redirect.is_some());
}

#[test]
fn malformed_resource_json_is_rejected() {
    let mut h = EngineHandle::create("||ads-example.com^");
    assert!(!h.add_resources("this is not json"));
    assert!(h.match_request(&ad_probe()).matched);
}

#[test]
fn selector_filtering() {
    let h = EngineHandle::create("##.adsbox");
    let sheet = h.class_id_stylesheet(&vec!["adsbox".to_string()], &vec![], &vec![]);
    assert_eq!(sheet, ".adsbox { display: none !important; }");
    let excepted = h.class_id_stylesheet(
        &vec!["adsbox".to_string()],
        &vec![],
        &vec![".adsbox".to_string()],
    );
    assert_eq!(excepted, "");
}

#[test]
fn class_and_id_selectors() {
    let h = EngineHandle::create("##.adsbox\n###ad-slot");
    let sheet = h.class_id_stylesheet(
        &vec!["adsbox".to_string()],
        &vec!["ad-slot".to_string()],
        &vec![],
    );
    assert!(sheet.contains(".adsbox"));
    assert!(sheet.contains("#ad-slot"));
    assert!(sheet.ends_with(" { display: none !important; }"));
}

#[test]
fn hostname_cosmetic_resources_for_host() {
    let h = EngineHandle::create("example.com##.banner");
    let r = h.hostname_cosmetic_resources("example.com");
    assert!(r.hide_selectors.iter().any(|s| s == ".banner"));
    assert!(r.stylesheet.contains(".banner"));
    let elsewhere = h.hostname_cosmetic_resources("other-example.com");
    assert!(!elsewhere.hide_selectors.iter().any(|s| s == ".banner"));
}

#[test]
fn url_cosmetic_resources_for_page() {
    let h = EngineHandle::create("example.com##.banner");
    let r = h.url_cosmetic_resources("https://example.com/page.html");
    assert!(r.hide_selectors.iter().any(|s| s == ".banner"));
    assert!(r.stylesheet.contains(".banner"));
    assert!(!r.generichide);
    let elsewhere = h.url_cosmetic_resources("https://other-example.com/");
    assert!(!elsewhere.hide_selectors.iter().any(|s| s == ".banner"));
}
