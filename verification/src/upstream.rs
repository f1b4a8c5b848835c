//! Trusted declarations for the `adblock` crate.
//!
//! The engine is opaque: its compiled state is modelled by four abstract
//! views — the network-filter state, the set of enabled tags, the
//! cosmetic-filter state, and the map of registered resources. Every
//! wrapper below states how the upstream call it makes reads or rewrites
//! those views; nothing else in the crate is taken on trust.

use vstd::prelude::*;

verus! {

#[verifier::external_type_specification]
#[verifier::external_body]
pub struct ExEngine(adblock::Engine);

/// Abstract content of an engine's compiled network filters (tag-gated
/// filters included, whether or not their tag is enabled): the state that
/// the outputs bound by [`engine_check`] and the snapshot format cover. The
/// engine's `removeparam` list stands outside this view: it feeds only the
/// rewritten-URL output, which this library does not expose or bind, and
/// the snapshot format does not carry it.
pub uninterp spec fn net_view(e: adblock::Engine) -> Seq<u8>;

/// The set of tags currently enabled on an engine.
pub uninterp spec fn tags_view(e: adblock::Engine) -> Set<Seq<char>>;

/// Abstract content of an engine's compiled cosmetic filters.
pub uninterp spec fn cosm_view(e: adblock::Engine) -> Seq<u8>;

/// The resources registered on an engine: each registered name or alias,
/// mapped to an abstract record of what it resolves to.
pub uninterp spec fn res_view(e: adblock::Engine) -> Map<Seq<char>, Seq<char>>;

/// Network-filter state compiled from the given filter lines.
pub uninterp spec fn net_of_rules(lines: Seq<Seq<char>>) -> Seq<u8>;

/// Cosmetic-filter state compiled from the given filter lines.
pub uninterp spec fn cosm_of_rules(lines: Seq<Seq<char>>) -> Seq<u8>;

/// The outcome of checking one request against an engine state:
/// `(matched, important, redirect, exception, filter)`.
pub uninterp spec fn match_of(
    net: Seq<u8>,
    tags: Set<Seq<char>>,
    res: Map<Seq<char>, Seq<char>>,
    url: Seq<char>,
    host: Seq<char>,
    tab_host: Seq<char>,
    resource_type: Seq<char>,
    third_party: bool,
) -> (bool, bool, Option<Seq<char>>, Option<Seq<char>>, Option<Seq<char>>);

/// Whether a byte string is a well-formed serialized snapshot (the header
/// and payload the deserializer accepts).
pub uninterp spec fn snapshot_wf(data: Seq<u8>) -> bool;

/// Network-filter state encoded in a serialized snapshot.
pub uninterp spec fn deser_net(data: Seq<u8>) -> Seq<u8>;

/// Cosmetic-filter state encoded in a serialized snapshot.
pub uninterp spec fn deser_cosm(data: Seq<u8>) -> Seq<u8>;

/// The abstract resource record built from a content type and raw data.
pub uninterp spec fn res_entry(content_type: Seq<char>, data: Seq<char>) -> Seq<char>;

/// Whether the given text is a well-formed JSON array of resources, each
/// with standard-base64, UTF-8 content.
pub uninterp spec fn json_parses_resources(json: Seq<char>) -> bool;

/// The resources described by a well-formed JSON array, in order: for each,
/// its name, its kind rendered as a content-type string, and its decoded
/// content.
pub uninterp spec fn res_list_of_json(json: Seq<char>) -> Seq<crate::engine::NamedResourceView>;

/// The generic hiding selectors matching the given classes and ids, in
/// order, minus the excepted ones.
pub uninterp spec fn selectors_of(
    cosm: Seq<u8>,
    classes: Seq<Seq<char>>,
    ids: Seq<Seq<char>>,
    exceptions: Set<Seq<char>>,
) -> Seq<Seq<char>>;

/// The cosmetic payload for a page URL: `(hide selectors, excepted
/// selectors, generichide)`.
pub uninterp spec fn cosmetic_of(
    net: Seq<u8>,
    tags: Set<Seq<char>>,
    cosm: Seq<u8>,
    res: Map<Seq<char>, Seq<char>>,
    url: Seq<char>,
) -> (Set<Seq<char>>, Set<Seq<char>>, bool);

/// The tag set of a freshly compiled engine: no tags enabled.
pub open spec fn no_tags() -> Set<Seq<char>> {
    Set::empty()
}

/// The resource map of a freshly compiled engine: nothing registered.
pub open spec fn no_resources() -> Map<Seq<char>, Seq<char>> {
    Map::empty()
}

/// Relies on `adblock::Engine::from_rules`: compiles the given filter lines
/// with the default parse options; a fresh engine has no enabled tags and no
/// registered resources.
#[verifier::external_body]
pub(crate) fn engine_from_rules(rules: &Vec<String>) -> (e: adblock::Engine)
    ensures
        net_view(e) == net_of_rules(rules.deep_view()),
        cosm_view(e) == cosm_of_rules(rules.deep_view()),
        tags_view(e) == no_tags(),
        res_view(e) == no_resources(),
{
    adblock::Engine::from_rules(rules, adblock::lists::ParseOptions::default())
}

/// Plain copy of the fields of `adblock::blocker::BlockerResult` that this
/// library exposes. The rewritten-URL field is dropped: it is the one
/// output that depends on the `removeparam` list, which the state model
/// does not cover.
pub(crate) struct RawBlockerResult {
    pub matched: bool,
    pub important: bool,
    pub redirect: Option<String>,
    pub exception: Option<String>,
    pub filter: Option<String>,
}

/// Relies on `adblock::Engine::check_network_request` and
/// `adblock::request::Request::preparsed`: the bound outputs are a function
/// of the engine's network-filter state, enabled tags and resources, and of
/// the request fields alone; checking mutates no engine state (`&self`).
#[verifier::external_body]
pub(crate) fn engine_check(
    e: &adblock::Engine,
    url: &str,
    host: &str,
    tab_host: &str,
    resource_type: &str,
    third_party: bool,
) -> (r: RawBlockerResult)
    ensures
        ({
            let m = match_of(
                net_view(*e),
                tags_view(*e),
                res_view(*e),
                url@,
                host@,
                tab_host@,
                resource_type@,
                third_party,
            );
            r.matched == m.0 && r.important == m.1 && r.redirect.deep_view() == m.2
                && r.exception.deep_view() == m.3 && r.filter.deep_view() == m.4
        }),
{
    let request = adblock::request::Request::preparsed(url, host, tab_host, resource_type, third_party);
    let b = e.check_network_request(&request);
    RawBlockerResult {
        matched: b.matched,
        important: b.important,
        redirect: b.redirect,
        exception: b.exception,
        filter: b.filter,
    }
}

/// Relies on `adblock::Engine::enable_tags`: unions the tag into the set of
/// enabled tags; filters, cosmetics and resources are untouched.
#[verifier::external_body]
pub(crate) fn engine_enable_tag(e: &mut adblock::Engine, tag: &str)
    ensures
        tags_view(*final(e)) == tags_view(*old(e)).insert(tag@),
        net_view(*final(e)) == net_view(*old(e)),
        cosm_view(*final(e)) == cosm_view(*old(e)),
        res_view(*final(e)) == res_view(*old(e)),
{
    e.enable_tags(&[tag]);
}

/// Relies on `adblock::Engine::disable_tags`: subtracts the tag from the set
/// of enabled tags; filters, cosmetics and resources are untouched.
#[verifier::external_body]
pub(crate) fn engine_disable_tag(e: &mut adblock::Engine, tag: &str)
    ensures
        tags_view(*final(e)) == tags_view(*old(e)).remove(tag@),
        net_view(*final(e)) == net_view(*old(e)),
        cosm_view(*final(e)) == cosm_view(*old(e)),
        res_view(*final(e)) == res_view(*old(e)),
{
    e.disable_tags(&[tag]);
}

/// Relies on `adblock::Engine::tag_exists`: reports whether the tag is in
/// the set of enabled tags.
#[verifier::external_body]
pub(crate) fn engine_tag_exists(e: &adblock::Engine, tag: &str) -> (r: bool)
    ensures
        r == tags_view(*e).contains(tag@),
{
    e.tag_exists(tag)
}

/// Relies on `adblock::Engine::add_resource`: registers a resource under a
/// fresh name and fails exactly when the name is already registered; other
/// engine state is untouched. No other failure of `add_resource` can arise
/// here: the resource carries no aliases and no dependencies, its content is
/// standard base64, and the data is valid UTF-8.
#[verifier::external_body]
pub(crate) fn engine_add_resource(
    e: &mut adblock::Engine,
    name: &str,
    content_type: &str,
    data: &str,
) -> (ok: bool)
    ensures
        ok == !res_view(*old(e)).contains_key(name@),
        ok ==> res_view(*final(e)) == res_view(*old(e)).insert(
            name@,
            res_entry(content_type@, data@),
        ),
        !ok ==> res_view(*final(e)) == res_view(*old(e)),
        net_view(*final(e)) == net_view(*old(e)),
        tags_view(*final(e)) == tags_view(*old(e)),
        cosm_view(*final(e)) == cosm_view(*old(e)),
{
    let resource = adblock::resources::Resource {
        name: name.to_string(),
        aliases: vec![],
        kind: adblock::resources::ResourceType::Mime(adblock::resources::MimeType::from(content_type)),
        content: base64::engine::Engine::encode(&base64::prelude::BASE64_STANDARD, data),
        dependencies: vec![],
        permission: Default::default(),
    };
    e.add_resource(resource).is_ok()
}

/// Relies on `serde_json::from_str` for `adblock::resources::Resource`,
/// with each entry's base64 content decoded (`base64`, standard alphabet)
/// to UTF-8 text: acceptance and result are functions of the text alone.
/// The parsed values cannot cross a verified signature, so the conversions
/// share this body. Aliases, dependencies and permission levels are
/// dropped: this boundary registers resources by name alone.
#[verifier::external_body]
pub(crate) fn parse_resources_json(json: &str) -> (r: Option<Vec<crate::engine::NamedResource>>)
    ensures
        r is Some == json_parses_resources(json@),
        r matches Some(v) ==> v.deep_view() == res_list_of_json(json@),
{
    let parsed: Vec<adblock::resources::Resource> = serde_json::from_str(json).ok()?;
    let mut out: Vec<crate::engine::NamedResource> = Vec::new();
    for r in parsed {
        let content_type = match &r.kind {
            adblock::resources::ResourceType::Mime(m) => <&str>::from(m).to_string(),
            adblock::resources::ResourceType::Template => String::from("template"),
        };
        let bytes = base64::engine::Engine::decode(&base64::prelude::BASE64_STANDARD, &r.content).ok()?;
        let data = String::from_utf8(bytes).ok()?;
        out.push(crate::engine::NamedResource { name: r.name, content_type, data });
    }
    Some(out)
}

/// Relies on `adblock::Engine::serialize_raw`: serialization encodes into
/// an in-memory buffer and cannot fail (its only error wraps an encoding
/// error of the infallible buffer writer), and the produced snapshot is
/// well-formed and encodes the engine's current network-filter and
/// cosmetic-filter state, so deserializing it restores both (the upstream
/// serialization round-trip guarantee); serializing mutates nothing
/// (`&self`).
#[verifier::external_body]
pub(crate) fn engine_serialize(e: &adblock::Engine) -> (r: Option<Vec<u8>>)
    ensures
        r is Some,
        r matches Some(b) ==> snapshot_wf(b@) && deser_net(b@) == net_view(*e) && deser_cosm(b@)
            == cosm_view(*e),
{
    e.serialize_raw().ok()
}

/// Relies on `adblock::Engine::deserialize`: acceptance is a function of
/// the bytes alone (a header check followed by decoding); a well-formed
/// snapshot replaces the network-filter and cosmetic-filter state with a
/// function of the snapshot bytes, re-applying the enabled tags; anything
/// else is rejected before any state is touched; resources are never
/// affected. A payload shorter than the four magic bytes plus the version
/// byte is rejected before the call: the upstream header check indexes the
/// version byte unconditionally, and no snapshot is that short.
#[verifier::external_body]
pub(crate) fn engine_deserialize(e: &mut adblock::Engine, data: &[u8]) -> (ok: bool)
    ensures
        ok == snapshot_wf(data@),
        ok ==> net_view(*final(e)) == deser_net(data@) && cosm_view(*final(e)) == deser_cosm(
            data@,
        ),
        !ok ==> net_view(*final(e)) == net_view(*old(e)) && cosm_view(*final(e)) == cosm_view(
            *old(e),
        ),
        tags_view(*final(e)) == tags_view(*old(e)),
        res_view(*final(e)) == res_view(*old(e)),
{
    if data.len() < 5 {
        return false;
    }
    e.deserialize(data).is_ok()
}

/// Relies on `adblock::Engine::use_resources`: installing an empty resource
/// set leaves the engine with no registered resources; other engine state
/// is untouched.
#[verifier::external_body]
pub(crate) fn engine_clear_resources(e: &mut adblock::Engine)
    ensures
        res_view(*final(e)) == no_resources(),
        net_view(*final(e)) == net_view(*old(e)),
        tags_view(*final(e)) == tags_view(*old(e)),
        cosm_view(*final(e)) == cosm_view(*old(e)),
{
    let none: Vec<adblock::resources::Resource> = Vec::new();
    e.use_resources(none);
}

/// Relies on `adblock::Engine::hidden_class_id_selectors`: the returned
/// selectors are a function of the engine's cosmetic-filter state, of the
/// class and id names in their given order, and of the set of excepted
/// selectors; checking mutates nothing (`&self`).
#[verifier::external_body]
pub(crate) fn engine_class_id_selectors(
    e: &adblock::Engine,
    classes: &Vec<String>,
    ids: &Vec<String>,
    exceptions: &Vec<String>,
) -> (r: Vec<String>)
    ensures
        r.deep_view() == selectors_of(
            cosm_view(*e),
            classes.deep_view(),
            ids.deep_view(),
            exceptions.deep_view().to_set(),
        ),
{
    let exc: std::collections::HashSet<String> = exceptions.iter().cloned().collect();
    e.hidden_class_id_selectors(classes, ids, &exc)
}

/// Relies on `adblock::Engine::url_cosmetic_resources`: the hide-selector
/// and exception sets and the generichide flag are functions of the engine
/// state and the page URL; both sets are handed out without duplicates, in
/// an arbitrary order. The combined scriptlet text (third component) is
/// assembled in a hash-map order and is therefore left unspecified.
#[verifier::external_body]
pub(crate) fn engine_url_cosmetics(e: &adblock::Engine, url: &str) -> (r: (
    Vec<String>,
    Vec<String>,
    String,
    bool,
))
    ensures
        ({
            let m = cosmetic_of(net_view(*e), tags_view(*e), cosm_view(*e), res_view(*e), url@);
            r.0.deep_view().to_set() == m.0 && r.0.deep_view().no_duplicates()
                && r.1.deep_view().to_set() == m.1 && r.1.deep_view().no_duplicates() && r.3
                == m.2
        }),
{
    let u = e.url_cosmetic_resources(url);
    (
        u.hide_selectors.into_iter().collect(),
        u.exceptions.into_iter().collect(),
        u.injected_script,
        u.generichide,
    )
}

} // verus!
