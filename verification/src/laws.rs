//! Laws relating the engine operations to one another, stated over the
//! abstract engine state that the operations' contracts use.

use vstd::prelude::*;

use crate::upstream::{cosmetic_of, deser_cosm, deser_net, match_of, selectors_of};

verus! {

/// Loading a snapshot of an engine reproduces that engine's behavior: for
/// bytes that decode to the source engine's network and cosmetic state — as
/// `serialize` guarantees of its output, which it always produces and which
/// `deserialize` always accepts — an engine that deserialized them gives
/// the same answer as the source for every request and for every
/// class/id-selector query, whatever its tags and resources were at the
/// time of the snapshot.
pub proof fn lemma_snapshot_roundtrip(
    net: Seq<u8>,
    cosm: Seq<u8>,
    bytes: Seq<u8>,
    tags: Set<Seq<char>>,
    res: Map<Seq<char>, Seq<char>>,
    url: Seq<char>,
    host: Seq<char>,
    tab_host: Seq<char>,
    resource_type: Seq<char>,
    third_party: bool,
    classes: Seq<Seq<char>>,
    ids: Seq<Seq<char>>,
    exceptions: Set<Seq<char>>,
)
    requires
        deser_net(bytes) == net,
        deser_cosm(bytes) == cosm,
    ensures
        match_of(deser_net(bytes), tags, res, url, host, tab_host, resource_type, third_party)
            == match_of(net, tags, res, url, host, tab_host, resource_type, third_party),
        selectors_of(deser_cosm(bytes), classes, ids, exceptions) == selectors_of(
            cosm,
            classes,
            ids,
            exceptions,
        ),
{
}

/// A failed `deserialize` is atomic: it leaves the network-filter state,
/// tags and resources as they were, and with them every matching decision
/// and every cosmetic payload.
pub proof fn lemma_atomic_deserialize(
    net1: Seq<u8>,
    net2: Seq<u8>,
    cosm1: Seq<u8>,
    cosm2: Seq<u8>,
    tags1: Set<Seq<char>>,
    tags2: Set<Seq<char>>,
    res1: Map<Seq<char>, Seq<char>>,
    res2: Map<Seq<char>, Seq<char>>,
    url: Seq<char>,
    host: Seq<char>,
    tab_host: Seq<char>,
    resource_type: Seq<char>,
    third_party: bool,
)
    requires
        net1 == net2,
        cosm1 == cosm2,
        tags1 == tags2,
        res1 == res2,
    ensures
        match_of(net1, tags1, res1, url, host, tab_host, resource_type, third_party) == match_of(
            net2,
            tags2,
            res2,
            url,
            host,
            tab_host,
            resource_type,
            third_party,
        ),
        cosmetic_of(net1, tags1, cosm1, res1, url) == cosmetic_of(net2, tags2, cosm2, res2, url),
{
}

/// Re-enabling a tag that was enabled before it was disabled restores every
/// matching decision: disabling removes the tag from the enabled set and
/// enabling puts it back, and matching is a function of that set.
pub proof fn lemma_tag_toggle_restores(
    net: Seq<u8>,
    tags: Set<Seq<char>>,
    res: Map<Seq<char>, Seq<char>>,
    tag: Seq<char>,
    url: Seq<char>,
    host: Seq<char>,
    tab_host: Seq<char>,
    resource_type: Seq<char>,
    third_party: bool,
)
    requires
        tags.contains(tag),
    ensures
        match_of(
            net,
            tags.remove(tag).insert(tag),
            res,
            url,
            host,
            tab_host,
            resource_type,
            third_party,
        ) == match_of(net, tags, res, url, host, tab_host, resource_type, third_party),
{
    assert(tags.remove(tag).insert(tag) =~= tags);
}

} // verus!
