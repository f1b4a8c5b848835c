//! The engine handle: an exclusively owned, explicitly destroyable wrapper
//! around one matching-engine instance.
//!
//! A handle is live from `create` until `destroy`; every other operation
//! demands a live handle and borrows it for the duration of the call. The
//! handle also keeps the plain data the boundary layer itself is
//! responsible for: the filter lines the engine was compiled from, the tags
//! enabled so far, and every registered resource as a plain
//! name/content-type/data record. Keeping the resources as data is what
//! lets a later write under a name replace an earlier one (last write for a
//! key wins) and lets `add_filter` recompile the engine and re-apply both
//! tags and resources.

use vstd::prelude::*;

use crate::text::{lines_of, split_lines};
use crate::upstream::{
    cosm_of_rules, cosm_view, deser_cosm, deser_net, engine_add_resource, engine_check,
    engine_clear_resources, engine_deserialize, engine_disable_tag, engine_enable_tag,
    engine_from_rules, engine_serialize, engine_tag_exists, json_parses_resources, match_of,
    net_of_rules, net_view, no_resources, no_tags, parse_resources_json, res_entry,
    res_list_of_json, res_view, snapshot_wf, tags_view,
};

verus! {

/// One resource, registered by name.
pub struct NamedResource {
    pub name: String,
    pub content_type: String,
    pub data: String,
}

/// The spec-level image of a [`NamedResource`].
pub struct NamedResourceView {
    pub name: Seq<char>,
    pub content_type: Seq<char>,
    pub data: Seq<char>,
}

impl View for NamedResource {
    type V = NamedResourceView;

    open spec fn view(&self) -> NamedResourceView {
        NamedResourceView { name: self.name@, content_type: self.content_type@, data: self.data@ }
    }
}

impl DeepView for NamedResource {
    type V = NamedResourceView;

    open spec fn deep_view(&self) -> NamedResourceView {
        self.view()
    }
}

/// The abstract record one named registration installs.
pub open spec fn entry_of(r: NamedResourceView) -> Seq<char> {
    res_entry(r.content_type, r.data)
}

/// A base resource map overridden by named registrations, in order; a later
/// write under a key replaces an earlier one.
pub open spec fn added_map(
    base: Map<Seq<char>, Seq<char>>,
    adds: Seq<NamedResourceView>,
) -> Map<Seq<char>, Seq<char>>
    decreases adds.len(),
{
    if adds.len() == 0 {
        base
    } else {
        added_map(base, adds.drop_last()).insert(adds.last().name, entry_of(adds.last()))
    }
}

/// Whether some registration in `adds` carries the name `x`.
pub open spec fn has_name(adds: Seq<NamedResourceView>, x: Seq<char>) -> bool {
    exists|j: int| 0 <= j < adds.len() && (#[trigger] adds[j]).name == x
}

/// The set of names the registrations in `adds` carry.
pub open spec fn names_in(adds: Seq<NamedResourceView>) -> Set<Seq<char>> {
    Set::new(|x: Seq<char>| has_name(adds, x))
}

/// No two registrations in `adds` share a name.
pub open spec fn distinct_names(adds: Seq<NamedResourceView>) -> bool {
    forall|k: int, l: int|
        0 <= k < l < adds.len() ==> (#[trigger] adds[k]).name != (#[trigger] adds[l]).name
}

/// `adds` with every registration named `x` removed, order kept.
pub open spec fn drop_name(adds: Seq<NamedResourceView>, x: Seq<char>) -> Seq<NamedResourceView>
    decreases adds.len(),
{
    if adds.len() == 0 {
        adds
    } else if adds.last().name == x {
        drop_name(adds.drop_last(), x)
    } else {
        drop_name(adds.drop_last(), x).push(adds.last())
    }
}

/// `adds` collapsed so that only the last registration of each name
/// remains, in the order of those last registrations.
pub open spec fn dedup_adds(adds: Seq<NamedResourceView>) -> Seq<NamedResourceView>
    decreases adds.len(),
{
    if adds.len() == 0 {
        adds
    } else {
        drop_name(dedup_adds(adds.drop_last()), adds.last().name).push(adds.last())
    }
}

/// Appending one registration extends the carried names by its name.
pub proof fn lemma_has_name_push(adds: Seq<NamedResourceView>, item: NamedResourceView, y: Seq<char>)
    ensures
        has_name(adds.push(item), y) == (has_name(adds, y) || item.name == y),
{
    if has_name(adds, y) {
        let j = choose|j: int| 0 <= j < adds.len() && (#[trigger] adds[j]).name == y;
        assert(adds.push(item)[j].name == y);
    }
    if item.name == y {
        assert(adds.push(item)[adds.len() as int].name == y);
    }
    if has_name(adds.push(item), y) {
        let j = choose|j: int|
            0 <= j < adds.push(item).len() && (#[trigger] adds.push(item)[j]).name == y;
        if j < adds.len() {
            assert(adds[j].name == y);
        }
    }
}

/// A key is in the overridden map exactly when it is in the base or carried
/// by some registration.
pub proof fn lemma_added_map_keys(
    base: Map<Seq<char>, Seq<char>>,
    adds: Seq<NamedResourceView>,
    x: Seq<char>,
)
    ensures
        added_map(base, adds).contains_key(x) <==> (base.contains_key(x) || has_name(adds, x)),
    decreases adds.len(),
{
    if adds.len() == 0 {
        assert(!has_name(adds, x));
    } else {
        let front = adds.drop_last();
        lemma_added_map_keys(base, front, x);
        assert(adds =~= front.push(adds.last()));
        lemma_has_name_push(front, adds.last(), x);
    }
}

/// Dropping the registrations named `x` does not change what other names
/// carry, nor whether they are carried.
pub proof fn lemma_drop_name_others(
    base: Map<Seq<char>, Seq<char>>,
    adds: Seq<NamedResourceView>,
    x: Seq<char>,
    y: Seq<char>,
)
    requires
        y != x,
    ensures
        added_map(base, drop_name(adds, x)).contains_key(y) == added_map(base, adds).contains_key(
            y,
        ),
        added_map(base, adds).contains_key(y) ==> added_map(base, drop_name(adds, x))[y]
            == added_map(base, adds)[y],
        has_name(drop_name(adds, x), y) == has_name(adds, y),
    decreases adds.len(),
{
    if adds.len() > 0 {
        let front = adds.drop_last();
        lemma_drop_name_others(base, front, x, y);
        assert(adds =~= front.push(adds.last()));
        lemma_has_name_push(front, adds.last(), y);
        if adds.last().name != x {
            let kept = drop_name(front, x).push(adds.last());
            assert(kept.drop_last() =~= drop_name(front, x));
            assert(added_map(base, kept) == added_map(base, drop_name(front, x)).insert(
                adds.last().name,
                entry_of(adds.last()),
            ));
            lemma_has_name_push(drop_name(front, x), adds.last(), y);
        }
    }
}

/// Replacing every registration of a name with one new registration is an
/// overwrite: the resulting map is the old one with that key remapped.
pub proof fn lemma_overwrite(
    base: Map<Seq<char>, Seq<char>>,
    adds: Seq<NamedResourceView>,
    new: NamedResourceView,
)
    ensures
        added_map(base, drop_name(adds, new.name).push(new)) == added_map(base, adds).insert(
            new.name,
            entry_of(new),
        ),
{
    let kept = drop_name(adds, new.name);
    let lhs = added_map(base, kept.push(new));
    let rhs = added_map(base, adds).insert(new.name, entry_of(new));
    assert(kept.push(new).drop_last() =~= kept);
    assert(lhs == added_map(base, kept).insert(new.name, entry_of(new)));
    assert forall|y: Seq<char>| #[trigger] lhs.contains_key(y) == rhs.contains_key(y) by {
        if y != new.name {
            lemma_drop_name_others(base, adds, new.name, y);
        }
    }
    assert forall|y: Seq<char>| lhs.contains_key(y) implies #[trigger] lhs[y] == rhs[y] by {
        if y != new.name {
            lemma_drop_name_others(base, adds, new.name, y);
        }
    }
    assert(lhs =~= rhs);
}

/// Dropped sequences keep no registration of the dropped name.
proof fn lemma_drop_name_no_x(adds: Seq<NamedResourceView>, x: Seq<char>)
    ensures
        forall|k: int|
            0 <= k < drop_name(adds, x).len() ==> (#[trigger] drop_name(adds, x)[k]).name != x,
    decreases adds.len(),
{
    if adds.len() > 0 {
        lemma_drop_name_no_x(adds.drop_last(), x);
        if adds.last().name != x {
            let kept = drop_name(adds.drop_last(), x).push(adds.last());
            assert forall|k: int| 0 <= k < kept.len() implies (#[trigger] kept[k]).name != x by {
                if k < kept.len() - 1 {
                    assert(kept[k] == drop_name(adds.drop_last(), x)[k]);
                }
            }
        }
    }
}

/// Every registration surviving `drop_name` stands somewhere in the
/// original sequence.
proof fn lemma_drop_name_member(adds: Seq<NamedResourceView>, x: Seq<char>, k: int)
    requires
        0 <= k < drop_name(adds, x).len(),
    ensures
        exists|j: int| 0 <= j < adds.len() && (#[trigger] adds[j]) == drop_name(adds, x)[k],
    decreases adds.len(),
{
    if adds.len() > 0 {
        let front = adds.drop_last();
        if adds.last().name == x {
            lemma_drop_name_member(front, x, k);
            let j = choose|j: int|
                0 <= j < front.len() && (#[trigger] front[j]) == drop_name(front, x)[k];
            assert(adds[j] == drop_name(adds, x)[k]);
        } else {
            let kept = drop_name(front, x).push(adds.last());
            if k < kept.len() - 1 {
                lemma_drop_name_member(front, x, k);
                let j = choose|j: int|
                    0 <= j < front.len() && (#[trigger] front[j]) == drop_name(front, x)[k];
                assert(adds[j] == kept[k]);
            } else {
                assert(adds[adds.len() - 1] == kept[k]);
            }
        }
    }
}

/// `drop_name` keeps registrations pairwise distinct.
proof fn lemma_drop_name_distinct(adds: Seq<NamedResourceView>, x: Seq<char>)
    requires
        distinct_names(adds),
    ensures
        distinct_names(drop_name(adds, x)),
    decreases adds.len(),
{
    if adds.len() > 0 {
        let front = adds.drop_last();
        assert(distinct_names(front)) by {
            assert forall|k: int, l: int| 0 <= k < l < front.len() implies (
            #[trigger] front[k]).name != (#[trigger] front[l]).name by {
                assert(adds[k].name != adds[l].name);
            }
        }
        lemma_drop_name_distinct(front, x);
        if adds.last().name != x {
            let kept = drop_name(front, x).push(adds.last());
            assert forall|k: int, l: int| 0 <= k < l < kept.len() implies (
            #[trigger] kept[k]).name != (#[trigger] kept[l]).name by {
                if l < kept.len() - 1 {
                    assert(drop_name(front, x)[k].name != drop_name(front, x)[l].name);
                } else {
                    assert(kept[k] == drop_name(front, x)[k]);
                    lemma_drop_name_member(front, x, k);
                    let j = choose|j: int|
                        0 <= j < front.len() && (#[trigger] front[j]) == drop_name(front, x)[k];
                    assert(adds[j].name != adds.last().name);
                }
            }
        }
    }
}

/// Collapsing keeps registrations pairwise distinct.
proof fn lemma_dedup_distinct(adds: Seq<NamedResourceView>)
    ensures
        distinct_names(dedup_adds(adds)),
    decreases adds.len(),
{
    if adds.len() > 0 {
        let front = adds.drop_last();
        lemma_dedup_distinct(front);
        let x = adds.last().name;
        lemma_drop_name_distinct(dedup_adds(front), x);
        lemma_drop_name_no_x(dedup_adds(front), x);
        let dn = drop_name(dedup_adds(front), x);
        let kept = dn.push(adds.last());
        assert forall|k: int, l: int| 0 <= k < l < kept.len() implies (
        #[trigger] kept[k]).name != (#[trigger] kept[l]).name by {
            if l < kept.len() - 1 {
                assert(dn[k].name != dn[l].name);
            } else {
                assert(kept[k] == dn[k]);
            }
        }
    }
}

/// Collapsing does not change the resulting map: later writes already won.
proof fn lemma_dedup_map(base: Map<Seq<char>, Seq<char>>, adds: Seq<NamedResourceView>)
    ensures
        added_map(base, dedup_adds(adds)) == added_map(base, adds),
    decreases adds.len(),
{
    if adds.len() > 0 {
        let front = adds.drop_last();
        lemma_dedup_map(base, front);
        lemma_overwrite(base, dedup_adds(front), adds.last());
    }
}

/// Collapsing does not change the carried names.
proof fn lemma_dedup_names(adds: Seq<NamedResourceView>, y: Seq<char>)
    ensures
        has_name(dedup_adds(adds), y) == has_name(adds, y),
    decreases adds.len(),
{
    if adds.len() > 0 {
        let front = adds.drop_last();
        lemma_dedup_names(front, y);
        let x = adds.last().name;
        let dn = drop_name(dedup_adds(front), x);
        lemma_has_name_push(dn, adds.last(), y);
        assert(adds =~= front.push(adds.last()));
        lemma_has_name_push(front, adds.last(), y);
        if y != x {
            lemma_drop_name_others(no_resources(), dedup_adds(front), x, y);
        }
    }
}

/// A copy of `v` with every record named `name` removed, order kept.
fn without_name(v: &Vec<NamedResource>, name: &String) -> (r: Vec<NamedResource>)
    ensures
        r.deep_view() == drop_name(v.deep_view(), name@),
{
    let ghost adds = v.deep_view();
    let mut kept: Vec<NamedResource> = Vec::new();
    let n = v.len();
    let mut j: usize = 0;
    proof {
        assert(adds.take(0) =~= Seq::<NamedResourceView>::empty());
        assert(kept.deep_view() =~= drop_name(adds.take(0), name@));
    }
    while j < n
        invariant
            j <= n,
            n == v.len(),
            adds == v.deep_view(),
            kept.deep_view() == drop_name(adds.take(j as int), name@),
        decreases n - j,
    {
        let ghost pre = kept.deep_view();
        let keep = !(v[j].name == *name);
        if keep {
            let r = NamedResource {
                name: v[j].name.clone(),
                content_type: v[j].content_type.clone(),
                data: v[j].data.clone(),
            };
            kept.push(r);
        }
        proof {
            assert(adds.take(j + 1).drop_last() =~= adds.take(j as int));
            assert(adds.take(j + 1).last() == adds[j as int]);
            if keep {
                assert(kept.deep_view() =~= pre.push(adds[j as int]));
            }
        }
        j += 1;
    }
    proof {
        assert(adds.take(n as int) =~= adds);
    }
    kept
}

/// An exclusively owned matching-engine instance with an explicit lifecycle.
pub struct EngineHandle {
    inner: Option<adblock::Engine>,
    rule_lines: Vec<String>,
    enabled_tags: Vec<String>,
    added: Vec<NamedResource>,
}

/// The set of names a fresh handle's registrations cover: none.
pub open spec fn no_added() -> Set<Seq<char>> {
    Set::empty()
}

impl EngineHandle {
    /// A handle is live from `create` until `destroy`.
    pub closed spec fn live(self) -> bool {
        self.inner is Some
    }

    /// The network-filter state of the underlying engine.
    pub closed spec fn net(self) -> Seq<u8> {
        net_view(self.inner->0)
    }

    /// The tags enabled on the underlying engine.
    pub closed spec fn tags(self) -> Set<Seq<char>> {
        tags_view(self.inner->0)
    }

    /// The cosmetic-filter state of the underlying engine.
    pub closed spec fn cosm(self) -> Seq<u8> {
        cosm_view(self.inner->0)
    }

    /// The resources registered on the underlying engine.
    pub closed spec fn resources(self) -> Map<Seq<char>, Seq<char>> {
        res_view(self.inner->0)
    }

    /// The filter lines the handle will recompile from.
    pub closed spec fn rules(self) -> Seq<Seq<char>> {
        self.rule_lines.deep_view()
    }

    /// The names under which resources are currently registered.
    pub closed spec fn added_names(self) -> Set<Seq<char>> {
        names_in(self.added.deep_view())
    }

    /// The handle's bookkeeping mirrors the engine: the recorded tags are
    /// exactly the enabled ones, and the recorded resources — one record
    /// per name — are exactly the registered ones.
    pub closed spec fn wf(self) -> bool {
        self.live() ==> {
            &&& self.enabled_tags.deep_view().to_set() == self.tags()
            &&& self.resources() == added_map(no_resources(), self.added.deep_view())
            &&& distinct_names(self.added.deep_view())
        }
    }

    /// Compiles a new engine from newline-delimited filter text.
    pub fn create(rules: &str) -> (h: EngineHandle)
        ensures
            h.live(),
            h.wf(),
            h.rules() == lines_of(rules@),
            h.net() == net_of_rules(lines_of(rules@)),
            h.cosm() == cosm_of_rules(lines_of(rules@)),
            h.tags() == no_tags(),
            h.resources() == no_resources(),
            h.added_names() == no_added(),
    {
        let rule_lines = split_lines(rules);
        let engine = engine_from_rules(&rule_lines);
        let h = EngineHandle {
            inner: Some(engine),
            rule_lines,
            enabled_tags: Vec::new(),
            added: Vec::new(),
        };
        proof {
            assert(h.enabled_tags.deep_view() =~= Seq::<Seq<char>>::empty());
            assert(h.enabled_tags.deep_view().to_set() =~= no_tags());
            assert(h.added.deep_view() =~= Seq::<NamedResourceView>::empty());
            assert(h.added_names() =~= no_added());
        }
        h
    }

    /// Releases the underlying engine. The handle is dead afterwards: no
    /// further operation accepts it, so a release cannot be doubled and a
    /// dead handle cannot be read.
    pub fn destroy(&mut self)
        ensures
            !final(self).live(),
    {
        self.inner = None;
    }

    /// A borrow of the underlying engine, for the sibling query modules.
    pub(crate) fn inner_ref(&self) -> (e: &adblock::Engine)
        requires
            self.live(),
        ensures
            net_view(*e) == self.net(),
            tags_view(*e) == self.tags(),
            cosm_view(*e) == self.cosm(),
            res_view(*e) == self.resources(),
    {
        self.inner.as_ref().unwrap()
    }

    /// Checks one network request. Checking never mutates engine state.
    pub fn match_request(&self, req: &MatchRequest) -> (r: MatchResult)
        requires
            self.live(),
        ensures
            ({
                let m = match_of(
                    self.net(),
                    self.tags(),
                    self.resources(),
                    req.url@,
                    req.host@,
                    req.tab_host@,
                    req.resource_type@,
                    req.effective_third_party(),
                );
                r.matched == m.0 && r.important == m.1 && r.saved_from_exception == (m.3 is Some
                    && m.4 is Some) && r.redirect.deep_view() == m.2
            }),
    {
        let third_party = match req.third_party {
            Some(b) => b,
            None => false,
        };
        let e = self.inner.as_ref().unwrap();
        let raw = engine_check(
            e,
            req.url.as_str(),
            req.host.as_str(),
            req.tab_host.as_str(),
            req.resource_type.as_str(),
            third_party,
        );
        let saved_from_exception = raw.exception.is_some() && raw.filter.is_some();
        MatchResult {
            matched: raw.matched,
            important: raw.important,
            saved_from_exception,
            redirect: raw.redirect,
        }
    }

    /// Enables a tag. Unknown tags are inert: the engine simply records them.
    pub fn add_tag(&mut self, tag: &str)
        requires
            old(self).live(),
            old(self).wf(),
        ensures
            final(self).live(),
            final(self).wf(),
            final(self).tags() == old(self).tags().insert(tag@),
            final(self).net() == old(self).net(),
            final(self).cosm() == old(self).cosm(),
            final(self).resources() == old(self).resources(),
            final(self).added_names() == old(self).added_names(),
            final(self).rules() == old(self).rules(),
    {
        let mut engine = self.inner.take().unwrap();
        engine_enable_tag(&mut engine, tag);
        self.inner = Some(engine);
        self.enabled_tags.push(tag.to_owned());
        proof {
            let prev = old(self).enabled_tags.deep_view();
            assert(self.enabled_tags.deep_view() =~= prev.push(tag@));
            prev.lemma_push_to_set_commute(tag@);
        }
    }

    /// Disables a tag, removing it from the enabled set entirely.
    pub fn remove_tag(&mut self, tag: &str)
        requires
            old(self).live(),
            old(self).wf(),
        ensures
            final(self).live(),
            final(self).wf(),
            final(self).tags() == old(self).tags().remove(tag@),
            final(self).net() == old(self).net(),
            final(self).cosm() == old(self).cosm(),
            final(self).resources() == old(self).resources(),
            final(self).added_names() == old(self).added_names(),
            final(self).rules() == old(self).rules(),
    {
        let mut engine = self.inner.take().unwrap();
        engine_disable_tag(&mut engine, tag);
        self.inner = Some(engine);
        let tag_string = tag.to_owned();
        let ghost all = self.enabled_tags.deep_view();
        let mut kept: Vec<String> = Vec::new();
        let n = self.enabled_tags.len();
        let mut i: usize = 0;
        proof {
            assert(all.take(0) =~= Seq::<Seq<char>>::empty());
            assert(kept.deep_view().to_set() =~= all.take(0).to_set().remove(tag@));
        }
        while i < n
            invariant
                i <= n,
                n == self.enabled_tags.len(),
                all == self.enabled_tags.deep_view(),
                kept.deep_view().to_set() == all.take(i as int).to_set().remove(tag@),
                tag_string@ == tag@,
            decreases n - i,
        {
            let ghost pre_kept = kept.deep_view();
            let keep = !(self.enabled_tags[i] == tag_string);
            if keep {
                let t = self.enabled_tags[i].clone();
                kept.push(t);
            }
            proof {
                let x = all[i as int];
                assert(all.take(i + 1) =~= all.take(i as int).push(x));
                all.take(i as int).lemma_push_to_set_commute(x);
                if keep {
                    assert(kept.deep_view() =~= pre_kept.push(x));
                    pre_kept.lemma_push_to_set_commute(x);
                    assert(pre_kept.to_set().insert(x) =~= all.take(i + 1).to_set().remove(tag@));
                } else {
                    assert(all.take(i + 1).to_set().remove(tag@) =~= all.take(
                        i as int,
                    ).to_set().remove(tag@));
                }
            }
            i += 1;
        }
        self.enabled_tags = kept;
        proof {
            assert(all.take(n as int) =~= all);
        }
    }

    /// Reports whether a tag is currently enabled.
    pub fn tag_exists(&self, tag: &str) -> (r: bool)
        requires
            self.live(),
        ensures
            r == self.tags().contains(tag@),
    {
        engine_tag_exists(self.inner.as_ref().unwrap(), tag)
    }

    /// Re-installs the recorded resources onto an engine whose resource set
    /// is empty.
    fn reinstall_resources(&self, engine: &mut adblock::Engine)
        requires
            res_view(*old(engine)) == no_resources(),
            distinct_names(self.added.deep_view()),
        ensures
            res_view(*final(engine)) == added_map(no_resources(), self.added.deep_view()),
            net_view(*final(engine)) == net_view(*old(engine)),
            tags_view(*final(engine)) == tags_view(*old(engine)),
            cosm_view(*final(engine)) == cosm_view(*old(engine)),
    {
        let ghost adds = self.added.deep_view();
        let n = self.added.len();
        let mut i: usize = 0;
        proof {
            assert(adds.take(0) =~= Seq::<NamedResourceView>::empty());
        }
        while i < n
            invariant
                i <= n,
                n == self.added.len(),
                adds == self.added.deep_view(),
                distinct_names(adds),
                res_view(*engine) == added_map(no_resources(), adds.take(i as int)),
                net_view(*engine) == net_view(*old(engine)),
                tags_view(*engine) == tags_view(*old(engine)),
                cosm_view(*engine) == cosm_view(*old(engine)),
            decreases n - i,
        {
            let r = &self.added[i];
            proof {
                let x = adds[i as int].name;
                lemma_added_map_keys(no_resources(), adds.take(i as int), x);
                assert(!has_name(adds.take(i as int), x)) by {
                    if has_name(adds.take(i as int), x) {
                        let j = choose|j: int|
                            0 <= j < adds.take(i as int).len() && (#[trigger] adds.take(
                                i as int,
                            )[j]).name == x;
                        assert(adds[j].name == adds[i as int].name);
                        assert(false);
                    }
                }
            }
            let ok = engine_add_resource(
                engine,
                r.name.as_str(),
                r.content_type.as_str(),
                r.data.as_str(),
            );
            proof {
                assert(ok);
                assert(adds.take(i + 1).drop_last() =~= adds.take(i as int));
                assert(adds.take(i + 1).last() == adds[i as int]);
            }
            i += 1;
        }
        proof {
            assert(adds.take(n as int) =~= adds);
        }
    }

    /// Registers a resource under `name`, for later reference by redirect
    /// rules. The last write for a given name wins: a write under a name
    /// that is already registered replaces the earlier registration.
    pub fn add_resource(&mut self, name: &str, content_type: &str, data: &str)
        requires
            old(self).live(),
            old(self).wf(),
        ensures
            final(self).live(),
            final(self).wf(),
            final(self).resources() == old(self).resources().insert(
                name@,
                res_entry(content_type@, data@),
            ),
            final(self).added_names() == old(self).added_names().insert(name@),
            final(self).net() == old(self).net(),
            final(self).cosm() == old(self).cosm(),
            final(self).tags() == old(self).tags(),
            final(self).rules() == old(self).rules(),
    {
        let ghost adds = self.added.deep_view();
        let ghost new = NamedResourceView { name: name@, content_type: content_type@, data: data@ };
        let name_string = name.to_owned();
        let mut found = false;
        let n = self.added.len();
        let mut i: usize = 0;
        proof {
            assert(!has_name(adds.take(0), name@));
        }
        while i < n
            invariant
                i <= n,
                n == self.added.len(),
                adds == self.added.deep_view(),
                name_string@ == name@,
                found == has_name(adds.take(i as int), name@),
            decreases n - i,
        {
            proof {
                assert(adds.take(i + 1).drop_last() =~= adds.take(i as int));
                assert(adds.take(i + 1).last() == adds[i as int]);
                lemma_has_name_push(adds.take(i as int), adds[i as int], name@);
                assert(adds.take(i + 1) =~= adds.take(i as int).push(adds[i as int]));
            }
            if self.added[i].name == name_string {
                found = true;
                proof {
                    assert(adds.take(i + 1)[i as int].name == name@);
                }
            }
            i += 1;
        }
        proof {
            assert(adds.take(n as int) =~= adds);
            assert(found == old(self).added_names().contains(name@));
        }
        if !found {
            proof {
                lemma_added_map_keys(no_resources(), adds, name@);
            }
            let mut engine = self.inner.take().unwrap();
            let ok = engine_add_resource(&mut engine, name, content_type, data);
            self.inner = Some(engine);
            proof {
                assert(ok);
            }
            self.added.push(
                NamedResource {
                    name: name_string,
                    content_type: content_type.to_owned(),
                    data: data.to_owned(),
                },
            );
            proof {
                let post = self.added.deep_view();
                assert(post =~= adds.push(new));
                assert(post.drop_last() =~= adds);
                assert forall|k: int, l: int| 0 <= k < l < post.len() implies (
                #[trigger] post[k]).name != (#[trigger] post[l]).name by {
                    if l < adds.len() {
                        assert(adds[k].name != adds[l].name);
                    } else {
                        assert(!has_name(adds, name@));
                        assert(post[k] == adds[k]);
                    }
                }
                assert(final(self).added_names() =~= old(self).added_names().insert(name@)) by {
                    assert forall|y: Seq<char>| #[trigger]
                        has_name(post, y) == (has_name(adds, y) || y == name@) by {
                        lemma_has_name_push(adds, new, y);
                    }
                }
            }
        } else {
            let mut kept = without_name(&self.added, &name_string);
            let new_resource = NamedResource {
                name: name_string,
                content_type: content_type.to_owned(),
                data: data.to_owned(),
            };
            kept.push(new_resource);
            let mut engine = self.inner.take().unwrap();
            engine_clear_resources(&mut engine);
            self.added = kept;
            proof {
                let post = self.added.deep_view();
                assert(post =~= drop_name(adds, name@).push(new));
                assert forall|k: int, l: int| 0 <= k < l < post.len() implies (
                #[trigger] post[k]).name != (#[trigger] post[l]).name by {
                    lemma_drop_name_distinct(adds, name@);
                    if l < post.len() - 1 {
                        assert(drop_name(adds, name@)[k].name != drop_name(adds, name@)[l].name);
                    } else {
                        lemma_drop_name_no_x(adds, name@);
                        assert(post[k] == drop_name(adds, name@)[k]);
                    }
                }
                lemma_overwrite(no_resources(), adds, new);
            }
            self.reinstall_resources(&mut engine);
            self.inner = Some(engine);
            proof {
                let post = self.added.deep_view();
                assert(final(self).added_names() =~= old(self).added_names().insert(name@)) by {
                    assert forall|y: Seq<char>| #[trigger]
                        has_name(post, y) == (has_name(adds, y) || y == name@) by {
                        lemma_has_name_push(drop_name(adds, name@), new, y);
                        if y != name@ {
                            lemma_drop_name_others(no_resources(), adds, name@, y);
                        }
                    }
                }
            }
        }
    }

    /// Replaces the registered resource set with the resources described by
    /// a JSON array; within the array, too, the last write for a given name
    /// wins. Fails on malformed JSON (or content that is not base64-encoded
    /// UTF-8 text), changing nothing.
    pub fn add_resources(&mut self, json: &str) -> (ok: bool)
        requires
            old(self).live(),
            old(self).wf(),
        ensures
            final(self).live(),
            final(self).wf(),
            ok == json_parses_resources(json@),
            ok ==> final(self).resources() == added_map(no_resources(), res_list_of_json(json@)),
            ok ==> final(self).added_names() == names_in(res_list_of_json(json@)),
            !ok ==> final(self).resources() == old(self).resources(),
            !ok ==> final(self).added_names() == old(self).added_names(),
            final(self).net() == old(self).net(),
            final(self).cosm() == old(self).cosm(),
            final(self).tags() == old(self).tags(),
            final(self).rules() == old(self).rules(),
    {
        let parsed = parse_resources_json(json);
        match parsed {
            None => false,
            Some(list) => {
                let ghost lviews = list.deep_view();
                let mut new_added: Vec<NamedResource> = Vec::new();
                let n = list.len();
                let mut i: usize = 0;
                proof {
                    assert(lviews.take(0) =~= Seq::<NamedResourceView>::empty());
                    assert(new_added.deep_view() =~= dedup_adds(lviews.take(0)));
                }
                while i < n
                    invariant
                        i <= n,
                        n == list.len(),
                        lviews == list.deep_view(),
                        new_added.deep_view() == dedup_adds(lviews.take(i as int)),
                    decreases n - i,
                {
                    let nm = list[i].name.clone();
                    proof {
                        assert(nm@ == lviews[i as int].name);
                    }
                    let mut filtered = without_name(&new_added, &nm);
                    let r = NamedResource {
                        name: list[i].name.clone(),
                        content_type: list[i].content_type.clone(),
                        data: list[i].data.clone(),
                    };
                    filtered.push(r);
                    new_added = filtered;
                    proof {
                        assert(lviews.take(i + 1).drop_last() =~= lviews.take(i as int));
                        assert(lviews.take(i + 1).last() == lviews[i as int]);
                        assert(new_added.deep_view() =~= drop_name(
                            dedup_adds(lviews.take(i as int)),
                            lviews[i as int].name,
                        ).push(lviews[i as int]));
                    }
                    i += 1;
                }
                proof {
                    assert(lviews.take(n as int) =~= lviews);
                }
                let mut engine = self.inner.take().unwrap();
                engine_clear_resources(&mut engine);
                self.added = new_added;
                proof {
                    lemma_dedup_distinct(lviews);
                    lemma_dedup_map(no_resources(), lviews);
                }
                self.reinstall_resources(&mut engine);
                self.inner = Some(engine);
                proof {
                    assert(final(self).added_names() =~= names_in(lviews)) by {
                        assert forall|y: Seq<char>| #[trigger]
                            has_name(dedup_adds(lviews), y) == has_name(lviews, y) by {
                            lemma_dedup_names(lviews, y);
                        }
                    }
                }
                true
            },
        }
    }

    /// Appends filter text to the handle's rule lines and recompiles the
    /// engine from them, re-enabling the recorded tags and re-registering
    /// the recorded resources. Note that the engine is compiled from the
    /// handle's rule lines, so state installed by `deserialize` does not
    /// survive a later `add_filter`.
    pub fn add_filter(&mut self, filter: &str)
        requires
            old(self).live(),
            old(self).wf(),
        ensures
            final(self).live(),
            final(self).wf(),
            final(self).rules() == old(self).rules() + lines_of(filter@),
            final(self).net() == net_of_rules(final(self).rules()),
            final(self).cosm() == cosm_of_rules(final(self).rules()),
            final(self).tags() == old(self).tags(),
            final(self).resources() == old(self).resources(),
            final(self).added_names() == old(self).added_names(),
    {
        let mut new_lines = split_lines(filter);
        self.rule_lines.append(&mut new_lines);
        proof {
            assert(self.rule_lines.deep_view() =~= old(self).rule_lines.deep_view() + lines_of(
                filter@,
            ));
        }
        let mut engine = engine_from_rules(&self.rule_lines);
        let ghost all_tags = self.enabled_tags.deep_view();
        let n = self.enabled_tags.len();
        let mut i: usize = 0;
        proof {
            assert(all_tags.take(0) =~= Seq::<Seq<char>>::empty());
            assert(all_tags.take(0).to_set() =~= no_tags());
        }
        while i < n
            invariant
                i <= n,
                n == self.enabled_tags.len(),
                all_tags == self.enabled_tags.deep_view(),
                tags_view(engine) == all_tags.take(i as int).to_set(),
                net_view(engine) == net_of_rules(self.rule_lines.deep_view()),
                cosm_view(engine) == cosm_of_rules(self.rule_lines.deep_view()),
                res_view(engine) == no_resources(),
            decreases n - i,
        {
            engine_enable_tag(&mut engine, self.enabled_tags[i].as_str());
            proof {
                let pre = all_tags.take(i as int);
                assert(all_tags.take(i + 1) =~= pre.push(all_tags[i as int]));
                pre.lemma_push_to_set_commute(all_tags[i as int]);
            }
            i += 1;
        }
        proof {
            assert(all_tags.take(n as int) =~= all_tags);
        }
        self.reinstall_resources(&mut engine);
        self.inner = Some(engine);
    }

    /// Produces a snapshot of the compiled filter state: a well-formed byte
    /// string that `deserialize` accepts and that restores the current
    /// network-filter and cosmetic-filter state.
    pub fn serialize(&self) -> (r: Option<Vec<u8>>)
        requires
            self.live(),
        ensures
            r is Some,
            r matches Some(b) ==> snapshot_wf(b@) && deser_net(b@) == self.net() && deser_cosm(
                b@,
            ) == self.cosm(),
    {
        engine_serialize(self.inner.as_ref().unwrap())
    }

    /// Replaces the compiled filter state from a snapshot. Succeeds exactly
    /// on a well-formed snapshot; a corrupt one is rejected and the prior
    /// state — and with it every matching decision — is left entirely
    /// unchanged. Enabled tags, resources and the recorded rule lines
    /// survive in either case.
    pub fn deserialize(&mut self, data: &[u8]) -> (ok: bool)
        requires
            old(self).live(),
            old(self).wf(),
        ensures
            final(self).live(),
            final(self).wf(),
            ok == snapshot_wf(data@),
            ok ==> final(self).net() == deser_net(data@) && final(self).cosm() == deser_cosm(
                data@,
            ),
            !ok ==> final(self).net() == old(self).net() && final(self).cosm() == old(
                self,
            ).cosm(),
            final(self).tags() == old(self).tags(),
            final(self).resources() == old(self).resources(),
            final(self).added_names() == old(self).added_names(),
            final(self).rules() == old(self).rules(),
    {
        let mut engine = self.inner.take().unwrap();
        let ok = engine_deserialize(&mut engine, data);
        self.inner = Some(engine);
        ok
    }
}

/// One network request to classify.
pub struct MatchRequest {
    pub url: String,
    pub host: String,
    pub tab_host: String,
    pub resource_type: String,
    /// `None` means the caller does not know; the engine cannot infer it
    /// from pre-parsed hostnames, so it is treated as first-party.
    pub third_party: Option<bool>,
}

impl MatchRequest {
    /// The third-party flag actually used: an unknown flag counts as false.
    pub open spec fn effective_third_party(self) -> bool {
        match self.third_party {
            Some(b) => b,
            None => false,
        }
    }
}

/// The outcome of one matching decision.
pub struct MatchResult {
    /// A blocking filter matched.
    pub matched: bool,
    /// A filter with the `important` option matched.
    pub important: bool,
    /// A blocking filter matched and an exception filter also matched: the
    /// exception is what saved the request. This does not by itself mean the
    /// request was allowed.
    pub saved_from_exception: bool,
    /// A substitute resource to serve instead of blocking outright.
    pub redirect: Option<String>,
}

} // verus!
