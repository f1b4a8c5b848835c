//! Cosmetic-filter queries: the per-page payload and the generic
//! class/id-selector stylesheet.

use vstd::prelude::*;

use crate::engine::EngineHandle;
use crate::upstream::{cosmetic_of, engine_class_id_selectors, engine_url_cosmetics, selectors_of};

verus! {

/// The selectors joined into one comma-separated selector list.
pub open spec fn joined_selectors(sels: Seq<Seq<char>>) -> Seq<char>
    decreases sels.len(),
{
    if sels.len() == 0 {
        Seq::empty()
    } else if sels.len() == 1 {
        sels[0]
    } else {
        joined_selectors(sels.drop_last()) + ", "@ + sels.last()
    }
}

/// The hiding stylesheet for the given selectors: one rule hiding them all,
/// or the empty string when nothing applies.
pub open spec fn stylesheet_of(sels: Seq<Seq<char>>) -> Seq<char> {
    if sels.len() == 0 {
        Seq::empty()
    } else {
        joined_selectors(sels) + " { display: none !important; }"@
    }
}

/// Builds the hiding stylesheet that [`stylesheet_of`] describes.
pub fn build_stylesheet(selectors: &Vec<String>) -> (r: String)
    ensures
        r@ == stylesheet_of(selectors.deep_view()),
{
    let ghost sels = selectors.deep_view();
    if selectors.len() == 0 {
        let r = String::new();
        return r;
    }
    let mut out = selectors[0].clone();
    let mut i: usize = 1;
    proof {
        assert(sels.take(1) =~= seq![sels[0]]);
        assert(joined_selectors(sels.take(1)) == sels[0]);
    }
    while i < selectors.len()
        invariant
            1 <= i <= sels.len(),
            sels == selectors.deep_view(),
            out@ == joined_selectors(sels.take(i as int)),
        decreases sels.len() - i,
    {
        out.append(", ");
        out.append(selectors[i].as_str());
        proof {
            let pre = sels.take(i as int);
            let post = sels.take(i + 1);
            assert(post.drop_last() =~= pre);
            assert(post.last() == sels[i as int]);
            assert(joined_selectors(post) == joined_selectors(pre) + ", "@ + sels[i as int]);
        }
        i += 1;
    }
    proof {
        assert(sels.take(sels.len() as int) =~= sels);
    }
    out.append(" { display: none !important; }");
    out
}

/// The cosmetic payload for one page: a hiding stylesheet for the page's
/// specific (and, unless `generichide` is set, broadly generic) selectors,
/// the selectors it covers, the excepted selectors that later class/id
/// queries must honor, and the combined scriptlet text to inject. Every
/// field is an independently owned plain value.
pub struct HostnameResources {
    /// A stylesheet hiding `hide_selectors`, as [`stylesheet_of`] builds it.
    pub stylesheet: String,
    /// The selectors the stylesheet hides, without duplicates.
    pub hide_selectors: Vec<String>,
    /// Selectors excepted for this page; pass them to later class/id queries.
    pub exceptions: Vec<String>,
    /// Combined scriptlet code to inject into the page.
    pub injected_script: String,
    /// True when a `$generichide` exception applies to the page, in which
    /// case no generic selectors are included or should be queried.
    pub generichide: bool,
}

impl EngineHandle {
    /// The cosmetic payload applicable to the page at `url`.
    pub fn url_cosmetic_resources(&self, url: &str) -> (r: HostnameResources)
        requires
            self.live(),
        ensures
            ({
                let m = cosmetic_of(self.net(), self.tags(), self.cosm(), self.resources(), url@);
                r.hide_selectors.deep_view().to_set() == m.0
                    && r.hide_selectors.deep_view().no_duplicates()
                    && r.exceptions.deep_view().to_set() == m.1 && r.generichide == m.2
                    && r.stylesheet@ == stylesheet_of(r.hide_selectors.deep_view())
            }),
    {
        let raw = engine_url_cosmetics(self.inner_ref(), url);
        let (hide_selectors, exceptions, injected_script, generichide) = raw;
        let stylesheet = build_stylesheet(&hide_selectors);
        HostnameResources { stylesheet, hide_selectors, exceptions, injected_script, generichide }
    }

    /// The cosmetic payload applicable to pages on `hostname`: the query is
    /// made for a plain page address on that host.
    pub fn hostname_cosmetic_resources(&self, hostname: &str) -> (r: HostnameResources)
        requires
            self.live(),
        ensures
            ({
                let m = cosmetic_of(
                    self.net(),
                    self.tags(),
                    self.cosm(),
                    self.resources(),
                    "https://"@ + hostname@ + "/"@,
                );
                r.hide_selectors.deep_view().to_set() == m.0
                    && r.hide_selectors.deep_view().no_duplicates()
                    && r.exceptions.deep_view().to_set() == m.1 && r.generichide == m.2
                    && r.stylesheet@ == stylesheet_of(r.hide_selectors.deep_view())
            }),
    {
        let mut url = String::from_str("https://");
        url.append(hostname);
        url.append("/");
        self.url_cosmetic_resources(url.as_str())
    }

    /// The stylesheet hiding exactly the generic rules that begin with one
    /// of the given class or id names (without the leading `.` or `#`) and
    /// are not in `exceptions`; empty when nothing applies.
    pub fn class_id_stylesheet(
        &self,
        classes: &Vec<String>,
        ids: &Vec<String>,
        exceptions: &Vec<String>,
    ) -> (r: String)
        requires
            self.live(),
        ensures
            r@ == stylesheet_of(
                selectors_of(
                    self.cosm(),
                    classes.deep_view(),
                    ids.deep_view(),
                    exceptions.deep_view().to_set(),
                ),
            ),
    {
        let selectors = engine_class_id_selectors(self.inner_ref(), classes, ids, exceptions);
        build_stylesheet(&selectors)
    }
}

} // verus!
