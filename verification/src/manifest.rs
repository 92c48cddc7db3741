//! The site configuration: storylines ("continuities"), their ordered
//! releases, and their pages with conditional metadata.
//!
//! Loaded once per session and read-only thereafter.

use vstd::prelude::*;
use crate::assoc::{assoc_get, spec_assoc};
use crate::cond::{should_show_all, spec_eval_all, ConfigError};
use crate::observed::ObservedSet;
use crate::search::{dedup_tokens, spec_dedup, spec_tokens, tokenize};
use crate::text::str_eq;
use crate::unicode::{title_case, title_case_of};

verus! {

/// Configuration for a single continuity.
#[derive(Debug, Clone)]
pub struct Continuity {
    /// The name the configuration refers to the continuity by.
    pub reference_name: String,
    /// The name to display in the picker and title; defaults to the
    /// title-cased reference name.
    pub display_name: Option<String>,
    /// The path prefix in the URL; defaults to the reference name.
    pub url_prefix: Option<String>,
    /// The prefix that scopes condition tokens to this continuity.
    pub prefix: String,
}

/// Configuration for a single release.
#[derive(Debug, Clone)]
pub struct Release {
    /// The name conditions refer to the release by; unique in its continuity.
    pub reference_name: String,
    /// The name to display in the picker and in citation labels; defaults to
    /// the title-cased reference name.
    pub display_name: Option<String>,
    /// An optional group heading this and the following releases belong to;
    /// an empty string ends the current group.
    pub begins_group: Option<String>,
}

/// A keyword set only active under conditions.
#[derive(Debug, Clone)]
pub struct KeywordsCond {
    pub keywords: String,
    pub cond: Vec<String>,
}

/// An alias title only active under conditions.
#[derive(Debug, Clone)]
pub struct TitlePeerCond {
    pub peer: String,
    pub cond: Vec<String>,
}

/// A category only active under conditions.
#[derive(Debug, Clone)]
pub struct CategoryCond {
    pub category: String,
    pub cond: Vec<String>,
}

/// Configuration for a single page.
#[derive(Debug, Clone)]
pub struct Page {
    /// The name used in the URL and in document links; unique in its
    /// continuity.
    pub page_url: String,
    /// Where the page's markup text is fetched from.
    pub resource_path: String,
    /// The name to display; defaults to the title-cased `page_url`.
    pub display_name: Option<String>,
    /// Conditions that must all hold for the page to be shown.
    pub show_cond: Vec<String>,
    /// Search keywords, whitespace-separated.
    pub keywords: String,
    /// Keywords only active under conditions.
    pub keywords_cond: Vec<KeywordsCond>,
    /// Alias titles that redirect to this page.
    pub title_peers: Vec<String>,
    /// Alias titles only active under conditions.
    pub title_peers_cond: Vec<TitlePeerCond>,
    /// Categories the page shows under.
    pub categories: Vec<String>,
    /// Categories only active under conditions.
    pub categories_cond: Vec<CategoryCond>,
}

/// The whole site configuration.
#[derive(Debug, Clone)]
pub struct Manifest {
    /// The title of the site.
    pub title: String,
    /// Every continuity, in configuration order.
    pub continuities: Vec<Continuity>,
    /// Releases per continuity reference name, in release order.
    pub releases: Vec<(String, Vec<Release>)>,
    /// Pages per continuity reference name.
    pub pages: Vec<(String, Vec<Page>)>,
}

/// The first continuity with reference name `name` stands at `i`.
pub open spec fn cont_found_at(cs: Seq<Continuity>, name: Seq<char>, i: int) -> bool {
    0 <= i < cs.len() && cs[i].reference_name@ == name && (forall|j: int|
        0 <= j < i ==> cs[j].reference_name@ != name)
}

/// The continuity with reference name `name`, if any.
pub open spec fn spec_continuity(m: Manifest, name: Seq<char>) -> Option<Continuity> {
    if exists|i: int| cont_found_at(m.continuities@, name, i) {
        Some(m.continuities@[choose|i: int| cont_found_at(m.continuities@, name, i)])
    } else {
        None
    }
}

/// The effective URL prefix of a continuity.
pub open spec fn spec_cont_url_prefix(c: Continuity) -> Seq<char> {
    match c.url_prefix {
        Some(p) => p@,
        None => c.reference_name@,
    }
}

/// The first continuity whose effective URL prefix is `p` stands at `i`.
pub open spec fn cont_prefix_found_at(cs: Seq<Continuity>, p: Seq<char>, i: int) -> bool {
    0 <= i < cs.len() && spec_cont_url_prefix(cs[i]) == p && (forall|j: int|
        0 <= j < i ==> spec_cont_url_prefix(cs[j]) != p)
}

/// The releases configured for continuity `name`, or empty.
pub open spec fn spec_releases(m: Manifest, name: Seq<char>) -> Seq<Release> {
    match spec_assoc(m.releases@, name) {
        Some(v) => v@,
        None => Seq::empty(),
    }
}

/// The pages configured for continuity `name`, or empty.
pub open spec fn spec_pages(m: Manifest, name: Seq<char>) -> Seq<Page> {
    match spec_assoc(m.pages@, name) {
        Some(v) => v@,
        None => Seq::empty(),
    }
}

/// The first release with reference name `name` stands at `i`.
pub open spec fn release_found_at(rs: Seq<Release>, name: Seq<char>, i: int) -> bool {
    0 <= i < rs.len() && rs[i].reference_name@ == name && (forall|j: int|
        0 <= j < i ==> rs[j].reference_name@ != name)
}

/// The release with reference name `name` of continuity `cont`, if any.
pub open spec fn spec_release(m: Manifest, cont: Seq<char>, name: Seq<char>) -> Option<Release> {
    let rs = spec_releases(m, cont);
    if exists|i: int| release_found_at(rs, name, i) {
        Some(rs[choose|i: int| release_found_at(rs, name, i)])
    } else {
        None
    }
}

/// The first page with URL key `url` stands at `i`.
pub open spec fn page_found_at(ps: Seq<Page>, url: Seq<char>, i: int) -> bool {
    0 <= i < ps.len() && ps[i].page_url@ == url && (forall|j: int|
        0 <= j < i ==> ps[j].page_url@ != url)
}

/// The page with URL key `url` of continuity `cont`, if any.
pub open spec fn spec_page(m: Manifest, cont: Seq<char>, url: Seq<char>) -> Option<Page> {
    let ps = spec_pages(m, cont);
    if exists|i: int| page_found_at(ps, url, i) {
        Some(ps[choose|i: int| page_found_at(ps, url, i)])
    } else {
        None
    }
}

impl Manifest {
    /// The site title.
    pub fn title(&self) -> (r: &str)
        ensures
            r@ == self.title@,
    {
        self.title.as_str()
    }

    /// Every continuity, in configuration order.
    pub fn continuities(&self) -> (r: &Vec<Continuity>)
        ensures
            r == &self.continuities,
    {
        &self.continuities
    }

    /// The first configured continuity, if any.
    pub fn default_continuity(&self) -> (r: Option<&Continuity>)
        ensures
            match r {
                Some(c) => self.continuities@.len() > 0 && *c == self.continuities@[0],
                None => self.continuities@.len() == 0,
            },
    {
        if self.continuities.len() > 0 {
            Some(&self.continuities[0])
        } else {
            None
        }
    }

    /// Whether the picker has more than one choice of continuity. A site
    /// with no continuities at all also counts as "multiple" here, exactly
    /// as a single continuity is the only case hidden from the picker.
    pub fn has_multiple_continuities(&self) -> (r: bool)
        ensures
            r == (self.continuities@.len() != 1),
    {
        self.continuities.len() != 1
    }

    /// The continuity with the given reference name.
    pub fn continuity(&self, continuity_reference: &str) -> (r: Option<&Continuity>)
        ensures
            match r {
                Some(c) => spec_continuity(*self, continuity_reference@) == Some(*c),
                None => spec_continuity(*self, continuity_reference@) is None,
            },
    {
        let n = self.continuities.len();
        let mut i: usize = 0;
        while i < n
            invariant
                n == self.continuities@.len(),
                i <= n,
                forall|k: int| 0 <= k < i ==> self.continuities@[k].reference_name@
                    != continuity_reference@,
            decreases n - i,
        {
            if str_eq(self.continuities[i].reference_name.as_str(), continuity_reference) {
                proof {
                    let cs = self.continuities@;
                    assert(cont_found_at(cs, continuity_reference@, i as int));
                    let i0 = choose|j: int| cont_found_at(cs, continuity_reference@, j);
                    if i0 < i as int {
                        assert(cs[i0].reference_name@ != continuity_reference@);
                    } else if (i as int) < i0 {
                        assert(cs[i as int].reference_name@ != continuity_reference@);
                    }
                }
                return Some(&self.continuities[i]);
            }
            i = i + 1;
        }
        None
    }

    /// The continuity whose effective URL prefix is `url_prefix`.
    pub fn continuity_from_url_prefix(&self, url_prefix: &str) -> (r: Option<&Continuity>)
        ensures
            match r {
                Some(c) => exists|i: int|
                    cont_prefix_found_at(self.continuities@, url_prefix@, i) && *c
                        == self.continuities@[i],
                None => forall|i: int| !cont_prefix_found_at(self.continuities@, url_prefix@, i),
            },
    {
        let n = self.continuities.len();
        let mut i: usize = 0;
        while i < n
            invariant
                n == self.continuities@.len(),
                i <= n,
                forall|k: int| 0 <= k < i ==> spec_cont_url_prefix(self.continuities@[k])
                    != url_prefix@,
            decreases n - i,
        {
            let c = &self.continuities[i];
            let hit = match &c.url_prefix {
                Some(p) => str_eq(p.as_str(), url_prefix),
                None => str_eq(c.reference_name.as_str(), url_prefix),
            };
            if hit {
                proof {
                    assert(cont_prefix_found_at(self.continuities@, url_prefix@, i as int));
                }
                return Some(&self.continuities[i]);
            }
            i = i + 1;
        }
        None
    }

    /// The releases of the given continuity, if any are configured.
    pub fn releases(&self, continuity_reference: &str) -> (r: Option<&Vec<Release>>)
        ensures
            match r {
                Some(v) => spec_releases(*self, continuity_reference@) == v@,
                None => spec_releases(*self, continuity_reference@) == Seq::<Release>::empty(),
            },
    {
        match assoc_get(&self.releases, continuity_reference) {
            Some(v) => Some(v),
            None => None,
        }
    }

    /// The default release of a continuity: the first configured one.
    pub fn default_release(&self, continuity_reference: &str) -> (r: Option<&Release>)
        ensures
            match r {
                Some(rel) => spec_releases(*self, continuity_reference@).len() > 0 && *rel
                    == spec_releases(*self, continuity_reference@)[0],
                None => spec_releases(*self, continuity_reference@).len() == 0,
            },
    {
        match self.releases(continuity_reference) {
            Some(v) => {
                if v.len() > 0 {
                    Some(&v[0])
                } else {
                    None
                }
            },
            None => None,
        }
    }

    /// The release with the given reference name in the given continuity.
    pub fn release(&self, continuity_reference: &str, release_reference: &str) -> (r: Option<
        &Release,
    >)
        ensures
            match r {
                Some(rel) => spec_release(*self, continuity_reference@, release_reference@) == Some(
                    *rel,
                ),
                None => spec_release(*self, continuity_reference@, release_reference@) is None,
            },
    {
        let ghost rs_spec = spec_releases(*self, continuity_reference@);
        match self.releases(continuity_reference) {
            None => None,
            Some(rs) => {
                let n = rs.len();
                let mut i: usize = 0;
                while i < n
                    invariant
                        n == rs@.len(),
                        rs@ == rs_spec,
                        rs_spec == spec_releases(*self, continuity_reference@),
                        i <= n,
                        forall|k: int| 0 <= k < i ==> rs@[k].reference_name@
                            != release_reference@,
                    decreases n - i,
                {
                    if str_eq(rs[i].reference_name.as_str(), release_reference) {
                        proof {
                            assert(release_found_at(rs_spec, release_reference@, i as int));
                            let i0 = choose|j: int| release_found_at(rs_spec, release_reference@, j);
                            if i0 < i as int {
                                assert(rs_spec[i0].reference_name@ != release_reference@);
                            } else if (i as int) < i0 {
                                assert(rs_spec[i as int].reference_name@ != release_reference@);
                            }
                        }
                        return Some(&rs[i]);
                    }
                    i = i + 1;
                }
                None
            },
        }
    }

    /// Whether any continuity has other than exactly one release.
    pub fn has_multiple_releases(&self) -> (r: bool)
        ensures
            r == exists|i: int|
                0 <= i < self.continuities@.len() && spec_releases(
                    *self,
                    self.continuities@[i].reference_name@,
                ).len() != 1,
    {
        let n = self.continuities.len();
        let mut i: usize = 0;
        while i < n
            invariant
                n == self.continuities@.len(),
                i <= n,
                forall|k: int| 0 <= k < i ==> spec_releases(
                    *self,
                    self.continuities@[k].reference_name@,
                ).len() == 1,
            decreases n - i,
        {
            let count = match self.releases(self.continuities[i].reference_name.as_str()) {
                Some(v) => v.len(),
                None => 0,
            };
            if count != 1 {
                return true;
            }
            i = i + 1;
        }
        false
    }

    /// The pages of the given continuity, if any are configured.
    pub fn pages(&self, continuity_reference: &str) -> (r: Option<&Vec<Page>>)
        ensures
            match r {
                Some(v) => spec_pages(*self, continuity_reference@) == v@,
                None => spec_pages(*self, continuity_reference@) == Seq::<Page>::empty(),
            },
    {
        match assoc_get(&self.pages, continuity_reference) {
            Some(v) => Some(v),
            None => None,
        }
    }

    /// The default page of a continuity: the first configured one.
    pub fn default_page(&self, continuity_reference: &str) -> (r: Option<&Page>)
        ensures
            match r {
                Some(p) => spec_pages(*self, continuity_reference@).len() > 0 && *p == spec_pages(
                    *self,
                    continuity_reference@,
                )[0],
                None => spec_pages(*self, continuity_reference@).len() == 0,
            },
    {
        match self.pages(continuity_reference) {
            Some(v) => {
                if v.len() > 0 {
                    Some(&v[0])
                } else {
                    None
                }
            },
            None => None,
        }
    }

    /// The page with the given URL key in the given continuity.
    pub fn page(&self, continuity_reference: &str, page_reference: &str) -> (r: Option<&Page>)
        ensures
            match r {
                Some(p) => spec_page(*self, continuity_reference@, page_reference@) == Some(*p),
                None => spec_page(*self, continuity_reference@, page_reference@) is None,
            },
    {
        let ghost ps_spec = spec_pages(*self, continuity_reference@);
        match self.pages(continuity_reference) {
            None => None,
            Some(ps) => {
                let n = ps.len();
                let mut i: usize = 0;
                while i < n
                    invariant
                        n == ps@.len(),
                        ps@ == ps_spec,
                        ps_spec == spec_pages(*self, continuity_reference@),
                        i <= n,
                        forall|k: int| 0 <= k < i ==> ps@[k].page_url@ != page_reference@,
                    decreases n - i,
                {
                    if str_eq(ps[i].page_url.as_str(), page_reference) {
                        proof {
                            assert(page_found_at(ps_spec, page_reference@, i as int));
                            let i0 = choose|j: int| page_found_at(ps_spec, page_reference@, j);
                            if i0 < i as int {
                                assert(ps_spec[i0].page_url@ != page_reference@);
                            } else if (i as int) < i0 {
                                assert(ps_spec[i as int].page_url@ != page_reference@);
                            }
                        }
                        return Some(&ps[i]);
                    }
                    i = i + 1;
                }
                None
            },
        }
    }
}

/// The display name of a continuity: configured, or the title-cased
/// reference name.
pub open spec fn spec_cont_display_name(c: Continuity) -> Seq<char> {
    match c.display_name {
        Some(d) => d@,
        None => title_case_of(c.reference_name@),
    }
}

impl Continuity {
    /// The name the configuration refers to this continuity by.
    pub fn reference_name(&self) -> (r: &str)
        ensures
            r@ == self.reference_name@,
    {
        self.reference_name.as_str()
    }

    /// The name to display for this continuity.
    pub fn display_name(&self) -> (r: String)
        ensures
            r@ == spec_cont_display_name(*self),
    {
        match &self.display_name {
            Some(d) => d.clone(),
            None => title_case(self.reference_name.as_str()),
        }
    }

    /// The effective URL prefix of this continuity.
    pub fn url_prefix(&self) -> (r: String)
        ensures
            r@ == spec_cont_url_prefix(*self),
    {
        match &self.url_prefix {
            Some(p) => p.clone(),
            None => self.reference_name.clone(),
        }
    }

    /// The prefix scoping condition tokens to this continuity.
    pub fn prefix(&self) -> (r: &str)
        ensures
            r@ == self.prefix@,
    {
        self.prefix.as_str()
    }
}

/// The display name of a release: configured, or the title-cased reference
/// name.
pub open spec fn spec_release_display_name(rel: Release) -> Seq<char> {
    match rel.display_name {
        Some(d) => d@,
        None => title_case_of(rel.reference_name@),
    }
}

impl Release {
    /// The name conditions refer to this release by.
    pub fn reference_name(&self) -> (r: &str)
        ensures
            r@ == self.reference_name@,
    {
        self.reference_name.as_str()
    }

    /// The name to display for this release.
    pub fn display_name(&self) -> (r: String)
        ensures
            r@ == spec_release_display_name(*self),
    {
        match &self.display_name {
            Some(d) => d.clone(),
            None => title_case(self.reference_name.as_str()),
        }
    }

    /// The grouping directive of this release: `None` continues the current
    /// picker group, `Some(None)` leaves it, `Some(Some(label))` starts a
    /// new group.
    pub fn begins_group(&self) -> (r: Option<Option<&str>>)
        ensures
            match self.begins_group {
                None => r is None,
                Some(g) => if g@.len() == 0 {
                    r == Some(Option::<&str>::None)
                } else {
                    match r {
                        Some(Some(label)) => label@ == g@,
                        _ => false,
                    }
                },
            },
    {
        match &self.begins_group {
            None => None,
            Some(g) => {
                if g.as_str().unicode_len() == 0 {
                    Some(None)
                } else {
                    Some(Some(g.as_str()))
                }
            },
        }
    }
}

/// The display name of a page: configured, or the title-cased URL key.
pub open spec fn spec_page_display_name(p: Page) -> Seq<char> {
    match p.display_name {
        Some(d) => d@,
        None => title_case_of(p.page_url@),
    }
}

/// The conditionally active keyword tokens contributed by `kcs` from
/// position `i` on: the tokens of every entry whose conditions all hold.
pub open spec fn spec_cond_keywords_from(
    kcs: Seq<KeywordsCond>,
    observed: Set<Seq<char>>,
    prefix: Seq<char>,
    i: int,
) -> Result<Seq<Seq<char>>, ConfigError>
    decreases kcs.len() - i,
{
    if !(0 <= i < kcs.len()) {
        Ok(Seq::empty())
    } else {
        match spec_eval_all(observed, prefix, kcs[i].cond@.map_values(|c: String| c@)) {
            Err(e) => Err(e),
            Ok(b) => match spec_cond_keywords_from(kcs, observed, prefix, i + 1) {
                Err(e) => Err(e),
                Ok(tail) => Ok(
                    (if b {
                        spec_tokens(kcs[i].keywords@)
                    } else {
                        Seq::empty()
                    }) + tail,
                ),
            },
        }
    }
}

/// Every keyword token of a page under `observed`, repeats included: the
/// unconditional ones and those of every satisfied conditional set, in
/// configuration order.
pub open spec fn spec_page_keyword_stream(
    p: Page,
    observed: Set<Seq<char>>,
    prefix: Seq<char>,
) -> Result<Seq<Seq<char>>, ConfigError> {
    match spec_cond_keywords_from(p.keywords_cond@, observed, prefix, 0) {
        Err(e) => Err(e),
        Ok(tail) => Ok(spec_tokens(p.keywords@) + tail),
    }
}

/// The keyword set of a page under `observed`: the keyword token stream
/// with every later repeat dropped, so each token stands once, in
/// first-sight order.
pub open spec fn spec_page_keywords(
    p: Page,
    observed: Set<Seq<char>>,
    prefix: Seq<char>,
) -> Result<Seq<Seq<char>>, ConfigError> {
    match spec_page_keyword_stream(p, observed, prefix) {
        Err(e) => Err(e),
        Ok(all) => Ok(spec_dedup(all)),
    }
}

/// The conditionally active strings contributed from position `i` on, for
/// title peers.
pub open spec fn spec_cond_peers_from(
    pcs: Seq<TitlePeerCond>,
    observed: Set<Seq<char>>,
    prefix: Seq<char>,
    i: int,
) -> Result<Seq<Seq<char>>, ConfigError>
    decreases pcs.len() - i,
{
    if !(0 <= i < pcs.len()) {
        Ok(Seq::empty())
    } else {
        match spec_eval_all(observed, prefix, pcs[i].cond@.map_values(|c: String| c@)) {
            Err(e) => Err(e),
            Ok(b) => match spec_cond_peers_from(pcs, observed, prefix, i + 1) {
                Err(e) => Err(e),
                Ok(tail) => Ok(
                    (if b {
                        seq![pcs[i].peer@]
                    } else {
                        Seq::empty()
                    }) + tail,
                ),
            },
        }
    }
}

/// All alias titles of a page under `observed`.
pub open spec fn spec_page_title_peers(
    p: Page,
    observed: Set<Seq<char>>,
    prefix: Seq<char>,
) -> Result<Seq<Seq<char>>, ConfigError> {
    match spec_cond_peers_from(p.title_peers_cond@, observed, prefix, 0) {
        Err(e) => Err(e),
        Ok(tail) => Ok(p.title_peers@.map_values(|s: String| s@) + tail),
    }
}

/// The conditionally active strings contributed from position `i` on, for
/// categories.
pub open spec fn spec_cond_categories_from(
    ccs: Seq<CategoryCond>,
    observed: Set<Seq<char>>,
    prefix: Seq<char>,
    i: int,
) -> Result<Seq<Seq<char>>, ConfigError>
    decreases ccs.len() - i,
{
    if !(0 <= i < ccs.len()) {
        Ok(Seq::empty())
    } else {
        match spec_eval_all(observed, prefix, ccs[i].cond@.map_values(|c: String| c@)) {
            Err(e) => Err(e),
            Ok(b) => match spec_cond_categories_from(ccs, observed, prefix, i + 1) {
                Err(e) => Err(e),
                Ok(tail) => Ok(
                    (if b {
                        seq![ccs[i].category@]
                    } else {
                        Seq::empty()
                    }) + tail,
                ),
            },
        }
    }
}

/// All categories of a page under `observed`.
pub open spec fn spec_page_categories(
    p: Page,
    observed: Set<Seq<char>>,
    prefix: Seq<char>,
) -> Result<Seq<Seq<char>>, ConfigError> {
    match spec_cond_categories_from(p.categories_cond@, observed, prefix, 0) {
        Err(e) => Err(e),
        Ok(tail) => Ok(p.categories@.map_values(|s: String| s@) + tail),
    }
}

impl Page {
    /// The URL key of this page.
    pub fn page_url(&self) -> (r: &str)
        ensures
            r@ == self.page_url@,
    {
        self.page_url.as_str()
    }

    /// Where this page's markup text is fetched from.
    pub fn resource_path(&self) -> (r: &str)
        ensures
            r@ == self.resource_path@,
    {
        self.resource_path.as_str()
    }

    /// The name to display for this page.
    pub fn display_name(&self) -> (r: String)
        ensures
            r@ == spec_page_display_name(*self),
    {
        match &self.display_name {
            Some(d) => d.clone(),
            None => title_case(self.page_url.as_str()),
        }
    }

    /// Whether the page is visible under `observed`: all of its conditions
    /// hold. A malformed condition is an error, never "hidden".
    pub fn should_show(&self, observed: &ObservedSet, continuity_prefix: &str) -> (r: Result<
        bool,
        ConfigError,
    >)
        ensures
            r == spec_eval_all(
                observed@,
                continuity_prefix@,
                self.show_cond@.map_values(|c: String| c@),
            ),
    {
        should_show_all(observed, &self.show_cond, continuity_prefix)
    }

    /// The active keyword set of this page under `observed`: each token
    /// once, in first-sight order.
    pub fn keywords(&self, observed: &ObservedSet, continuity_prefix: &str) -> (r: Result<
        Vec<String>,
        ConfigError,
    >)
        ensures
            match r {
                Ok(v) => spec_page_keywords(*self, observed@, continuity_prefix@) == Ok::<
                    Seq<Seq<char>>,
                    ConfigError,
                >(v@.map_values(|s: String| s@)),
                Err(e) => spec_page_keywords(*self, observed@, continuity_prefix@) == Err::<
                    Seq<Seq<char>>,
                    ConfigError,
                >(e),
            },
    {
        let ghost obs = observed@;
        let ghost pfx = continuity_prefix@;
        let ghost kcs = self.keywords_cond@;
        let mut out = tokenize(self.keywords.as_str());
        let n = self.keywords_cond.len();
        let mut i: usize = 0;
        while i < n
            invariant
                n == kcs.len(),
                kcs == self.keywords_cond@,
                i <= n,
                obs == observed@,
                pfx == continuity_prefix@,
                match spec_cond_keywords_from(kcs, obs, pfx, i as int) {
                    Ok(tail) => spec_page_keyword_stream(*self, obs, pfx) == Ok::<Seq<Seq<char>>, ConfigError>(
                        out@.map_values(|s: String| s@) + tail,
                    ),
                    Err(e) => spec_page_keyword_stream(*self, obs, pfx) == Err::<Seq<Seq<char>>, ConfigError>(e),
                },
            decreases n - i,
        {
            let kc = &self.keywords_cond[i];
            match should_show_all(observed, &kc.cond, continuity_prefix) {
                Err(e) => {
                    return Err(e);
                },
                Ok(b) => {
                    let ghost prev = out@.map_values(|s: String| s@);
                    let ghost sel = if b {
                        spec_tokens(kcs[i as int].keywords@)
                    } else {
                        Seq::<Seq<char>>::empty()
                    };
                    if b {
                        let mut toks = tokenize(kc.keywords.as_str());
                        proof {
                            assert(toks@.map_values(|s: String| s@) == sel);
                        }
                        out.append(&mut toks);
                        proof {
                            assert(out@.map_values(|s: String| s@) =~= prev + sel);
                        }
                    } else {
                        proof {
                            assert(out@.map_values(|s: String| s@) =~= prev + sel);
                        }
                    }
                    proof {
                        match spec_cond_keywords_from(kcs, obs, pfx, i as int + 1) {
                            Ok(t) => {
                                assert((prev + sel) + t =~= prev + (sel + t));
                            },
                            Err(_) => {},
                        }
                    }
                },
            }
            i = i + 1;
        }
        proof {
            assert(out@.map_values(|s: String| s@) + Seq::<Seq<char>>::empty() =~= out@.map_values(
                |s: String| s@,
            ));
        }
        Ok(dedup_tokens(out))
    }

    /// The active alias titles of this page under `observed`.
    pub fn title_peers(&self, observed: &ObservedSet, continuity_prefix: &str) -> (r: Result<
        Vec<String>,
        ConfigError,
    >)
        ensures
            match r {
                Ok(v) => spec_page_title_peers(*self, observed@, continuity_prefix@) == Ok::<
                    Seq<Seq<char>>,
                    ConfigError,
                >(v@.map_values(|s: String| s@)),
                Err(e) => spec_page_title_peers(*self, observed@, continuity_prefix@) == Err::<
                    Seq<Seq<char>>,
                    ConfigError,
                >(e),
            },
    {
        let ghost obs = observed@;
        let ghost pfx = continuity_prefix@;
        let ghost pcs = self.title_peers_cond@;
        let mut out: Vec<String> = Vec::new();
        let base_n = self.title_peers.len();
        let mut bi: usize = 0;
        while bi < base_n
            invariant
                base_n == self.title_peers@.len(),
                bi <= base_n,
                out@.map_values(|s: String| s@) =~= self.title_peers@.subrange(
                    0,
                    bi as int,
                ).map_values(|s: String| s@),
            decreases base_n - bi,
        {
            let ghost prev = out@;
            out.push(self.title_peers[bi].clone());
            proof {
                let elem = self.title_peers@[bi as int];
                assert(out@ == prev.push(elem));
                assert(out@.map_values(|s: String| s@) =~= prev.map_values(|s: String| s@)
                    + seq![elem@]);
                assert(self.title_peers@.subrange(0, bi as int + 1).map_values(|s: String| s@)
                    =~= self.title_peers@.subrange(0, bi as int).map_values(|s: String| s@)
                    + seq![elem@]);
            }
            bi = bi + 1;
        }
        proof {
            assert(self.title_peers@.subrange(0, base_n as int) =~= self.title_peers@);
        }
        let n = self.title_peers_cond.len();
        let mut i: usize = 0;
        while i < n
            invariant
                n == pcs.len(),
                pcs == self.title_peers_cond@,
                i <= n,
                obs == observed@,
                pfx == continuity_prefix@,
                match spec_cond_peers_from(pcs, obs, pfx, i as int) {
                    Ok(tail) => spec_page_title_peers(*self, obs, pfx) == Ok::<Seq<Seq<char>>, ConfigError>(
                        out@.map_values(|s: String| s@) + tail,
                    ),
                    Err(e) => spec_page_title_peers(*self, obs, pfx) == Err::<Seq<Seq<char>>, ConfigError>(e),
                },
            decreases n - i,
        {
            let pc = &self.title_peers_cond[i];
            match should_show_all(observed, &pc.cond, continuity_prefix) {
                Err(e) => {
                    return Err(e);
                },
                Ok(b) => {
                    let ghost prev = out@.map_values(|s: String| s@);
                    let ghost sel = if b {
                        seq![pcs[i as int].peer@]
                    } else {
                        Seq::<Seq<char>>::empty()
                    };
                    if b {
                        out.push(pc.peer.clone());
                    }
                    proof {
                        assert(out@.map_values(|s: String| s@) =~= prev + sel);
                        match spec_cond_peers_from(pcs, obs, pfx, i as int + 1) {
                            Ok(t) => {
                                assert((prev + sel) + t =~= prev + (sel + t));
                            },
                            Err(_) => {},
                        }
                    }
                },
            }
            i = i + 1;
        }
        proof {
            assert(out@.map_values(|s: String| s@) + Seq::<Seq<char>>::empty() =~= out@.map_values(
                |s: String| s@,
            ));
        }
        Ok(out)
    }

    /// The active categories of this page under `observed`.
    pub fn categories(&self, observed: &ObservedSet, continuity_prefix: &str) -> (r: Result<
        Vec<String>,
        ConfigError,
    >)
        ensures
            match r {
                Ok(v) => spec_page_categories(*self, observed@, continuity_prefix@) == Ok::<
                    Seq<Seq<char>>,
                    ConfigError,
                >(v@.map_values(|s: String| s@)),
                Err(e) => spec_page_categories(*self, observed@, continuity_prefix@) == Err::<
                    Seq<Seq<char>>,
                    ConfigError,
                >(e),
            },
    {
        let ghost obs = observed@;
        let ghost pfx = continuity_prefix@;
        let ghost ccs = self.categories_cond@;
        let mut out: Vec<String> = Vec::new();
        let base_n = self.categories.len();
        let mut bi: usize = 0;
        while bi < base_n
            invariant
                base_n == self.categories@.len(),
                bi <= base_n,
                out@.map_values(|s: String| s@) =~= self.categories@.subrange(
                    0,
                    bi as int,
                ).map_values(|s: String| s@),
            decreases base_n - bi,
        {
            let ghost prev = out@;
            out.push(self.categories[bi].clone());
            proof {
                let elem = self.categories@[bi as int];
                assert(out@ == prev.push(elem));
                assert(out@.map_values(|s: String| s@) =~= prev.map_values(|s: String| s@)
                    + seq![elem@]);
                assert(self.categories@.subrange(0, bi as int + 1).map_values(|s: String| s@)
                    =~= self.categories@.subrange(0, bi as int).map_values(|s: String| s@)
                    + seq![elem@]);
            }
            bi = bi + 1;
        }
        proof {
            assert(self.categories@.subrange(0, base_n as int) =~= self.categories@);
        }
        let n = self.categories_cond.len();
        let mut i: usize = 0;
        while i < n
            invariant
                n == ccs.len(),
                ccs == self.categories_cond@,
                i <= n,
                obs == observed@,
                pfx == continuity_prefix@,
                match spec_cond_categories_from(ccs, obs, pfx, i as int) {
                    Ok(tail) => spec_page_categories(*self, obs, pfx) == Ok::<Seq<Seq<char>>, ConfigError>(
                        out@.map_values(|s: String| s@) + tail,
                    ),
                    Err(e) => spec_page_categories(*self, obs, pfx) == Err::<Seq<Seq<char>>, ConfigError>(e),
                },
            decreases n - i,
        {
            let cc = &self.categories_cond[i];
            match should_show_all(observed, &cc.cond, continuity_prefix) {
                Err(e) => {
                    return Err(e);
                },
                Ok(b) => {
                    let ghost prev = out@.map_values(|s: String| s@);
                    let ghost sel = if b {
                        seq![ccs[i as int].category@]
                    } else {
                        Seq::<Seq<char>>::empty()
                    };
                    if b {
                        out.push(cc.category.clone());
                    }
                    proof {
                        assert(out@.map_values(|s: String| s@) =~= prev + sel);
                        match spec_cond_categories_from(ccs, obs, pfx, i as int + 1) {
                            Ok(t) => {
                                assert((prev + sel) + t =~= prev + (sel + t));
                            },
                            Err(_) => {},
                        }
                    }
                },
            }
            i = i + 1;
        }
        proof {
            assert(out@.map_values(|s: String| s@) + Seq::<Seq<char>>::empty() =~= out@.map_values(
                |s: String| s@,
            ));
        }
        Ok(out)
    }
}

} // verus!
