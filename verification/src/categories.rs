//! The category listing: every visible page grouped under its active
//! categories, categories and pages alphabetically ordered.

use vstd::prelude::*;
use crate::cond::{spec_eval_all, ConfigError};
use crate::manifest::{spec_page_categories, spec_page_display_name, Page};
use crate::observed::ObservedSet;
use crate::text::{seq_lt, str_eq, str_lt};

verus! {

/// A page reference in a category listing.
pub struct PageRef {
    pub page_url: String,
    pub display_name: String,
}

/// The spec view of a page reference.
pub open spec fn page_ref_view(p: PageRef) -> (Seq<char>, Seq<char>) {
    (p.page_url@, p.display_name@)
}

/// One category with its pages.
pub struct CategoryGroup {
    pub category: String,
    pub pages: Vec<PageRef>,
}

/// The spec view of a category group.
pub open spec fn group_view(g: CategoryGroup) -> (Seq<char>, Seq<(Seq<char>, Seq<char>)>) {
    (g.category@, g.pages@.map_values(|p: PageRef| page_ref_view(p)))
}

/// The spec view of a group list.
pub open spec fn groups_view(s: Seq<CategoryGroup>) -> Seq<
    (Seq<char>, Seq<(Seq<char>, Seq<char>)>),
> {
    s.map_values(|g: CategoryGroup| group_view(g))
}

/// The (category, page) pairs of the visible pages from position `i` on,
/// in page order, then category order within a page.
pub open spec fn spec_cat_pairs_from(
    pages: Seq<Page>,
    observed: Set<Seq<char>>,
    prefix: Seq<char>,
    i: int,
) -> Result<Seq<(Seq<char>, (Seq<char>, Seq<char>))>, ConfigError>
    decreases pages.len() - i,
{
    if !(0 <= i < pages.len()) {
        Ok(Seq::empty())
    } else {
        let p = pages[i];
        match spec_eval_all(observed, prefix, p.show_cond@.map_values(|c: String| c@)) {
            Err(e) => Err(e),
            Ok(false) => spec_cat_pairs_from(pages, observed, prefix, i + 1),
            Ok(true) => match spec_page_categories(p, observed, prefix) {
                Err(e) => Err(e),
                Ok(cats) => match spec_cat_pairs_from(pages, observed, prefix, i + 1) {
                    Err(e) => Err(e),
                    Ok(rest) => Ok(
                        cats.map_values(
                            |c: Seq<char>| (c, (p.page_url@, spec_page_display_name(p))),
                        ) + rest,
                    ),
                },
            },
        }
    }
}

/// Adds one (category, page) pair: to the first group with that category,
/// or as a new group at the end.
pub open spec fn spec_group_add(
    groups: Seq<(Seq<char>, Seq<(Seq<char>, Seq<char>)>)>,
    cat: Seq<char>,
    pr: (Seq<char>, Seq<char>),
) -> Seq<(Seq<char>, Seq<(Seq<char>, Seq<char>)>)>
    decreases groups.len(),
{
    if groups.len() == 0 {
        seq![(cat, seq![pr])]
    } else if groups[0].0 == cat {
        seq![(groups[0].0, groups[0].1.push(pr))] + groups.drop_first()
    } else {
        seq![groups[0]] + spec_group_add(groups.drop_first(), cat, pr)
    }
}

/// Groups all pairs, in pair order.
pub open spec fn spec_group_fold(pairs: Seq<(Seq<char>, (Seq<char>, Seq<char>))>) -> Seq<
    (Seq<char>, Seq<(Seq<char>, Seq<char>)>),
>
    decreases pairs.len(),
{
    if pairs.len() == 0 {
        Seq::empty()
    } else {
        spec_group_add(spec_group_fold(pairs.drop_last()), pairs.last().0, pairs.last().1)
    }
}

/// Inserts a group into a list sorted by category name.
pub open spec fn spec_insert_group(
    x: (Seq<char>, Seq<(Seq<char>, Seq<char>)>),
    sorted: Seq<(Seq<char>, Seq<(Seq<char>, Seq<char>)>)>,
) -> Seq<(Seq<char>, Seq<(Seq<char>, Seq<char>)>)>
    decreases sorted.len(),
{
    if sorted.len() == 0 {
        seq![x]
    } else if seq_lt(x.0, sorted[0].0) {
        seq![x] + sorted
    } else {
        seq![sorted[0]] + spec_insert_group(x, sorted.drop_first())
    }
}

/// Sorts groups by category name, stably.
pub open spec fn spec_sort_groups(s: Seq<(Seq<char>, Seq<(Seq<char>, Seq<char>)>)>) -> Seq<
    (Seq<char>, Seq<(Seq<char>, Seq<char>)>),
>
    decreases s.len(),
{
    if s.len() == 0 {
        Seq::empty()
    } else {
        spec_insert_group(s.last(), spec_sort_groups(s.drop_last()))
    }
}

/// Inserts a page into a list sorted by display name.
pub open spec fn spec_insert_page(
    x: (Seq<char>, Seq<char>),
    sorted: Seq<(Seq<char>, Seq<char>)>,
) -> Seq<(Seq<char>, Seq<char>)>
    decreases sorted.len(),
{
    if sorted.len() == 0 {
        seq![x]
    } else if seq_lt(x.1, sorted[0].1) {
        seq![x] + sorted
    } else {
        seq![sorted[0]] + spec_insert_page(x, sorted.drop_first())
    }
}

/// Sorts pages by display name, stably.
pub open spec fn spec_sort_pages(s: Seq<(Seq<char>, Seq<char>)>) -> Seq<(Seq<char>, Seq<char>)>
    decreases s.len(),
{
    if s.len() == 0 {
        Seq::empty()
    } else {
        spec_insert_page(s.last(), spec_sort_pages(s.drop_last()))
    }
}

/// What the category listing holds: visible pages grouped by their active
/// categories, groups sorted by category name, pages within a group sorted
/// by display name.
pub open spec fn spec_categorize(
    pages: Seq<Page>,
    observed: Set<Seq<char>>,
    prefix: Seq<char>,
) -> Result<Seq<(Seq<char>, Seq<(Seq<char>, Seq<char>)>)>, ConfigError> {
    match spec_cat_pairs_from(pages, observed, prefix, 0) {
        Err(e) => Err(e),
        Ok(pairs) => Ok(
            spec_sort_groups(spec_group_fold(pairs)).map_values(
                |g: (Seq<char>, Seq<(Seq<char>, Seq<char>)>)| (g.0, spec_sort_pages(g.1)),
            ),
        ),
    }
}

/// Adding to the group at the first matching position appends to it.
proof fn lemma_group_add_found(
    groups: Seq<(Seq<char>, Seq<(Seq<char>, Seq<char>)>)>,
    cat: Seq<char>,
    pr: (Seq<char>, Seq<char>),
    j: int,
)
    requires
        0 <= j < groups.len(),
        groups[j].0 == cat,
        forall|k: int| 0 <= k < j ==> groups[k].0 != cat,
    ensures
        spec_group_add(groups, cat, pr) == groups.update(
            j,
            (groups[j].0, groups[j].1.push(pr)),
        ),
    decreases j,
{
    if j == 0 {
        assert(spec_group_add(groups, cat, pr) =~= groups.update(
            0,
            (groups[0].0, groups[0].1.push(pr)),
        ));
    } else {
        assert(groups[0].0 != cat);
        let tail = groups.drop_first();
        assert forall|k: int| 0 <= k < j - 1 implies tail[k].0 != cat by {
            assert(tail[k] == groups[k + 1]);
        }
        assert(tail[j - 1] == groups[j]);
        lemma_group_add_found(tail, cat, pr, j - 1);
        assert(seq![groups[0]] + tail.update(j - 1, (tail[j - 1].0, tail[j - 1].1.push(pr)))
            =~= groups.update(j, (groups[j].0, groups[j].1.push(pr))));
    }
}

/// Adding a category no group holds yet appends a new group.
proof fn lemma_group_add_missing(
    groups: Seq<(Seq<char>, Seq<(Seq<char>, Seq<char>)>)>,
    cat: Seq<char>,
    pr: (Seq<char>, Seq<char>),
)
    requires
        forall|k: int| 0 <= k < groups.len() ==> groups[k].0 != cat,
    ensures
        spec_group_add(groups, cat, pr) == groups.push((cat, seq![pr])),
    decreases groups.len(),
{
    if groups.len() == 0 {
        assert(spec_group_add(groups, cat, pr) =~= groups.push((cat, seq![pr])));
    } else {
        let tail = groups.drop_first();
        assert forall|k: int| 0 <= k < tail.len() implies tail[k].0 != cat by {
            assert(tail[k] == groups[k + 1]);
        }
        lemma_group_add_missing(tail, cat, pr);
        assert(seq![groups[0]] + tail.push((cat, seq![pr])) =~= groups.push((cat, seq![pr])));
    }
}

/// Adds one pair to the groups.
fn group_add(groups: &mut Vec<CategoryGroup>, cat: &str, page_url: String, display_name: String)
    ensures
        groups_view(final(groups)@) == spec_group_add(
            groups_view(old(groups)@),
            cat@,
            (page_url@, display_name@),
        ),
{
    let ghost gv = groups_view(groups@);
    let ghost prv = (page_url@, display_name@);
    let n = groups.len();
    let mut j: usize = 0;
    while j < n
        invariant
            n == groups@.len(),
            j <= n,
            gv == groups_view(groups@),
            gv == groups_view(old(groups)@),
            prv == (page_url@, display_name@),
            forall|k: int| 0 <= k < j ==> gv[k].0 != cat@,
        decreases n - j,
    {
        proof {
            assert(gv[j as int] == group_view(groups@[j as int]));
        }
        if str_eq(groups[j].category.as_str(), cat) {
            let mut g = groups.remove(j);
            proof {
                assert(groups_view(groups@) =~= gv.remove(j as int));
            }
            let ghost g0 = g;
            let pr = PageRef { page_url, display_name };
            proof {
                assert(pr.page_url@ == prv.0);
                assert(pr.display_name@ == prv.1);
            }
            let ghost prg = pr;
            g.pages.push(pr);
            let ghost ginserted = group_view(g);
            proof {
                assert(g.pages@ =~= g0.pages@.push(prg));
                assert(group_view(g).1 =~= group_view(g0).1.push(prv));
                assert(group_view(g0) == gv[j as int]);
                assert(ginserted == (gv[j as int].0, gv[j as int].1.push(prv)));
            }
            groups.insert(j, g);
            proof {
                assert(groups_view(groups@) =~= gv.remove(j as int).insert(j as int, ginserted));
                assert(gv.remove(j as int).insert(j as int, ginserted) =~= gv.update(
                    j as int,
                    ginserted,
                ));
                lemma_group_add_found(gv, cat@, prv, j as int);
            }
            return ;
        }
        j = j + 1;
    }
    let pr = PageRef { page_url, display_name };
    let ghost prg = pr;
    proof {
        assert(page_ref_view(prg) == prv);
    }
    let mut pages_one: Vec<PageRef> = Vec::new();
    pages_one.push(pr);
    let fresh = CategoryGroup { category: String::from_str(cat), pages: pages_one };
    let ghost freshv = group_view(fresh);
    proof {
        assert(fresh.pages@ =~= Seq::<PageRef>::empty().push(prg));
        assert(group_view(fresh).1 =~= seq![prv]);
        assert(freshv == (cat@, seq![prv]));
    }
    groups.push(fresh);
    proof {
        lemma_group_add_missing(gv, cat@, prv);
        assert(groups_view(groups@) =~= gv.push(freshv));
    }
}


/// Inserting before the first strictly greater category name is what
/// [`spec_insert_group`] does.
proof fn lemma_insert_group_at(
    x: (Seq<char>, Seq<(Seq<char>, Seq<char>)>),
    s: Seq<(Seq<char>, Seq<(Seq<char>, Seq<char>)>)>,
    j: int,
)
    requires
        0 <= j <= s.len(),
        forall|k: int| 0 <= k < j ==> !seq_lt(x.0, s[k].0),
        j < s.len() ==> seq_lt(x.0, s[j].0),
    ensures
        spec_insert_group(x, s) == s.subrange(0, j) + seq![x] + s.subrange(j, s.len() as int),
    decreases j,
{
    if j == 0 {
        if s.len() == 0 {
            assert(spec_insert_group(x, s) =~= s.subrange(0, 0) + seq![x] + s.subrange(0, 0));
        } else {
            assert(seq![x] + s =~= s.subrange(0, 0) + seq![x] + s.subrange(0, s.len() as int));
        }
    } else {
        assert(!seq_lt(x.0, s[0].0));
        let tail = s.drop_first();
        assert forall|k: int| 0 <= k < j - 1 implies !seq_lt(x.0, tail[k].0) by {
            assert(tail[k] == s[k + 1]);
        }
        lemma_insert_group_at(x, tail, j - 1);
        assert(seq![s[0]] + (tail.subrange(0, j - 1) + seq![x] + tail.subrange(
            j - 1,
            tail.len() as int,
        )) =~= s.subrange(0, j) + seq![x] + s.subrange(j, s.len() as int));
    }
}

/// Inserts a group into a list sorted by category name.
fn insert_group(sorted: &mut Vec<CategoryGroup>, x: CategoryGroup)
    ensures
        groups_view(final(sorted)@) == spec_insert_group(group_view(x), groups_view(old(sorted)@)),
{
    let ghost sv = groups_view(sorted@);
    let ghost xv = group_view(x);
    let n = sorted.len();
    let mut j: usize = 0;
    while j < n && !str_lt(x.category.as_str(), sorted[j].category.as_str())
        invariant
            n == sorted@.len(),
            j <= n,
            sv == groups_view(sorted@),
            sv == groups_view(old(sorted)@),
            xv == group_view(x),
            forall|k: int| 0 <= k < j ==> !seq_lt(xv.0, sv[k].0),
        decreases n - j,
    {
        proof {
            assert(sv[j as int] == group_view(sorted@[j as int]));
        }
        j = j + 1;
    }
    proof {
        if j < n {
            assert(sv[j as int] == group_view(sorted@[j as int]));
        }
        lemma_insert_group_at(xv, sv, j as int);
    }
    sorted.insert(j, x);
    proof {
        assert(groups_view(sorted@) =~= sv.subrange(0, j as int) + seq![xv] + sv.subrange(
            j as int,
            sv.len() as int,
        ));
    }
}

/// Sorts groups by category name, stably.
fn sort_groups(groups: Vec<CategoryGroup>) -> (r: Vec<CategoryGroup>)
    ensures
        groups_view(r@) == spec_sort_groups(groups_view(groups@)),
{
    let ghost orig = groups@;
    let mut rest = groups;
    let mut out: Vec<CategoryGroup> = Vec::new();
    while rest.len() > 0
        invariant
            orig.len() >= rest@.len(),
            rest@ =~= orig.subrange(orig.len() - rest@.len(), orig.len() as int),
            groups_view(out@) == spec_sort_groups(
                groups_view(orig.subrange(0, orig.len() - rest@.len())),
            ),
        decreases rest@.len(),
    {
        let ghost k = orig.len() - rest@.len();
        let x = rest.remove(0);
        proof {
            assert(x == orig[k as int]);
            assert(rest@ =~= orig.subrange(k + 1, orig.len() as int));
        }
        insert_group(&mut out, x);
        proof {
            let done = orig.subrange(0, k + 1);
            assert(done.drop_last() =~= orig.subrange(0, k as int));
            assert(done.last() == orig[k as int]);
            assert(groups_view(done).drop_last() =~= groups_view(done.drop_last()));
            assert(groups_view(done).last() == group_view(orig[k as int]));
            assert(groups_view(out@) == spec_sort_groups(groups_view(done))) by {
                assert(spec_sort_groups(groups_view(done)) == spec_insert_group(
                    groups_view(done).last(),
                    spec_sort_groups(groups_view(done).drop_last()),
                ));
            }
        }
    }
    proof {
        assert(orig.subrange(0, orig.len() as int) =~= orig);
    }
    out
}

/// The spec view of a page reference list.
pub open spec fn page_refs_view(s: Seq<PageRef>) -> Seq<(Seq<char>, Seq<char>)> {
    s.map_values(|p: PageRef| page_ref_view(p))
}

/// Inserting before the first strictly greater display name is what
/// [`spec_insert_page`] does.
proof fn lemma_insert_page_at(
    x: (Seq<char>, Seq<char>),
    s: Seq<(Seq<char>, Seq<char>)>,
    j: int,
)
    requires
        0 <= j <= s.len(),
        forall|k: int| 0 <= k < j ==> !seq_lt(x.1, s[k].1),
        j < s.len() ==> seq_lt(x.1, s[j].1),
    ensures
        spec_insert_page(x, s) == s.subrange(0, j) + seq![x] + s.subrange(j, s.len() as int),
    decreases j,
{
    if j == 0 {
        if s.len() == 0 {
            assert(spec_insert_page(x, s) =~= s.subrange(0, 0) + seq![x] + s.subrange(0, 0));
        } else {
            assert(seq![x] + s =~= s.subrange(0, 0) + seq![x] + s.subrange(0, s.len() as int));
        }
    } else {
        assert(!seq_lt(x.1, s[0].1));
        let tail = s.drop_first();
        assert forall|k: int| 0 <= k < j - 1 implies !seq_lt(x.1, tail[k].1) by {
            assert(tail[k] == s[k + 1]);
        }
        lemma_insert_page_at(x, tail, j - 1);
        assert(seq![s[0]] + (tail.subrange(0, j - 1) + seq![x] + tail.subrange(
            j - 1,
            tail.len() as int,
        )) =~= s.subrange(0, j) + seq![x] + s.subrange(j, s.len() as int));
    }
}

/// Inserts a page into a list sorted by display name.
fn insert_page_ref(sorted: &mut Vec<PageRef>, x: PageRef)
    ensures
        page_refs_view(final(sorted)@) == spec_insert_page(
            page_ref_view(x),
            page_refs_view(old(sorted)@),
        ),
{
    let ghost sv = page_refs_view(sorted@);
    let ghost xv = page_ref_view(x);
    let n = sorted.len();
    let mut j: usize = 0;
    while j < n && !str_lt(x.display_name.as_str(), sorted[j].display_name.as_str())
        invariant
            n == sorted@.len(),
            j <= n,
            sv == page_refs_view(sorted@),
            sv == page_refs_view(old(sorted)@),
            xv == page_ref_view(x),
            forall|k: int| 0 <= k < j ==> !seq_lt(xv.1, sv[k].1),
        decreases n - j,
    {
        proof {
            assert(sv[j as int] == page_ref_view(sorted@[j as int]));
        }
        j = j + 1;
    }
    proof {
        if j < n {
            assert(sv[j as int] == page_ref_view(sorted@[j as int]));
        }
        lemma_insert_page_at(xv, sv, j as int);
    }
    sorted.insert(j, x);
    proof {
        assert(page_refs_view(sorted@) =~= sv.subrange(0, j as int) + seq![xv] + sv.subrange(
            j as int,
            sv.len() as int,
        ));
    }
}

/// Sorts pages by display name, stably.
fn sort_page_refs(pages: Vec<PageRef>) -> (r: Vec<PageRef>)
    ensures
        page_refs_view(r@) == spec_sort_pages(page_refs_view(pages@)),
{
    let ghost orig = pages@;
    let mut rest = pages;
    let mut out: Vec<PageRef> = Vec::new();
    while rest.len() > 0
        invariant
            orig.len() >= rest@.len(),
            rest@ =~= orig.subrange(orig.len() - rest@.len(), orig.len() as int),
            page_refs_view(out@) == spec_sort_pages(
                page_refs_view(orig.subrange(0, orig.len() - rest@.len())),
            ),
        decreases rest@.len(),
    {
        let ghost k = orig.len() - rest@.len();
        let x = rest.remove(0);
        proof {
            assert(x == orig[k as int]);
            assert(rest@ =~= orig.subrange(k + 1, orig.len() as int));
        }
        insert_page_ref(&mut out, x);
        proof {
            let done = orig.subrange(0, k + 1);
            assert(done.drop_last() =~= orig.subrange(0, k as int));
            assert(done.last() == orig[k as int]);
            assert(page_refs_view(done).drop_last() =~= page_refs_view(done.drop_last()));
            assert(page_refs_view(done).last() == page_ref_view(orig[k as int]));
            assert(page_refs_view(out@) == spec_sort_pages(page_refs_view(done))) by {
                assert(spec_sort_pages(page_refs_view(done)) == spec_insert_page(
                    page_refs_view(done).last(),
                    spec_sort_pages(page_refs_view(done).drop_last()),
                ));
            }
        }
    }
    proof {
        assert(orig.subrange(0, orig.len() as int) =~= orig);
    }
    out
}

/// The spec view of a pair list.
pub open spec fn pairs_view(s: Seq<(String, (String, String))>) -> Seq<
    (Seq<char>, (Seq<char>, Seq<char>)),
> {
    s.map_values(|p: (String, (String, String))| (p.0@, (p.1.0@, p.1.1@)))
}

/// Builds the category listing of the visible pages: groups in category
/// name order, pages within a group in display name order, both made by
/// stable insertion; a malformed condition token aborts the listing.
pub fn categorize(
    pages: &Vec<Page>,
    observed: &ObservedSet,
    continuity_prefix: &str,
) -> (r: Result<Vec<CategoryGroup>, ConfigError>)
    ensures
        match r {
            Ok(groups) => spec_categorize(pages@, observed@, continuity_prefix@) == Ok::<
                _,
                ConfigError,
            >(groups_view(groups@)),
            Err(e) => spec_categorize(pages@, observed@, continuity_prefix@) == Err::<
                Seq<(Seq<char>, Seq<(Seq<char>, Seq<char>)>)>,
                ConfigError,
            >(e),
        },
{
    let ghost obs = observed@;
    let ghost pfx = continuity_prefix@;
    let mut pairs: Vec<(String, (String, String))> = Vec::new();
    let np = pages.len();
    let mut i: usize = 0;
    proof {
        match spec_cat_pairs_from(pages@, obs, pfx, 0) {
            Ok(rest) => {
                assert(Seq::<(Seq<char>, (Seq<char>, Seq<char>))>::empty() + rest =~= rest);
            },
            Err(_) => {},
        }
    }
    while i < np
        invariant
            np == pages@.len(),
            i <= np,
            obs == observed@,
            pfx == continuity_prefix@,
            match spec_cat_pairs_from(pages@, obs, pfx, i as int) {
                Ok(rest) => spec_cat_pairs_from(pages@, obs, pfx, 0) == Ok::<
                    Seq<(Seq<char>, (Seq<char>, Seq<char>))>,
                    ConfigError,
                >(pairs_view(pairs@) + rest),
                Err(e) => spec_cat_pairs_from(pages@, obs, pfx, 0) == Err::<
                    Seq<(Seq<char>, (Seq<char>, Seq<char>))>,
                    ConfigError,
                >(e),
            },
        decreases np - i,
    {
        let ghost iold = i as int;
        let ghost prev = pairs_view(pairs@);
        let p = &pages[i];
        match p.should_show(observed, continuity_prefix) {
            Err(e) => {
                proof {
                    assert(spec_cat_pairs_from(pages@, obs, pfx, iold) == Err::<
                        Seq<(Seq<char>, (Seq<char>, Seq<char>))>,
                        ConfigError,
                    >(e));
                }
                return Err(e);
            },
            Ok(false) => {
                i = i + 1;
            },
            Ok(true) => {
                let cats = match p.categories(observed, continuity_prefix) {
                    Err(e) => {
                        proof {
                            assert(spec_cat_pairs_from(pages@, obs, pfx, iold) == Err::<
                                Seq<(Seq<char>, (Seq<char>, Seq<char>))>,
                                ConfigError,
                            >(e));
                        }
                        return Err(e);
                    },
                    Ok(v) => v,
                };
                let dn = p.display_name();
                let ghost pv = pages@[iold];
                let ghost here = cats@.map_values(|t: String| t@).map_values(
                    |c: Seq<char>| (c, (pv.page_url@, spec_page_display_name(pv))),
                );
                let nc = cats.len();
                let mut ci: usize = 0;
                while ci < nc
                    invariant
                        nc == cats@.len(),
                        ci <= nc,
                        np == pages@.len(),
                        i < np,
                        i as int == iold,
                        here == cats@.map_values(|t: String| t@).map_values(
                            |c: Seq<char>| (c, (pv.page_url@, spec_page_display_name(pv))),
                        ),
                        pv.page_url@ == pages@[iold].page_url@,
                        spec_page_display_name(pv) == spec_page_display_name(pages@[iold]),
                        dn@ == spec_page_display_name(pv),
                        pages@[iold].page_url@ == pv.page_url@,
                        pv == pages@[iold],
                        pairs_view(pairs@) =~= prev + here.subrange(0, ci as int),
                    decreases nc - ci,
                {
                    let ghost before = pairs_view(pairs@);
                    pairs.push((cats[ci].clone(), (pages[i].page_url.clone(), dn.clone())));
                    proof {
                        assert(pairs_view(pairs@) =~= before.push(
                            (cats@[ci as int]@, (pv.page_url@, dn@)),
                        ));
                        assert(here[ci as int] == (
                            cats@[ci as int]@,
                            (pv.page_url@, spec_page_display_name(pv)),
                        ));
                        assert(prev + here.subrange(0, ci as int + 1) =~= (prev + here.subrange(
                            0,
                            ci as int,
                        )).push(here[ci as int]));
                    }
                    ci = ci + 1;
                }
                i = i + 1;
                proof {
                    assert(here.subrange(0, nc as int) =~= here);
                    match spec_cat_pairs_from(pages@, obs, pfx, i as int) {
                        Ok(rest) => {
                            assert((prev + here) + rest =~= prev + (here + rest));
                        },
                        Err(_) => {},
                    }
                }
            },
        }
    }
    proof {
        match spec_cat_pairs_from(pages@, obs, pfx, np as int) {
            Ok(rest) => {
                assert(pairs_view(pairs@) + rest =~= pairs_view(pairs@));
            },
            Err(_) => {
                assert(false);
            },
        }
    }
    let ghost all_pairs = pairs_view(pairs@);
    let mut groups: Vec<CategoryGroup> = Vec::new();
    let npair = pairs.len();
    let mut k: usize = 0;
    while k < npair
        invariant
            npair == pairs@.len(),
            k <= npair,
            all_pairs == pairs_view(pairs@),
            groups_view(groups@) == spec_group_fold(all_pairs.subrange(0, k as int)),
        decreases npair - k,
    {
        let cat = pairs[k].0.clone();
        let url = pairs[k].1.0.clone();
        let title = pairs[k].1.1.clone();
        group_add(&mut groups, cat.as_str(), url, title);
        proof {
            let done = all_pairs.subrange(0, k as int + 1);
            assert(done.drop_last() =~= all_pairs.subrange(0, k as int));
            assert(done.last() == all_pairs[k as int]);
            assert(all_pairs[k as int] == (
                pairs@[k as int].0@,
                (pairs@[k as int].1.0@, pairs@[k as int].1.1@),
            ));
        }
        k = k + 1;
    }
    proof {
        assert(all_pairs.subrange(0, npair as int) =~= all_pairs);
    }
    let sorted = sort_groups(groups);
    let ghost sortedv = groups_view(sorted@);
    let mut rest = sorted;
    let mut out: Vec<CategoryGroup> = Vec::new();
    while rest.len() > 0
        invariant
            sortedv.len() >= rest@.len(),
            groups_view(rest@) =~= sortedv.subrange(
                sortedv.len() - rest@.len(),
                sortedv.len() as int,
            ),
            groups_view(out@) =~= sortedv.subrange(0, sortedv.len() - rest@.len()).map_values(
                |g: (Seq<char>, Seq<(Seq<char>, Seq<char>)>)| (g.0, spec_sort_pages(g.1)),
            ),
        decreases rest@.len(),
    {
        let ghost k2 = sortedv.len() - rest@.len();
        let ghost pre = rest@;
        let g = rest.remove(0);
        proof {
            assert(g == pre[0]);
            assert(groups_view(pre)[0] == group_view(pre[0]));
            assert(group_view(g) == sortedv[k2 as int]);
            assert(rest@ =~= pre.drop_first());
            assert forall|t: int| 0 <= t < rest@.len() implies groups_view(rest@)[t]
                == sortedv.subrange(k2 + 1, sortedv.len() as int)[t] by {
                assert(rest@[t] == pre[t + 1]);
                assert(groups_view(pre)[t + 1] == group_view(pre[t + 1]));
                assert(groups_view(rest@)[t] == group_view(rest@[t]));
            }
            assert(groups_view(rest@) =~= sortedv.subrange(k2 + 1, sortedv.len() as int));
        }
        let ghost gv2 = group_view(g);
        let sorted_pages = sort_page_refs(g.pages);
        proof {
            assert(page_refs_view(sorted_pages@) == spec_sort_pages(gv2.1));
        }
        let rebuilt = CategoryGroup { category: g.category, pages: sorted_pages };
        proof {
            assert(group_view(rebuilt).0 == gv2.0);
            assert(group_view(rebuilt).1 == spec_sort_pages(gv2.1));
        }
        let ghost outpre = out@;
        let ghost rb = rebuilt;
        out.push(rebuilt);
        proof {
            let target = sortedv.subrange(0, k2 + 1).map_values(
                |g: (Seq<char>, Seq<(Seq<char>, Seq<char>)>)| (g.0, spec_sort_pages(g.1)),
            );
            let prefix_target = sortedv.subrange(0, k2 as int).map_values(
                |g: (Seq<char>, Seq<(Seq<char>, Seq<char>)>)| (g.0, spec_sort_pages(g.1)),
            );
            assert(groups_view(outpre).len() == outpre.len());
            assert(prefix_target.len() == k2);
            assert(outpre.len() == k2);
            assert(out@ == outpre.push(rb));
            assert(out@.len() == k2 + 1);
            assert(target.len() == k2 + 1);
            assert forall|t: int| 0 <= t < out@.len() implies groups_view(out@)[t] == target[t] by {
                assert(groups_view(out@)[t] == group_view(out@[t]));
                assert(target[t] == (
                    sortedv.subrange(0, k2 + 1)[t].0,
                    spec_sort_pages(sortedv.subrange(0, k2 + 1)[t].1),
                ));
                if t < k2 {
                    assert(out@[t] == outpre[t]);
                    assert(groups_view(outpre)[t] == group_view(outpre[t]));
                    assert(prefix_target[t] == (
                        sortedv.subrange(0, k2 as int)[t].0,
                        spec_sort_pages(sortedv.subrange(0, k2 as int)[t].1),
                    ));
                } else {
                    assert(out@[t] == rb);
                    assert(group_view(rb) == (
                        sortedv[k2 as int].0,
                        spec_sort_pages(sortedv[k2 as int].1),
                    ));
                }
            }
            assert(groups_view(out@) =~= target);
        }
    }
    proof {
        assert(sortedv.subrange(0, sortedv.len() as int) =~= sortedv);
        assert(groups_view(out@) =~= spec_sort_groups(spec_group_fold(all_pairs)).map_values(
            |g: (Seq<char>, Seq<(Seq<char>, Seq<char>)>)| (g.0, spec_sort_pages(g.1)),
        ));
    }
    Ok(out)
}

} // verus!
