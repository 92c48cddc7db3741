//! The release visibility tracker.
//!
//! From the configuration and the reader's selected release per continuity it
//! computes the observed set: every release at or before the effective
//! selection, across all continuities. A selection that matches no configured
//! release contributes nothing and is reported by [`unmatched_selections`],
//! never silently widened to the whole sequence.

use vstd::prelude::*;
use crate::assoc::{assoc_get, spec_assoc};
use crate::manifest::{release_found_at, spec_releases, Continuity, Manifest, Release};
use crate::observed::ObservedSet;
use crate::text::str_eq;

verus! {

/// The effective selection for a continuity: the reader's stored choice if
/// present, else the first configured release, else nothing.
pub open spec fn spec_active(m: Manifest, sels: Seq<(String, String)>, cont: Seq<char>) -> Option<
    Seq<char>,
> {
    match spec_assoc(sels, cont) {
        Some(rel) => Some(rel@),
        None => if spec_releases(m, cont).len() > 0 {
            Some(spec_releases(m, cont)[0].reference_name@)
        } else {
            None
        },
    }
}

/// What one release sequence contributes for selection `sel`: every release
/// up to and including the first match, or nothing when none matches.
pub open spec fn spec_contribution(rs: Seq<Release>, sel: Seq<char>) -> Set<Seq<char>> {
    if exists|i: int| release_found_at(rs, sel, i) {
        let k = choose|i: int| release_found_at(rs, sel, i);
        Set::new(|x: Seq<char>| exists|j: int| 0 <= j <= k && rs[j].reference_name@ == x)
    } else {
        Set::empty()
    }
}

/// What one continuity contributes to the observed set.
pub open spec fn spec_cont_contribution(
    m: Manifest,
    sels: Seq<(String, String)>,
    c: Continuity,
) -> Set<Seq<char>> {
    match spec_active(m, sels, c.reference_name@) {
        Some(sel) => spec_contribution(spec_releases(m, c.reference_name@), sel),
        None => Set::empty(),
    }
}

/// The union of the contributions of the first `i` continuities.
pub open spec fn spec_observed_prefix(m: Manifest, sels: Seq<(String, String)>, i: int) -> Set<
    Seq<char>,
>
    decreases i,
{
    if i <= 0 {
        Set::empty()
    } else {
        spec_observed_prefix(m, sels, i - 1) + spec_cont_contribution(
            m,
            sels,
            m.continuities@[i - 1],
        )
    }
}

/// The whole observed set under the given selections.
pub open spec fn spec_observed(m: Manifest, sels: Seq<(String, String)>) -> Set<Seq<char>> {
    spec_observed_prefix(m, sels, m.continuities@.len() as int)
}

/// The effective selection for `continuity_reference`: the reader's stored
/// choice, else the continuity's default (first) release.
pub fn active_release<'a>(
    manifest: &'a Manifest,
    selections: &'a Vec<(String, String)>,
    continuity_reference: &str,
) -> (r: Option<&'a str>)
    ensures
        match r {
            Some(s) => spec_active(*manifest, selections@, continuity_reference@) == Some(s@),
            None => spec_active(*manifest, selections@, continuity_reference@) is None,
        },
{
    match assoc_get(selections, continuity_reference) {
        Some(rel) => Some(rel.as_str()),
        None => match manifest.default_release(continuity_reference) {
            Some(rel) => Some(rel.reference_name.as_str()),
            None => None,
        },
    }
}

/// Computes the observed set: for every continuity, every release at or
/// before the effective selection, in configuration order.
pub fn observed_releases_references(manifest: &Manifest, selections: &Vec<(String, String)>) -> (r:
    ObservedSet)
    ensures
        r@ == spec_observed(*manifest, selections@),
{
    let mut out = ObservedSet::new();
    let n = manifest.continuities.len();
    let mut ci: usize = 0;
    while ci < n
        invariant
            n == manifest.continuities@.len(),
            ci <= n,
            out@ == spec_observed_prefix(*manifest, selections@, ci as int),
        decreases n - ci,
    {
        let ghost m = *manifest;
        let ghost c = manifest.continuities@[ci as int];
        let cont_ref = manifest.continuities[ci].reference_name.as_str();
        match active_release(manifest, selections, cont_ref) {
            None => {
                proof {
                    assert(out@ =~= spec_observed_prefix(m, selections@, ci as int + 1));
                }
            },
            Some(sel) => {
                let ghost rs_spec = spec_releases(m, c.reference_name@);
                match manifest.releases(cont_ref) {
                    None => {
                        proof {
                            assert(forall|i: int| !release_found_at(rs_spec, sel@, i));
                            assert(out@ =~= spec_observed_prefix(m, selections@, ci as int + 1));
                        }
                    },
                    Some(rs) => {
                        let rn = rs.len();
                        let mut k: usize = 0;
                        let mut found = false;
                        while k < rn && !found
                            invariant
                                rn == rs@.len(),
                                k <= rn,
                                rs@ == rs_spec,
                                found ==> k < rn && rs@[k as int].reference_name@ == sel@,
                                forall|t: int| 0 <= t < k ==> rs@[t].reference_name@ != sel@,
                            decreases rn - k + (if found { 0int } else { 1int }),
                        {
                            if str_eq(rs[k].reference_name.as_str(), sel) {
                                found = true;
                            } else {
                                k = k + 1;
                            }
                        }
                        if found {
                            proof {
                                assert(release_found_at(rs_spec, sel@, k as int));
                            }
                            let mut j: usize = 0;
                            while j < k + 1
                                invariant
                                    k < rn,
                                    rn == rs@.len(),
                                    rs@ == rs_spec,
                                    j <= k + 1,
                                    out@ == spec_observed_prefix(m, selections@, ci as int)
                                        + Set::new(
                                        |x: Seq<char>|
                                            exists|t: int|
                                                0 <= t < j && rs@[t].reference_name@ == x,
                                    ),
                                decreases k + 1 - j,
                            {
                                let ghost before = out@;
                                out.push(rs[j].reference_name.clone());
                                proof {
                                    let prefix = spec_observed_prefix(m, selections@, ci as int);
                                    let target = prefix + Set::new(
                                        |x: Seq<char>|
                                            exists|t: int|
                                                0 <= t < j + 1 && rs@[t].reference_name@ == x,
                                    );
                                    assert forall|x: Seq<char>|
                                        out@.contains(x) implies target.contains(x) by {
                                        if x == rs@[j as int].reference_name@ {
                                            assert(exists|t: int|
                                                0 <= t < j + 1 && rs@[t].reference_name@ == x);
                                        }
                                    }
                                    assert forall|x: Seq<char>|
                                        target.contains(x) implies out@.contains(x) by {
                                        if prefix.contains(x) {
                                            assert(before.contains(x));
                                        } else {
                                            let t = choose|t: int|
                                                0 <= t < j + 1 && rs@[t].reference_name@ == x;
                                            if t < j {
                                                assert(before.contains(x));
                                            } else {
                                                assert(x == rs@[j as int].reference_name@);
                                            }
                                        }
                                    }
                                    assert(out@ =~= target);
                                }
                                j = j + 1;
                            }
                            proof {
                                let k0 = choose|i: int| release_found_at(rs_spec, sel@, i);
                                if k0 < k as int {
                                    assert(rs_spec[k0].reference_name@ != sel@);
                                } else if (k as int) < k0 {
                                    assert(rs_spec[k as int].reference_name@ != sel@);
                                }
                                assert(spec_contribution(rs_spec, sel@) =~= Set::new(
                                    |x: Seq<char>|
                                        exists|t: int|
                                            0 <= t < k + 1 && rs@[t].reference_name@ == x,
                                ));
                                assert(out@ =~= spec_observed_prefix(
                                    m,
                                    selections@,
                                    ci as int + 1,
                                ));
                            }
                        } else {
                            proof {
                                assert(forall|i: int| !release_found_at(rs_spec, sel@, i));
                                assert(out@ =~= spec_observed_prefix(
                                    m,
                                    selections@,
                                    ci as int + 1,
                                ));
                            }
                        }
                    },
                }
            },
        }
        ci = ci + 1;
    }
    out
}

/// The continuities whose effective selection matches none of their
/// configured releases, from position `i` on; such a continuity contributed
/// nothing to the observed set.
/// Some configured release of continuity `cont` has reference name `sel`.
pub open spec fn spec_has_release(m: Manifest, cont: Seq<char>, sel: Seq<char>) -> bool {
    exists|j: int| release_found_at(spec_releases(m, cont), sel, j)
}

pub open spec fn spec_unmatched_here(m: Manifest, sels: Seq<(String, String)>, i: int) -> Seq<
    Seq<char>,
> {
    let c = m.continuities@[i];
    match spec_active(m, sels, c.reference_name@) {
        Some(sel) => if spec_has_release(m, c.reference_name@, sel) {
            Seq::empty()
        } else {
            seq![c.reference_name@]
        },
        None => Seq::empty(),
    }
}

/// See [`spec_unmatched_here`] for what one continuity contributes.
pub open spec fn spec_unmatched_from(m: Manifest, sels: Seq<(String, String)>, i: int) -> Seq<
    Seq<char>,
>
    decreases m.continuities@.len() - i,
{
    if !(0 <= i < m.continuities@.len()) {
        Seq::empty()
    } else {
        spec_unmatched_here(m, sels, i) + spec_unmatched_from(m, sels, i + 1)
    }
}

/// Reports the continuities whose effective selection matches no configured
/// release: their contribution to the observed set was empty.
pub fn unmatched_selections(manifest: &Manifest, selections: &Vec<(String, String)>) -> (r: Vec<
    String,
>)
    ensures
        r@.map_values(|s: String| s@) == spec_unmatched_from(*manifest, selections@, 0),
{
    let mut out: Vec<String> = Vec::new();
    let n = manifest.continuities.len();
    let mut ci: usize = 0;
    while ci < n
        invariant
            n == manifest.continuities@.len(),
            ci <= n,
            spec_unmatched_from(*manifest, selections@, 0) == out@.map_values(|s: String| s@)
                + spec_unmatched_from(*manifest, selections@, ci as int),
        decreases n - ci,
    {
        let ghost m = *manifest;
        let ghost c = manifest.continuities@[ci as int];
        let cont_ref = manifest.continuities[ci].reference_name.as_str();
        let ghost prev = out@.map_values(|s: String| s@);
        match active_release(manifest, selections, cont_ref) {
            None => {
                proof {
                    assert(Seq::<Seq<char>>::empty() + spec_unmatched_from(
                        m,
                        selections@,
                        ci as int + 1,
                    ) =~= spec_unmatched_from(m, selections@, ci as int + 1));
                    assert(spec_unmatched_from(m, selections@, 0) == out@.map_values(|s: String| s@)
                        + spec_unmatched_from(m, selections@, ci as int + 1));
                }
            },
            Some(sel) => {
                let ghost rs_spec = spec_releases(m, c.reference_name@);
                match manifest.releases(cont_ref) {
                    None => {
                        proof {
                            assert(forall|i: int| !release_found_at(rs_spec, sel@, i));
                        }
                        out.push(manifest.continuities[ci].reference_name.clone());
                        proof {
                            assert(out@.map_values(|s: String| s@) =~= prev + seq![
                                c.reference_name@,
                            ]);
                            assert(prev + (seq![c.reference_name@] + spec_unmatched_from(
                                m,
                                selections@,
                                ci as int + 1,
                            )) =~= (prev + seq![c.reference_name@]) + spec_unmatched_from(
                                m,
                                selections@,
                                ci as int + 1,
                            ));
                            assert(spec_unmatched_from(m, selections@, 0) == out@.map_values(|s: String| s@)
                        + spec_unmatched_from(m, selections@, ci as int + 1));
                        }
                    },
                    Some(rs) => {
                        let rn = rs.len();
                        let mut k: usize = 0;
                        let mut found = false;
                        while k < rn && !found
                            invariant
                                rn == rs@.len(),
                                k <= rn,
                                rs@ == rs_spec,
                                found ==> k < rn && rs@[k as int].reference_name@ == sel@,
                                forall|t: int| 0 <= t < k ==> rs@[t].reference_name@ != sel@,
                            decreases rn - k + (if found { 0int } else { 1int }),
                        {
                            if str_eq(rs[k].reference_name.as_str(), sel) {
                                found = true;
                            } else {
                                k = k + 1;
                            }
                        }
                        if found {
                            proof {
                                assert(release_found_at(rs_spec, sel@, k as int));
                                assert(spec_has_release(m, c.reference_name@, sel@));
                                assert(Seq::<Seq<char>>::empty() + spec_unmatched_from(
                                    m,
                                    selections@,
                                    ci as int + 1,
                                ) =~= spec_unmatched_from(m, selections@, ci as int + 1));
                                assert((ci as int) < m.continuities@.len());
                                assert(spec_active(
                                    m,
                                    selections@,
                                    m.continuities@[ci as int].reference_name@,
                                ) == Some(sel@));
                                assert(spec_has_release(
                                    m,
                                    m.continuities@[ci as int].reference_name@,
                                    sel@,
                                ));
                                assert(spec_unmatched_from(m, selections@, ci as int)
                                    == Seq::<Seq<char>>::empty() + spec_unmatched_from(
                                    m,
                                    selections@,
                                    ci as int + 1,
                                ));
                                assert(spec_unmatched_from(m, selections@, ci as int)
                                    == spec_unmatched_from(m, selections@, ci as int + 1));
                                assert(spec_unmatched_from(m, selections@, 0) == out@.map_values(|s: String| s@)
                        + spec_unmatched_from(m, selections@, ci as int + 1));
                            }
                        } else {
                            proof {
                                assert(forall|i: int| !release_found_at(rs_spec, sel@, i));
                            }
                            out.push(manifest.continuities[ci].reference_name.clone());
                            proof {
                                assert(out@.map_values(|s: String| s@) =~= prev + seq![
                                    c.reference_name@,
                                ]);
                                assert(prev + (seq![c.reference_name@] + spec_unmatched_from(
                                    m,
                                    selections@,
                                    ci as int + 1,
                                )) =~= (prev + seq![c.reference_name@]) + spec_unmatched_from(
                                    m,
                                    selections@,
                                    ci as int + 1,
                                ));
                                assert(spec_unmatched_from(m, selections@, 0) == out@.map_values(|s: String| s@)
                        + spec_unmatched_from(m, selections@, ci as int + 1));
                            }
                        }
                    },
                }
            },
        }
        ci = ci + 1;
    }
    proof {
        assert(out@.map_values(|s: String| s@) + Seq::<Seq<char>>::empty() =~= out@.map_values(
            |s: String| s@,
        ));
    }
    out
}

/// Selecting a later release of a continuity can only grow that
/// continuity's contribution to the observed set: if the selections name
/// the releases at positions `i <= j` of the sequence (each the first of
/// its name, as reference names are unique within a continuity), then the
/// contribution for position `i` is a subset of the one for position `j`.
pub proof fn lemma_contribution_monotonic(rs: Seq<Release>, i: int, j: int)
    requires
        0 <= i <= j < rs.len(),
        release_found_at(rs, rs[i].reference_name@, i),
        release_found_at(rs, rs[j].reference_name@, j),
    ensures
        spec_contribution(rs, rs[i].reference_name@).subset_of(
            spec_contribution(rs, rs[j].reference_name@),
        ),
{
    let seli = rs[i].reference_name@;
    let selj = rs[j].reference_name@;
    let ki = choose|t: int| release_found_at(rs, seli, t);
    let kj = choose|t: int| release_found_at(rs, selj, t);
    if ki < i {
        assert(rs[ki].reference_name@ != seli);
    } else if i < ki {
        assert(rs[i].reference_name@ != seli);
    }
    if kj < j {
        assert(rs[kj].reference_name@ != selj);
    } else if j < kj {
        assert(rs[j].reference_name@ != selj);
    }
    assert forall|x: Seq<char>|
        spec_contribution(rs, seli).contains(x) implies spec_contribution(rs, selj).contains(
        x,
    ) by {
        let t = choose|t: int| 0 <= t <= ki && rs[t].reference_name@ == x;
        assert(0 <= t <= kj && rs[t].reference_name@ == x);
    }
}

/// Two whole observed sets compare as their per-continuity contributions
/// do: if every continuity's effective selection agrees except continuity
/// `cont`, whose two selections name the releases at positions `i <= j` of
/// its sequence, and release names are unique within that continuity (as
/// the configuration requires), then the first observed set is a subset of
/// the second. This is the call-level form of
/// [`lemma_contribution_monotonic`].
pub proof fn lemma_observed_monotonic(
    m: Manifest,
    sels1: Seq<(String, String)>,
    sels2: Seq<(String, String)>,
    cont: Seq<char>,
    i: int,
    j: int,
)
    requires
        forall|k: Seq<char>|
            k != cont ==> #[trigger] spec_active(m, sels1, k) == spec_active(m, sels2, k),
        spec_active(m, sels1, cont) == Some(spec_releases(m, cont)[i].reference_name@),
        spec_active(m, sels2, cont) == Some(spec_releases(m, cont)[j].reference_name@),
        0 <= i <= j < spec_releases(m, cont).len(),
        forall|a: int, b: int|
            0 <= a < b < spec_releases(m, cont).len() ==> #[trigger] spec_releases(
                m,
                cont,
            )[a].reference_name@ != #[trigger] spec_releases(m, cont)[b].reference_name@,
    ensures
        spec_observed(m, sels1).subset_of(spec_observed(m, sels2)),
{
    lemma_observed_prefix_monotonic(m, sels1, sels2, cont, i, j, m.continuities@.len() as int);
}

/// The induction behind [`lemma_observed_monotonic`], over the first `n`
/// continuities.
proof fn lemma_observed_prefix_monotonic(
    m: Manifest,
    sels1: Seq<(String, String)>,
    sels2: Seq<(String, String)>,
    cont: Seq<char>,
    i: int,
    j: int,
    n: int,
)
    requires
        forall|k: Seq<char>|
            k != cont ==> #[trigger] spec_active(m, sels1, k) == spec_active(m, sels2, k),
        spec_active(m, sels1, cont) == Some(spec_releases(m, cont)[i].reference_name@),
        spec_active(m, sels2, cont) == Some(spec_releases(m, cont)[j].reference_name@),
        0 <= i <= j < spec_releases(m, cont).len(),
        forall|a: int, b: int|
            0 <= a < b < spec_releases(m, cont).len() ==> #[trigger] spec_releases(
                m,
                cont,
            )[a].reference_name@ != #[trigger] spec_releases(m, cont)[b].reference_name@,
        n <= m.continuities@.len(),
    ensures
        spec_observed_prefix(m, sels1, n).subset_of(spec_observed_prefix(m, sels2, n)),
    decreases n,
{
    if n <= 0 {
        assert forall|x: Seq<char>|
            spec_observed_prefix(m, sels1, n).contains(x) implies spec_observed_prefix(
            m,
            sels2,
            n,
        ).contains(x) by {}
    } else {
        lemma_observed_prefix_monotonic(m, sels1, sels2, cont, i, j, n - 1);
        let c = m.continuities@[n - 1];
        let rs = spec_releases(m, cont);
        if c.reference_name@ == cont {
            assert(release_found_at(rs, rs[i].reference_name@, i)) by {
                assert forall|t: int| 0 <= t < i implies rs[t].reference_name@
                    != rs[i].reference_name@ by {
                    assert(rs[t].reference_name@ != rs[i].reference_name@);
                }
            }
            assert(release_found_at(rs, rs[j].reference_name@, j)) by {
                assert forall|t: int| 0 <= t < j implies rs[t].reference_name@
                    != rs[j].reference_name@ by {
                    assert(rs[t].reference_name@ != rs[j].reference_name@);
                }
            }
            lemma_contribution_monotonic(rs, i, j);
            assert(spec_cont_contribution(m, sels1, c).subset_of(
                spec_cont_contribution(m, sels2, c),
            ));
        } else {
            assert(spec_active(m, sels1, c.reference_name@) == spec_active(
                m,
                sels2,
                c.reference_name@,
            ));
            assert(spec_cont_contribution(m, sels1, c) == spec_cont_contribution(m, sels2, c));
        }
        assert forall|x: Seq<char>|
            spec_observed_prefix(m, sels1, n).contains(x) implies spec_observed_prefix(
            m,
            sels2,
            n,
        ).contains(x) by {
            if spec_observed_prefix(m, sels1, n - 1).contains(x) {
                assert(spec_observed_prefix(m, sels2, n - 1).contains(x));
            } else {
                assert(spec_cont_contribution(m, sels1, c).contains(x));
                assert(spec_cont_contribution(m, sels2, c).contains(x));
            }
        }
    }
}

} // verus!
