//! Grouping picker entries into option segments.
//!
//! A flat feed of picker entries becomes a list of single options and
//! labelled option groups: an entry may continue the current group, leave
//! it, or start a new one.

use vstd::prelude::*;
use crate::manifest::{
    spec_cont_display_name, spec_release_display_name, spec_releases, Continuity, Manifest,
    Release,
};
use crate::text::str_eq;

verus! {

/// One option of a picker.
pub struct SingleOption {
    /// The value the picker reports when this option is chosen.
    pub value: String,
    /// The text shown for this option.
    pub display: String,
    /// Whether this option is currently selected.
    pub selected: bool,
    /// Whether this option is hidden, contributing width but not content.
    pub hidden: bool,
}

/// A stretch of a picker: a labelled group of options, or one option
/// outside any group.
pub enum OptionSegment {
    OptionGroup { label: String, options: Vec<SingleOption>, hidden: bool },
    SingleOption(SingleOption),
}

/// One entry of a picker feed.
pub struct PickerFeed {
    /// The value the picker will report for this entry.
    pub value: String,
    /// The text shown for this entry.
    pub display: String,
    /// Whether this entry is currently selected.
    pub selected: bool,
    /// Whether this entry is hidden.
    pub hidden: bool,
    /// `None` continues the current group, `Some(None)` leaves it,
    /// `Some(Some(label))` starts a new group.
    pub new_group: Option<Option<String>>,
}

/// The spec view of an option.
pub open spec fn option_view(o: SingleOption) -> (Seq<char>, Seq<char>, bool, bool) {
    (o.value@, o.display@, o.selected, o.hidden)
}

/// Spec model of a segment.
#[verifier::ext_equal]
pub enum SSegment {
    Group(Seq<char>, Seq<(Seq<char>, Seq<char>, bool, bool)>, bool),
    Single((Seq<char>, Seq<char>, bool, bool)),
}

/// The spec view of a segment.
pub open spec fn segment_view(s: OptionSegment) -> SSegment {
    match s {
        OptionSegment::OptionGroup { label, options, hidden } => SSegment::Group(
            label@,
            options@.map_values(|o: SingleOption| option_view(o)),
            hidden,
        ),
        OptionSegment::SingleOption(o) => SSegment::Single(option_view(o)),
    }
}

/// The spec view of a segment list.
pub open spec fn segments_view(s: Seq<OptionSegment>) -> Seq<SSegment> {
    s.map_values(|x: OptionSegment| segment_view(x))
}

/// What one feed entry does to the segments: it joins the trailing group,
/// starts a new group, or stands alone.
pub open spec fn spec_feed_step(segs: Seq<SSegment>, f: PickerFeed) -> Seq<SSegment> {
    let opt = (f.value@, f.display@, f.selected, f.hidden);
    match f.new_group {
        None => if segs.len() > 0 && (segs.last() is Group) {
            match segs.last() {
                SSegment::Group(l, opts, h) => segs.drop_last().push(
                    SSegment::Group(l, opts.push(opt), h),
                ),
                SSegment::Single(_) => segs.push(SSegment::Single(opt)),
            }
        } else {
            segs.push(SSegment::Single(opt))
        },
        Some(Some(label)) => segs.push(SSegment::Group(label@, seq![opt], f.hidden)),
        Some(None) => segs.push(SSegment::Single(opt)),
    }
}

/// The segments of a whole feed, entry by entry.
pub open spec fn spec_feeds_fold(feeds: Seq<PickerFeed>) -> Seq<SSegment>
    decreases feeds.len(),
{
    if feeds.len() == 0 {
        Seq::empty()
    } else {
        spec_feed_step(spec_feeds_fold(feeds.drop_last()), feeds.last())
    }
}

/// Groups a picker feed into option segments.
pub fn segments_from_feeds(feeds: Vec<PickerFeed>) -> (r: Vec<OptionSegment>)
    ensures
        segments_view(r@) == spec_feeds_fold(feeds@),
{
    let ghost orig = feeds@;
    let mut rest = feeds;
    let mut out: Vec<OptionSegment> = Vec::new();
    while rest.len() > 0
        invariant
            orig.len() >= rest@.len(),
            rest@ =~= orig.subrange(orig.len() - rest@.len(), orig.len() as int),
            segments_view(out@) == spec_feeds_fold(orig.subrange(0, orig.len() - rest@.len())),
        decreases rest@.len(),
    {
        let ghost k = orig.len() - rest@.len();
        let f = rest.remove(0);
        proof {
            assert(f == orig[k as int]);
            assert(rest@ =~= orig.subrange(k + 1, orig.len() as int));
        }
        let ghost segs0 = segments_view(out@);
        let ghost fv = f;
        let opt = SingleOption {
            value: f.value,
            display: f.display,
            selected: f.selected,
            hidden: f.hidden,
        };
        let ghost optg = opt;
        proof {
            assert(option_view(optg) == (fv.value@, fv.display@, fv.selected, fv.hidden));
        }
        let hidden_here = opt.hidden;
        match f.new_group {
            None => {
                match out.pop() {
                    Some(OptionSegment::OptionGroup { label, mut options, hidden }) => {
                        let ghost opts0 = options@;
                        options.push(opt);
                        proof {
                            assert(options@ =~= opts0.push(optg));
                        }
                        out.push(OptionSegment::OptionGroup { label, options, hidden });
                    },
                    Some(other) => {
                        out.push(other);
                        out.push(OptionSegment::SingleOption(opt));
                    },
                    None => {
                        out.push(OptionSegment::SingleOption(opt));
                    },
                }
                proof {
                    assert(segments_view(out@) =~~= spec_feed_step(segs0, fv));
                }
            },
            Some(Some(label)) => {
                let mut options: Vec<SingleOption> = Vec::new();
                options.push(opt);
                out.push(OptionSegment::OptionGroup { label, options, hidden: hidden_here });
                proof {
                    assert(segments_view(out@) =~~= spec_feed_step(segs0, fv));
                }
            },
            Some(None) => {
                out.push(OptionSegment::SingleOption(opt));
                proof {
                    assert(segments_view(out@) =~~= spec_feed_step(segs0, fv));
                }
            },
        }
        proof {
            let done = orig.subrange(0, k + 1);
            assert(done.drop_last() =~= orig.subrange(0, k as int));
            assert(done.last() == orig[k as int]);
            assert(segments_view(out@) == spec_feeds_fold(done));
        }
    }
    proof {
        assert(orig.subrange(0, orig.len() as int) =~= orig);
    }
    out
}


/// The spec view of one feed entry.
pub open spec fn feed_view(f: PickerFeed) -> (
    Seq<char>,
    Seq<char>,
    bool,
    bool,
    Option<Option<Seq<char>>>,
) {
    (
        f.value@,
        f.display@,
        f.selected,
        f.hidden,
        match f.new_group {
            None => None,
            Some(None) => Some(None),
            Some(Some(l)) => Some(Some(l@)),
        },
    )
}

/// The spec view of a feed list.
pub open spec fn feeds_view(s: Seq<PickerFeed>) -> Seq<
    (Seq<char>, Seq<char>, bool, bool, Option<Option<Seq<char>>>),
> {
    s.map_values(|f: PickerFeed| feed_view(f))
}

/// The grouping directive a release contributes to its feed entry: an
/// absent heading continues the group, an empty one ends it, any other
/// starts a group with that label.
pub open spec fn spec_group_directive(rel: Release) -> Option<Option<Seq<char>>> {
    match rel.begins_group {
        None => None,
        Some(g) => if g@.len() == 0 {
            Some(None)
        } else {
            Some(Some(g@))
        },
    }
}

/// The feed entry of one continuity: selected when it is the active one.
pub open spec fn spec_continuity_feed(c: Continuity, active: Option<Seq<char>>) -> (
    Seq<char>,
    Seq<char>,
    bool,
    bool,
    Option<Option<Seq<char>>>,
) {
    (
        c.reference_name@,
        spec_cont_display_name(c),
        active == Some(c.reference_name@),
        false,
        None,
    )
}

/// The feed of the continuity picker: one entry per continuity.
pub open spec fn spec_continuity_feeds(m: Manifest, active: Option<Seq<char>>) -> Seq<
    (Seq<char>, Seq<char>, bool, bool, Option<Option<Seq<char>>>),
> {
    m.continuities@.map_values(|c: Continuity| spec_continuity_feed(c, active))
}

/// The view of an optional reference name.
pub open spec fn opt_name_view(o: Option<&str>) -> Option<Seq<char>> {
    match o {
        Some(s) => Some(s@),
        None => None,
    }
}

/// Builds the continuity picker's feed: every continuity, the active one
/// (by reference name) marked selected.
pub fn continuity_picker_feeds(manifest: &Manifest, active_continuity: Option<&str>) -> (r: Vec<
    PickerFeed,
>)
    ensures
        feeds_view(r@) == spec_continuity_feeds(*manifest, opt_name_view(active_continuity)),
{
    let ghost act = opt_name_view(active_continuity);
    let mut out: Vec<PickerFeed> = Vec::new();
    let n = manifest.continuities.len();
    let mut i: usize = 0;
    while i < n
        invariant
            n == manifest.continuities@.len(),
            i <= n,
            act == opt_name_view(active_continuity),
            feeds_view(out@) =~= manifest.continuities@.subrange(0, i as int).map_values(
                |c: Continuity| spec_continuity_feed(c, act),
            ),
        decreases n - i,
    {
        let c = &manifest.continuities[i];
        let selected = match active_continuity {
            Some(a) => str_eq(c.reference_name.as_str(), a),
            None => false,
        };
        let ghost prev = feeds_view(out@);
        let entry = PickerFeed {
            value: c.reference_name.clone(),
            display: c.display_name(),
            selected,
            hidden: false,
            new_group: None,
        };
        let ghost entryv = feed_view(entry);
        proof {
            assert(entryv == spec_continuity_feed(manifest.continuities@[i as int], act));
        }
        out.push(entry);
        proof {
            assert(feeds_view(out@) =~= prev.push(entryv));
            assert(manifest.continuities@.subrange(0, i as int + 1).map_values(
                |c: Continuity| spec_continuity_feed(c, act),
            ) =~= manifest.continuities@.subrange(0, i as int).map_values(
                |c: Continuity| spec_continuity_feed(c, act),
            ).push(entryv));
        }
        i = i + 1;
    }
    proof {
        assert(manifest.continuities@.subrange(0, n as int) =~= manifest.continuities@);
    }
    out
}

/// The feed entry of one release of one continuity: selected when it is
/// the active release, hidden unless its continuity is the active one.
pub open spec fn spec_release_feed(
    rel: Release,
    c: Continuity,
    active_continuity: Option<Seq<char>>,
    active_release: Option<Seq<char>>,
) -> (Seq<char>, Seq<char>, bool, bool, Option<Option<Seq<char>>>) {
    (
        rel.reference_name@,
        spec_release_display_name(rel),
        active_release == Some(rel.reference_name@),
        active_continuity != Some(c.reference_name@),
        spec_group_directive(rel),
    )
}

/// The feed of the release picker from continuity `i` on: every release of
/// every continuity, in configuration order.
pub open spec fn spec_release_feeds_from(
    m: Manifest,
    active_continuity: Option<Seq<char>>,
    active_release: Option<Seq<char>>,
    i: int,
) -> Seq<(Seq<char>, Seq<char>, bool, bool, Option<Option<Seq<char>>>)>
    decreases m.continuities@.len() - i,
{
    if !(0 <= i < m.continuities@.len()) {
        Seq::empty()
    } else {
        let c = m.continuities@[i];
        spec_releases(m, c.reference_name@).map_values(
            |rel: Release| spec_release_feed(rel, c, active_continuity, active_release),
        ) + spec_release_feeds_from(m, active_continuity, active_release, i + 1)
    }
}

/// Builds the release picker's feed: every release of every continuity,
/// grouped by the releases' group headings, the active release (by
/// reference name) selected, and releases of other continuities hidden.
pub fn release_picker_feeds(
    manifest: &Manifest,
    active_continuity: Option<&str>,
    active_release: Option<&str>,
) -> (r: Vec<PickerFeed>)
    ensures
        feeds_view(r@) == spec_release_feeds_from(
            *manifest,
            opt_name_view(active_continuity),
            opt_name_view(active_release),
            0,
        ),
{
    let ghost m = *manifest;
    let ghost ac = opt_name_view(active_continuity);
    let ghost ar = opt_name_view(active_release);
    let mut out: Vec<PickerFeed> = Vec::new();
    let n = manifest.continuities.len();
    let mut i: usize = 0;
    proof {
        assert(Seq::<(Seq<char>, Seq<char>, bool, bool, Option<Option<Seq<char>>>)>::empty()
            + spec_release_feeds_from(m, ac, ar, 0) =~= spec_release_feeds_from(m, ac, ar, 0));
    }
    while i < n
        invariant
            n == manifest.continuities@.len(),
            m == *manifest,
            i <= n,
            ac == opt_name_view(active_continuity),
            ar == opt_name_view(active_release),
            spec_release_feeds_from(m, ac, ar, 0) == feeds_view(out@) + spec_release_feeds_from(
                m,
                ac,
                ar,
                i as int,
            ),
        decreases n - i,
    {
        let ghost iold = i as int;
        let ghost cv = manifest.continuities@[iold];
        let ghost prev = feeds_view(out@);
        let c = &manifest.continuities[i];
        let hidden = match active_continuity {
            Some(a) => !str_eq(c.reference_name.as_str(), a),
            None => true,
        };
        let ghost percont = spec_releases(m, cv.reference_name@).map_values(
            |rel: Release| spec_release_feed(rel, cv, ac, ar),
        );
        match manifest.releases(c.reference_name.as_str()) {
            None => {
                proof {
                    assert(percont =~= Seq::<
                        (Seq<char>, Seq<char>, bool, bool, Option<Option<Seq<char>>>),
                    >::empty());
                    assert(prev + (percont + spec_release_feeds_from(m, ac, ar, iold + 1))
                        =~= prev + spec_release_feeds_from(m, ac, ar, iold + 1));
                }
            },
            Some(rs) => {
                let rn = rs.len();
                let mut j: usize = 0;
                while j < rn
                    invariant
                        rn == rs@.len(),
                        j <= rn,
                        m == *manifest,
                        ac == opt_name_view(active_continuity),
                        ar == opt_name_view(active_release),
                        cv == manifest.continuities@[iold],
                        0 <= iold < manifest.continuities@.len(),
                        hidden == (ac != Some(cv.reference_name@)),
                        rs@ == spec_releases(m, cv.reference_name@),
                        percont == spec_releases(m, cv.reference_name@).map_values(
                            |rel: Release| spec_release_feed(rel, cv, ac, ar),
                        ),
                        feeds_view(out@) =~= prev + percont.subrange(0, j as int),
                    decreases rn - j,
                {
                    let rel = &rs[j];
                    let selected = match active_release {
                        Some(a) => str_eq(rel.reference_name.as_str(), a),
                        None => false,
                    };
                    let new_group = match &rel.begins_group {
                        None => None,
                        Some(g) => {
                            if g.as_str().unicode_len() == 0 {
                                Some(None)
                            } else {
                                Some(Some(g.clone()))
                            }
                        },
                    };
                    let ghost before = feeds_view(out@);
                    let entry = PickerFeed {
                        value: rel.reference_name.clone(),
                        display: rel.display_name(),
                        selected,
                        hidden,
                        new_group,
                    };
                    let ghost entryv = feed_view(entry);
                    proof {
                        assert(entryv == spec_release_feed(rs@[j as int], cv, ac, ar));
                        assert(percont[j as int] == spec_release_feed(rs@[j as int], cv, ac, ar));
                    }
                    out.push(entry);
                    proof {
                        assert(feeds_view(out@) =~= before.push(entryv));
                        assert(prev + percont.subrange(0, j as int + 1) =~= (prev
                            + percont.subrange(0, j as int)).push(percont[j as int]));
                    }
                    j = j + 1;
                }
                proof {
                    assert(percont.subrange(0, rn as int) =~= percont);
                    assert(feeds_view(out@) =~= prev + percont);
                    assert((prev + percont) + spec_release_feeds_from(m, ac, ar, iold + 1) =~= prev
                        + (percont + spec_release_feeds_from(m, ac, ar, iold + 1)));
                }
            },
        }
        i = i + 1;
    }
    proof {
        assert(feeds_view(out@) + Seq::<
            (Seq<char>, Seq<char>, bool, bool, Option<Option<Seq<char>>>),
        >::empty() =~= feeds_view(out@));
    }
    out
}

} // verus!
