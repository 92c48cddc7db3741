//! The window title, composed from site, continuity and page names.

use vstd::prelude::*;

verus! {

/// The composed window title: the site name (or the default), then the
/// continuity and page names, each prefixed with a dash when present.
pub open spec fn spec_title(
    site: Option<Seq<char>>,
    continuity: Option<Seq<char>>,
    page: Option<Seq<char>>,
) -> Seq<char> {
    (match site {
        Some(s) => s,
        None => "A StoryWiki"@,
    }) + (match continuity {
        Some(c) => " - "@ + c,
        None => Seq::empty(),
    }) + (match page {
        Some(p) => " - "@ + p,
        None => Seq::empty(),
    })
}

/// Composes the window title.
pub fn compose_title(site: Option<&str>, continuity: Option<&str>, page: Option<&str>) -> (r:
    String)
    ensures
        r@ == spec_title(
            match site {
                Some(s) => Some(s@),
                None => None,
            },
            match continuity {
                Some(c) => Some(c@),
                None => None,
            },
            match page {
                Some(p) => Some(p@),
                None => None,
            },
        ),
{
    let mut out = match site {
        Some(s) => String::from_str(s),
        None => String::from_str("A StoryWiki"),
    };
    match continuity {
        Some(c) => {
            out.append(" - ");
            out.append(c);
        },
        None => {},
    }
    match page {
        Some(p) => {
            out.append(" - ");
            out.append(p);
        },
        None => {},
    }
    proof {
        assert(out@ =~= spec_title(
            match site {
                Some(s) => Some(s@),
                None => None,
            },
            match continuity {
                Some(c) => Some(c@),
                None => None,
            },
            match page {
                Some(p) => Some(p@),
                None => None,
            },
        ));
    }
    out
}

} // verus!
