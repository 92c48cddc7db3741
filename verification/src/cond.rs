//! The condition evaluator.
//!
//! A condition is a token `<mode>-<release>` with mode `x`, `o`, `xx` or `oo`.
//! `x`/`o` are scoped: they only constrain releases whose reference name
//! starts with the evaluating storyline's prefix, and are vacuously true
//! otherwise. `xx`/`oo` always constrain. `x`/`xx` hold while the release has
//! not been observed; `o`/`oo` hold once it has.

use vstd::prelude::*;
use crate::observed::ObservedSet;
use crate::text::{find_char, found_at, spec_starts_with, str_starts_with};

verus! {

/// A malformed condition token. Fatal: never treated as "condition false".
#[derive(Clone, Copy, Debug, PartialEq, Eq, Structural)]
pub enum ConfigError {
    /// The token has no `-` separator.
    MissingSeparator,
    /// The part before the first `-` is not one of `x`, `o`, `xx`, `oo`.
    UnknownMode,
}

/// A first occurrence is unique.
pub proof fn lemma_found_at_unique(s: Seq<char>, c: char, i: int, j: int)
    requires
        found_at(s, c, i),
        found_at(s, c, j),
    ensures
        i == j,
{
    if i < j {
        assert(s[i] != c);
    } else if j < i {
        assert(s[j] != c);
    }
}

/// What a condition token evaluates to against an observed set, scoped by
/// the storyline prefix.
pub open spec fn spec_eval(observed: Set<Seq<char>>, prefix: Seq<char>, cond: Seq<char>) -> Result<
    bool,
    ConfigError,
> {
    if exists|i: int| found_at(cond, '-', i) {
        let i = choose|i: int| found_at(cond, '-', i);
        let tag = cond.subrange(i + 1, cond.len() as int);
        let scoped = spec_starts_with(tag, prefix);
        if i == 1 && cond[0] == 'x' {
            Ok(if scoped {
                !observed.contains(tag)
            } else {
                true
            })
        } else if i == 1 && cond[0] == 'o' {
            Ok(if scoped {
                observed.contains(tag)
            } else {
                true
            })
        } else if i == 2 && cond[0] == 'x' && cond[1] == 'x' {
            Ok(!observed.contains(tag))
        } else if i == 2 && cond[0] == 'o' && cond[1] == 'o' {
            Ok(observed.contains(tag))
        } else {
            Err(ConfigError::UnknownMode)
        }
    } else {
        Err(ConfigError::MissingSeparator)
    }
}

/// Evaluates one condition token, scoped by `continuity_prefix`.
pub fn should_show(observed: &ObservedSet, cond: &str, continuity_prefix: &str) -> (r: Result<
    bool,
    ConfigError,
>)
    ensures
        r == spec_eval(observed@, continuity_prefix@, cond@),
{
    let len = cond.unicode_len();
    match find_char(cond, '-') {
        None => Err(ConfigError::MissingSeparator),
        Some(i) => {
            proof {
                let i0 = choose|j: int| found_at(cond@, '-', j);
                lemma_found_at_unique(cond@, '-', i as int, i0);
            }
            let tag = cond.substring_char(i + 1, len);
            if i == 1 {
                let m0 = cond.get_char(0);
                if m0 == 'x' {
                    if str_starts_with(tag, continuity_prefix) {
                        Ok(!observed.contains(tag))
                    } else {
                        Ok(true)
                    }
                } else if m0 == 'o' {
                    if str_starts_with(tag, continuity_prefix) {
                        Ok(observed.contains(tag))
                    } else {
                        Ok(true)
                    }
                } else {
                    Err(ConfigError::UnknownMode)
                }
            } else if i == 2 {
                let m0 = cond.get_char(0);
                let m1 = cond.get_char(1);
                if m0 == 'x' && m1 == 'x' {
                    Ok(!observed.contains(tag))
                } else if m0 == 'o' && m1 == 'o' {
                    Ok(observed.contains(tag))
                } else {
                    Err(ConfigError::UnknownMode)
                }
            } else {
                Err(ConfigError::UnknownMode)
            }
        },
    }
}

/// The conjunction of a list of condition tokens. A malformed token is an
/// error for the whole list, also when an earlier token already failed to
/// hold; the first error in list order wins. An empty list holds vacuously.
pub open spec fn spec_eval_all(
    observed: Set<Seq<char>>,
    prefix: Seq<char>,
    conds: Seq<Seq<char>>,
) -> Result<bool, ConfigError>
    decreases conds.len(),
{
    if conds.len() == 0 {
        Ok(true)
    } else {
        match spec_eval(observed, prefix, conds[0]) {
            Err(e) => Err(e),
            Ok(b) => match spec_eval_all(observed, prefix, conds.drop_first()) {
                Err(e) => Err(e),
                Ok(rest) => Ok(b && rest),
            },
        }
    }
}

/// Evaluates every condition token of `conds`; all must hold.
pub fn should_show_all(observed: &ObservedSet, conds: &Vec<String>, continuity_prefix: &str) -> (r:
    Result<bool, ConfigError>)
    ensures
        r == spec_eval_all(observed@, continuity_prefix@, conds@.map_values(|c: String| c@)),
{
    let ghost mapped = conds@.map_values(|c: String| c@);
    let mut acc: Result<bool, ConfigError> = Ok(true);
    let mut i: usize = conds.len();
    proof {
        assert(mapped.subrange(i as int, mapped.len() as int) =~= Seq::<Seq<char>>::empty());
    }
    while i > 0
        invariant
            i <= conds@.len(),
            mapped == conds@.map_values(|c: String| c@),
            acc == spec_eval_all(observed@, continuity_prefix@, mapped.subrange(i as int, mapped.len() as int)),
        decreases i,
    {
        i = i - 1;
        let step = should_show(observed, conds[i].as_str(), continuity_prefix);
        acc = match step {
            Err(e) => Err(e),
            Ok(b) => match acc {
                Err(e) => Err(e),
                Ok(rest) => Ok(b && rest),
            },
        };
        proof {
            let tail = mapped.subrange(i as int, mapped.len() as int);
            assert(tail[0] == conds@[i as int]@);
            assert(tail.drop_first() =~= mapped.subrange(i + 1 as int, mapped.len() as int));
        }
    }
    proof {
        assert(mapped.subrange(0, mapped.len() as int) =~= mapped);
    }
    acc
}

/// Once a release is in scope, the `x-` and `o-` forms of the same release
/// are exact complements: content marked "hidden once observed" disappears
/// exactly when content marked "shown once observed" appears.
pub proof fn lemma_shown_hidden_complement(
    observed: Set<Seq<char>>,
    prefix: Seq<char>,
    release: Seq<char>,
)
    requires
        observed != Set::<Seq<char>>::empty(),
        spec_starts_with(release, prefix),
    ensures
        spec_eval(observed, prefix, seq!['x', '-'] + release) == Ok::<bool, ConfigError>(
            !observed.contains(release),
        ),
        spec_eval(observed, prefix, seq!['o', '-'] + release) == Ok::<bool, ConfigError>(
            observed.contains(release),
        ),
{
    let condx = seq!['x', '-'] + release;
    let condo = seq!['o', '-'] + release;
    assert(found_at(condx, '-', 1));
    assert(found_at(condo, '-', 1));
    let ix = choose|i: int| found_at(condx, '-', i);
    let io = choose|i: int| found_at(condo, '-', i);
    lemma_found_at_unique(condx, '-', ix, 1);
    lemma_found_at_unique(condo, '-', io, 1);
    assert(condx.subrange(2, condx.len() as int) =~= release);
    assert(condo.subrange(2, condo.len() as int) =~= release);
}


} // verus!
