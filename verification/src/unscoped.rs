//! The unscoped condition evaluator.
//!
//! The simpler form of condition used where no storyline prefix applies:
//! only the two-character modes `x-` and `o-` exist and they always
//! constrain, whatever storyline the release belongs to.

use vstd::prelude::*;
use crate::cond::ConfigError;
use crate::observed::ObservedSet;

verus! {

/// What an unscoped condition token evaluates to.
pub open spec fn spec_eval_unscoped(observed: Set<Seq<char>>, cond: Seq<char>) -> Result<
    bool,
    ConfigError,
> {
    if cond.len() >= 2 && cond[0] == 'x' && cond[1] == '-' {
        Ok(!observed.contains(cond.subrange(2, cond.len() as int)))
    } else if cond.len() >= 2 && cond[0] == 'o' && cond[1] == '-' {
        Ok(observed.contains(cond.subrange(2, cond.len() as int)))
    } else {
        Err(ConfigError::UnknownMode)
    }
}

/// Evaluates one unscoped condition token: `x-` holds while the release is
/// unobserved, `o-` once it is observed; anything else is a configuration
/// error.
pub fn should_show(observed: &ObservedSet, cond: &str) -> (r: Result<bool, ConfigError>)
    ensures
        r == spec_eval_unscoped(observed@, cond@),
{
    let len = cond.unicode_len();
    if len < 2 {
        return Err(ConfigError::UnknownMode);
    }
    let m0 = cond.get_char(0);
    let m1 = cond.get_char(1);
    if m1 != '-' {
        return Err(ConfigError::UnknownMode);
    }
    let release = cond.substring_char(2, len);
    if m0 == 'x' {
        Ok(!observed.contains(release))
    } else if m0 == 'o' {
        Ok(observed.contains(release))
    } else {
        Err(ConfigError::UnknownMode)
    }
}

} // verus!
