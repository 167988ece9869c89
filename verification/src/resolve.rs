//! The resolver: an ordered search over the directories of a search list.
//!
//! The three host operations are function values. Their own postconditions are
//! all that is known of them, so the contracts below speak of what the
//! operations *can* answer; `crate::laws` specializes them to a host whose
//! answers are fixed.

use crate::host::Host;
use crate::laws::lemma_resolution_is_first_hit;
use vstd::prelude::*;

verus! {

/// The operations can report the candidate for `file` under `dir` as an existing
/// entry whose canonical form is `path`.
pub open spec fn yields<P, J, E, C>(
    join: J,
    is_present: E,
    canonicalize: C,
    dir: P,
    file: P,
    path: P,
) -> bool where J: Fn(&P, &P) -> P, E: Fn(&P) -> bool, C: Fn(&P) -> Option<P> {
    exists|c: P|
        {
            &&& #[trigger] join.ensures((&dir, &file), c)
            &&& is_present.ensures((&c,), true)
            &&& canonicalize.ensures((&c,), Some(path))
        }
}

/// The operations can report the candidate for `file` under `dir` as absent, or
/// as present but without a canonical form. Either way the search moves on.
pub open spec fn skips<P, J, E, C>(
    join: J,
    is_present: E,
    canonicalize: C,
    dir: P,
    file: P,
) -> bool where J: Fn(&P, &P) -> P, E: Fn(&P) -> bool, C: Fn(&P) -> Option<P> {
    exists|c: P|
        {
            &&& #[trigger] join.ensures((&dir, &file), c)
            &&& {
                ||| is_present.ensures((&c,), false)
                ||| (is_present.ensures((&c,), true) && canonicalize.ensures((&c,), None::<P>))
            }
        }
}

/// `outcome` is a result that an ordered search of `dirs` for `file` can have:
/// a path yielded by some directory with every earlier directory skipped, or
/// nothing with every directory skipped.
pub open spec fn resolution<P, J, E, C>(
    join: J,
    is_present: E,
    canonicalize: C,
    dirs: Seq<P>,
    file: P,
    outcome: Option<P>,
) -> bool where J: Fn(&P, &P) -> P, E: Fn(&P) -> bool, C: Fn(&P) -> Option<P> {
    match outcome {
        Some(path) => exists|k: int|
            {
                &&& 0 <= k < dirs.len()
                &&& #[trigger] yields(join, is_present, canonicalize, dirs[k], file, path)
                &&& forall|j: int|
                    0 <= j < k ==> #[trigger] skips(join, is_present, canonicalize, dirs[j], file)
            },
        None => forall|j: int|
            0 <= j < dirs.len() ==> #[trigger] skips(
                join,
                is_present,
                canonicalize,
                dirs[j],
                file,
            ),
    }
}

/// Every call that a search of `dirs` for `file` may make is permitted: joining
/// onto each directory, testing each candidate, and canonicalizing each
/// candidate that was reported present.
pub open spec fn callable<P, J, E, C>(
    join: J,
    is_present: E,
    canonicalize: C,
    dirs: Seq<P>,
    file: P,
) -> bool where J: Fn(&P, &P) -> P, E: Fn(&P) -> bool, C: Fn(&P) -> Option<P> {
    &&& forall|i: int| 0 <= i < dirs.len() ==> join.requires((&#[trigger] dirs[i], &file))
    &&& forall|i: int, c: P|
        0 <= i < dirs.len() && #[trigger] join.ensures((&dirs[i], &file), c)
            ==> is_present.requires((&c,))
    &&& forall|i: int, c: P|
        0 <= i < dirs.len() && #[trigger] join.ensures((&dirs[i], &file), c)
            && is_present.ensures((&c,), true) ==> canonicalize.requires((&c,))
}

/// Resolves `file_path` against `include_dirs`, in order.
///
/// For each directory the candidate is `join(directory, file_path)`. A candidate
/// for which `is_present` answers `false` is passed over; so is one for which
/// `canonicalize` answers `None`. The first canonical path obtained is returned,
/// and no later directory is consulted. When every directory has been passed
/// over, and in particular when there is none, the result is `None`.
///
/// Where the operations answer as a host with fixed answers does, the result is
/// therefore the path contributed by the first directory that contributes one.
pub fn resolve_include_path<P, J, E, C>(
    include_dirs: &Vec<P>,
    file_path: &P,
    join: J,
    is_present: E,
    canonicalize: C,
) -> (found: Option<P>) where J: Fn(&P, &P) -> P, E: Fn(&P) -> bool, C: Fn(&P) -> Option<P>
    requires
        callable(join, is_present, canonicalize, include_dirs@, *file_path),
    ensures
        resolution(join, is_present, canonicalize, include_dirs@, *file_path, found),
        include_dirs@.len() == 0 ==> found is None,
        forall|host: Host<P>| #[trigger]
            host.describes(join, is_present, canonicalize) ==> found == host.first_hit(
                include_dirs@,
                *file_path,
            ),
{
    let mut i: usize = 0;
    while i < include_dirs.len()
        invariant
            i <= include_dirs.len(),
            callable(join, is_present, canonicalize, include_dirs@, *file_path),
            forall|j: int|
                0 <= j < i ==> #[trigger] skips(
                    join,
                    is_present,
                    canonicalize,
                    include_dirs@[j],
                    *file_path,
                ),
        decreases include_dirs.len() - i,
    {
        let candidate = join(&include_dirs[i], file_path);
        if is_present(&candidate) {
            if let Some(path) = canonicalize(&candidate) {
                assert(yields(
                    join,
                    is_present,
                    canonicalize,
                    include_dirs@[i as int],
                    *file_path,
                    path,
                ));
                proof {
                    lemma_fixed_answers_fix_outcome(
                        join,
                        is_present,
                        canonicalize,
                        include_dirs@,
                        *file_path,
                        Some(path),
                    );
                }
                return Some(path);
            }
        }
        assert(skips(join, is_present, canonicalize, include_dirs@[i as int], *file_path));
        i += 1;
    }
    proof {
        lemma_fixed_answers_fix_outcome(
            join,
            is_present,
            canonicalize,
            include_dirs@,
            *file_path,
            None,
        );
    }
    None
}

/// An outcome that a search can have is, for every host that the operations
/// answer as, the first hit on that host.
proof fn lemma_fixed_answers_fix_outcome<P, J, E, C>(
    join: J,
    is_present: E,
    canonicalize: C,
    dirs: Seq<P>,
    file: P,
    outcome: Option<P>,
) where J: Fn(&P, &P) -> P, E: Fn(&P) -> bool, C: Fn(&P) -> Option<P>
    requires
        resolution(join, is_present, canonicalize, dirs, file, outcome),
    ensures
        forall|host: Host<P>| #[trigger]
            host.describes(join, is_present, canonicalize) ==> outcome == host.first_hit(
                dirs,
                file,
            ),
{
    assert forall|host: Host<P>| #[trigger]
        host.describes(join, is_present, canonicalize) implies outcome == host.first_hit(
        dirs,
        file,
    ) by {
        lemma_resolution_is_first_hit(host, join, is_present, canonicalize, dirs, file, outcome);
    }
}

} // verus!
