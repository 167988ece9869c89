//! What holds of every search, proved from the definitions of `crate::host`
//! and the contract of `crate::resolve::resolve_include_path`.

use crate::host::Host;
use crate::resolve::{resolution, skips, yields};
use vstd::prelude::*;

verus! {

/// The search of an empty list finds nothing.
pub proof fn lemma_empty_list_finds_nothing<P>(host: Host<P>, file: P)
    ensures
        host.first_hit(Seq::<P>::empty(), file) is None,
{
}

/// A search finds nothing exactly when no directory of the list contributes a
/// path.
pub proof fn lemma_nothing_found_iff_no_hit<P>(host: Host<P>, dirs: Seq<P>, file: P)
    ensures
        host.first_hit(dirs, file) is None <==> forall|i: int|
            0 <= i < dirs.len() ==> #[trigger] host.hit(dirs[i], file) is None,
    decreases dirs.len(),
{
    if dirs.len() > 0 {
        let rest = dirs.skip(1);
        lemma_nothing_found_iff_no_hit(host, rest, file);
        if host.first_hit(dirs, file) is None {
            assert forall|i: int| 0 <= i < dirs.len() implies #[trigger] host.hit(
                dirs[i],
                file,
            ) is None by {
                if i > 0 {
                    assert(rest[i - 1] == dirs[i]);
                }
            }
        } else if host.hit(dirs[0], file) is None {
            let i = choose|i: int| 0 <= i < rest.len() && #[trigger] host.hit(rest[i], file) is Some;
            assert(rest[i] == dirs[i + 1]);
        }
    }
}

/// Earlier directories shadow later ones: if `k` is the smallest index whose
/// directory contributes a path, the search finds the path of that directory.
pub proof fn lemma_first_hit_is_smallest<P>(host: Host<P>, dirs: Seq<P>, file: P, k: int)
    requires
        0 <= k < dirs.len(),
        host.hit(dirs[k], file) is Some,
        forall|j: int| 0 <= j < k ==> #[trigger] host.hit(dirs[j], file) is None,
    ensures
        host.first_hit(dirs, file) == host.hit(dirs[k], file),
    decreases k,
{
    if k > 0 {
        let rest = dirs.skip(1);
        assert(host.hit(dirs[0], file) is None);
        assert(rest[k - 1] == dirs[k]);
        assert forall|j: int| 0 <= j < k - 1 implies #[trigger] host.hit(rest[j], file) is None by {
            assert(rest[j] == dirs[j + 1]);
        }
        lemma_first_hit_is_smallest(host, rest, file, k - 1);
    }
}

/// On a host whose answers are fixed, the resolver returns the path of the first
/// directory that contributes one, and nothing when none does.
pub proof fn lemma_resolution_is_first_hit<P, J, E, C>(
    host: Host<P>,
    join: J,
    is_present: E,
    canonicalize: C,
    dirs: Seq<P>,
    file: P,
    outcome: Option<P>,
) where J: Fn(&P, &P) -> P, E: Fn(&P) -> bool, C: Fn(&P) -> Option<P>
    requires
        host.describes(join, is_present, canonicalize),
        resolution(join, is_present, canonicalize, dirs, file, outcome),
    ensures
        outcome == host.first_hit(dirs, file),
{
    assert forall|j: int|
        0 <= j < dirs.len() && skips(
            join,
            is_present,
            canonicalize,
            dirs[j],
            file,
        ) implies #[trigger] host.hit(dirs[j], file) is None by {}
    match outcome {
        Some(path) => {
            let k = choose|k: int|
                {
                    &&& 0 <= k < dirs.len()
                    &&& #[trigger] yields(join, is_present, canonicalize, dirs[k], file, path)
                    &&& forall|j: int|
                        0 <= j < k ==> #[trigger] skips(
                            join,
                            is_present,
                            canonicalize,
                            dirs[j],
                            file,
                        )
                };
            assert(host.hit(dirs[k], file) == Some(path));
            lemma_first_hit_is_smallest(host, dirs, file, k);
        },
        None => {
            lemma_nothing_found_iff_no_hit(host, dirs, file);
        },
    }
}

/// Resolving twice with the same arguments on a host whose answers are fixed
/// gives the same outcome.
pub proof fn lemma_resolution_is_repeatable<P, J, E, C>(
    host: Host<P>,
    join: J,
    is_present: E,
    canonicalize: C,
    dirs: Seq<P>,
    file: P,
    first: Option<P>,
    second: Option<P>,
) where J: Fn(&P, &P) -> P, E: Fn(&P) -> bool, C: Fn(&P) -> Option<P>
    requires
        host.describes(join, is_present, canonicalize),
        resolution(join, is_present, canonicalize, dirs, file, first),
        resolution(join, is_present, canonicalize, dirs, file, second),
    ensures
        first == second,
{
    lemma_resolution_is_first_hit(host, join, is_present, canonicalize, dirs, file, first);
    lemma_resolution_is_first_hit(host, join, is_present, canonicalize, dirs, file, second);
}

/// A resolved path is one that canonicalization returned: whatever holds of
/// every path that `canonicalize` can return (that it is absolute, that it names
/// an existing entry) holds of the outcome.
pub proof fn lemma_outcome_is_canonical<P, J, E, C>(
    join: J,
    is_present: E,
    canonicalize: C,
    dirs: Seq<P>,
    file: P,
    outcome: Option<P>,
    holds_of: spec_fn(P) -> bool,
) where J: Fn(&P, &P) -> P, E: Fn(&P) -> bool, C: Fn(&P) -> Option<P>
    requires
        resolution(join, is_present, canonicalize, dirs, file, outcome),
        forall|c: P, path: P| #[trigger] canonicalize.ensures((&c,), Some(path)) ==> holds_of(path),
    ensures
        outcome matches Some(path) ==> holds_of(path),
{
}

/// A path found on a host is the canonical form of a candidate that exists
/// there, for one of the directories of the list.
pub proof fn lemma_found_path_has_a_source<P>(host: Host<P>, dirs: Seq<P>, file: P)
    ensures
        host.first_hit(dirs, file) matches Some(path) ==> exists|k: int|
            {
                &&& 0 <= k < dirs.len()
                &&& (host.exists)(#[trigger] host.candidate(dirs[k], file))
                &&& (host.canonical)(host.candidate(dirs[k], file)) == Some(path)
            },
    decreases dirs.len(),
{
    if dirs.len() > 0 && host.hit(dirs[0], file) is None {
        let rest = dirs.skip(1);
        lemma_found_path_has_a_source(host, rest, file);
        if let Some(path) = host.first_hit(rest, file) {
            let k = choose|k: int|
                {
                    &&& 0 <= k < rest.len()
                    &&& (host.exists)(#[trigger] host.candidate(rest[k], file))
                    &&& (host.canonical)(host.candidate(rest[k], file)) == Some(path)
                };
            assert(rest[k] == dirs[k + 1]);
            assert((host.exists)(host.candidate(dirs[k + 1], file)));
        }
    } else if dirs.len() > 0 {
        assert((host.exists)(host.candidate(dirs[0], file)));
    }
}

/// Order matters. Let two directories both contribute a path, with no
/// contributing directory before the earlier of them. The search finds the path
/// of the earlier one; after the two are swapped it finds the path of the other,
/// which is then the earlier.
pub proof fn lemma_swap_prefers_now_earlier<P>(
    host: Host<P>,
    dirs: Seq<P>,
    file: P,
    i: int,
    j: int,
)
    requires
        0 <= i < j < dirs.len(),
        host.hit(dirs[i], file) is Some,
        host.hit(dirs[j], file) is Some,
        forall|m: int| 0 <= m < i ==> #[trigger] host.hit(dirs[m], file) is None,
    ensures
        host.first_hit(dirs, file) == host.hit(dirs[i], file),
        host.first_hit(dirs.update(i, dirs[j]).update(j, dirs[i]), file) == host.hit(
            dirs[j],
            file,
        ),
{
    let swapped = dirs.update(i, dirs[j]).update(j, dirs[i]);
    lemma_first_hit_is_smallest(host, dirs, file, i);
    assert(swapped[i] == dirs[j]);
    assert forall|m: int| 0 <= m < i implies #[trigger] host.hit(swapped[m], file) is None by {
        assert(swapped[m] == dirs[m]);
    }
    lemma_first_hit_is_smallest(host, swapped, file, i);
}

/// An absolute file reference: where joining `file` onto any directory gives
/// `file` itself, the outcome is that of probing `file` alone, whatever the
/// directories of a non-empty list are. Two non-empty lists give the same
/// outcome.
pub proof fn lemma_absolute_reference_ignores_list<P>(
    host: Host<P>,
    dirs: Seq<P>,
    others: Seq<P>,
    file: P,
)
    requires
        forall|dir: P| #[trigger] (host.join)(dir, file) == file,
        dirs.len() > 0,
        others.len() > 0,
    ensures
        host.first_hit(dirs, file) == (if (host.exists)(file) {
            (host.canonical)(file)
        } else {
            None
        }),
        host.first_hit(dirs, file) == host.first_hit(others, file),
{
    lemma_absolute_probe(host, dirs, file);
    lemma_absolute_probe(host, others, file);
}

proof fn lemma_absolute_probe<P>(host: Host<P>, dirs: Seq<P>, file: P)
    requires
        forall|dir: P| #[trigger] (host.join)(dir, file) == file,
        dirs.len() > 0,
    ensures
        host.first_hit(dirs, file) == (if (host.exists)(file) {
            (host.canonical)(file)
        } else {
            None
        }),
{
    assert forall|i: int| 0 <= i < dirs.len() implies #[trigger] host.hit(dirs[i], file) == host.hit(
        dirs[0],
        file,
    ) by {
        assert((host.join)(dirs[i], file) == file);
        assert((host.join)(dirs[0], file) == file);
    }
    assert((host.join)(dirs[0], file) == file);
    if host.hit(dirs[0], file) is Some {
        lemma_first_hit_is_smallest(host, dirs, file, 0);
    } else {
        lemma_nothing_found_iff_no_hit(host, dirs, file);
    }
}

} // verus!
