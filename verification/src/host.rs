//! A mathematical model of a host whose filesystem does not change.

use vstd::prelude::*;

verus! {

/// A host seen as three mathematical functions on paths of type `P`.
#[verifier::reject_recursive_types(P)]
pub struct Host<P> {
    /// The path obtained by joining a file reference (second argument) onto a
    /// directory (first argument).
    pub join: spec_fn(P, P) -> P,
    /// Whether a path names an existing entry, links followed.
    pub exists: spec_fn(P) -> bool,
    /// The canonical form of a path, where the host can produce one.
    pub canonical: spec_fn(P) -> Option<P>,
}

impl<P> Host<P> {
    /// The candidate path for `file` under `dir`.
    pub open spec fn candidate(self, dir: P, file: P) -> P {
        (self.join)(dir, file)
    }

    /// The canonical path that `dir` contributes for `file`: that of the
    /// candidate, if the candidate exists and can be canonicalized.
    pub open spec fn hit(self, dir: P, file: P) -> Option<P> {
        let c = self.candidate(dir, file);
        if (self.exists)(c) {
            (self.canonical)(c)
        } else {
            None
        }
    }

    /// The canonical path contributed by the first directory of `dirs` that
    /// contributes one.
    pub open spec fn first_hit(self, dirs: Seq<P>, file: P) -> Option<P>
        decreases dirs.len(),
    {
        if dirs.len() == 0 {
            None
        } else if self.hit(dirs[0], file) is Some {
            self.hit(dirs[0], file)
        } else {
            self.first_hit(dirs.skip(1), file)
        }
    }

    /// The three operations answer as this host does: whatever one of them can
    /// return on an argument is the value of the matching function of the host.
    pub open spec fn describes<J, E, C>(self, join: J, is_present: E, canonicalize: C) -> bool where
        J: Fn(&P, &P) -> P,
        E: Fn(&P) -> bool,
        C: Fn(&P) -> Option<P>,
    {
        &&& forall|dir: P, file: P, c: P| #[trigger]
            join.ensures((&dir, &file), c) ==> c == (self.join)(dir, file)
        &&& forall|c: P, b: bool| #[trigger]
            is_present.ensures((&c,), b) ==> b == (self.exists)(c)
        &&& forall|c: P, r: Option<P>| #[trigger]
            canonicalize.ensures((&c,), r) ==> r == (self.canonical)(c)
    }
}

} // verus!
