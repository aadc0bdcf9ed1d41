//! One compilable source file and its own rebuild decision.
use vstd::prelude::*;
use crate::fingerprint::{FingerprintMap, changed, is_changed};

verus! {

/// A single C or C++ source file of a target.
#[derive(Debug)]
pub struct Src {
    pub path: String,
    pub name: String,
    pub obj_name: String,
    pub dependant_includes: Vec<String>,
}

/// Why a source file is, or is not, compiled again.
#[derive(PartialEq, Eq, Structural, Clone, Copy, Debug)]
pub enum RebuildReason {
    /// Its object file does not exist.
    ObjectMissing,
    /// The file itself changed.
    SourceChanged,
    /// The header at this index of its include closure changed.
    HeaderChanged(usize),
    /// Nothing changed.
    UpToDate,
}

/// Whether some header of `includes` changed.
pub open spec fn some_header_changed(includes: Seq<String>, current: FingerprintMap, stored: FingerprintMap) -> bool {
    exists|i: int| 0 <= i < includes.len() && changed(#[trigger] includes[i]@, current, stored)
}

/// The rebuild rule: a source is compiled again when its object is missing,
/// when it changed, or when a header of its include closure changed.
pub open spec fn needs_rebuild(
    path: Seq<char>,
    includes: Seq<String>,
    obj_exists: bool,
    current: FingerprintMap,
    stored: FingerprintMap,
) -> bool {
    !obj_exists || changed(path, current, stored) || some_header_changed(includes, current, stored)
}

impl RebuildReason {
    pub open spec fn needs_work(self) -> bool {
        !(self is UpToDate)
    }
}

impl Src {
    pub fn new(path: String, name: String, obj_name: String, dependant_includes: Vec<String>) -> (r: Src)
        ensures
            r.path == path,
            r.name == name,
            r.obj_name == obj_name,
            r.dependant_includes == dependant_includes,
    {
        Src { path, name, obj_name, dependant_includes }
    }

    pub open spec fn needs_rebuild(&self, obj_exists: bool, current: FingerprintMap, stored: FingerprintMap) -> bool {
        needs_rebuild(self.path@, self.dependant_includes@, obj_exists, current, stored)
    }

    /// Decides whether this file must be compiled again, and why. The checks
    /// run in order and the first that holds gives the reason.
    pub fn to_build(&self, obj_exists: bool, current: &FingerprintMap, stored: &FingerprintMap) -> (r: RebuildReason)
        ensures
            r.needs_work() == self.needs_rebuild(obj_exists, *current, *stored),
            (r == RebuildReason::ObjectMissing) == !obj_exists,
            (r == RebuildReason::SourceChanged) == (obj_exists && changed(self.path@, *current, *stored)),
            r matches RebuildReason::HeaderChanged(i) ==> {
                &&& obj_exists
                &&& !changed(self.path@, *current, *stored)
                &&& i < self.dependant_includes@.len()
                &&& changed(self.dependant_includes@[i as int]@, *current, *stored)
                &&& forall|j: int| 0 <= j < i ==> !changed(#[trigger] self.dependant_includes@[j]@, *current, *stored)
            },
    {
        if !obj_exists {
            return RebuildReason::ObjectMissing;
        }
        if is_changed(self.path.as_str(), current, stored) {
            return RebuildReason::SourceChanged;
        }
        let mut i: usize = 0;
        while i < self.dependant_includes.len()
            invariant
                obj_exists,
                !changed(self.path@, *current, *stored),
                i <= self.dependant_includes@.len(),
                forall|j: int| 0 <= j < i ==> !changed(#[trigger] self.dependant_includes@[j]@, *current, *stored),
            decreases self.dependant_includes@.len() - i,
        {
            if is_changed(self.dependant_includes[i].as_str(), current, stored) {
                return RebuildReason::HeaderChanged(i);
            }
            i = i + 1;
        }
        RebuildReason::UpToDate
    }
}

/// A stable build stays put: a source whose object exists and which, with
/// every header of its include closure, has the fingerprint recorded for it,
/// is not compiled again.
pub proof fn lemma_stable_source_not_rebuilt(
    path: Seq<char>,
    includes: Seq<String>,
    current: FingerprintMap,
    stored: FingerprintMap,
)
    requires
        current.get(path).is_some() && current.get(path) == stored.get(path),
        forall|i: int| 0 <= i < includes.len() ==>
            (#[trigger] current.get(includes[i]@)).is_some() && current.get(includes[i]@) == stored.get(includes[i]@),
    ensures
        !needs_rebuild(path, includes, true, current, stored),
{
    assert forall|i: int| 0 <= i < includes.len() implies !changed(#[trigger] includes[i]@, current, stored) by {
        assert(current.get(includes[i]@).is_some());
    }
}

/// Changing one header marks every source whose include closure holds it
/// for rebuilding, and leaves the decision of every source that neither is
/// nor includes that header as it was.
pub proof fn lemma_header_change_is_local(
    header: Seq<char>,
    current: FingerprintMap,
    changed_current: FingerprintMap,
    stored: FingerprintMap,
    path: Seq<char>,
    includes: Seq<String>,
    obj_exists: bool,
)
    requires
        changed(header, changed_current, stored),
        forall|k: Seq<char>| k != header ==> #[trigger] changed_current.get(k) == current.get(k),
    ensures
        (exists|i: int| 0 <= i < includes.len() && includes[i]@ == header) ==> needs_rebuild(
            path,
            includes,
            obj_exists,
            changed_current,
            stored,
        ),
        (path != header && forall|i: int| 0 <= i < includes.len() ==> #[trigger] includes[i]@ != header)
            ==> needs_rebuild(path, includes, obj_exists, changed_current, stored) == needs_rebuild(
            path,
            includes,
            obj_exists,
            current,
            stored,
        ),
{
    if path != header && forall|i: int| 0 <= i < includes.len() ==> #[trigger] includes[i]@ != header {
        assert(changed_current.get(path) == current.get(path));
        assert forall|i: int| 0 <= i < includes.len() implies changed(#[trigger] includes[i]@, changed_current, stored)
            == changed(includes[i]@, current, stored) by {
            assert(changed_current.get(includes[i]@) == current.get(includes[i]@));
        }
    }
}

} // verus!
