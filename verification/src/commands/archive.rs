//! `archive`: which artifacts move to the archive directory.
use vstd::prelude::*;

use crate::artifact::{is_archived, Artifact};
use crate::schema::Schema;
use crate::sort::positions;

verus! {

/// The artifacts that `archive` moves: none when the schema has no archive
/// configuration; else those whose status is the archive value.
pub fn archive_selection(schema: &Schema, artifacts: &Vec<Artifact>) -> (r: Option<Vec<usize>>)
    requires
        forall|i: int| 0 <= i < artifacts@.len() ==> (#[trigger] artifacts@[i]).wf(),
    ensures
        r is None <==> schema@.archive is None,
        r matches Some(v) ==> v@ == positions(artifacts@.len() as int, |i: int| is_archived(schema@.archive, artifacts@[i])),
{
    let value = schema.archive_value();
    if value.is_none() {
        return None;
    }
    let ghost keep = |i: int| is_archived(schema@.archive, artifacts@[i]);
    let mut out: Vec<usize> = Vec::new();
    let mut i: usize = 0;
    while i < artifacts.len()
        invariant
            forall|i: int| 0 <= i < artifacts@.len() ==> (#[trigger] artifacts@[i]).wf(),
            keep == (|i: int| is_archived(schema@.archive, artifacts@[i])),
            value is Some,
            crate::artifact::opt_str(value) == match schema@.archive {
                Some(a) => Some(a.value),
                None => None,
            },
            i <= artifacts@.len(),
            out@ == positions(i as int, keep),
        decreases artifacts@.len() - i,
    {
        if artifacts[i].archived(value) {
            out.push(i);
        }
        i += 1;
    }
    assert(keep =~= (|i: int| is_archived(schema@.archive, artifacts@[i])));
    Some(out)
}

} // verus!
