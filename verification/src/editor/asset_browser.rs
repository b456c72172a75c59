//! What the asset browser reports to the rest of the editor.
use vstd::prelude::*;

verus! {

/// A message shown under the asset browser, and whether it reports a failure.
pub struct BrowserStatus {
    pub message: String,
    pub error: bool,
}

/// The payload of a prefab thumbnail being dragged: the prefab's asset id.
#[derive(Clone)]
pub struct PrefabDrag(pub String);

} // verus!
