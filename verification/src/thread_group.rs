//! Properties shared by the threads of a group, such as whether the group
//! is shutting down.
//!
//! Each thread keeps its own slot holding the properties of its group; the
//! slot is handed to these functions explicitly.
use std::sync::Arc;
use std::sync::atomic::AtomicBool;
use vstd::prelude::*;

verus! {

/// Properties shared by every thread of a group; clones share one flag.
#[derive(Clone)]
pub struct GroupProperties {
    inner: Arc<AtomicBool>,
}

impl GroupProperties {
    /// Properties of a group that is not shutting down.
    pub fn new() -> (res: GroupProperties) {
        GroupProperties { inner: Arc::new(AtomicBool::new(false)) }
    }

    /// Marks the whole group as shutting down.
    pub fn mark_shutdown(&self) {
        let flag: &AtomicBool = &self.inner;
        flag.store(true, std::sync::atomic::Ordering::SeqCst);
    }

    /// Whether some thread of the group marked it as shutting down.
    pub fn shutdown_marked(&self) -> (res: bool) {
        let flag: &AtomicBool = &self.inner;
        flag.load(std::sync::atomic::Ordering::SeqCst)
    }
}

impl Default for GroupProperties {
    fn default() -> (res: GroupProperties) {
        GroupProperties::new()
    }
}

/// The properties held in a thread's slot.
pub fn current_properties(slot: &Option<GroupProperties>) -> (res: Option<GroupProperties>)
    ensures
        res is Some <==> slot is Some,
{
    match slot {
        Some(p) => Some(p.clone()),
        None => None,
    }
}

/// Puts the given properties in a thread's slot.
pub fn set_properties(slot: &mut Option<GroupProperties>, props: Option<GroupProperties>)
    ensures
        *final(slot) == props,
{
    *slot = props;
}

/// Whether the group of the thread is shutting down; a thread with no
/// group is not. Asking with `ensure_set` requires the slot to be set.
pub fn is_shutdown(slot: &Option<GroupProperties>, ensure_set: bool) -> (res: bool)
    requires
        ensure_set ==> slot is Some,
    ensures
        slot is None ==> !res,
{
    match slot {
        Some(props) => props.shutdown_marked(),
        None => false,
    }
}

/// Marks the group of the thread, if it has one, as shutting down.
pub fn mark_shutdown(slot: &Option<GroupProperties>) {
    match slot {
        Some(props) => props.mark_shutdown(),
        None => {},
    }
}

} // verus!
