//! The rebuild coordinator of watch mode: which change batches trigger a
//! full pass, and the `Idle` / `Rebuilding` states around that pass.
use vstd::prelude::*;

use crate::naming::{is_markup_file_name, is_markup_name};

verus! {

/// One path named by a change notification.
#[derive(Clone, Debug)]
pub struct ChangedPath {
    /// The path's file name; invalid Unicode is replaced by U+FFFD.
    pub name: String,
    /// Whether the path is, at the time the batch is handled, a regular file.
    pub is_file: bool,
}

/// A path that asks for a rebuild: a regular file with the recognized extension.
pub open spec fn triggers(p: ChangedPath) -> bool {
    p.is_file && is_markup_name(p.name@)
}

/// Some path of the batch asks for a rebuild.
pub open spec fn batch_triggers(paths: Seq<ChangedPath>) -> bool {
    exists|i: int| 0 <= i < paths.len() && triggers(#[trigger] paths[i])
}

/// Checks one path.
pub fn path_triggers(p: &ChangedPath) -> (r: bool)
    ensures
        r == triggers(*p),
{
    p.is_file && is_markup_file_name(p.name.as_str())
}

/// The first path of the batch that asks for a rebuild, if any.
pub fn first_trigger(paths: &Vec<ChangedPath>) -> (r: Option<usize>)
    ensures
        r is Some <==> batch_triggers(paths@),
        r matches Some(i) ==> i < paths@.len() && triggers(paths@[i as int]) && forall|k: int|
            0 <= k < i ==> !triggers(#[trigger] paths@[k]),
{
    let mut i: usize = 0;
    while i < paths.len()
        invariant
            i <= paths@.len(),
            forall|k: int| 0 <= k < i ==> !triggers(#[trigger] paths@[k]),
        decreases paths.len() - i,
    {
        if path_triggers(&paths[i]) {
            return Some(i);
        }
        i += 1;
    }
    None
}

/// The coordinator's state.
#[derive(Clone, Copy, PartialEq, Eq, Structural, Debug)]
pub enum Phase {
    Idle,
    Rebuilding,
}

/// What the consumer loop does after a batch.
#[derive(Clone, Copy, PartialEq, Eq, Structural, Debug)]
pub enum Reaction {
    /// Run one full pass over the source root; `trigger` is the index of the
    /// first path of the batch that asked for it.
    Rebuild { trigger: usize },
    /// Discard the batch and wait for the next one.
    Discard,
}

/// Serializes rebuilds: one batch at a time, at most one pass per batch.
pub struct Coordinator {
    pub phase: Phase,
}

impl Coordinator {
    /// A coordinator that has just subscribed to notifications.
    pub fn new() -> (r: Coordinator)
        ensures
            r.phase == Phase::Idle,
    {
        Coordinator { phase: Phase::Idle }
    }

    /// Whether the coordinator waits for a batch.
    pub fn is_idle(&self) -> (r: bool)
        ensures
            r == (self.phase == Phase::Idle),
    {
        self.phase == Phase::Idle
    }

    /// Takes one notification batch while idle. A batch with a triggering
    /// path starts exactly one rebuild; any other batch is discarded.
    pub fn on_batch(&mut self, paths: &Vec<ChangedPath>) -> (r: Reaction)
        requires
            old(self).phase == Phase::Idle,
        ensures
            batch_triggers(paths@) ==> (r matches Reaction::Rebuild { trigger } && trigger
                < paths@.len() && triggers(paths@[trigger as int]) && forall|k: int|
                0 <= k < trigger ==> !triggers(#[trigger] paths@[k])),
            !batch_triggers(paths@) ==> r == Reaction::Discard,
            final(self).phase == (if r is Rebuild {
                Phase::Rebuilding
            } else {
                Phase::Idle
            }),
    {
        match first_trigger(paths) {
            Some(i) => {
                self.phase = Phase::Rebuilding;
                Reaction::Rebuild { trigger: i }
            },
            None => Reaction::Discard,
        }
    }

    /// The pass has returned, whether it succeeded or failed.
    pub fn finish_rebuild(&mut self)
        requires
            old(self).phase == Phase::Rebuilding,
        ensures
            final(self).phase == Phase::Idle,
    {
        self.phase = Phase::Idle;
    }
}

} // verus!
