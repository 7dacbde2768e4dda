//! Exactly-once reclamation of a native session handle and its leaked
//! callback context.
//!
//! A live session owns two resources: the native session handle, and the
//! heap-boxed callback context whose address was handed to the native
//! library.  Each must be released exactly once — by the teardown path or,
//! for the context, by the callback's terminal path — and never twice.

use vstd::prelude::*;

verus! {

/// One release step a teardown demands of its caller.
#[derive(Debug, Clone, Copy, PartialEq, Eq, Structural)]
pub enum TeardownAction {
    /// Deallocate the native session handle.
    DeallocateNative,
    /// Reclaim and drop the boxed callback context.
    ReclaimContext,
}

/// The release steps owed by a session whose native handle and context are
/// live as given: each resource appears exactly once while live, never
/// otherwise.
pub open spec fn teardown_actions(native_live: bool, context_live: bool) -> Seq<TeardownAction> {
    if native_live && context_live {
        seq![TeardownAction::DeallocateNative, TeardownAction::ReclaimContext]
    } else if native_live {
        seq![TeardownAction::DeallocateNative]
    } else if context_live {
        seq![TeardownAction::ReclaimContext]
    } else {
        Seq::empty()
    }
}

/// How often an action occurs in a list of release steps.
pub open spec fn action_count(actions: Seq<TeardownAction>, a: TeardownAction) -> int
    decreases actions.len(),
{
    if actions.len() == 0 {
        0
    } else {
        (if actions[0] == a {
            1int
        } else {
            0int
        }) + action_count(actions.drop_first(), a)
    }
}

/// Bookkeeping for one native session: which of its two resources are still
/// owed a release.  The guard only ever moves from live to released; asking
/// it to tear down twice yields release steps the first time and none the
/// second.
#[derive(Debug)]
pub struct SessionGuard {
    native_live: bool,
    context_live: bool,
}

impl SessionGuard {
    /// Whether the native session handle has not been released yet.
    pub closed spec fn native_live(&self) -> bool {
        self.native_live
    }

    /// Whether the boxed callback context has not been reclaimed yet.
    pub closed spec fn context_live(&self) -> bool {
        self.context_live
    }

    /// A fresh guard for a session that just leaked its context to the
    /// native library.
    pub fn new() -> (r: SessionGuard)
        ensures
            r.native_live(),
            r.context_live(),
    {
        SessionGuard { native_live: true, context_live: true }
    }

    /// Takes the context for the callback's terminal path.  Reports whether
    /// the caller now owns it; a second take reports false, so the context
    /// is reclaimed at most once.
    pub fn take_context(&mut self) -> (took: bool)
        ensures
            took == old(self).context_live(),
            !final(self).context_live(),
            final(self).native_live() == old(self).native_live(),
    {
        let took = self.context_live;
        self.context_live = false;
        took
    }

    /// The release steps the caller must perform now: each still-live
    /// resource exactly once.  Afterwards the guard owes nothing, so a
    /// repeated teardown returns no steps.
    pub fn teardown(&mut self) -> (actions: Vec<TeardownAction>)
        ensures
            actions@ =~= teardown_actions(old(self).native_live(), old(self).context_live()),
            !final(self).native_live(),
            !final(self).context_live(),
    {
        let mut actions: Vec<TeardownAction> = Vec::new();
        if self.native_live {
            actions.push(TeardownAction::DeallocateNative);
            self.native_live = false;
        }
        if self.context_live {
            actions.push(TeardownAction::ReclaimContext);
            self.context_live = false;
        }
        actions
    }
}

/// Drop safety: tearing a session down demands the native deallocation
/// exactly once while the handle is live and the context reclamation
/// exactly once while the context is live; a session already torn down
/// demands nothing, so no resource is ever released twice.
pub proof fn lemma_teardown_exactly_once(native_live: bool, context_live: bool)
    ensures
        action_count(teardown_actions(native_live, context_live), TeardownAction::DeallocateNative)
            == if native_live {
            1int
        } else {
            0int
        },
        action_count(teardown_actions(native_live, context_live), TeardownAction::ReclaimContext)
            == if context_live {
            1int
        } else {
            0int
        },
        teardown_actions(false, false) =~= Seq::<TeardownAction>::empty(),
{
    reveal_with_fuel(action_count, 4);
    let acts = teardown_actions(native_live, context_live);
    if native_live && context_live {
        assert(acts.drop_first() =~= seq![TeardownAction::ReclaimContext]);
        assert(acts.drop_first().drop_first() =~= Seq::<TeardownAction>::empty());
    } else if native_live || context_live {
        assert(acts.drop_first() =~= Seq::<TeardownAction>::empty());
    }
}

} // verus!
