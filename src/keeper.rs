use vstd::prelude::*;

verus! {

/// One step of bringing the working tree back.
pub enum RestoreAction {
    /// Apply the patch at this path in reverse, which brings the non-staged
    /// changes back.
    ApplyReverse(String),
    /// Mark these paths as intent-to-add again.
    IntentToAdd(Vec<String>),
}

/// The steps that restore a tree from which the changes in `patch` were
/// removed and the `paths` were unmarked: the patch first, then the paths;
/// each only where there is something to do.
pub open spec fn restore_plan(patch: Option<String>, paths: Vec<String>) -> Seq<RestoreAction> {
    let first = match patch {
        Some(p) => seq![RestoreAction::ApplyReverse(p)],
        None => Seq::empty(),
    };
    if paths@.len() > 0 {
        first.push(RestoreAction::IntentToAdd(paths))
    } else {
        first
    }
}

/// Holds what was taken out of the working tree and the index for a run, and
/// hands it back exactly once.
pub struct WorkTreeKeeper {
    intent_to_add: Vec<String>,
    patch: Option<String>,
    restored: bool,
}

/// `after` and `actions` are what restoring `before` gives: the plan and a
/// restored keeper the first time, nothing and no change afterwards.
pub open spec fn restore_step(
    before: WorkTreeKeeper,
    after: WorkTreeKeeper,
    actions: Seq<RestoreAction>,
) -> bool {
    if before.is_restored() {
        after == before && actions == Seq::<RestoreAction>::empty()
    } else {
        after.is_restored() && actions == restore_plan(before.patch(), before.intent_to_add())
    }
}

impl WorkTreeKeeper {
    pub closed spec fn intent_to_add(&self) -> Vec<String> {
        self.intent_to_add
    }

    pub closed spec fn patch(&self) -> Option<String> {
        self.patch
    }

    pub closed spec fn is_restored(&self) -> bool {
        self.restored
    }

    /// Takes charge of a cleaned tree: `intent_to_add` are the paths whose
    /// intent-to-add mark was cleared, `patch` the path of the patch that holds
    /// the non-staged changes removed from the working tree, if any were.
    /// Restoration happens when the returned guard is released.
    pub fn clean(intent_to_add: Vec<String>, patch: Option<String>) -> (r: RestoreGuard)
        ensures
            r.keeper().intent_to_add() == intent_to_add,
            r.keeper().patch() == patch,
            !r.keeper().is_restored(),
    {
        RestoreGuard { keeper: WorkTreeKeeper { intent_to_add, patch, restored: false } }
    }

    /// The steps that bring the removed changes back, the first time only;
    /// later calls return no step.
    pub fn restore(&mut self) -> (r: Vec<RestoreAction>)
        ensures
            restore_step(*old(self), *final(self), r@),
    {
        if self.restored {
            return Vec::new();
        }
        self.restored = true;
        let ghost paths = self.intent_to_add;
        let ghost patch = self.patch;
        let mut r: Vec<RestoreAction> = Vec::new();
        match self.patch.take() {
            Some(p) => r.push(RestoreAction::ApplyReverse(p)),
            None => {},
        }
        if self.intent_to_add.len() > 0 {
            let mut taken: Vec<String> = Vec::new();
            std::mem::swap(&mut taken, &mut self.intent_to_add);
            r.push(RestoreAction::IntentToAdd(taken));
        }
        assert(r@ =~= restore_plan(patch, paths));
        r
    }
}

/// The handle of a run's working-tree isolation; releasing it restores the
/// tree.
pub struct RestoreGuard {
    keeper: WorkTreeKeeper,
}

impl RestoreGuard {
    pub closed spec fn keeper(&self) -> WorkTreeKeeper {
        self.keeper
    }

    /// Restores the tree: the steps to perform the first time, none after
    /// that, whichever path (normal end, early return, interrupt) asks.
    pub fn restore(&mut self) -> (r: Vec<RestoreAction>)
        ensures
            restore_step(old(self).keeper(), final(self).keeper(), r@),
    {
        self.keeper.restore()
    }

    /// Whether the tree was restored.
    pub fn is_restored(&self) -> (r: bool)
        ensures
            r == self.keeper().is_restored(),
    {
        self.keeper.restored
    }
}

/// Restoring twice has the effect of restoring once: the second call yields
/// no step and leaves the keeper as the first left it.
pub proof fn lemma_restore_idempotent(
    k0: WorkTreeKeeper,
    k1: WorkTreeKeeper,
    k2: WorkTreeKeeper,
    a1: Seq<RestoreAction>,
    a2: Seq<RestoreAction>,
)
    requires
        restore_step(k0, k1, a1),
        restore_step(k1, k2, a2),
    ensures
        k2 == k1,
        a2 == Seq::<RestoreAction>::empty(),
        a1 + a2 == a1,
        k0.is_restored() ==> a1 == Seq::<RestoreAction>::empty(),
{
    assert(a1 + a2 =~= a1);
}

} // verus!
