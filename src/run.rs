//! The sequence of a batch run as a step function: given the step just
//! performed and whether it succeeded, the step to perform next. Copies are
//! made one after the other; archiving starts only once every copy is done,
//! and a copy's folder is removed only after its archive was written.

use vstd::prelude::*;

verus! {

/// What the run asks to be done next; the index names the copy.
#[derive(Clone, Copy, Debug, PartialEq, Eq, Structural)]
pub enum BatchAction {
    /// Create the copy's folder and copy the source tree into it.
    CopyTree(usize),
    /// Append the copy's marker to every supported file in it.
    MarkFiles(usize),
    /// Draw the visible watermark on the copy's numbered image.
    Overlay(usize),
    /// Exchange the copy's two numbered images.
    Swap(usize),
    /// Pack the copy's folder into an archive beside it.
    Archive(usize),
    /// Delete the copy's folder, once archived; a failure here is ignored.
    RemoveFolder(usize),
    /// The run succeeded.
    Finish,
    /// The run stopped at a failed step.
    Abort,
}

/// The shape of a batch run: how many copies, and which optional steps.
#[derive(Clone, Copy, Debug, PartialEq, Eq, Structural)]
pub struct BatchOptions {
    pub copies: usize,
    pub overlay: bool,
    pub swap: bool,
    pub archive: bool,
}

/// The action's copy index, where it has one, names an existing copy.
pub open spec fn action_wf(o: BatchOptions, a: BatchAction) -> bool {
    match a {
        BatchAction::CopyTree(i) => i < o.copies,
        BatchAction::MarkFiles(i) => i < o.copies,
        BatchAction::Overlay(i) => i < o.copies,
        BatchAction::Swap(i) => i < o.copies,
        BatchAction::Archive(i) => i < o.copies,
        BatchAction::RemoveFolder(i) => i < o.copies,
        _ => true,
    }
}

/// What follows the last step of copy `i`.
pub open spec fn after_copy(o: BatchOptions, i: int) -> BatchAction {
    if i + 1 < o.copies {
        BatchAction::CopyTree((i + 1) as usize)
    } else if o.archive {
        BatchAction::Archive(0)
    } else {
        BatchAction::Finish
    }
}

/// The step that follows `a` when `a` succeeded.
pub open spec fn successor(o: BatchOptions, a: BatchAction) -> BatchAction {
    match a {
        BatchAction::CopyTree(i) => BatchAction::MarkFiles(i),
        BatchAction::MarkFiles(i) => if o.overlay {
            BatchAction::Overlay(i)
        } else if o.swap {
            BatchAction::Swap(i)
        } else {
            after_copy(o, i as int)
        },
        BatchAction::Overlay(i) => if o.swap {
            BatchAction::Swap(i)
        } else {
            after_copy(o, i as int)
        },
        BatchAction::Swap(i) => after_copy(o, i as int),
        BatchAction::Archive(i) => BatchAction::RemoveFolder(i),
        BatchAction::RemoveFolder(i) => if i + 1 < o.copies {
            BatchAction::Archive((i + 1) as usize)
        } else {
            BatchAction::Finish
        },
        BatchAction::Finish => BatchAction::Finish,
        BatchAction::Abort => BatchAction::Abort,
    }
}

/// The step after `a`, which succeeded when `ok` holds: a failure aborts the
/// run, except that of removing an archived folder.
pub open spec fn next_spec(o: BatchOptions, a: BatchAction, ok: bool) -> BatchAction {
    match a {
        BatchAction::RemoveFolder(_) => successor(o, a),
        BatchAction::Finish => BatchAction::Finish,
        BatchAction::Abort => BatchAction::Abort,
        _ => if ok {
            successor(o, a)
        } else {
            BatchAction::Abort
        },
    }
}

/// The first step of a run: the first copy, or nothing to do.
pub fn first_action(o: &BatchOptions) -> (r: BatchAction)
    ensures
        r == if o.copies > 0 {
            BatchAction::CopyTree(0)
        } else {
            BatchAction::Finish
        },
{
    if o.copies > 0 {
        BatchAction::CopyTree(0)
    } else {
        BatchAction::Finish
    }
}

fn after_copy_exec(o: &BatchOptions, i: usize) -> (r: BatchAction)
    requires
        i < o.copies,
    ensures
        r == after_copy(*o, i as int),
{
    if i + 1 < o.copies {
        BatchAction::CopyTree(i + 1)
    } else if o.archive {
        BatchAction::Archive(0)
    } else {
        BatchAction::Finish
    }
}

/// The step that follows `a`, given whether `a` succeeded.
pub fn next_action(o: &BatchOptions, a: BatchAction, ok: bool) -> (r: BatchAction)
    requires
        action_wf(*o, a),
    ensures
        r == next_spec(*o, a, ok),
        action_wf(*o, r),
{
    match a {
        BatchAction::RemoveFolder(i) => {
            if i + 1 < o.copies {
                BatchAction::Archive(i + 1)
            } else {
                BatchAction::Finish
            }
        },
        BatchAction::Finish => BatchAction::Finish,
        BatchAction::Abort => BatchAction::Abort,
        _ => {
            if !ok {
                return BatchAction::Abort;
            }
            match a {
                BatchAction::CopyTree(i) => BatchAction::MarkFiles(i),
                BatchAction::MarkFiles(i) => {
                    if o.overlay {
                        BatchAction::Overlay(i)
                    } else if o.swap {
                        BatchAction::Swap(i)
                    } else {
                        after_copy_exec(o, i)
                    }
                },
                BatchAction::Overlay(i) => {
                    if o.swap {
                        BatchAction::Swap(i)
                    } else {
                        after_copy_exec(o, i)
                    }
                },
                BatchAction::Swap(i) => after_copy_exec(o, i),
                BatchAction::Archive(i) => BatchAction::RemoveFolder(i),
                _ => BatchAction::Abort,
            }
        },
    }
}

/// A folder is removed only right after its own archive was written.
pub proof fn lemma_remove_only_after_archive(o: BatchOptions, a: BatchAction, ok: bool, i: usize)
    requires
        next_spec(o, a, ok) == BatchAction::RemoveFolder(i),
    ensures
        a == BatchAction::Archive(i) && ok,
{
}

/// Archiving starts only after the last step of the last copy succeeded,
/// and only when archives were asked for.
pub proof fn lemma_archive_after_all_copies(o: BatchOptions, a: BatchAction, ok: bool)
    requires
        action_wf(o, a),
        next_spec(o, a, ok) == BatchAction::Archive(0),
    ensures
        o.archive && ok,
        match a {
            BatchAction::MarkFiles(i) => i + 1 == o.copies,
            BatchAction::Overlay(i) => i + 1 == o.copies,
            BatchAction::Swap(i) => i + 1 == o.copies,
            _ => false,
        },
{
}

/// Copy `i + 1` is started only after every step of copy `i` succeeded.
pub proof fn lemma_copies_in_order(o: BatchOptions, a: BatchAction, ok: bool, j: usize)
    requires
        next_spec(o, a, ok) == BatchAction::CopyTree(j),
    ensures
        ok,
        j >= 1,
        match a {
            BatchAction::MarkFiles(i) => i + 1 == j && !o.overlay && !o.swap,
            BatchAction::Overlay(i) => i + 1 == j && !o.swap,
            BatchAction::Swap(i) => i + 1 == j,
            _ => false,
        },
{
}

/// Once a run has finished or aborted, it stays so.
pub proof fn lemma_end_is_final(o: BatchOptions, ok: bool)
    ensures
        next_spec(o, BatchAction::Finish, ok) == BatchAction::Finish,
        next_spec(o, BatchAction::Abort, ok) == BatchAction::Abort,
{
}

} // verus!
