use endecode::run::BatchAction::{
    Abort, Archive, CopyTree, Finish, MarkFiles, Overlay, RemoveFolder, Swap,
};
use endecode::run::{first_action, next_action, BatchAction, BatchOptions};

fn trace(o: &BatchOptions, fail_at: Option<BatchAction>) -> Vec<BatchAction> {
    let mut out = Vec::new();
    let mut a = first_action(o);
    loop {
        out.push(a);
        if a == BatchAction::Finish || a == BatchAction::Abort {
            return out;
        }
        a = next_action(o, a, Some(a) != fail_at);
    }
}

#[test]
fn run_with_every_step_and_archives() {
    let o = BatchOptions { copies: 2, overlay: true, swap: true, archive: true };
    assert_eq!(
        trace(&o, None),
        vec![
            CopyTree(0), MarkFiles(0), Overlay(0), Swap(0),
            CopyTree(1), MarkFiles(1), Overlay(1), Swap(1),
            Archive(0), RemoveFolder(0), Archive(1), RemoveFolder(1), Finish
        ]
    );
}

#[test]
fn run_with_plain_copies() {
    let o = BatchOptions { copies: 3, overlay: false, swap: false, archive: false };
    assert_eq!(
        trace(&o, None),
        vec![CopyTree(0), MarkFiles(0), CopyTree(1), MarkFiles(1), CopyTree(2), MarkFiles(2), Finish]
    );
}

#[test]
fn run_with_no_copies_finishes_at_once() {
    let o = BatchOptions { copies: 0, overlay: true, swap: true, archive: true };
    assert_eq!(trace(&o, None), vec![BatchAction::Finish]);
}

#[test]
fn failed_step_aborts_the_run() {
    let o = BatchOptions { copies: 3, overlay: false, swap: true, archive: true };
    assert_eq!(
        trace(&o, Some(MarkFiles(1))),
        vec![CopyTree(0), MarkFiles(0), Swap(0), CopyTree(1), MarkFiles(1), Abort]
    );
    assert_eq!(trace(&o, Some(Archive(0))).last(), Some(&Abort));
}

#[test]
fn failed_removal_does_not_stop_the_run() {
    let o = BatchOptions { copies: 2, overlay: false, swap: false, archive: true };
    assert_eq!(
        trace(&o, Some(RemoveFolder(0))),
        vec![CopyTree(0), MarkFiles(0), CopyTree(1), MarkFiles(1), Archive(0), RemoveFolder(0), Archive(1), RemoveFolder(1), Finish]
    );
}
