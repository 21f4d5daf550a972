use grimvault::documents::{CharacterSlot, Doc, Edits, FileStamp};
use grimvault::guard::{believed_changes, due_for_saving, push_conflict, triage, Watched};
use grimvault::watch::{Poll, RefreshTracker};

fn stamp(size: u64, seconds: i128) -> Option<FileStamp> {
    Some(FileStamp::synthetic(size, seconds * 1_000_000_000))
}

fn watched() -> Vec<Watched> {
    vec![
        Watched { doc: Doc::Stash, path: "/saves/transfer.gst".into(), stamp: stamp(10, 100) },
        Watched { doc: Doc::Store, path: "/cfg/vault-store.json".into(), stamp: stamp(3, 50) },
        Watched { doc: Doc::Character(CharacterSlot::new(0)), path: "/saves/main/_Zark/player.gdc".into(), stamp: stamp(7, 70) },
    ]
}

fn poll(stamps: &[(&str, Option<FileStamp>)]) -> Poll {
    Poll { stamps: stamps.iter().map(|(path, seen)| (path.to_string(), *seen)).collect() }
}

#[test]
fn a_change_seen_on_two_polls_is_believed_once() {
    let mut tracker = RefreshTracker::default();
    let polls = vec![
        poll(&[("/saves/transfer.gst", stamp(12, 200)), ("/cfg/vault-store.json", stamp(3, 50))]),
        poll(&[("/saves/transfer.gst", stamp(12, 200)), ("/cfg/vault-store.json", stamp(3, 50))]),
        poll(&[("/saves/transfer.gst", stamp(12, 200))]),
    ];
    assert_eq!(believed_changes(&mut tracker, &watched(), &polls, false), vec![Doc::Stash]);
}

#[test]
fn nothing_is_believed_under_a_gesture() {
    let mut tracker = RefreshTracker::default();
    let polls = vec![poll(&[("/saves/transfer.gst", stamp(12, 200))]), poll(&[("/saves/transfer.gst", stamp(12, 200))])];
    assert_eq!(believed_changes(&mut tracker, &watched(), &polls, true), Vec::<Doc>::new());
    // The polls dropped under the gesture left no evidence behind.
    assert_eq!(believed_changes(&mut tracker, &watched(), &vec![polls[0].clone()], false), Vec::<Doc>::new());
    assert_eq!(believed_changes(&mut tracker, &watched(), &vec![polls[1].clone()], false), vec![Doc::Stash]);
}

#[test]
fn unwatched_paths_and_first_sightings_are_not_believed() {
    let mut tracker = RefreshTracker::default();
    let polls = vec![
        poll(&[("/elsewhere", stamp(1, 1)), ("/saves/main/_Zark/player.gdc", stamp(8, 80))]),
        poll(&[("/elsewhere", stamp(1, 1)), ("/saves/main/_Zark/player.gdc", stamp(9, 81))]),
    ];
    assert_eq!(believed_changes(&mut tracker, &watched(), &polls, false), Vec::<Doc>::new());
}

#[test]
fn dirty_documents_raise_conflicts_and_clean_ones_reload() {
    let zark = Doc::Character(CharacterSlot::new(0));
    let mut conflicts = vec![Doc::Store];
    let reload = triage(&vec![Doc::Stash, Doc::Store, zark], &vec![false, true, true], &mut conflicts);
    assert_eq!(reload, vec![Doc::Stash]);
    assert_eq!(conflicts, vec![Doc::Store, zark]);
    push_conflict(&mut conflicts, zark);
    assert_eq!(conflicts, vec![Doc::Store, zark]);
    push_conflict(&mut conflicts, Doc::Reagents);
    assert_eq!(conflicts, vec![Doc::Store, zark, Doc::Reagents]);
}

#[test]
fn autosave_writes_the_dirty_documents_in_write_order() {
    let order = vec![Doc::Store, Doc::Stash, Doc::Reagents];
    assert_eq!(due_for_saving(&order, &vec![Edits::Unsaved, Edits::Saved, Edits::Unsaved]), vec![Doc::Store, Doc::Reagents]);
    assert_eq!(due_for_saving(&order, &vec![Edits::Saved, Edits::Saved, Edits::Saved]), Vec::<Doc>::new());
}

#[test]
fn a_poll_names_a_watched_file_by_its_components() {
    let mut tracker = RefreshTracker::default();
    let polls = vec![
        poll(&[("/saves//transfer.gst", stamp(12, 200))]),
        poll(&[("/saves/./transfer.gst", stamp(12, 200))]),
    ];
    assert_eq!(believed_changes(&mut tracker, &watched(), &polls, false), vec![Doc::Stash]);
}
