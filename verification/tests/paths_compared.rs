use grimvault::documents::FileStamp;
use grimvault::watch::{Observation, RefreshTracker};

#[test]
fn two_spellings_of_a_path_corroborate_each_other() {
    let mut tracker = RefreshTracker::default();
    let theirs = Some(FileStamp::synthetic(12, 200));
    let ours = Some(FileStamp::synthetic(10, 100));
    assert_eq!(tracker.observe("/saves//main/transfer.gst", theirs, ours), Observation::Settling);
    assert_eq!(tracker.observe("/saves/main/transfer.gst", theirs, ours), Observation::Settled);
    tracker.forget("/saves/./main/transfer.gst/");
    assert_eq!(tracker.observe("/saves/main/transfer.gst", theirs, ours), Observation::Settling);
}

#[test]
fn dotted_and_doubled_spellings_are_the_same_file() {
    let mut tracker = RefreshTracker::default();
    let theirs = Some(FileStamp::synthetic(12, 200));
    let ours = Some(FileStamp::synthetic(10, 100));
    assert_eq!(tracker.observe("/cfg/./vault-store.json", theirs, ours), Observation::Settling);
    assert_eq!(tracker.observe("/cfg//vault-store.json/", theirs, ours), Observation::Settled);
    assert_eq!(tracker.observe("/cfg/other.json", theirs, ours), Observation::Settling);
}
