use grimvault::documents::{Backup, CharacterSlot, Doc, Edits, FileStamp, SaveOutcome, SaveStep, Tracking};
use grimvault::links::Links;
use grimvault::shell::{
    campaign_docs, mode_of, right_click_mode, shared_docs, Mode, Modifiers, WriteOrder,
};

const NONE: Modifiers = Modifiers { alt: false, command: false, shift: false };
const ALT: Modifiers = Modifiers { alt: true, command: false, shift: false };
const COMMAND: Modifiers = Modifiers { alt: false, command: true, shift: false };
const SHIFT: Modifiers = Modifiers { alt: false, command: false, shift: true };

fn zark() -> Doc {
    Doc::Character(CharacterSlot::new(1))
}

fn syf() -> Doc {
    Doc::Character(CharacterSlot::new(2))
}

#[test]
fn write_order_puts_the_latest_destination_first_and_keeps_the_rest() {
    let sif = Doc::Character(CharacterSlot::new(0));
    let mut order = WriteOrder::new(vec![Doc::Store, Doc::Stash, Doc::Reagents, sif]);
    assert_eq!(order.docs(), [Doc::Store, Doc::Stash, Doc::Reagents, sif]);
    order.prioritize(Doc::Stash);
    assert_eq!(order.docs(), [Doc::Stash, Doc::Store, Doc::Reagents, sif]);
    order.prioritize(sif);
    assert_eq!(order.docs(), [sif, Doc::Stash, Doc::Store, Doc::Reagents]);
    order.prioritize(Doc::Store);
    assert_eq!(order.docs(), [Doc::Store, sif, Doc::Stash, Doc::Reagents]);
    order.prioritize(Doc::Store);
    assert_eq!(order.docs(), [Doc::Store, sif, Doc::Stash, Doc::Reagents]);
    order.prioritize(Doc::Character(CharacterSlot::new(9)));
    assert_eq!(order.docs(), [Doc::Store, sif, Doc::Stash, Doc::Reagents]);
}

#[test]
fn the_campaign_docs_are_the_shared_docs_less_the_store() {
    let shared = shared_docs();
    let campaign = campaign_docs();
    assert!(shared.contains(&Doc::Store));
    assert!(!campaign.contains(&Doc::Store));
    assert!(campaign.iter().all(|doc| shared.contains(doc)));
    assert_eq!(campaign.len() + 1, shared.len());
}

#[test]
fn alt_or_the_command_key_asks_for_a_copy() {
    assert_eq!(mode_of(NONE), Mode::Move);
    assert_eq!(mode_of(ALT), Mode::Copy);
    assert_eq!(mode_of(COMMAND), Mode::Copy);
    assert_eq!(mode_of(SHIFT), Mode::Move);
}

#[test]
fn shift_or_either_copy_key_makes_a_right_click_copy() {
    assert_eq!(right_click_mode(NONE), Mode::Move);
    assert_eq!(right_click_mode(SHIFT), Mode::Copy);
    assert_eq!(right_click_mode(ALT), Mode::Copy);
    assert_eq!(right_click_mode(COMMAND), Mode::Copy);
}

#[test]
fn a_pair_is_held_once_and_a_document_never_binds_itself() {
    let mut links = Links::default();
    links.link(Doc::Store, Doc::Stash);
    links.link(Doc::Stash, Doc::Store);
    links.link(Doc::Store, Doc::Store);
    assert_eq!(links.pairs(), vec![(Doc::Store, Doc::Stash)]);
}

#[test]
fn a_conflict_reaches_every_document_bound_to_it() {
    let mut links = Links::default();
    links.link(zark(), Doc::Store);
    links.link(Doc::Store, Doc::Stash);
    links.link(syf(), Doc::Reagents);
    assert_eq!(links.bound_to(&vec![zark()]), vec![Doc::Store, Doc::Stash]);
    assert_eq!(links.bound_to(&vec![Doc::Stash]), vec![Doc::Store, zark()]);
    assert_eq!(links.bound_to(&vec![syf()]), vec![Doc::Reagents]);
    assert_eq!(links.bound_to(&vec![Doc::Blueprints]), Vec::<Doc>::new());
    assert_eq!(
        links.bound_to(&vec![zark(), Doc::Store]),
        vec![Doc::Stash],
        "the documents asked about are not repeated"
    );
}

#[test]
fn a_written_or_reloaded_document_settles_its_links() {
    let mut links = Links::default();
    links.link(zark(), Doc::Store);
    links.link(Doc::Store, Doc::Stash);
    links.settled(Doc::Store);
    assert_eq!(links.pairs(), Links::default().pairs());
    links.link(zark(), Doc::Store);
    links.link(syf(), Doc::Store);
    links.settled(zark());
    assert_eq!(links.bound_to(&vec![Doc::Store]), vec![syf()]);
}

#[test]
fn links_bind_both_ways() {
    let mut links = Links::default();
    links.link(Doc::Stash, zark());
    assert_eq!(links.bound_to(&vec![zark()]), vec![Doc::Stash]);
    assert_eq!(links.bound_to(&vec![Doc::Stash]), vec![zark()]);
}

#[test]
fn document_labels_count_characters_from_one() {
    assert_eq!(Doc::Store.label(), "vault store");
    assert_eq!(Doc::Stash.label(), "transfer stash");
    assert_eq!(Doc::Character(CharacterSlot::new(0)).label(), "character 1");
    assert_eq!(Doc::Character(CharacterSlot::new(41)).label(), "character 42");
}

fn stamp(size: u64, modified: i128) -> Option<FileStamp> {
    Some(FileStamp::synthetic(size, modified))
}

#[test]
fn a_store_starts_empty_backs_up_once_per_load_and_restamps() {
    let mut tracking = Tracking::fresh("/cfg/vault-store.json".to_string(), stamp(2, 100));
    assert_eq!(tracking.edits(), Edits::Saved);
    assert_eq!(tracking.backup(), Backup::Armed);
    tracking.mark_edited();
    assert_eq!(tracking.edits(), Edits::Unsaved);
    assert_eq!(tracking.save_step(stamp(2, 100)), SaveStep::WriteWithBackup);
    let outcome = tracking.finish_write(SaveStep::WriteWithBackup, Ok(Some("/cfg/vault-store.json.bak".to_string())), stamp(40, 200));
    assert_eq!(
        outcome,
        Ok(SaveOutcome::Saved { backup: Some("/cfg/vault-store.json.bak".to_string()) })
    );
    assert_eq!(tracking.edits(), Edits::Saved);
    assert_eq!(tracking.backup(), Backup::Taken);
    assert_eq!(tracking.stamp(), stamp(40, 200));
    tracking.mark_edited();
    assert_eq!(tracking.save_step(stamp(40, 200)), SaveStep::WritePlain);
    let plain = tracking.finish_write(SaveStep::WritePlain, Ok(None), stamp(41, 300));
    assert_eq!(plain, Ok(SaveOutcome::Saved { backup: None }));
    assert_eq!(tracking.stamp(), stamp(41, 300));
}

#[test]
fn a_conflicting_save_writes_nothing_and_says_so() {
    let mut tracking = Tracking::fresh("/saves/transfer.gst".to_string(), stamp(10, 100));
    tracking.mark_edited();
    let step = tracking.save_step(stamp(12, 300));
    assert_eq!(step, SaveStep::Conflict);
    assert_eq!(tracking.finish_write(step, Ok(None), stamp(12, 300)), Ok(SaveOutcome::Conflict));
    assert_eq!(tracking.edits(), Edits::Unsaved);
    assert_eq!(tracking.stamp(), stamp(10, 100));
    assert_eq!(tracking.backup(), Backup::Armed);
}

#[test]
fn an_external_change_turns_a_save_into_a_conflict_until_kept() {
    let mut tracking = Tracking::fresh("/saves/transfer.gst".to_string(), stamp(10, 100));
    tracking.mark_edited();
    assert_eq!(tracking.save_step(stamp(12, 300)), SaveStep::Conflict);
    tracking.keep_mine(stamp(12, 300));
    assert_eq!(tracking.stamp(), stamp(12, 300));
    assert_eq!(tracking.backup(), Backup::Armed);
    assert_eq!(tracking.save_step(stamp(12, 300)), SaveStep::WriteWithBackup);
}

#[test]
fn a_failed_write_keeps_the_edits() {
    let mut tracking = Tracking::fresh("/saves/transfer.gst".to_string(), stamp(10, 100));
    tracking.mark_edited();
    let outcome = tracking.finish_write(SaveStep::WriteWithBackup, Err("disk full".to_string()), stamp(10, 100));
    assert!(outcome.is_err());
    assert_eq!(tracking.edits(), Edits::Unsaved);
    assert_eq!(tracking.backup(), Backup::Armed);
}
