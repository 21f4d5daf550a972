use grimvault::automove::{
    on_request, order_request, order_targets, order_toggle_text, resolve, standing_work, target_label, targets,
    AutoMoveTab, AutoMoveTarget, Chore, OpenName, OrderRequest, StandingOrder,
};
use grimvault::autosave::{activity_of, gate_of, pending_of, Activity, Gate, Pending};
use grimvault::panes::{container_label, doc_name, Container, SackIndex};
use grimvault::campaign::{Campaign, Realm};
use grimvault::crafting::{absent_message, tab_label, Crafting};
use grimvault::documents::{Backup, CharacterSlot, Doc, Edits};
use grimvault::facts::{display_name, initials};
use grimvault::search::{
    ascension_label, filter, search_summary, socket_label, summary, AscensionFilter, Sort, SortDirection, SortKey,
    SocketFilter, Verdict,
};
use grimvault::shell::{
    characters_backup_label, optional_backup_label, saved_paths, FileState, SavedSettings, Scope,
};
use grimvault::drag::TabIndex;

fn loot() -> Campaign {
    Campaign::Mod("LootAscension".to_string())
}

fn open<'a>() -> Vec<OpenName<'a>> {
    vec![
        OpenName { slot: CharacterSlot::new(0), realm: Realm::Main, name: "Zark" },
        OpenName { slot: CharacterSlot::new(2), realm: Realm::Custom, name: "Zark" },
    ]
}

#[test]
fn the_summaries_name_what_the_filter_hid() {
    assert_eq!(summary(5, 5, 0), "5 shown");
    assert_eq!(summary(2, 5, 0), "2 of 5 match");
    assert!(summary(2, 5, 1).starts_with("2 of 5 match · 1 hidden"));
    assert_eq!(search_summary(3, 10, 0), "3 of 10 shown");
    assert_eq!(search_summary(3, 10, 2), "3 of 10 shown · 2 unresolved");
}

#[test]
fn the_bucket_summary_says_why_items_were_hidden() {
    assert_eq!(
        summary(2, 5, 1),
        "2 of 5 match · 1 hidden because a required facet could not be resolved for them"
    );
    assert_eq!(summary(7, 3, 2), "3 shown");
    assert_eq!(summary(0, 120, 0), "0 of 120 match");
}

#[test]
fn every_ascension_choice_has_a_distinct_label() {
    let labels = [AscensionFilter::Any, AscensionFilter::Upgradeable, AscensionFilter::Ascended].map(ascension_label);
    assert_ne!(labels[0], labels[1]);
    assert_ne!(labels[1], labels[2]);
    assert_eq!(socket_label(SocketFilter::Socketed), "With component");
}

#[test]
fn a_fresh_column_opens_in_its_natural_direction_and_a_repeat_flips() {
    assert_eq!(Sort::on(SortKey::Name).direction, SortDirection::Ascending);
    assert_eq!(Sort::on(SortKey::Category).direction, SortDirection::Ascending);
    assert_eq!(Sort::on(SortKey::Rarity).direction, SortDirection::Descending);
    assert_eq!(Sort::on(SortKey::Level).direction, SortDirection::Descending);
    let sort = Sort::default();
    assert_eq!(sort.clicked(SortKey::Name).direction, SortDirection::Descending);
    assert_eq!(sort.clicked(SortKey::Level), Sort::on(SortKey::Level));
    assert_eq!(sort.clicked(SortKey::Name).clicked(SortKey::Name), sort);
}

#[test]
fn display_name_joins_the_named_parts() {
    assert_eq!(display_name(Some("Cruel"), "Aether Cluster", None), "Cruel Aether Cluster");
    assert_eq!(display_name(Some("Cruel"), "Aether Cluster", Some("of Ruin")), "Cruel Aether Cluster of Ruin");
    assert_eq!(display_name(None, "Aether Cluster", None), "Aether Cluster");
    assert_eq!(initials("Aether Cluster"), "AC");
}

#[test]
fn initials_skip_punctuation_and_cap_at_two() {
    assert_eq!(initials("<unknown> a01_thing"), "A");
    assert_eq!(initials("Mark of the Dark Woods"), "MO");
    assert_eq!(initials("  spaced   out  "), "SO");
    assert_eq!(initials(""), "");
}

#[test]
fn every_unicode_space_separates_words() {
    assert_eq!(initials("mark\u{3000}dark"), "MD");
    assert_eq!(initials("mark\u{00A0}dark"), "MD");
    assert_eq!(initials("mark\u{2009}dark"), "MD");
    assert_eq!(initials("mark\u{200B}dark"), "M");
}

#[test]
fn export_file_names_carry_the_list_and_the_campaign() {
    assert_eq!(Crafting::Blueprints.export_file_name(&Campaign::Main), "blueprint-main.json");
    assert_eq!(Crafting::Illusions.export_file_name(&loot()), "illusion-lootascension.json");
    assert_eq!(Crafting::Blueprints.doc(), Doc::Blueprints);
    assert_eq!(Crafting::Illusions.doc(), Doc::Illusions);
}

#[test]
fn crafting_tabs_show_a_count_or_a_dash() {
    assert_eq!(tab_label(Crafting::Blueprints, Some(12)), "Blueprints (12)");
    assert_eq!(tab_label(Crafting::Illusions, None), "Illusions (–)");
    assert_eq!(
        absent_message(Crafting::Blueprints, "/saves/formulas.gst"),
        "/saves/formulas.gst does not exist yet: the game writes it once the first blueprint is learned in this campaign"
    );
}

#[test]
fn a_transfer_stash_nomination_resolves_only_under_its_own_campaign() {
    let nomination = AutoMoveTab::TransferStash { campaign: loot(), tab: TabIndex::new(3) };
    assert_eq!(resolve(&nomination, &loot(), &open()), Some(AutoMoveTarget::TransferStash(TabIndex::new(3))));
    assert_eq!(resolve(&nomination, &Campaign::Main, &open()), None);
}

#[test]
fn a_character_nomination_resolves_by_realm_and_name() {
    let custom = AutoMoveTab::CharacterStash { realm: Realm::Custom, name: "Zark".into(), tab: TabIndex::new(1) };
    assert_eq!(
        resolve(&custom, &Campaign::Main, &open()),
        Some(AutoMoveTarget::CharacterStash { character: CharacterSlot::new(2), tab: TabIndex::new(1) })
    );
    let absent = AutoMoveTab::CharacterStash { realm: Realm::Main, name: "Sif".into(), tab: TabIndex::new(0) };
    assert_eq!(resolve(&absent, &Campaign::Main, &open()), None);
}

#[test]
fn targets_keep_nomination_order_and_drop_what_is_not_open() {
    let nominations = vec![
        AutoMoveTab::CharacterStash { realm: Realm::Main, name: "Zark".into(), tab: TabIndex::new(0) },
        AutoMoveTab::TransferStash { campaign: loot(), tab: TabIndex::new(9) },
        AutoMoveTab::TransferStash { campaign: Campaign::Main, tab: TabIndex::new(0) },
    ];
    let found = targets(&nominations, &Campaign::Main, &open());
    assert_eq!(
        found,
        vec![
            AutoMoveTarget::CharacterStash { character: CharacterSlot::new(0), tab: TabIndex::new(0) },
            AutoMoveTarget::TransferStash(TabIndex::new(0)),
        ]
    );
    assert_eq!(found[0].doc(), Doc::Character(CharacterSlot::new(0)));
    assert_eq!(found[1].doc(), Doc::Stash);
}

#[test]
fn readable_characters_are_named_by_slot() {
    let characters = vec![
        Some((Realm::Main, "Sif".to_string())),
        None,
        Some((Realm::Custom, "Zark".to_string())),
    ];
    let names = grimvault::automove::open_names(&characters);
    assert_eq!(names.len(), 2);
    assert_eq!(names[0], OpenName { slot: CharacterSlot::new(0), realm: Realm::Main, name: "Sif" });
    assert_eq!(names[1], OpenName { slot: CharacterSlot::new(2), realm: Realm::Custom, name: "Zark" });
}

#[test]
fn saved_paths_say_where_the_settings_were_looked_for() {
    assert_eq!(
        saved_paths(SavedSettings::Found { game: "/g".into(), save: "/s".into() }, "/cfg/settings.json"),
        Ok(("/g".to_string(), "/s".to_string()))
    );
    assert_eq!(
        saved_paths(SavedSettings::Missing, "/cfg/settings.json"),
        Err("no settings at /cfg/settings.json: run the app once, or pass --check <game dir> <save dir>".to_string())
    );
    assert_eq!(saved_paths(SavedSettings::Unreadable("bad json".into()), "/x"), Err("bad json".to_string()));
}

#[test]
fn backup_labels_for_the_status_bar() {
    assert_eq!(optional_backup_label(FileState::Open(Backup::Taken)), "taken");
    assert_eq!(optional_backup_label(FileState::Absent), "no file");
    assert_eq!(optional_backup_label(FileState::Failed), "read-only");
    let characters = vec![
        Some((true, Backup::Taken)),
        Some((true, Backup::Armed)),
        Some((false, Backup::Taken)),
        None,
    ];
    assert_eq!(characters_backup_label(&characters), "1/2 taken");
    assert_eq!(characters_backup_label(&Vec::new()), "0/0 taken");
}

#[test]
fn the_toast_stack_keeps_the_newest_six() {
    let mut toasts = grimvault::shell::Toasts::default();
    for i in 0..8u64 {
        toasts.info(format!("note {i}"), i);
    }
    toasts.error("failed".to_string(), 8);
    let texts: Vec<&str> = toasts.entries().iter().map(|toast| toast.text.as_str()).collect();
    assert_eq!(texts, ["note 3", "note 4", "note 5", "note 6", "note 7", "failed"]);
    assert_eq!(toasts.last_error(), Some("failed"));
    toasts.expire(4_004);
    let texts: Vec<&str> = toasts.entries().iter().map(|toast| toast.text.as_str()).collect();
    assert_eq!(texts, ["note 5", "note 6", "note 7", "failed"]);
    toasts.expire(8_009);
    assert!(toasts.entries().is_empty());
    assert_eq!(toasts.last_error(), Some("failed"));
}

#[test]
fn seeds_mix_the_clock_with_the_tick() {
    assert_eq!(grimvault::shell::mix_seed(0x1_0000_0001, 5, 1), 1_385_694_972);
    assert_ne!(grimvault::shell::mix_seed(7, 5, 1), grimvault::shell::mix_seed(7, 5, 2));
}

#[test]
fn the_shell_reads_its_state_from_the_documents() {
    assert_eq!(pending_of(&vec![Edits::Saved, Edits::Unsaved]), Pending::Edits);
    assert_eq!(pending_of(&vec![Edits::Saved]), Pending::Nothing);
    assert_eq!(gate_of(0), Gate::Open);
    assert_eq!(gate_of(2), Gate::Suspended);
    assert_eq!(activity_of(false, true), Activity::Busy);
    assert_eq!(activity_of(false, false), Activity::Idle);
}

#[test]
fn documents_and_containers_are_named_for_the_toasts() {
    let zark = CharacterSlot::new(1);
    assert_eq!(doc_name(Doc::Character(zark), Some("Zark")), "character Zark");
    assert_eq!(doc_name(Doc::Character(zark), None), "character 2");
    assert_eq!(doc_name(Doc::Reagents, Some("ignored")), "component storage");
    assert_eq!(
        container_label(Container::Sack { character: zark, sack: SackIndex::new(0) }, Some("Zark")),
        "character Zark sack 1"
    );
    assert_eq!(container_label(Container::TransferStash(TabIndex::new(4)), None), "transfer stash tab 5");
    assert_eq!(
        target_label(AutoMoveTarget::CharacterStash { character: zark, tab: TabIndex::new(0) }, Some("Zark")),
        "character Zark stash tab 1"
    );
    assert_eq!(target_label(AutoMoveTarget::TransferStash(TabIndex::new(2)), None), "transfer stash tab 3");
}

#[test]
fn fresh_seeds_differ_from_tick_to_tick() {
    let first = grimvault::shell::fresh_seed(1);
    let second = grimvault::shell::fresh_seed(2);
    assert_ne!(first, second);
}

#[test]
fn a_scope_keeps_only_the_targets_in_its_documents() {
    let nominations = vec![
        AutoMoveTab::CharacterStash { realm: Realm::Main, name: "Zark".into(), tab: TabIndex::new(0) },
        AutoMoveTab::TransferStash { campaign: Campaign::Main, tab: TabIndex::new(2) },
    ];
    let everything = order_targets(&nominations, &Campaign::Main, &open(), Scope::Everything);
    assert_eq!(everything.len(), 2);
    let campaign = order_targets(&nominations, &Campaign::Main, &open(), Scope::Campaign);
    assert_eq!(campaign, vec![AutoMoveTarget::TransferStash(TabIndex::new(2))]);
    let one = order_targets(&nominations, &Campaign::Main, &open(), Scope::Doc(Doc::Character(CharacterSlot::new(0))));
    assert_eq!(
        one,
        vec![AutoMoveTarget::CharacterStash { character: CharacterSlot::new(0), tab: TabIndex::new(0) }]
    );
}

#[test]
fn standing_orders_move_then_purge_then_sync() {
    let moves = vec![AutoMoveTab::TransferStash { campaign: Campaign::Main, tab: TabIndex::new(1) }];
    let purges = vec![
        AutoMoveTab::CharacterStash { realm: Realm::Custom, name: "Zark".into(), tab: TabIndex::new(4) },
        AutoMoveTab::TransferStash { campaign: Campaign::Main, tab: TabIndex::new(0) },
    ];
    let work = standing_work(Gate::Open, Scope::Everything, &moves, &purges, &Campaign::Main, &open());
    assert_eq!(
        work,
        vec![
            Chore::Carry { order: StandingOrder::AutoMove, target: AutoMoveTarget::TransferStash(TabIndex::new(1)) },
            Chore::Carry {
                order: StandingOrder::PurgeDuplicates,
                target: AutoMoveTarget::CharacterStash { character: CharacterSlot::new(2), tab: TabIndex::new(4) },
            },
            Chore::Carry {
                order: StandingOrder::PurgeDuplicates,
                target: AutoMoveTarget::TransferStash(TabIndex::new(0)),
            },
            Chore::SyncReagents,
            Chore::SyncBlueprints,
        ]
    );
    let stash_only = standing_work(Gate::Open, Scope::Doc(Doc::Stash), &moves, &purges, &Campaign::Main, &open());
    assert_eq!(
        stash_only,
        vec![
            Chore::Carry { order: StandingOrder::AutoMove, target: AutoMoveTarget::TransferStash(TabIndex::new(1)) },
            Chore::Carry {
                order: StandingOrder::PurgeDuplicates,
                target: AutoMoveTarget::TransferStash(TabIndex::new(0)),
            },
        ]
    );
    let reagents = standing_work(Gate::Open, Scope::Doc(Doc::Reagents), &moves, &purges, &Campaign::Main, &open());
    assert_eq!(reagents, vec![Chore::SyncReagents]);
}

#[test]
fn nothing_is_carried_out_while_a_change_awaits_the_user() {
    let moves = vec![AutoMoveTab::TransferStash { campaign: Campaign::Main, tab: TabIndex::new(1) }];
    let work = standing_work(Gate::Suspended, Scope::Everything, &moves, &moves, &Campaign::Main, &open());
    assert!(work.is_empty());
}

#[test]
fn a_filter_keeps_the_matches_and_counts_the_undecided() {
    let verdicts = vec![
        Verdict::Excluded,
        Verdict::Matches,
        Verdict::Unresolved,
        Verdict::Matches,
        Verdict::Unresolved,
    ];
    let filtered = filter(&verdicts);
    assert_eq!(filtered.rows, vec![1, 3]);
    assert_eq!(filtered.unresolved, 2);
    assert_eq!(
        search_summary(filtered.rows.len(), verdicts.len(), filtered.unresolved),
        "2 of 5 shown · 2 unresolved"
    );
    let none = filter(&Vec::new());
    assert!(none.rows.is_empty());
    assert_eq!(none.unresolved, 0);
}

#[test]
fn a_toggle_nominates_or_withdraws_its_tab() {
    let tab = AutoMoveTab::TransferStash { campaign: Campaign::Main, tab: TabIndex::new(2) };
    assert_eq!(
        order_request(StandingOrder::AutoMove, tab.clone(), true),
        OrderRequest::Nominate { order: StandingOrder::AutoMove, tab: tab.clone() }
    );
    assert_eq!(
        order_request(StandingOrder::PurgeDuplicates, tab.clone(), false),
        OrderRequest::Withdraw { order: StandingOrder::PurgeDuplicates, tab }
    );
    assert_eq!(order_toggle_text(StandingOrder::AutoMove).0, "Auto-move to vault");
    assert_eq!(order_toggle_text(StandingOrder::PurgeDuplicates).0, "Purge duplicates");
    assert!(order_toggle_text(StandingOrder::PurgeDuplicates).1.contains("backed up once per load"));
}

#[test]
fn a_nomination_is_carried_out_at_once_only_on_an_open_tab_with_the_guard_clear() {
    let open_tab = AutoMoveTab::TransferStash { campaign: Campaign::Main, tab: TabIndex::new(2) };
    let nominate = OrderRequest::Nominate { order: StandingOrder::AutoMove, tab: open_tab.clone() };
    assert_eq!(
        on_request(&nominate, &Campaign::Main, &open(), Gate::Open),
        Some(Chore::Carry { order: StandingOrder::AutoMove, target: AutoMoveTarget::TransferStash(TabIndex::new(2)) })
    );
    assert_eq!(on_request(&nominate, &Campaign::Main, &open(), Gate::Suspended), None);
    assert_eq!(on_request(&nominate, &loot(), &open(), Gate::Open), None);
    let withdraw = OrderRequest::Withdraw { order: StandingOrder::AutoMove, tab: open_tab };
    assert_eq!(on_request(&withdraw, &Campaign::Main, &open(), Gate::Open), None);
}
