use grimvault::campaign::{Campaign, Realm};
use grimvault::characters::{entry_label, folder_name};
use grimvault::dirs::{join_path, DirProblem, DirRole, GameDir, SaveDir, GAME_DIR_MARKER};
use grimvault::documents::CharacterSlot;
use grimvault::layers::{
    assemble, candidate_reads, find_archive, plan_reads, ArchiveRead, LayerFile, LayerFiles, Origin, Parsed,
    PlannedRead, ReadProblem,
};
use grimvault::loader::{
    absorb, LoadEvent, LoadOutcome, campaign_written_last, default_campaign, newest, world_paths, CampaignChoice, Found, LoadStep,
};
use grimvault::setup::{store_file_verdict, Change, SetupState, StoreFileProblem, StoreFileState};
use grimvault::shell::{CheckPaths, Cli, USAGE};

fn at(seconds: i128) -> Option<i128> {
    Some(seconds * 1_000_000_000)
}

fn loot() -> Campaign {
    Campaign::Mod("LootAscension".to_string())
}

fn zeta() -> Campaign {
    Campaign::Mod("Zeta".to_string())
}

#[test]
fn with_nothing_remembered_the_campaign_written_most_recently_opens() {
    assert_eq!(
        default_campaign(None, vec![(Campaign::Main, at(100)), (loot(), at(300)), (zeta(), at(200))]),
        (loot(), CampaignChoice::Newest)
    );
    assert_eq!(
        default_campaign(None, vec![(Campaign::Main, at(300)), (loot(), at(300))]),
        (Campaign::Main, CampaignChoice::Newest)
    );
    assert_eq!(
        default_campaign(None, vec![(Campaign::Main, None), (zeta(), at(5))]),
        (zeta(), CampaignChoice::Newest)
    );
    assert_eq!(
        default_campaign(None, vec![(Campaign::Main, None), (loot(), None)]),
        (Campaign::Main, CampaignChoice::Newest)
    );
    assert_eq!(default_campaign(None, vec![]), (Campaign::Main, CampaignChoice::Newest));
}

#[test]
fn the_main_campaign_opens_when_nothing_has_a_time_or_it_ties_wherever_it_is_listed() {
    assert_eq!(
        default_campaign(None, vec![(loot(), None), (Campaign::Main, None)]),
        (Campaign::Main, CampaignChoice::Newest)
    );
    assert_eq!(
        default_campaign(None, vec![(loot(), at(300)), (zeta(), at(100)), (Campaign::Main, at(300))]),
        (Campaign::Main, CampaignChoice::Newest)
    );
    assert_eq!(
        default_campaign(None, vec![(zeta(), at(300)), (loot(), at(300)), (Campaign::Main, at(100))]),
        (zeta(), CampaignChoice::Newest)
    );
    let gone = Campaign::Mod("Uninstalled".to_string());
    assert_eq!(
        default_campaign(Some(&gone), vec![(zeta(), None), (Campaign::Main, None)]),
        (Campaign::Main, CampaignChoice::Missing(gone))
    );
}

#[test]
fn the_remembered_campaign_opens_while_it_exists_and_the_newest_when_it_is_gone() {
    let stamped = vec![(Campaign::Main, at(100)), (loot(), at(300)), (zeta(), at(200))];
    assert_eq!(default_campaign(Some(&zeta()), stamped.clone()), (zeta(), CampaignChoice::Remembered));
    assert_eq!(
        default_campaign(Some(&Campaign::Main), stamped.clone()),
        (Campaign::Main, CampaignChoice::Remembered)
    );
    let gone = Campaign::Mod("Uninstalled".to_string());
    assert_eq!(default_campaign(Some(&gone), stamped), (loot(), CampaignChoice::Missing(gone)));
}

#[test]
fn the_newest_character_is_the_one_written_last_and_the_first_on_a_tie() {
    let slot = CharacterSlot::new;
    assert_eq!(newest(vec![(slot(0), at(100)), (slot(1), at(900)), (slot(2), at(500))]), Some(slot(1)));
    assert_eq!(newest(vec![(slot(0), at(900)), (slot(1), at(900))]), Some(slot(0)));
    assert_eq!(newest(vec![(slot(0), None), (slot(1), None), (slot(2), at(1))]), Some(slot(2)));
    assert_eq!(newest(vec![(slot(0), None), (slot(1), None)]), Some(slot(0)));
    assert_eq!(newest::<CharacterSlot>(vec![]), None);
}

#[test]
fn the_campaign_written_last_is_the_newest_stash_main_on_a_tie() {
    assert_eq!(campaign_written_last(vec![(Campaign::Main, at(1_000_060)), (loot(), at(1_000_000))]), Campaign::Main);
    assert_eq!(campaign_written_last(vec![(Campaign::Main, at(1_000_060)), (loot(), at(1_000_061))]), loot());
    assert_eq!(campaign_written_last(vec![(Campaign::Main, at(1_000_061)), (loot(), at(1_000_061))]), Campaign::Main);
    assert_eq!(campaign_written_last(vec![(loot(), None), (zeta(), None)]), Campaign::Main);
    assert_eq!(campaign_written_last(vec![(Campaign::Main, None), (zeta(), at(2))]), zeta());
}

#[test]
fn load_steps_read_as_a_transcript() {
    assert_eq!(LoadStep::Database("database/database.arz".into()).describe(), "reading record database database/database.arz");
    assert_eq!(LoadStep::Stash.describe(), "opening transfer.gst");
    let read = ArchiveRead { file: LayerFile::Text, relative: "resources/Text_EN.arc".into() };
    assert_eq!(LoadStep::from(read), LoadStep::TextArchive("resources/Text_EN.arc".into()));
    assert_eq!(Found { found: 3, wanted: 11 }.describe(), "3 of 11");
}

#[test]
fn world_paths_need_both_directories() {
    let game = GameDir::parse("/games/gd", true, true);
    let save = SaveDir::parse("/saves/save", true, &vec![true, true]);
    let paths = world_paths(game.clone(), save.clone(), "/cfg/store.json".into(), "/cfg/ui.json".into()).unwrap();
    assert_eq!(paths.game.path(), "/games/gd");
    assert_eq!(paths.save.path(), "/saves/save");
    let missing = SaveDir::parse("/saves/nope", false, &vec![true, true]);
    assert_eq!(
        world_paths(game, missing, "s".into(), "u".into()),
        Err(DirProblem::Missing("/saves/nope".into()))
    );
}

#[test]
fn game_dir_needs_the_database_marker() {
    assert_eq!(GameDir::parse("", false, false), Err(DirProblem::Empty(DirRole::Game)));
    assert!(matches!(GameDir::parse("/scratch/nope", false, false), Err(DirProblem::Missing(_))));
    match GameDir::parse("/scratch", true, false) {
        Err(DirProblem::Unmarked { marker, role, .. }) => {
            assert_eq!(marker, GAME_DIR_MARKER);
            assert_eq!(role, DirRole::Game);
        }
        other => panic!("{other:?}"),
    }
    assert_eq!(GameDir::parse("/scratch", true, true).unwrap().path(), "/scratch");
}

#[test]
fn save_dir_needs_every_marker_and_names_its_files() {
    match SaveDir::parse("/scratch", true, &vec![true, false]) {
        Err(DirProblem::Unmarked { marker, role, .. }) => {
            assert_eq!(marker, "main");
            assert_eq!(role, DirRole::Save);
        }
        other => panic!("{other:?}"),
    }
    let save = SaveDir::parse("/scratch", true, &vec![true, true]).unwrap();
    assert_eq!(save.transfer_stash(&Campaign::Main), "/scratch/transfer.gst");
    assert_eq!(save.characters_dir(Realm::Main), "/scratch/main");
    assert_eq!(save.characters_dir(Realm::Custom), "/scratch/user");
    assert_eq!(save.transfer_stash(&loot()), "/scratch/LootAscension/transfer.gst");
    assert_eq!(save.reagent_storage(&loot()), "/scratch/LootAscension/reagents.gst");
    assert_eq!(save.blueprints(&loot()), "/scratch/LootAscension/formulas.gst");
    assert_eq!(save.illusions(&Campaign::Main), "/scratch/transmutes.gst");
}

#[test]
fn problems_read_as_sentences() {
    assert_eq!(DirProblem::Empty(DirRole::Save).describe(), "choose a save directory");
    assert_eq!(DirProblem::Missing("/x".into()).describe(), "/x does not exist");
    assert_eq!(
        GameDir::parse("/g", true, false).unwrap_err().describe(),
        "/g has no database/database.arz, so it is not a Grim Dawn install"
    );
    assert_eq!(join_path("/a/", "b"), "/a/b");
    assert_eq!(join_path("", "b"), "b");
}

#[test]
fn character_labels_fall_back_to_the_folder_name() {
    assert_eq!(entry_label(None, "/saves/user/_Sif/player.gdc"), "Sif");
    assert_eq!(entry_label(Some("Zark"), "/saves/user/_Sif/player.gdc"), "Zark");
    assert_eq!(folder_name("/saves/main/__Aria/player.gdc"), "Aria");
    assert_eq!(folder_name("/saves/main/_Aria//player.gdc/"), "Aria");
    assert_eq!(folder_name("player.gdc"), "player.gdc");
    assert_eq!(folder_name("/player.gdc"), "/player.gdc");
    assert_eq!(folder_name("../player.gdc"), "../player.gdc");
    assert_eq!(folder_name("a/./player.gdc"), "a");
}

fn layer(name: &str) -> LayerFiles {
    LayerFiles {
        database: format!("{name}/database.arz"),
        text: format!("{name}/Text_EN.arc"),
        items: format!("{name}/Items.arc"),
        ui: format!("{name}/UI.arc"),
        resources: format!("{name}/resources"),
    }
}

#[test]
fn plan_reads_lists_what_is_on_disk_shipped_first_in_layer_order() {
    let shipped = vec![layer("base"), layer("x1")];
    let mods = vec![layer("mods/m")];
    let candidates = candidate_reads(&shipped, &mods, &LayerFile::all());
    assert_eq!(candidates.len(), 9);
    let on_disk = vec![true, true, false, true, false, false, true, false, true];
    let plan = plan_reads(candidates, &on_disk);
    let listed: Vec<(Origin, LayerFile, &str)> =
        plan.iter().map(|read| (read.origin, read.file, read.relative.as_str())).collect();
    assert_eq!(
        listed,
        vec![
            (Origin::Shipped, LayerFile::Database, "base/database.arz"),
            (Origin::Shipped, LayerFile::Text, "base/Text_EN.arc"),
            (Origin::Shipped, LayerFile::Database, "x1/database.arz"),
            (Origin::Mod, LayerFile::Database, "mods/m/database.arz"),
            (Origin::Mod, LayerFile::Items, "mods/m/Items.arc"),
        ]
    );
    let headless = candidate_reads(&shipped, &mods, &LayerFile::headless());
    assert!(headless.iter().all(|read| read.file != LayerFile::Items));
    assert_eq!(headless.len(), 6);
}

fn database_read(origin: Origin, relative: &str) -> PlannedRead {
    PlannedRead { origin, file: LayerFile::Database, relative: relative.to_string() }
}

fn steps_of(plan: &[PlannedRead]) -> Vec<ArchiveRead> {
    plan.iter().map(PlannedRead::step).collect()
}

type Outcome = Result<Parsed<String, String>, ReadProblem<String>>;

fn database(record: &str) -> Outcome {
    Ok(Parsed::Database(record.to_string()))
}

#[test]
fn assemble_files_arrivals_in_plan_order_whatever_order_they_came() {
    let plan = vec![
        database_read(Origin::Shipped, "a.arz"),
        database_read(Origin::Shipped, "b.arz"),
        database_read(Origin::Mod, "c.arz"),
    ];
    let arrivals: Vec<(usize, Outcome)> =
        vec![(2, database("records/c.dbr")), (0, database("records/a.dbr")), (1, database("records/b.dbr"))];
    let (reported, outcome) = assemble("/game", &plan, arrivals);
    let (shipped, mods) = outcome.unwrap();
    assert_eq!(reported, steps_of(&plan));
    assert_eq!(shipped.databases, ["records/a.dbr", "records/b.dbr"]);
    assert_eq!(mods.databases, ["records/c.dbr"]);
    assert!(shipped.text_archives.is_empty());
}

#[test]
fn the_first_failure_in_plan_order_is_the_loads_whichever_arrived_first() {
    let plan = vec![
        database_read(Origin::Shipped, "a.arz"),
        database_read(Origin::Shipped, "b.arz"),
        database_read(Origin::Shipped, "c.arz"),
    ];
    let arrivals: Vec<(usize, Outcome)> = vec![
        (2, Err(ReadProblem::Failed("not an archive".to_string()))),
        (0, database("records/a.dbr")),
        (1, Err(ReadProblem::Failed("dialect mismatch".to_string()))),
    ];
    let (reported, outcome) = assemble("/game", &plan, arrivals);
    let failure = outcome.err().unwrap();
    assert_eq!(failure.path, "/game/b.arz");
    assert_eq!(failure.problem, ReadProblem::Failed("dialect mismatch".to_string()));
    assert_eq!(reported, steps_of(&plan[..2]));
}

#[test]
fn an_archive_no_reader_delivered_is_a_failure_not_a_wait() {
    let plan = vec![database_read(Origin::Shipped, "a.arz"), database_read(Origin::Shipped, "b.arz")];
    let arrivals: Vec<(usize, Outcome)> = vec![(0, database("records/a.dbr"))];
    let (_, outcome) = assemble("/game", &plan, arrivals);
    let failure = outcome.err().unwrap();
    assert_eq!(failure.path, "/game/b.arz");
    assert_eq!(failure.problem, ReadProblem::NoResult);
}

#[test]
fn a_repeated_arrival_is_filed_as_the_latest_received() {
    let plan = vec![database_read(Origin::Shipped, "a.arz"), database_read(Origin::Shipped, "b.arz")];
    let arrivals: Vec<(usize, Outcome)> =
        vec![(1, database("first b")), (1, database("second b")), (0, database("a")), (7, database("stray"))];
    let (reported, outcome) = assemble("/game", &plan, arrivals);
    let (shipped, _) = outcome.unwrap();
    assert_eq!(shipped.databases, ["a", "second b"]);
    assert_eq!(reported.len(), 2);
}

#[test]
fn archives_are_found_whatever_their_case() {
    let names = vec!["Text_EN.arc".to_string(), "level art.ARC".to_string()];
    assert_eq!(find_archive("mods/m/resources", &names, "Level Art.arc"), Some("mods/m/resources/level art.ARC".to_string()));
    assert_eq!(find_archive("resources", &names, "UI.arc"), None);
}

#[test]
fn a_store_path_needs_an_existing_directory_and_must_not_be_one() {
    assert_eq!(store_file_verdict("", false, false, false), Err(StoreFileProblem::Empty));
    assert_eq!(
        store_file_verdict("/scratch", true, false, true),
        Err(StoreFileProblem::IsDirectory("/scratch".into()))
    );
    assert_eq!(store_file_verdict("/scratch/vault-store.json", false, false, true), Ok(StoreFileState::Absent));
    assert_eq!(store_file_verdict("/scratch/vault-store.json", false, true, true), Ok(StoreFileState::Present));
    assert_eq!(
        store_file_verdict("/scratch/unmounted/vault-store.json", false, false, false),
        Err(StoreFileProblem::NoParent("/scratch/unmounted".into()))
    );
    assert_eq!(
        store_file_verdict("/", false, false, false),
        Err(StoreFileProblem::NoParent("/".into()))
    );
    assert_eq!(StoreFileState::Absent.describe(), "does not exist yet; created by the first save");
    assert_eq!(
        StoreFileProblem::NoParent("/nas".into()).describe(),
        "/nas does not exist, so no store can be created there"
    );
}

#[test]
fn applying_a_draft_costs_the_most_expensive_change() {
    assert_eq!(Change::between("/g", "/s", "/st", "/g", "/s", "/st", true), Change::Nothing);
    assert_eq!(Change::between("/g", "/s", "/st", "/g", "/s", "/nas/st", false), Change::Store);
    assert_eq!(Change::between("/g", "/s", "/st", "/g", "/s", "/st", false), Change::Rules);
    assert_eq!(Change::between("/g", "/s", "/st", "/g", "/elsewhere", "/nas", false), Change::World);
    assert_eq!(Change::World.apply_hint(), "reloads the game data and every file from the new directories");
}

#[test]
fn setup_state_seeds_from_settings_or_the_first_candidate() {
    let seeded: SetupState<u8> = SetupState::discover(
        Some((7, "/nowhere/game".to_string(), "/nowhere/save".to_string())),
        Some("note".to_string()),
        vec!["/found/game".to_string()],
        vec![],
    );
    assert_eq!(seeded.game_field, "/nowhere/game");
    assert_eq!(seeded.save_field, "/nowhere/save");
    assert_eq!(seeded.seed, Some(7));
    let (seed, game, save) = seeded.settings();
    assert_eq!((seed, game.as_str(), save.as_str()), (Some(&7), "/nowhere/game", "/nowhere/save"));
    assert!(matches!(seeded.game_dir(false, false), Err(DirProblem::Missing(_))));
    let fresh: SetupState<u8> =
        SetupState::discover(None, None, vec!["/found/game".to_string()], vec![]);
    assert_eq!(fresh.game_field, "/found/game");
    assert_eq!(fresh.save_field, "");
    assert_eq!(fresh.save_dir(false, &vec![false, false]), Err(DirProblem::Empty(DirRole::Save)));
}

#[test]
fn the_check_flag_takes_exactly_two_directories() {
    assert_eq!(Cli::parse(&vec![]), Ok(Cli::Window));
    let args: Vec<String> = ["--check", "/game", "/save"].map(String::from).to_vec();
    assert_eq!(
        Cli::parse(&args),
        Ok(Cli::Check(CheckPaths::Explicit { game: "/game".into(), save: "/save".into() }))
    );
    let short: Vec<String> = ["--check", "/game"].map(String::from).to_vec();
    assert_eq!(Cli::parse(&short).err(), Some(USAGE));
    let bare: Vec<String> = vec!["--check".to_string()];
    assert_eq!(Cli::parse(&bare), Ok(Cli::Check(CheckPaths::Saved)));
}

#[test]
fn the_campaigns_are_the_main_one_then_every_mod_by_name() {
    let save = SaveDir::parse("/scratch", true, &vec![true, true]).unwrap();
    assert_eq!(save.campaigns(vec![]), vec![Campaign::Main]);
    assert_eq!(
        save.campaigns(vec!["Zeta".to_string(), "LootAscension".to_string()]),
        vec![Campaign::Main, loot(), zeta()]
    );
    assert_eq!(
        grimvault::dirs::sorted_names(vec!["b".into(), "B".into(), "a".into(), "ab".into(), "a".into()]),
        vec!["B", "a", "a", "ab", "b"]
    );
    assert!(grimvault::dirs::sorts_before("Loot", "LootAscension"));
    assert!(!grimvault::dirs::sorts_before("Zeta", "Loot"));
}

#[test]
fn the_picker_marks_custom_games_and_unreadable_files() {
    assert_eq!(grimvault::characters::picker_label("Zark", Realm::Main, true), "Zark");
    assert_eq!(grimvault::characters::picker_label("Sif", Realm::Custom, false), "Sif · custom game (unreadable)");
}

#[test]
fn progress_is_taken_in_until_the_load_ends() {
    let mut steps = vec![LoadStep::Localization];
    let running: Option<LoadOutcome<u8, String>> =
        absorb(&mut steps, vec![LoadEvent::Step(LoadStep::Reference), LoadEvent::Step(LoadStep::Stash)]);
    assert!(running.is_none());
    assert_eq!(steps, vec![LoadStep::Localization, LoadStep::Reference, LoadStep::Stash]);
    let ended = absorb(
        &mut steps,
        vec![
            LoadEvent::Step(LoadStep::Store),
            LoadEvent::Failed("vault store: unreadable".to_string()),
            LoadEvent::Step(LoadStep::Characters),
            LoadEvent::Done(1u8),
        ],
    );
    assert!(matches!(ended, Some(LoadOutcome::Failed(ref why)) if why == "vault store: unreadable"));
    assert_eq!(steps.last(), Some(&LoadStep::Store));
    assert_eq!(steps.len(), 4);
}
