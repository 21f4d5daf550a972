//! The choices a load makes and the steps it reports: which campaign
//! opens first, which character the picker opens on, and the progress
//! lines. Reading the files is the caller's; it hands the modification
//! times it found to [`newest`] and [`default_campaign`].

use vstd::prelude::*;
use crate::campaign::{Campaign, campaign_view};
use crate::dirs::{GameDir, SaveDir};
use crate::layers::{ArchiveRead, LayerFile};
use crate::text::{decimal, decimal_text, join2};

verus! {

/// Whether `times[k]` is the newest: the latest time present, the
/// first of equals; the first candidate when no time is known.
pub open spec fn is_newest(times: Seq<Option<i128>>, k: int) -> bool {
    &&& 0 <= k < times.len()
    &&& if exists|j: int| 0 <= j < times.len() && (#[trigger] times[j]) is Some {
        &&& times[k] is Some
        &&& forall|j: int| 0 <= j < times.len() && (#[trigger] times[j]) is Some ==> times[j]->0 <= times[k]->0
        &&& forall|j: int| 0 <= j < k && (#[trigger] times[j]) is Some ==> times[j]->0 < times[k]->0
    } else {
        k == 0
    }
}

/// The times of candidates.
pub open spec fn times_of<T>(stamped: Seq<(T, Option<i128>)>) -> Seq<Option<i128>> {
    stamped.map_values(|c: (T, Option<i128>)| c.1)
}

/// Exactly one candidate is the newest.
pub proof fn law_the_newest_is_one_candidate(times: Seq<Option<i128>>, a: int, b: int)
    requires
        is_newest(times, a),
        is_newest(times, b),
    ensures
        a == b,
{
    if exists|j: int| 0 <= j < times.len() && (#[trigger] times[j]) is Some {
        if a < b {
            assert(times[a] is Some);
        } else if b < a {
            assert(times[b] is Some);
        }
    }
}

/// The position of the newest candidate; `None` only when there are
/// none.
fn newest_index<T>(stamped: &Vec<(T, Option<i128>)>) -> (at: Option<usize>)
    ensures
        match at {
            Some(k) => is_newest(times_of(stamped@), k as int),
            None => stamped@.len() == 0,
        },
{
    let ghost times = times_of(stamped@);
    if stamped.len() == 0 {
        return None;
    }
    let mut best: usize = 0;
    let mut i: usize = 1;
    while i < stamped.len()
        invariant
            times == times_of(stamped@),
            times.len() == stamped@.len(),
            1 <= i <= stamped@.len(),
            is_newest(times.take(i as int), best as int),
        decreases stamped.len() - i,
    {
        let ghost prefix = times.take(i as int);
        let ghost next = times.take(i as int + 1);
        proof {
            assert(next == prefix.push(times[i as int]));
            assert(times[i as int] == stamped@[i as int].1);
            assert(times[best as int] == stamped@[best as int].1);
            assert(prefix[best as int] == times[best as int]);
        }
        let beats = match (stamped[i].1, stamped[best].1) {
            (Some(_), None) => true,
            (Some(time), Some(held)) => time > held,
            _ => false,
        };
        if beats {
            proof {
                if exists|j: int| 0 <= j < prefix.len() && (#[trigger] prefix[j]) is Some {
                    assert(prefix[best as int] is Some);
                }
                assert forall|j: int| 0 <= j < next.len() && (#[trigger] next[j]) is Some implies next[j]->0
                    <= next[i as int]->0 by {
                    if j < i {
                        assert(next[j] == prefix[j]);
                    }
                }
                assert forall|j: int| 0 <= j < i && (#[trigger] next[j]) is Some implies next[j]->0
                    < next[i as int]->0 by {
                    assert(next[j] == prefix[j]);
                }
            }
            best = i;
        } else {
            proof {
                assert(next[best as int] == prefix[best as int]);
                if exists|j: int| 0 <= j < next.len() && (#[trigger] next[j]) is Some {
                    if exists|j: int| 0 <= j < prefix.len() && (#[trigger] prefix[j]) is Some {
                        assert forall|j: int| 0 <= j < next.len() && (#[trigger] next[j]) is Some implies next[j]->0
                            <= next[best as int]->0 by {
                            if j < i {
                                assert(next[j] == prefix[j]);
                            }
                        }
                        assert forall|j: int| 0 <= j < best && (#[trigger] next[j]) is Some implies next[j]->0
                            < next[best as int]->0 by {
                            assert(next[j] == prefix[j]);
                        }
                    } else {
                        let w = choose|j: int| 0 <= j < next.len() && (#[trigger] next[j]) is Some;
                        if w < i {
                            assert(prefix[w] == next[w]);
                        }
                        assert(next[i as int] is Some);
                    }
                } else {
                    if exists|j: int| 0 <= j < prefix.len() && (#[trigger] prefix[j]) is Some {
                        let w = choose|j: int| 0 <= j < prefix.len() && (#[trigger] prefix[j]) is Some;
                        assert(next[w] == prefix[w]);
                    }
                }
            }
        }
        i = i + 1;
    }
    proof {
        assert(times.take(stamped@.len() as int) == times);
    }
    Some(best)
}

/// The candidate with the latest modification time; the first one on
/// a tie or when nothing has a time, `None` only when there are no
/// candidates.
pub fn newest<T>(stamped: Vec<(T, Option<i128>)>) -> (chosen: Option<T>)
    ensures
        chosen is None <==> stamped@.len() == 0,
        chosen is Some ==> exists|k: int| is_newest(times_of(stamped@), k) && chosen == Some(stamped@[k].0),
{
    let mut stamped = stamped;
    match newest_index(&stamped) {
        None => None,
        Some(k) => {
            let ghost before = stamped@;
            let (candidate, _) = stamped.remove(k);
            proof {
                assert(is_newest(times_of(before), k as int));
            }
            Some(candidate)
        },
    }
}

/// Why the campaign opened first is the one it is.
#[derive(Clone, Debug, PartialEq, Eq)]
pub enum CampaignChoice {
    /// The campaign selected last time, still in the save directory.
    Remembered,
    /// Nothing was remembered.
    Newest,
    /// The remembered campaign has no folder in the save directory
    /// any more.
    Missing(Campaign),
}

/// Whether `stamped` lists the campaign `c`.
pub open spec fn lists(stamped: Seq<(Campaign, Option<i128>)>, c: Option<Seq<char>>) -> bool {
    exists|i: int| 0 <= i < stamped.len() && campaign_view((#[trigger] stamped[i]).0) == c
}

/// Whether the main campaign is among the newest of `stamped`: it has a
/// time, and no candidate has a later one.
pub open spec fn main_is_newest(stamped: Seq<(Campaign, Option<i128>)>) -> bool {
    exists|j: int|
        0 <= j < stamped.len() && (#[trigger] stamped[j]).0 is Main && stamped[j].1 is Some && forall|i: int|
            0 <= i < stamped.len() && (#[trigger] stamped[i]).1 is Some ==> stamped[i].1->0 <= stamped[j].1->0
}

/// `c` is the campaign a load opens on when nothing is remembered: the
/// main campaign when no candidate has a time or when it ties for the
/// latest; otherwise the candidate with the latest time, the first of
/// equals.
pub open spec fn newest_or_main(stamped: Seq<(Campaign, Option<i128>)>, c: Option<Seq<char>>) -> bool {
    if !any_time(stamped) || main_is_newest(stamped) {
        c is None
    } else {
        exists|k: int| is_newest(times_of(stamped), k) && campaign_view(stamped[k].0) == c
    }
}

/// The campaign to open: `remembered` when the save directory still
/// holds it, else the one the game wrote most recently by its stash's
/// modification time (the main campaign when nothing has a time or on
/// a tie).
pub fn default_campaign(remembered: Option<&Campaign>, stamped: Vec<(Campaign, Option<i128>)>) -> (chosen: (
    Campaign,
    CampaignChoice,
))
    ensures
        remembered is Some && lists(stamped@, campaign_view(*remembered->0)) ==> campaign_view(chosen.0)
            == campaign_view(*remembered->0) && chosen.1 == CampaignChoice::Remembered,
        remembered is Some && !lists(stamped@, campaign_view(*remembered->0)) ==> newest_or_main(
            stamped@,
            campaign_view(chosen.0),
        ) && chosen.1 is Missing && campaign_view(chosen.1->0) == campaign_view(*remembered->0),
        remembered is None ==> newest_or_main(stamped@, campaign_view(chosen.0)) && chosen.1
            == CampaignChoice::Newest,
{
    match remembered {
        Some(wanted) => {
            let mut i: usize = 0;
            while i < stamped.len()
                invariant
                    remembered == Some(wanted),
                    i <= stamped@.len(),
                    forall|j: int| 0 <= j < i ==> campaign_view((#[trigger] stamped@[j]).0) != campaign_view(*wanted),
                decreases stamped.len() - i,
            {
                if stamped[i].0.same_as(wanted) {
                    proof {
                        assert(campaign_view(stamped@[i as int].0) == campaign_view(*wanted));
                        assert(lists(stamped@, campaign_view(*wanted)));
                    }
                    let copy = wanted.duplicate();
                    assert(campaign_view(copy) == campaign_view(*wanted));
                    return (copy, CampaignChoice::Remembered);
                }
                i = i + 1;
            }
            (newest_campaign(stamped), CampaignChoice::Missing(wanted.duplicate()))
        },
        None => (newest_campaign(stamped), CampaignChoice::Newest),
    }
}

fn newest_campaign(stamped: Vec<(Campaign, Option<i128>)>) -> (chosen: Campaign)
    ensures
        newest_or_main(stamped@, campaign_view(chosen)),
{
    let ghost times = times_of(stamped@);
    let k = match newest_index(&stamped) {
        None => {
            return Campaign::Main;
        },
        Some(k) => k,
    };
    let latest = match stamped[k].1 {
        None => {
            proof {
                assert(times[k as int] == stamped@[k as int].1);
                if any_time(stamped@) {
                    let w = choose|j: int| 0 <= j < stamped@.len() && (#[trigger] stamped@[j]).1 is Some;
                    assert(times[w] == stamped@[w].1);
                }
            }
            return Campaign::Main;
        },
        Some(t) => t,
    };
    proof {
        assert(times[k as int] == stamped@[k as int].1);
        assert(any_time(stamped@));
        assert forall|i: int| 0 <= i < stamped@.len() && (#[trigger] stamped@[i]).1 is Some implies stamped@[i].1->0
            <= latest by {
            assert(times[i] == stamped@[i].1);
        }
    }
    let mut j: usize = 0;
    while j < stamped.len()
        invariant
            j <= stamped@.len(),
            k < stamped@.len(),
            stamped@[k as int].1 == Some(latest),
            forall|i: int| 0 <= i < stamped@.len() && (#[trigger] stamped@[i]).1 is Some ==> stamped@[i].1->0 <= latest,
            forall|i: int|
                0 <= i < j && (#[trigger] stamped@[i]).0 is Main ==> stamped@[i].1 != Some(latest),
        decreases stamped.len() - j,
    {
        let is_main = match &stamped[j].0 {
            Campaign::Main => true,
            Campaign::Mod(_) => false,
        };
        if is_main && stamped[j].1 == Some(latest) {
            proof {
                assert(main_is_newest(stamped@));
            }
            return Campaign::Main;
        }
        j = j + 1;
    }
    proof {
        if main_is_newest(stamped@) {
            let w = choose|w: int|
                0 <= w < stamped@.len() && (#[trigger] stamped@[w]).0 is Main && stamped@[w].1 is Some && forall|i: int|
                    0 <= i < stamped@.len() && (#[trigger] stamped@[i]).1 is Some ==> stamped@[i].1->0
                        <= stamped@[w].1->0;
            assert(stamped@[k as int].1->0 <= stamped@[w].1->0);
        }
    }
    let ghost before = stamped@;
    let mut stamped = stamped;
    let (campaign, _) = stamped.remove(k);
    proof {
        assert(campaign_view(campaign) == campaign_view(before[k as int].0));
    }
    campaign
}

/// Whether any candidate has a time.
pub open spec fn any_time(stamped: Seq<(Campaign, Option<i128>)>) -> bool {
    exists|j: int| 0 <= j < stamped.len() && (#[trigger] stamped[j]).1 is Some
}

/// The campaign whose `transfer.gst` the game wrote most recently —
/// the best witness of what is being played, since neither a character
/// file nor the game names a character's mod; the first of equals, and
/// the main campaign when no stamp could be read. `stamped` holds each
/// campaign with its stash's modification time, if it could be read.
pub fn campaign_written_last(stamped: Vec<(Campaign, Option<i128>)>) -> (chosen: Campaign)
    ensures
        any_time(stamped@) ==> exists|k: int|
            is_newest(times_of(stamped@), k) && campaign_view(chosen) == campaign_view(stamped@[k].0),
        !any_time(stamped@) ==> chosen == Campaign::Main,
{
    let mut k: usize = 0;
    while k < stamped.len()
        invariant
            k <= stamped@.len(),
            forall|j: int| 0 <= j < k ==> (#[trigger] stamped@[j]).1 is None,
        decreases stamped.len() - k,
    {
        if stamped[k].1.is_some() {
            let ghost before = stamped@;
            proof {
                assert(any_time(before));
                assert(times_of(before)[k as int] is Some);
            }
            match newest(stamped) {
                Some(campaign) => {
                    proof {
                        let w = choose|w: int| is_newest(times_of(before), w) && Some(campaign) == Some(before[w].0);
                        assert(campaign_view(campaign) == campaign_view(before[w].0));
                    }
                    return campaign;
                },
                None => {
                    return Campaign::Main;
                },
            }
        }
        k = k + 1;
    }
    Campaign::Main
}

/// How many of a wanted set turned up.
#[derive(Clone, Copy, Debug, PartialEq, Eq, Structural)]
pub struct Found {
    pub found: usize,
    pub wanted: usize,
}

impl Found {
    /// "found of wanted".
    pub fn describe(self) -> (text: String)
        ensures
            text@ == decimal(self.found as nat) + " of "@ + decimal(self.wanted as nat),
    {
        let text = decimal_text(self.found as u64);
        let text = text.concat(" of ");
        let wanted = decimal_text(self.wanted as u64);
        text.concat(wanted.as_str())
    }
}

/// What the game-data half of the load found: the shipped layers by
/// kind, how many mods contributed a database, how many of the tile
/// symbols have their texture, how many item icons outside the item
/// archive were found of those the records name, and how long it took
/// in milliseconds.
#[derive(Clone, Copy, Debug, PartialEq, Eq, Structural)]
pub struct LoadReport {
    pub databases: usize,
    pub text_archives: usize,
    pub item_archives: usize,
    pub mods: usize,
    pub symbols: usize,
    pub foreign_icons: Found,
    pub elapsed: u64,
}

/// Where everything lives, validated.
#[derive(Clone, Debug, PartialEq, Eq)]
pub struct WorldPaths {
    pub game: GameDir,
    pub save: SaveDir,
    pub store: String,
    /// The shell's persisted view state, beside the store.
    pub ui_state: String,
}

/// The paths a load starts from, once both directories validate; the
/// first problem otherwise, the game directory's before the save
/// directory's.
pub fn world_paths(
    game: Result<GameDir, crate::dirs::DirProblem>,
    save: Result<SaveDir, crate::dirs::DirProblem>,
    store: String,
    ui_state: String,
) -> (paths: Result<WorldPaths, crate::dirs::DirProblem>)
    ensures
        match (game, save) {
            (Err(problem), _) => paths == Err::<WorldPaths, crate::dirs::DirProblem>(problem),
            (Ok(_), Err(problem)) => paths == Err::<WorldPaths, crate::dirs::DirProblem>(problem),
            (Ok(g), Ok(s)) => paths matches Ok(p) && p.game == g && p.save == s && p.store == store
                && p.ui_state == ui_state,
        },
{
    let game = match game {
        Ok(game) => game,
        Err(problem) => return Err(problem),
    };
    let save = match save {
        Ok(save) => save,
        Err(problem) => return Err(problem),
    };
    Ok(WorldPaths { game, save, store, ui_state })
}

/// One step of the load, reported as the loader turns to it.
#[derive(Clone, Debug, PartialEq, Eq)]
pub enum LoadStep {
    Database(String),
    TextArchive(String),
    ItemArchive(String),
    Localization,
    UiArchive(String),
    IconArchive(String),
    Reference,
    Stash,
    Reagents,
    Blueprints,
    Illusions,
    Store,
    Characters,
}

/// The progress line for a step.
pub open spec fn step_line(step: LoadStep) -> Seq<char> {
    match step {
        LoadStep::Database(p) => "reading record database "@ + p@,
        LoadStep::TextArchive(p) => "reading text archive "@ + p@,
        LoadStep::ItemArchive(p) => "reading item archive "@ + p@,
        LoadStep::Localization => "building the localization table"@,
        LoadStep::UiArchive(p) => "reading tile symbols from "@ + p@,
        LoadStep::IconArchive(p) => "reading item icons from "@ + p@,
        LoadStep::Reference => "building the affix reference"@,
        LoadStep::Stash => "opening transfer.gst"@,
        LoadStep::Reagents => "opening reagents.gst"@,
        LoadStep::Blueprints => "opening formulas.gst"@,
        LoadStep::Illusions => "opening transmutes.gst"@,
        LoadStep::Store => "opening the vault store"@,
        LoadStep::Characters => "opening characters"@,
    }
}

impl LoadStep {
    /// The progress line for this step.
    pub fn describe(&self) -> (text: String)
        ensures
            text@ == step_line(*self),
    {
        match self {
            LoadStep::Database(p) => join2("reading record database ", p.as_str()),
            LoadStep::TextArchive(p) => join2("reading text archive ", p.as_str()),
            LoadStep::ItemArchive(p) => join2("reading item archive ", p.as_str()),
            LoadStep::Localization => String::from_str("building the localization table"),
            LoadStep::UiArchive(p) => join2("reading tile symbols from ", p.as_str()),
            LoadStep::IconArchive(p) => join2("reading item icons from ", p.as_str()),
            LoadStep::Reference => String::from_str("building the affix reference"),
            LoadStep::Stash => String::from_str("opening transfer.gst"),
            LoadStep::Reagents => String::from_str("opening reagents.gst"),
            LoadStep::Blueprints => String::from_str("opening formulas.gst"),
            LoadStep::Illusions => String::from_str("opening transmutes.gst"),
            LoadStep::Store => String::from_str("opening the vault store"),
            LoadStep::Characters => String::from_str("opening characters"),
        }
    }
}

/// The step an archive read is reported as.
pub open spec fn step_for_read(read: ArchiveRead) -> LoadStep {
    match read.file {
        LayerFile::Database => LoadStep::Database(read.relative),
        LayerFile::Text => LoadStep::TextArchive(read.relative),
        LayerFile::Items => LoadStep::ItemArchive(read.relative),
    }
}

impl From<ArchiveRead> for LoadStep {
    fn from(read: ArchiveRead) -> (step: LoadStep) {
        match read.file {
            LayerFile::Database => LoadStep::Database(read.relative),
            LayerFile::Text => LoadStep::TextArchive(read.relative),
            LayerFile::Items => LoadStep::ItemArchive(read.relative),
        }
    }
}

impl vstd::std_specs::convert::FromSpecImpl<ArchiveRead> for LoadStep {
    open spec fn obeys_from_spec() -> bool {
        true
    }

    open spec fn from_spec(read: ArchiveRead) -> LoadStep {
        step_for_read(read)
    }
}

/// What the loader reports: a step as it begins, or how it ended.
pub enum LoadEvent<W, F> {
    Step(LoadStep),
    Done(W),
    Failed(F),
}

/// How a load ended.
pub enum LoadOutcome<W, F> {
    Done(W),
    Failed(F),
}

/// The position of the first event that ends the load; `events.len()`
/// when none does.
pub open spec fn first_end<W, F>(events: Seq<LoadEvent<W, F>>) -> int
    decreases events.len(),
{
    if events.len() == 0 {
        0
    } else if !(events[0] is Step) {
        0
    } else {
        1 + first_end(events.drop_first())
    }
}

/// The steps among the first `k` events.
pub open spec fn steps_among<W, F>(events: Seq<LoadEvent<W, F>>, k: int) -> Seq<LoadStep>
    decreases k,
{
    if k <= 0 {
        Seq::empty()
    } else {
        match events[k - 1] {
            LoadEvent::Step(step) => steps_among(events, k - 1).push(step),
            _ => steps_among(events, k - 1),
        }
    }
}

proof fn lemma_first_end<W, F>(events: Seq<LoadEvent<W, F>>)
    ensures
        0 <= first_end(events) <= events.len(),
        forall|j: int| 0 <= j < first_end(events) ==> (#[trigger] events[j]) is Step,
        first_end(events) < events.len() ==> !(events[first_end(events)] is Step),
    decreases events.len(),
{
    if events.len() > 0 && events[0] is Step {
        let rest = events.drop_first();
        lemma_first_end(rest);
        assert forall|j: int| 0 <= j < first_end(events) implies (#[trigger] events[j]) is Step by {
            if j > 0 {
                assert(events[j] == rest[j - 1]);
            }
        }
        if first_end(events) < events.len() {
            assert(events[first_end(events)] == rest[first_end(rest)]);
        }
    }
}

/// Takes in the events that arrived since the last look, oldest first:
/// the steps are appended to `steps` until an event ends the load, and
/// that event's outcome is returned; events after it are not looked at.
/// `None` while the load is still running.
pub fn absorb<W, F>(steps: &mut Vec<LoadStep>, events: Vec<LoadEvent<W, F>>) -> (outcome: Option<LoadOutcome<W, F>>)
    ensures
        final(steps)@ == old(steps)@ + steps_among(events@, first_end(events@)),
        first_end(events@) == events@.len() ==> outcome is None,
        first_end(events@) < events@.len() ==> match events@[first_end(events@)] {
            LoadEvent::Done(world) => outcome matches Some(LoadOutcome::Done(w)) && w == world,
            LoadEvent::Failed(failure) => outcome matches Some(LoadOutcome::Failed(f)) && f == failure,
            LoadEvent::Step(_) => false,
        },
{
    let ghost all = events@;
    let ghost start = steps@;
    let count = events.len();
    proof {
        lemma_first_end(all);
        assert(all.len() == count);
    }
    let mut rest = events;
    let mut taken: usize = 0;
    // Reverse once so each event moves out with `pop`, oldest first.
    let mut backwards: Vec<LoadEvent<W, F>> = Vec::new();
    while rest.len() > 0
        invariant
            all == events@,
            all.len() <= usize::MAX,
            all.len() == rest@.len() + backwards@.len(),
            rest@ == all.take(rest@.len() as int),
            backwards@.reverse() == all.skip(rest@.len() as int),
        decreases rest.len(),
    {
        let ghost before = rest@;
        let ghost back = backwards@;
        let event = rest.pop().unwrap();
        backwards.push(event);
        proof {
            assert(before == rest@.push(event));
            assert(rest@ =~= all.take(rest@.len() as int));
            assert(backwards@.reverse() =~= seq![event] + back.reverse());
            assert(all.skip(rest@.len() as int) =~= seq![all[rest@.len() as int]] + all.skip(before.len() as int));
        }
    }
    proof {
        assert(all.skip(0) =~= all);
    }
    while backwards.len() > 0
        invariant
            all == events@,
            start == old(steps)@,
            all.len() <= usize::MAX,
            taken <= first_end(all),
            0 <= first_end(all) <= all.len(),
            forall|j: int| 0 <= j < first_end(all) ==> (#[trigger] all[j]) is Step,
            first_end(all) < all.len() ==> !(all[first_end(all)] is Step),
            backwards@.reverse() == all.skip(taken as int),
            steps@ == start + steps_among(all, taken as int),
        decreases backwards.len(),
    {
        let ghost back = backwards@;
        let event = backwards.pop().unwrap();
        proof {
            assert(back == backwards@.push(event));
            assert(back.reverse() =~= seq![event] + backwards@.reverse());
            assert(all.skip(taken as int)[0] == event);
            assert(all[taken as int] == event);
            assert(all.skip(taken as int).drop_first() =~= all.skip(taken as int + 1));
            assert((seq![event] + backwards@.reverse()).drop_first() =~= backwards@.reverse());
        }
        match event {
            LoadEvent::Step(step) => {
                steps.push(step);
                proof {
                    assert(steps_among(all, taken as int + 1) == steps_among(all, taken as int).push(step));
                }
                taken = taken + 1;
            },
            LoadEvent::Done(world) => {
                proof {
                    if (taken as int) < first_end(all) {
                        assert(all[taken as int] is Step);
                    }
                }
                return Some(LoadOutcome::Done(world));
            },
            LoadEvent::Failed(failure) => {
                proof {
                    if (taken as int) < first_end(all) {
                        assert(all[taken as int] is Step);
                    }
                }
                return Some(LoadOutcome::Failed(failure));
            },
        }
    }
    None
}

} // verus!
