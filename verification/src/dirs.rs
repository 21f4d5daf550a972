//! The game and save directories, validated by their markers into
//! [`GameDir`] and [`SaveDir`] — the only forms the loaders accept —
//! and the files each one names. What the filesystem says (is it a
//! directory, is a marker there) is the caller's to find out and hand
//! in; the verdict and the names are decided here.

use vstd::prelude::*;
use crate::campaign::{Campaign, Realm, campaign_view};
use crate::text::join2;

verus! {

/// The file that proves a directory is a Grim Dawn install.
pub const GAME_DIR_MARKER: &'static str = "database/database.arz";

/// The entries that prove a directory is a save directory, in the
/// order they are checked.
pub open spec fn save_dir_markers() -> Seq<Seq<char>> {
    seq!["transfer.gst"@, "main"@]
}

/// See [`save_dir_markers`].
pub fn save_dir_marker_list() -> (markers: Vec<&'static str>)
    ensures
        markers@.len() == save_dir_markers().len(),
        forall|i: int| 0 <= i < markers@.len() ==> (#[trigger] markers@[i])@ == save_dir_markers()[i],
{
    let markers = vec!["transfer.gst", "main"];
    proof {
        assert(markers@[0]@ == save_dir_markers()[0]);
        assert(markers@[1]@ == save_dir_markers()[1]);
    }
    markers
}

/// `name` under `base`, with one separator between them.
pub open spec fn joined_path(base: Seq<char>, name: Seq<char>) -> Seq<char> {
    if base.len() == 0 || base.last() == '/' {
        base + name
    } else {
        base + "/"@ + name
    }
}

/// `name` under `base`.
pub fn join_path(base: &str, name: &str) -> (path: String)
    ensures
        path@ == joined_path(base@, name@),
{
    let n = base.unicode_len();
    if n == 0 || base.get_char(n - 1) == '/' {
        join2(base, name)
    } else {
        proof {
            reveal_strlit("/");
        }
        let with_separator = join2(base, "/");
        with_separator.concat(name)
    }
}

/// Which directory a problem is about.
#[derive(Clone, Copy, Debug, PartialEq, Eq, Structural)]
pub enum DirRole {
    /// The Grim Dawn install.
    Game,
    /// The save directory.
    Save,
}

/// How a role is named to the user.
pub open spec fn role_label(role: DirRole) -> Seq<char> {
    match role {
        DirRole::Game => "Grim Dawn install"@,
        DirRole::Save => "save directory"@,
    }
}

impl DirRole {
    pub fn label(self) -> (text: &'static str)
        ensures
            text@ == role_label(self),
    {
        match self {
            DirRole::Game => "Grim Dawn install",
            DirRole::Save => "save directory",
        }
    }
}

/// Why a directory was not accepted.
#[derive(Clone, Debug, PartialEq, Eq)]
pub enum DirProblem {
    /// No path was given.
    Empty(DirRole),
    /// The path is not a directory.
    Missing(String),
    /// The directory lacks the entry that would prove its role.
    Unmarked { dir: String, marker: String, role: DirRole },
}

impl DirProblem {
    /// The problem in words.
    pub fn describe(&self) -> (text: String)
        ensures
            text@ == match *self {
                DirProblem::Empty(role) => "choose a "@ + role_label(role),
                DirProblem::Missing(path) => path@ + " does not exist"@,
                DirProblem::Unmarked { dir, marker, role } => dir@ + " has no "@ + marker@
                    + ", so it is not a "@ + role_label(role),
            },
    {
        match self {
            DirProblem::Empty(role) => join2("choose a ", role.label()),
            DirProblem::Missing(path) => join2(path.as_str(), " does not exist"),
            DirProblem::Unmarked { dir, marker, role } => {
                let text = join2(dir.as_str(), " has no ");
                let text = text.concat(marker.as_str());
                let text = text.concat(", so it is not a ");
                text.concat(role.label())
            },
        }
    }
}

/// The path must be given and be a directory.
pub fn check_dir(raw: &str, role: DirRole, is_dir: bool) -> (checked: Result<(), DirProblem>)
    ensures
        raw@.len() == 0 ==> checked == Err::<(), DirProblem>(DirProblem::Empty(role)),
        raw@.len() > 0 && !is_dir ==> (checked matches Err(DirProblem::Missing(path))
            && path@ == raw@),
        raw@.len() > 0 && is_dir ==> checked is Ok,
{
    if raw.unicode_len() == 0 {
        return Err(DirProblem::Empty(role));
    }
    if !is_dir {
        return Err(DirProblem::Missing(String::from_str(raw)));
    }
    Ok(())
}

/// The directory must hold `marker`.
pub fn check_marker(raw: &str, marker: &str, role: DirRole, present: bool) -> (checked: Result<(), DirProblem>)
    ensures
        present ==> checked is Ok,
        !present ==> (checked matches Err(DirProblem::Unmarked { dir, marker: m, role: r })
            && dir@ == raw@ && m@ == marker@ && r == role),
{
    if present {
        Ok(())
    } else {
        Err(DirProblem::Unmarked { dir: String::from_str(raw), marker: String::from_str(marker), role })
    }
}

/// A directory proven to hold `database/database.arz`.
#[derive(Clone, Debug, PartialEq, Eq)]
pub struct GameDir {
    path: String,
}

impl View for GameDir {
    type V = Seq<char>;

    closed spec fn view(&self) -> Seq<char> {
        self.path@
    }
}

impl GameDir {
    /// Accepts `raw` when it names a directory (`is_dir`) that holds
    /// [`GAME_DIR_MARKER`] (`marker_present`).
    pub fn parse(raw: &str, is_dir: bool, marker_present: bool) -> (parsed: Result<GameDir, DirProblem>)
        ensures
            raw@.len() == 0 ==> parsed == Err::<GameDir, DirProblem>(DirProblem::Empty(DirRole::Game)),
            raw@.len() > 0 && !is_dir ==> (parsed matches Err(DirProblem::Missing(path)) && path@
                == raw@),
            raw@.len() > 0 && is_dir && !marker_present ==> (parsed matches Err(
                DirProblem::Unmarked { dir, marker, role },
            ) && dir@ == raw@ && marker@ == GAME_DIR_MARKER@ && role == DirRole::Game),
            raw@.len() > 0 && is_dir && marker_present ==> (parsed matches Ok(dir) && dir@ == raw@),
    {
        match check_dir(raw, DirRole::Game, is_dir) {
            Err(problem) => return Err(problem),
            Ok(()) => {},
        }
        match check_marker(raw, GAME_DIR_MARKER, DirRole::Game, marker_present) {
            Err(problem) => return Err(problem),
            Ok(()) => {},
        }
        Ok(GameDir { path: String::from_str(raw) })
    }

    /// The directory itself.
    pub fn path(&self) -> (path: &str)
        ensures
            path@ == self@,
    {
        self.path.as_str()
    }
}

/// A directory proven to hold `transfer.gst` beside `main/`.
#[derive(Clone, Debug, PartialEq, Eq)]
pub struct SaveDir {
    path: String,
}

impl View for SaveDir {
    type V = Seq<char>;

    closed spec fn view(&self) -> Seq<char> {
        self.path@
    }
}

/// The folder a campaign's shared files sit in.
pub open spec fn shared_dir(save: Seq<char>, campaign: Option<Seq<char>>) -> Seq<char> {
    match campaign {
        None => save,
        Some(name) => joined_path(save, name),
    }
}

impl SaveDir {
    /// Accepts `raw` when it names a directory (`is_dir`) holding every
    /// [`save_dir_markers`] entry; `present` says which of them are
    /// there, in order, and the first missing one is reported.
    pub fn parse(raw: &str, is_dir: bool, present: &Vec<bool>) -> (parsed: Result<SaveDir, DirProblem>)
        requires
            present@.len() == save_dir_markers().len(),
        ensures
            raw@.len() == 0 ==> parsed == Err::<SaveDir, DirProblem>(DirProblem::Empty(DirRole::Save)),
            raw@.len() > 0 && !is_dir ==> (parsed matches Err(DirProblem::Missing(path)) && path@
                == raw@),
            raw@.len() > 0 && is_dir ==> forall|i: int|
                0 <= i < present@.len() && !present@[i] && (forall|j: int| 0 <= j < i ==> present@[j])
                    ==> (parsed matches Err(DirProblem::Unmarked { dir, marker, role }) && dir@
                    == raw@ && marker@ == save_dir_markers()[i] && role == DirRole::Save),
            raw@.len() > 0 && is_dir && (forall|i: int| 0 <= i < present@.len() ==> present@[i])
                ==> (parsed matches Ok(dir) && dir@ == raw@),
    {
        match check_dir(raw, DirRole::Save, is_dir) {
            Err(problem) => return Err(problem),
            Ok(()) => {},
        }
        let markers = save_dir_marker_list();
        let mut i: usize = 0;
        while i < markers.len()
            invariant
                markers@.len() == save_dir_markers().len(),
                forall|k: int| 0 <= k < markers@.len() ==> (#[trigger] markers@[k])@ == save_dir_markers()[k],
                present@.len() == markers@.len(),
                raw@.len() > 0,
                is_dir,
                i <= markers@.len(),
                forall|j: int| 0 <= j < i ==> present@[j],
            decreases markers.len() - i,
        {
            match check_marker(raw, markers[i], DirRole::Save, present[i]) {
                Err(problem) => {
                    proof {
                        assert forall|k: int|
                            0 <= k < present@.len() && !present@[k] && (forall|j: int| 0 <= j < k ==> present@[j])
                                implies k == i by {
                            if k < i {
                            } else if k > i {
                                assert(present@[i as int]);
                            }
                        }
                    }
                    return Err(problem);
                },
                Ok(()) => {},
            }
            i = i + 1;
        }
        Ok(SaveDir { path: String::from_str(raw) })
    }

    /// The directory itself.
    pub fn path(&self) -> (path: &str)
        ensures
            path@ == self@,
    {
        self.path.as_str()
    }

    /// The folder `campaign`'s shared files sit in.
    fn shared_dir(&self, campaign: &Campaign) -> (dir: String)
        ensures
            dir@ == shared_dir(self@, campaign_view(*campaign)),
    {
        match campaign {
            Campaign::Main => self.path.clone(),
            Campaign::Mod(name) => join_path(self.path.as_str(), name.as_str()),
        }
    }

    /// A campaign's shared stash file.
    pub fn transfer_stash(&self, campaign: &Campaign) -> (path: String)
        ensures
            path@ == joined_path(shared_dir(self@, campaign_view(*campaign)), "transfer.gst"@),
    {
        join_path(self.shared_dir(campaign).as_str(), "transfer.gst")
    }

    /// A campaign's component / crafting-material storage file. Not a
    /// marker: a save directory the game has not yet written it into
    /// is still a save directory.
    pub fn reagent_storage(&self, campaign: &Campaign) -> (path: String)
        ensures
            path@ == joined_path(shared_dir(self@, campaign_view(*campaign)), "reagents.gst"@),
    {
        join_path(self.shared_dir(campaign).as_str(), "reagents.gst")
    }

    /// A campaign's blueprint list, `formulas.gst`; absent until the
    /// first blueprint is learned there.
    pub fn blueprints(&self, campaign: &Campaign) -> (path: String)
        ensures
            path@ == joined_path(shared_dir(self@, campaign_view(*campaign)), "formulas.gst"@),
    {
        join_path(self.shared_dir(campaign).as_str(), "formulas.gst")
    }

    /// A campaign's illusion collection, `transmutes.gst`; absent until
    /// the first illusion is unlocked there.
    pub fn illusions(&self, campaign: &Campaign) -> (path: String)
        ensures
            path@ == joined_path(shared_dir(self@, campaign_view(*campaign)), "transmutes.gst"@),
    {
        join_path(self.shared_dir(campaign).as_str(), "transmutes.gst")
    }

    /// The per-character folders of `realm`: `main/` for the main
    /// campaign, `user/` for custom games (mods).
    pub fn characters_dir(&self, realm: Realm) -> (path: String)
        ensures
            path@ == joined_path(self@, match realm {
                Realm::Main => "main"@,
                Realm::Custom => "user"@,
            }),
    {
        join_path(self.path.as_str(), realm.dir_name())
    }
}

/// Whether `a` sorts before `b`: character by character, a proper
/// prefix first — the order of Rust's `String`.
pub open spec fn text_less(a: Seq<char>, b: Seq<char>) -> bool
    decreases a.len(),
{
    if a.len() == 0 {
        b.len() > 0
    } else if b.len() == 0 {
        false
    } else if a[0] != b[0] {
        (a[0] as u32) < (b[0] as u32)
    } else {
        text_less(a.drop_first(), b.drop_first())
    }
}

/// The order is transitive.
pub proof fn lemma_text_less_transitive(a: Seq<char>, b: Seq<char>, c: Seq<char>)
    requires
        text_less(a, b),
        text_less(b, c),
    ensures
        text_less(a, c),
    decreases a.len(),
{
    if a.len() > 0 && b.len() > 0 && c.len() > 0 && a[0] == b[0] && b[0] == c[0] {
        lemma_text_less_transitive(a.drop_first(), b.drop_first(), c.drop_first());
    }
}

/// The order is irreflexive.
pub proof fn lemma_text_less_irreflexive(a: Seq<char>)
    ensures
        !text_less(a, a),
    decreases a.len(),
{
    if a.len() > 0 {
        lemma_text_less_irreflexive(a.drop_first());
    }
}

/// Whether `a` sorts before `b`.
pub fn sorts_before(a: &str, b: &str) -> (before: bool)
    ensures
        before == text_less(a@, b@),
{
    let n = a.unicode_len();
    let m = b.unicode_len();
    let mut i: usize = 0;
    proof {
        assert(a@.skip(0) =~= a@);
        assert(b@.skip(0) =~= b@);
    }
    while i < n && i < m
        invariant
            n == a@.len(),
            m == b@.len(),
            i <= n,
            i <= m,
            text_less(a@, b@) == text_less(a@.skip(i as int), b@.skip(i as int)),
        decreases n - i,
    {
        let x = a.get_char(i);
        let y = b.get_char(i);
        proof {
            assert(a@.skip(i as int)[0] == x);
            assert(b@.skip(i as int)[0] == y);
            assert(a@.skip(i as int).drop_first() =~= a@.skip(i as int + 1));
            assert(b@.skip(i as int).drop_first() =~= b@.skip(i as int + 1));
        }
        if x != y {
            return (x as u32) < (y as u32);
        }
        i = i + 1;
    }
    proof {
        assert(a@.skip(i as int).len() == n - i);
        assert(b@.skip(i as int).len() == m - i);
    }
    i == n && i < m
}

/// Whether `names` is in order, equals in any order among themselves.
pub open spec fn in_order(names: Seq<Seq<char>>) -> bool {
    forall|i: int, j: int| 0 <= i < j < names.len() ==> !text_less(#[trigger] names[j], #[trigger] names[i])
}

/// The texts of `names`.
pub open spec fn texts(names: Seq<String>) -> Seq<Seq<char>> {
    names.map_values(|name: String| name@)
}

/// `names` in order, each once for every time it was given.
pub fn sorted_names(names: Vec<String>) -> (sorted: Vec<String>)
    ensures
        in_order(texts(sorted@)),
        texts(sorted@).to_multiset() == texts(names@).to_multiset(),
{
    broadcast use vstd::seq_lib::group_to_multiset_ensures;

    let ghost given = names@;
    let mut rest = names;
    let mut sorted: Vec<String> = Vec::new();
    while rest.len() > 0
        invariant
            given.len() == sorted@.len() + rest@.len(),
            rest@ == given.take(rest@.len() as int),
            in_order(texts(sorted@)),
            texts(sorted@).to_multiset() == texts(given.skip(rest@.len() as int)).to_multiset(),
        decreases rest.len(),
    {
        let ghost before = rest@;
        let name = rest.pop().unwrap();
        proof {
            assert(before == rest@.push(name));
            assert(given.skip(rest@.len() as int) =~= seq![name] + given.skip(before.len() as int));
        }
        let mut at: usize = 0;
        while at < sorted.len() && !sorts_before(name.as_str(), sorted[at].as_str())
            invariant
                at <= sorted@.len(),
                forall|k: int| 0 <= k < at ==> !text_less(name@, #[trigger] texts(sorted@)[k]),
            decreases sorted.len() - at,
        {
            at = at + 1;
        }
        let ghost old_sorted = texts(sorted@);
        sorted.insert(at, name);
        proof {
            let now = texts(sorted@);
            assert(now =~= old_sorted.insert(at as int, name@));
            assert forall|i: int, j: int| 0 <= i < j < now.len() implies !text_less(
                #[trigger] now[j],
                #[trigger] now[i],
            ) by {
                if j < at {
                    assert(now[i] == old_sorted[i] && now[j] == old_sorted[j]);
                } else if j == at {
                    assert(now[i] == old_sorted[i]);
                } else if i == at {
                    assert(now[j] == old_sorted[j - 1]);
                    assert(text_less(name@, old_sorted[at as int]));
                    if text_less(old_sorted[j - 1], name@) {
                        lemma_text_less_transitive(old_sorted[j - 1], name@, old_sorted[at as int]);
                        if j - 1 > at {
                            assert(!text_less(old_sorted[j - 1], old_sorted[at as int]));
                        } else {
                            lemma_text_less_irreflexive(old_sorted[at as int]);
                        }
                    }
                } else if i < at {
                    assert(now[i] == old_sorted[i] && now[j] == old_sorted[j - 1]);
                } else {
                    assert(now[i] == old_sorted[i - 1] && now[j] == old_sorted[j - 1]);
                }
            }
            assert(texts(given.skip(rest@.len() as int)) =~= seq![name@] + texts(given.skip(before.len() as int)));
            let tail = texts(given.skip(before.len() as int));
            vstd::seq_lib::lemma_seq_union_to_multiset_commutative(seq![name@], tail);
            assert(tail + seq![name@] =~= tail.push(name@));
            vstd::seq_lib::to_multiset_build(tail, name@);
            vstd::seq_lib::to_multiset_insert(old_sorted, at as int, name@);
            assert(now.to_multiset() == old_sorted.to_multiset().insert(name@));
            let front = seq![name@] + tail;
            assert(texts(given.skip(rest@.len() as int)) == front);
            assert(front.to_multiset() == (tail + seq![name@]).to_multiset());
            assert((tail + seq![name@]).to_multiset() == tail.push(name@).to_multiset());
            assert(tail.push(name@).to_multiset() =~= tail.to_multiset().insert(name@));
        }
    }
    proof {
        assert(given.skip(0) =~= given);
    }
    sorted
}

/// The mods' names among campaigns, past the first.
pub open spec fn mod_names(campaigns: Seq<Campaign>) -> Seq<Seq<char>> {
    campaigns.skip(1).map_values(|c: Campaign| match c {
        Campaign::Main => Seq::empty(),
        Campaign::Mod(name) => name@,
    })
}

impl SaveDir {
    /// The campaigns this save directory holds: the main campaign, then
    /// every mod by name. `mod_folders` are the folders of the save
    /// directory that hold their own `transfer.gst` and name a mod —
    /// the game creates such a folder the first time a mod is played.
    pub fn campaigns(&self, mod_folders: Vec<String>) -> (campaigns: Vec<Campaign>)
        ensures
            campaigns@.len() == mod_folders@.len() + 1,
            campaigns@[0] == Campaign::Main,
            forall|i: int| 1 <= i < campaigns@.len() ==> (#[trigger] campaigns@[i]) is Mod,
            in_order(mod_names(campaigns@)),
            mod_names(campaigns@).to_multiset() == texts(mod_folders@).to_multiset(),
    {
        let sorted = sorted_names(mod_folders);
        let ghost names = texts(sorted@);
        let mut campaigns: Vec<Campaign> = vec![Campaign::Main];
        let mut rest = sorted;
        let mut backwards: Vec<String> = Vec::new();
        while rest.len() > 0
            invariant
                names.len() == rest@.len() + backwards@.len(),
                texts(rest@) == names.take(rest@.len() as int),
                texts(backwards@.reverse()) == names.skip(rest@.len() as int),
            decreases rest.len(),
        {
            let ghost before = rest@;
            let ghost back = backwards@;
            let name = rest.pop().unwrap();
            backwards.push(name);
            proof {
                assert(before == rest@.push(name));
                assert(texts(rest@) =~= texts(before).take(rest@.len() as int));
                assert(backwards@.reverse() =~= seq![name] + back.reverse());
                assert(texts(backwards@.reverse()) =~= seq![name@] + texts(back.reverse()));
                assert(names.skip(rest@.len() as int) =~= seq![names[rest@.len() as int]] + names.skip(
                    before.len() as int,
                ));
                assert(names[rest@.len() as int] == texts(before)[rest@.len() as int]);
            }
        }
        proof {
            assert(names.skip(0) =~= names);
        }
        while backwards.len() > 0
            invariant
                campaigns@.len() >= 1,
                campaigns@[0] == Campaign::Main,
                forall|i: int| 1 <= i < campaigns@.len() ==> (#[trigger] campaigns@[i]) is Mod,
                mod_names(campaigns@) + texts(backwards@.reverse()) == names,
            decreases backwards.len(),
        {
            let ghost back = backwards@;
            let ghost done = campaigns@;
            let name = backwards.pop().unwrap();
            campaigns.push(Campaign::Mod(name));
            proof {
                assert(back == backwards@.push(name));
                assert(back.reverse() =~= seq![name] + backwards@.reverse());
                assert(texts(back.reverse()) =~= seq![name@] + texts(backwards@.reverse()));
                assert(campaigns@.skip(1) =~= done.skip(1).push(Campaign::Mod(name)));
                assert(mod_names(campaigns@) =~= mod_names(done).push(name@));
                assert(mod_names(campaigns@) + texts(backwards@.reverse()) =~= mod_names(done) + texts(
                    back.reverse(),
                ));
            }
        }
        proof {
            broadcast use vstd::seq_lib::group_to_multiset_ensures;

            assert(backwards@.reverse() =~= Seq::<String>::empty());
            assert(mod_names(campaigns@) =~= names);
            assert(names.to_multiset().len() == names.len());
            assert(texts(mod_folders@).to_multiset().len() == texts(mod_folders@).len());
            assert(mod_names(campaigns@).len() == campaigns@.len() - 1);
        }
        campaigns
    }
}

} // verus!
