//! The shell's own rules: the order dirty documents are written in,
//! which documents a reload's standing orders cover, what the modifier
//! keys ask of a drop, the toasts, the seeds for new rolls, and the
//! command line.

use vstd::prelude::*;
use crate::documents::{Backup, Doc};
use crate::text::{decimal, decimal_text, join2};

verus! {

/// The documents the campaign selector swaps out.
pub open spec fn campaign_docs_spec() -> Seq<Doc> {
    seq![Doc::Stash, Doc::Reagents, Doc::Blueprints, Doc::Illusions]
}

/// The non-character documents in default write order: the store
/// first, then the campaign's files in load order.
pub open spec fn shared_docs_spec() -> Seq<Doc> {
    seq![Doc::Store, Doc::Stash, Doc::Reagents, Doc::Blueprints, Doc::Illusions]
}

/// See [`campaign_docs_spec`].
pub fn campaign_docs() -> (docs: Vec<Doc>)
    ensures
        docs@ == campaign_docs_spec(),
{
    vec![Doc::Stash, Doc::Reagents, Doc::Blueprints, Doc::Illusions]
}

/// See [`shared_docs_spec`].
pub fn shared_docs() -> (docs: Vec<Doc>)
    ensures
        docs@ == shared_docs_spec(),
{
    vec![Doc::Store, Doc::Stash, Doc::Reagents, Doc::Blueprints, Doc::Illusions]
}

/// The campaign's documents are the shared ones less the store.
pub proof fn law_campaign_docs_are_the_shared_docs_less_the_store()
    ensures
        shared_docs_spec().contains(Doc::Store),
        !campaign_docs_spec().contains(Doc::Store),
        forall|i: int|
            0 <= i < campaign_docs_spec().len() ==> shared_docs_spec().contains(
                #[trigger] campaign_docs_spec()[i],
            ),
        campaign_docs_spec().len() + 1 == shared_docs_spec().len(),
{
    assert(shared_docs_spec()[0] == Doc::Store);
    assert forall|i: int| 0 <= i < campaign_docs_spec().len() implies shared_docs_spec().contains(
        #[trigger] campaign_docs_spec()[i],
    ) by {
        assert(shared_docs_spec()[i + 1] == campaign_docs_spec()[i]);
    }
}

/// The first position of `doc` in `s`, if any.
pub open spec fn first_at(s: Seq<Doc>, doc: Doc, slot: int) -> bool {
    &&& 0 <= slot < s.len()
    &&& s[slot] == doc
    &&& forall|j: int| 0 <= j < slot ==> s[j] != doc
}

/// `s` with its element at `slot` moved to the front, the rest in
/// order.
pub open spec fn to_front(s: Seq<Doc>, slot: int) -> Seq<Doc> {
    seq![s[slot]] + s.take(slot) + s.skip(slot + 1)
}

/// The order the dirty documents are written in: a move's destination
/// goes first, so a crash between two writes leaves the item
/// duplicated rather than lost. Each move promotes its destination to
/// the front, so the most recent move's rule always holds and earlier
/// moves' rules hold whenever they still can.
#[derive(Clone, Debug)]
pub struct WriteOrder {
    order: Vec<Doc>,
}

impl View for WriteOrder {
    type V = Seq<Doc>;

    closed spec fn view(&self) -> Seq<Doc> {
        self.order@
    }
}

impl WriteOrder {
    /// The documents in the order given.
    pub fn new(docs: Vec<Doc>) -> (order: Self)
        ensures
            order@ == docs@,
    {
        WriteOrder { order: docs }
    }

    /// Moves `destination` to the front, the others keeping their
    /// order; nothing changes when it is not in the order.
    pub fn prioritize(&mut self, destination: Doc)
        ensures
            (exists|slot: int| first_at(old(self)@, destination, slot)) ==> (forall|slot: int|
                first_at(old(self)@, destination, slot) ==> final(self)@ == to_front(
                    old(self)@,
                    slot,
                )),
            !old(self)@.contains(destination) ==> final(self)@ == old(self)@,
    {
        let mut slot: usize = 0;
        while slot < self.order.len()
            invariant
                slot <= self.order@.len(),
                forall|j: int| 0 <= j < slot ==> self.order@[j] != destination,
            ensures
                slot <= self.order@.len(),
                forall|j: int| 0 <= j < slot ==> self.order@[j] != destination,
                slot < self.order@.len() ==> self.order@[slot as int] == destination,
            decreases self.order.len() - slot,
        {
            if self.order[slot] == destination {
                break;
            }
            slot = slot + 1;
        }
        if slot == self.order.len() {
            return;
        }
        let ghost before = self.order@;
        let mut moved: Vec<Doc> = Vec::new();
        moved.push(self.order[slot]);
        let mut i: usize = 0;
        while i < self.order.len()
            invariant
                self.order@ == before,
                slot < before.len(),
                i <= before.len(),
                moved@ == seq![before[slot as int]] + before.take(if i <= slot { i as int } else { slot as int }) + (if i <= slot + 1 { Seq::<Doc>::empty() } else { before.subrange(slot + 1, i as int) }),
            decreases before.len() - i,
        {
            if i != slot {
                moved.push(self.order[i]);
            }
            proof {
                if i < slot {
                    assert(before.take(i as int + 1) == before.take(i as int).push(before[i as int]));
                } else if i > slot {
                    if i == slot + 1 {
                        assert(before.subrange(slot + 1, i as int + 1) == seq![before[i as int]]);
                    } else {
                        assert(before.subrange(slot + 1, i as int + 1) == before.subrange(slot + 1, i as int).push(before[i as int]));
                    }
                }
            }
            i = i + 1;
        }
        proof {
            assert(before.subrange(slot + 1, before.len() as int) == before.skip(slot + 1));
            assert(before[slot as int] == destination);
            assert(before.contains(destination));
            assert forall|s: int| first_at(before, destination, s) implies s == slot by {
                if s < slot {
                } else if s > slot {
                    assert(before[slot as int] == destination);
                }
            }
            if slot + 1 == before.len() {
                assert(before.skip(slot + 1) == Seq::<Doc>::empty());
            }
        }
        self.order = moved;
    }

    /// The documents in write order.
    pub fn docs(&self) -> (docs: Vec<Doc>)
        ensures
            docs@ == self@,
    {
        let mut copy: Vec<Doc> = Vec::new();
        let mut i: usize = 0;
        while i < self.order.len()
            invariant
                i <= self.order@.len(),
                copy@ == self.order@.take(i as int),
            decreases self.order.len() - i,
        {
            copy.push(self.order[i]);
            proof {
                assert(copy@ == self.order@.take(i as int + 1));
            }
            i = i + 1;
        }
        proof {
            assert(self.order@.take(self.order@.len() as int) == self.order@);
        }
        copy
    }
}

/// A write order is a reordering: promoting a document loses none and
/// adds none.
pub proof fn law_prioritizing_only_reorders(s: Seq<Doc>, slot: int)
    requires
        0 <= slot < s.len(),
    ensures
        to_front(s, slot).len() == s.len(),
        to_front(s, slot)[0] == s[slot],
        to_front(s, slot).to_multiset() == s.to_multiset(),
{
    broadcast use vstd::seq_lib::lemma_multiset_commutative;
    broadcast use vstd::multiset::group_multiset_axioms;
    let a = seq![s[slot]];
    let b = s.take(slot);
    let c = s.skip(slot + 1);
    assert(s =~= b + a + c);
    assert(to_front(s, slot) == a + b + c);
    assert((a + b + c).to_multiset() =~= (b + a + c).to_multiset());
}

/// Which standing orders a (re)load carries out: every one, the
/// open campaign's shared files', or one document's.
#[derive(Clone, Copy, Debug, PartialEq, Eq, Structural)]
pub enum Scope {
    Everything,
    Campaign,
    Doc(Doc),
}

/// Whether a scope covers a document.
pub open spec fn covers_spec(scope: Scope, doc: Doc) -> bool {
    match scope {
        Scope::Everything => true,
        Scope::Campaign => campaign_docs_spec().contains(doc),
        Scope::Doc(scoped) => scoped == doc,
    }
}

impl Scope {
    pub fn covers(self, doc: Doc) -> (covered: bool)
        ensures
            covered == covers_spec(self, doc),
    {
        match self {
            Scope::Everything => true,
            Scope::Campaign => {
                let result = doc == Doc::Stash || doc == Doc::Reagents || doc == Doc::Blueprints || doc
                    == Doc::Illusions;
                proof {
                    let c = campaign_docs_spec();
                    if result {
                        if doc == Doc::Stash { assert(c[0] == doc); }
                        if doc == Doc::Reagents { assert(c[1] == doc); }
                        if doc == Doc::Blueprints { assert(c[2] == doc); }
                        if doc == Doc::Illusions { assert(c[3] == doc); }
                    }
                }
                result
            },
            Scope::Doc(scoped) => scoped == doc,
        }
    }
}

/// The status bar's word for a document's backup.
pub fn backup_label(backup: Backup) -> (text: &'static str)
    ensures
        text@ == match backup {
            Backup::Armed => "armed"@,
            Backup::Taken => "taken"@,
        },
{
    match backup {
        Backup::Armed => "armed",
        Backup::Taken => "taken",
    }
}

/// Whether a drop moves its item or copies it.
#[derive(Clone, Copy, Debug, PartialEq, Eq, Structural)]
pub enum Mode {
    Move,
    Copy,
}

/// The modifier keys held during a gesture; `command` is the
/// platform's command key (Ctrl, ⌘ on macOS).
#[derive(Clone, Copy, Debug, PartialEq, Eq, Structural)]
pub struct Modifiers {
    pub alt: bool,
    pub command: bool,
    pub shift: bool,
}

/// Whether the modifier keys ask for a copy: Alt, or the command key.
pub fn mode_of(modifiers: Modifiers) -> (mode: Mode)
    ensures
        mode == if modifiers.alt || modifiers.command { Mode::Copy } else { Mode::Move },
{
    if modifiers.alt || modifiers.command {
        Mode::Copy
    } else {
        Mode::Move
    }
}

/// Whether a right-click copies: Shift, the gesture's own modifier,
/// or either key that copies on a drop.
pub fn right_click_mode(modifiers: Modifiers) -> (mode: Mode)
    ensures
        mode == if modifiers.shift || modifiers.alt || modifiers.command {
            Mode::Copy
        } else {
            Mode::Move
        },
{
    if modifiers.shift {
        Mode::Copy
    } else {
        mode_of(modifiers)
    }
}

/// A toast's kind.
#[derive(Clone, Copy, Debug, PartialEq, Eq, Structural)]
pub enum ToastKind {
    Info,
    Error,
}

impl ToastKind {
    /// How long a toast of this kind stays up, in milliseconds.
    pub fn lifetime(self) -> (millis: u64)
        ensures
            millis == match self {
                ToastKind::Info => 4000u64,
                ToastKind::Error => 8000u64,
            },
    {
        match self {
            ToastKind::Info => 4000,
            ToastKind::Error => 8000,
        }
    }
}

/// How many toasts are shown at once.
pub const TOAST_STACK: usize = 6;

/// One notification: its text, kind, and when it was raised.
#[derive(Debug)]
pub struct Toast {
    pub text: String,
    pub kind: ToastKind,
    pub born: u64,
}

/// A toast as a value.
pub type ToastView = (Seq<char>, ToastKind, u64);

/// The stack after raising `toast`: it goes on top, and the oldest
/// goes once more than [`TOAST_STACK`] are up.
pub open spec fn raised(entries: Seq<ToastView>, toast: ToastView) -> Seq<ToastView> {
    if entries.len() + 1 > TOAST_STACK {
        entries.push(toast).drop_first()
    } else {
        entries.push(toast)
    }
}

/// Transient outcome notifications, and the last error for the status
/// bar.
#[derive(Debug)]
pub struct Toasts {
    entries: Vec<Toast>,
    last_error: Option<String>,
}

impl View for Toasts {
    type V = (Seq<ToastView>, Option<Seq<char>>);

    closed spec fn view(&self) -> (Seq<ToastView>, Option<Seq<char>>) {
        (
            self.entries@.map_values(|t: Toast| (t.text@, t.kind, t.born)),
            match self.last_error {
                Some(text) => Some(text@),
                None => None,
            },
        )
    }
}

impl Default for Toasts {
    fn default() -> (toasts: Self)
        ensures
            toasts@.0 == Seq::<ToastView>::empty(),
            toasts@.1 == None::<Seq<char>>,
    {
        let toasts = Toasts { entries: Vec::new(), last_error: None };
        proof {
            assert(toasts@.0 =~= Seq::<ToastView>::empty());
        }
        toasts
    }
}

impl Toasts {
    /// Raises an information toast at `now` (milliseconds).
    pub fn info(&mut self, text: String, now: u64)
        ensures
            final(self)@.0 == raised(old(self)@.0, (text@, ToastKind::Info, now)),
            final(self)@.1 == old(self)@.1,
    {
        self.push(text, ToastKind::Info, now);
    }

    /// Raises an error toast at `now`; the status bar shows it as the
    /// last error.
    pub fn error(&mut self, text: String, now: u64)
        ensures
            final(self)@.0 == raised(old(self)@.0, (text@, ToastKind::Error, now)),
            final(self)@.1 == Some(text@),
    {
        let shown = text.clone();
        self.last_error = Some(text);
        self.push(shown, ToastKind::Error, now);
    }

    fn push(&mut self, text: String, kind: ToastKind, now: u64)
        ensures
            final(self)@.0 == raised(old(self)@.0, (text@, kind, now)),
            final(self)@.1 == old(self)@.1,
    {
        let ghost before = self.entries@;
        self.entries.push(Toast { text, kind, born: now });
        proof {
            assert(self.entries@.map_values(|t: Toast| (t.text@, t.kind, t.born)) =~= before.map_values(
                |t: Toast| (t.text@, t.kind, t.born),
            ).push((text@, kind, now)));
        }
        if self.entries.len() > TOAST_STACK {
            let ghost full = self.entries@;
            self.entries.remove(0);
            proof {
                assert(self.entries@ == full.drop_first());
                assert(self.entries@.map_values(|t: Toast| (t.text@, t.kind, t.born)) =~= full.map_values(
                    |t: Toast| (t.text@, t.kind, t.born),
                ).drop_first());
            }
        }
    }

    /// The error shown last, if any.
    pub fn last_error(&self) -> (text: Option<&str>)
        ensures
            match text {
                Some(t) => self@.1 == Some(t@),
                None => self@.1 is None,
            },
    {
        match &self.last_error {
            Some(text) => Some(text.as_str()),
            None => None,
        }
    }

    /// The toasts up now, oldest first.
    pub fn entries(&self) -> (entries: &Vec<Toast>)
        ensures
            entries@.map_values(|t: Toast| (t.text@, t.kind, t.born)) == self@.0,
    {
        &self.entries
    }

    /// Drops the toasts whose lifetime has run out at `now`.
    pub fn expire(&mut self, now: u64)
        ensures
            final(self)@.0 == old(self)@.0.filter(|t: ToastView| now < t.2 || now - t.2 < (match t.1 {
                ToastKind::Info => 4000int,
                ToastKind::Error => 8000int,
            })),
            final(self)@.1 == old(self)@.1,
    {
        let ghost before = self@.0;
        let ghost alive = |t: ToastView| now < t.2 || now - t.2 < (match t.1 {
            ToastKind::Info => 4000int,
            ToastKind::Error => 8000int,
        });
        let mut kept: Vec<Toast> = Vec::new();
        let mut old_entries: Vec<Toast> = Vec::new();
        std::mem::swap(&mut old_entries, &mut self.entries);
        let ghost source = old_entries@;
        let mut rest = old_entries;
        let count = rest.len();
        let mut i: usize = 0;
        while rest.len() > 0
            invariant
                i + rest@.len() == source.len(),
                source.len() == count,
                rest@ == source.skip(i as int),
                before == source.map_values(|t: Toast| (t.text@, t.kind, t.born)),
                alive == (|t: ToastView| now < t.2 || now - t.2 < (match t.1 {
                    ToastKind::Info => 4000int,
                    ToastKind::Error => 8000int,
                })),
                kept@.map_values(|t: Toast| (t.text@, t.kind, t.born)) == before.take(i as int).filter(alive),
            decreases rest.len(),
        {
            let toast = rest.remove(0);
            proof {
                assert(toast == source[i as int]);
                assert(before.take(i as int + 1).drop_last() == before.take(i as int));
                assert(before.take(i as int + 1).last() == (toast.text@, toast.kind, toast.born));
                reveal(Seq::filter);
            }
            let keep = now < toast.born || now - toast.born < toast.kind.lifetime();
            let ghost kept_before = kept@;
            if keep {
                kept.push(toast);
                proof {
                    assert(kept@.map_values(|t: Toast| (t.text@, t.kind, t.born)) =~= kept_before.map_values(
                        |t: Toast| (t.text@, t.kind, t.born),
                    ).push(before[i as int]));
                }
            }
            proof {
                assert(rest@ == source.skip(i as int + 1));
            }
            i = i + 1;
        }
        proof {
            assert(before.take(before.len() as int) == before);
        }
        self.entries = kept;
    }
}

/// The stack never holds more than [`TOAST_STACK`] toasts.
pub proof fn law_the_toast_stack_is_bounded(entries: Seq<ToastView>, toast: ToastView)
    requires
        entries.len() <= TOAST_STACK,
    ensures
        raised(entries, toast).len() <= TOAST_STACK,
        raised(entries, toast).last() == toast,
{
}

/// The seed mixer: the clock's sub-second nanoseconds, its low 32
/// seconds rotated by 16, and the counter spread by the golden-ratio
/// constant, multiplied by Knuth's constant.
pub open spec fn mixed_seed(seconds: u64, nanos: u32, tick: u32) -> u32 {
    let low = (seconds % 0x1_0000_0000) as u32;
    let rotated = (low << 16u32) | (low >> 16u32);
    ((nanos ^ rotated ^ tick.wrapping_mul(0x9E37_79B9u32)) as u32).wrapping_mul(2_654_435_761u32)
}

/// A reading of the system clock.
#[verifier::external_type_specification]
#[verifier::external_body]
pub struct ExSystemTime(std::time::SystemTime);

/// Reads the system clock.
///
/// Calls `SystemTime::now`; nothing is claimed of the reading, which
/// depends on the time.
#[verifier::external_body]
fn clock_reading() -> (now: std::time::SystemTime) {
    std::time::SystemTime::now()
}

/// How long after the Unix epoch a reading lies; `None` for a reading
/// before the epoch.
///
/// Calls `SystemTime::duration_since` with the epoch; nothing is
/// claimed of the span, which depends on the reading.
#[verifier::external_body]
fn since_epoch(now: &std::time::SystemTime) -> (span: Option<std::time::Duration>) {
    now.duration_since(std::time::UNIX_EPOCH).ok()
}

/// The whole seconds of a span.
///
/// Calls `Duration::as_secs`; nothing is claimed beyond its type.
#[verifier::external_body]
fn whole_seconds(span: &std::time::Duration) -> (seconds: u64) {
    span.as_secs()
}

/// The nanoseconds of a span past its whole seconds.
///
/// Calls `Duration::subsec_nanos`, which its documentation says is
/// always below one billion.
#[verifier::external_body]
fn nanos_past_the_second(span: &std::time::Duration) -> (nanos: u32)
    ensures
        nanos < 1_000_000_000,
{
    span.subsec_nanos()
}

/// The time since the Unix epoch as whole seconds and the nanoseconds
/// past the last second; zero for a clock set before the epoch.
fn unix_clock() -> (now: (u64, u32))
    ensures
        now.1 < 1_000_000_000,
{
    match since_epoch(&clock_reading()) {
        Some(span) => (whole_seconds(&span), nanos_past_the_second(&span)),
        None => (0, 0),
    }
}

/// Multiplying by an odd constant modulo 2^32 is undone by its inverse.
proof fn lemma_undo_golden(a: u32)
    by (bit_vector)
    ensures
        (((a * 0x9E37_79B9u32) % 0x1_0000_0000) * 0x144C_BC89u32) % 0x1_0000_0000 == a,
{
}

/// Multiplying by Knuth's constant modulo 2^32 is undone by its inverse.
proof fn lemma_undo_knuth(a: u32)
    by (bit_vector)
    ensures
        (((a * 2_654_435_761u32) % 0x1_0000_0000) * 0x0E8B_2F51u32) % 0x1_0000_0000 == a,
{
}

/// Two edits in one instant get different seeds: for a fixed clock
/// reading, different ticks mix to different seeds.
pub proof fn law_two_ticks_in_one_instant_give_two_seeds(seconds: u64, nanos: u32, first: u32, second: u32)
    requires
        first != second,
    ensures
        mixed_seed(seconds, nanos, first) != mixed_seed(seconds, nanos, second),
{
    let low = (seconds % 0x1_0000_0000) as u32;
    let rotated = (low << 16u32) | (low >> 16u32);
    let m1 = first.wrapping_mul(0x9E37_79B9u32);
    let m2 = second.wrapping_mul(0x9E37_79B9u32);
    lemma_undo_golden(first);
    lemma_undo_golden(second);
    assert(m1 != m2);
    let y1 = (nanos ^ rotated ^ m1) as u32;
    let y2 = (nanos ^ rotated ^ m2) as u32;
    assert(y1 != y2) by (bit_vector)
        requires
            m1 != m2,
            y1 == (nanos ^ rotated ^ m1) as u32,
            y2 == (nanos ^ rotated ^ m2) as u32,
    ;
    lemma_undo_knuth(y1);
    lemma_undo_knuth(y2);
}

/// Mixes a clock reading with a counter tick into a seed.
pub fn mix_seed(seconds: u64, nanos: u32, tick: u32) -> (seed: u32)
    ensures
        seed == mixed_seed(seconds, nanos, tick),
{
    let low = (seconds & 0xFFFF_FFFF) as u32;
    proof {
        assert(seconds & 0xFFFF_FFFF == seconds % 0x1_0000_0000) by (bit_vector);
    }
    let rotated = (low << 16u32) | (low >> 16u32);
    (nanos ^ rotated ^ tick.wrapping_mul(0x9E37_79B9)).wrapping_mul(2_654_435_761)
}

/// A seed for a socket or a freed part. The game's seeds are
/// arbitrary 32-bit values and nothing this app shows depends on the
/// roll, so the clock mixed with a counter tick — two edits in one
/// instant still differ — is entropy enough. The clock is read here,
/// so two calls may differ; the tick is the caller's counter.
pub fn fresh_seed(tick: u32) -> (seed: u32)
    ensures
        exists|seconds: u64, nanos: u32| nanos < 1_000_000_000 && seed == mixed_seed(seconds, nanos, tick),
{
    let (seconds, nanos) = unix_clock();
    mix_seed(seconds, nanos, tick)
}

/// Where a headless check reads from: given on the command line, or
/// the saved settings.
#[derive(Clone, Debug, PartialEq, Eq)]
pub enum CheckPaths {
    Explicit { game: String, save: String },
    Saved,
}

/// What the command line asks for.
#[derive(Clone, Debug, PartialEq, Eq)]
pub enum Cli {
    Window,
    Check(CheckPaths),
}

/// How the program is invoked.
pub const USAGE: &'static str = "usage: grimvault-gui [--check [<game dir> <save dir>]]";

impl Cli {
    /// The window with no arguments; a headless check with `--check`
    /// alone (saved settings) or `--check <game dir> <save dir>`;
    /// the usage line for anything else.
    pub fn parse(args: &Vec<String>) -> (cli: Result<Cli, &'static str>)
        ensures
            args@.len() == 0 ==> cli == Ok::<Cli, &'static str>(Cli::Window),
            args@.len() == 1 && args@[0]@ == "--check"@ ==> cli == Ok::<Cli, &'static str>(
                Cli::Check(CheckPaths::Saved),
            ),
            args@.len() == 3 && args@[0]@ == "--check"@ ==> (cli matches Ok(Cli::Check(
                CheckPaths::Explicit { game, save },
            )) && game@ == args@[1]@ && save@ == args@[2]@),
            !(args@.len() == 0 || (args@.len() == 1 || args@.len() == 3) && args@[0]@ == "--check"@)
                ==> cli == Err::<Cli, &'static str>(USAGE),
    {
        let flag = String::from_str("--check");
        if args.len() == 0 {
            Ok(Cli::Window)
        } else if args.len() == 1 && args[0] == flag {
            Ok(Cli::Check(CheckPaths::Saved))
        } else if args.len() == 3 && args[0] == flag {
            Ok(Cli::Check(CheckPaths::Explicit { game: args[1].clone(), save: args[2].clone() }))
        } else {
            Err(USAGE)
        }
    }
}

/// What loading the saved settings came to: the settings' game and
/// save directories, no settings file yet, or why it could not be read.
#[derive(Clone, Debug, PartialEq, Eq)]
pub enum SavedSettings {
    Found { game: String, save: String },
    Missing,
    Unreadable(String),
}

/// The game and save directories from the saved settings, or what to
/// tell the user: where the settings were looked for and how to get
/// past their absence, or why they could not be read.
pub fn saved_paths(loaded: SavedSettings, settings_file: &str) -> (paths: Result<(String, String), String>)
    ensures
        match loaded {
            SavedSettings::Found { game, save } => paths matches Ok((g, s)) && g@ == game@ && s@ == save@,
            SavedSettings::Missing => paths matches Err(message) && message@ == "no settings at "@
                + settings_file@ + ": run the app once, or pass --check <game dir> <save dir>"@,
            SavedSettings::Unreadable(error) => paths matches Err(message) && message@ == error@,
        },
{
    match loaded {
        SavedSettings::Found { game, save } => Ok((game, save)),
        SavedSettings::Missing => Err(
            join2("no settings at ", settings_file).concat(
                ": run the app once, or pass --check <game dir> <save dir>",
            ),
        ),
        SavedSettings::Unreadable(error) => Err(error),
    }
}

/// Why a nomination has no tab to plan over on a load.
#[derive(Clone, Copy, Debug, PartialEq, Eq, Structural)]
pub enum Skipped {
    NotOpen,
    StashNotTyped,
}

impl Skipped {
    /// The reason in words.
    pub fn describe(self) -> (text: &'static str)
        ensures
            text@ == match self {
                Skipped::NotOpen => "not open on this load"@,
                Skipped::StashNotTyped => "the character's stash is not typed"@,
            },
    {
        match self {
            Skipped::NotOpen => "not open on this load",
            Skipped::StashNotTyped => "the character's stash is not typed",
        }
    }
}

/// How an optional shared file fared: open with its backup state,
/// absent, or present but unusable.
#[derive(Clone, Copy, Debug, PartialEq, Eq, Structural)]
pub enum FileState {
    Open(Backup),
    Absent,
    Failed,
}

/// An optional file's backup state for the status bar.
pub fn optional_backup_label(file: FileState) -> (text: &'static str)
    ensures
        text@ == match file {
            FileState::Open(Backup::Armed) => "armed"@,
            FileState::Open(Backup::Taken) => "taken"@,
            FileState::Absent => "no file"@,
            FileState::Failed => "read-only"@,
        },
{
    match file {
        FileState::Open(backup) => backup_label(backup),
        FileState::Absent => "no file",
        FileState::Failed => "read-only",
    }
}

/// How many of the characters that were read are editable, and of
/// those, how many have had this load's backup taken. Each entry is a
/// readable character's (editable, backup state), `None` for one that
/// could not be read.
pub open spec fn backup_tally(characters: Seq<Option<(bool, Backup)>>) -> (nat, nat)
    decreases characters.len(),
{
    if characters.len() == 0 {
        (0, 0)
    } else {
        let (taken, editable) = backup_tally(characters.drop_last());
        match characters.last() {
            Some((true, Backup::Taken)) => (taken + 1, editable + 1),
            Some((true, Backup::Armed)) => (taken, editable + 1),
            _ => (taken, editable),
        }
    }
}

proof fn lemma_backup_tally_bounded(characters: Seq<Option<(bool, Backup)>>)
    ensures
        backup_tally(characters).0 <= backup_tally(characters).1 <= characters.len(),
    decreases characters.len(),
{
    if characters.len() > 0 {
        lemma_backup_tally_bounded(characters.drop_last());
    }
}

/// `taken/editable` across the characters, so the status bar stays one
/// line however many there are.
pub fn characters_backup_label(characters: &Vec<Option<(bool, Backup)>>) -> (text: String)
    ensures
        text@ == decimal(backup_tally(characters@).0) + "/"@ + decimal(backup_tally(characters@).1) + " taken"@,
{
    let mut taken: u64 = 0;
    let mut editable: u64 = 0;
    let mut i: usize = 0;
    while i < characters.len()
        invariant
            i <= characters@.len(),
            (taken as nat, editable as nat) == backup_tally(characters@.take(i as int)),
            editable <= i,
        decreases characters.len() - i,
    {
        proof {
            assert(characters@.take(i as int + 1).drop_last() == characters@.take(i as int));
            lemma_backup_tally_bounded(characters@.take(i as int));
        }
        match characters[i] {
            Some((true, Backup::Taken)) => {
                taken = taken + 1;
                editable = editable + 1;
            },
            Some((true, Backup::Armed)) => {
                editable = editable + 1;
            },
            _ => {},
        }
        i = i + 1;
    }
    proof {
        assert(characters@.take(characters@.len() as int) == characters@);
    }
    let text = decimal_text(taken).concat("/");
    let count = decimal_text(editable);
    text.concat(count.as_str()).concat(" taken")
}

} // verus!
