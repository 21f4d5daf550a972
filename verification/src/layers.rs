//! Reading the layered game data: the shipped layers (missing
//! expansion files skipped) and every installed mod as a fill layer.
//!
//! The archives are read several at a time and assembled in layer
//! order, so the composition sees exactly what a one-at-a-time read
//! would have: the same layers in the same order, and the first
//! failure in that order as the load's failure. Each archive is
//! reported as the assembler takes it up, so a progress transcript
//! reads as a one-at-a-time load's would.
//!
//! What is on disk, and what each reader delivered, are the caller's
//! to find out; [`plan_reads`] and [`assemble`] decide from them.

use vstd::prelude::*;
use crate::dirs::{join_path, joined_path};

verus! {

/// How many archives are read at once.
pub const READERS: usize = 4;

/// The files of one layer, relative to the game directory.
#[derive(Clone, Debug, PartialEq, Eq)]
pub struct LayerFiles {
    /// The record database.
    pub database: String,
    /// The localization text archive.
    pub text: String,
    /// The item bitmap archive.
    pub items: String,
    /// The interface archive, where the tile symbols are.
    pub ui: String,
    /// The folder of the layer's other resource archives.
    pub resources: String,
}

/// Which whole-file archive of a layer a read is for.
#[derive(Clone, Copy, Debug, PartialEq, Eq, Structural)]
pub enum LayerFile {
    /// The record database.
    Database,
    /// The localization text archive.
    Text,
    /// The item bitmap archive.
    Items,
}

/// The file of `layer` that `file` names.
pub open spec fn relative_of(file: LayerFile, layer: LayerFiles) -> String {
    match file {
        LayerFile::Database => layer.database,
        LayerFile::Text => layer.text,
        LayerFile::Items => layer.items,
    }
}

impl LayerFile {
    /// Every archive of a layer, in the order they are read.
    pub fn all() -> (files: Vec<LayerFile>)
        ensures
            files@ == seq![LayerFile::Database, LayerFile::Text, LayerFile::Items],
    {
        vec![LayerFile::Database, LayerFile::Text, LayerFile::Items]
    }

    /// The archives a headless shell needs: records and text, not the
    /// item bitmaps (the bulk of the bytes).
    pub fn headless() -> (files: Vec<LayerFile>)
        ensures
            files@ == seq![LayerFile::Database, LayerFile::Text],
    {
        vec![LayerFile::Database, LayerFile::Text]
    }

    /// The file of `layer` this archive is.
    pub fn relative(self, layer: &LayerFiles) -> (path: &String)
        ensures
            *path == relative_of(self, *layer),
    {
        match self {
            LayerFile::Database => &layer.database,
            LayerFile::Text => &layer.text,
            LayerFile::Items => &layer.items,
        }
    }
}

/// One archive being taken up by the assembler, in layer order.
#[derive(Clone, Debug, PartialEq, Eq)]
pub struct ArchiveRead {
    /// Which archive of its layer.
    pub file: LayerFile,
    /// Its path, relative to the game directory.
    pub relative: String,
}

/// Whose layer set an archive fills.
#[derive(Clone, Copy, Debug, PartialEq, Eq, Structural)]
pub enum Origin {
    Shipped,
    Mod,
}

/// An archive that will be read.
#[derive(Clone, Debug, PartialEq, Eq)]
pub struct PlannedRead {
    pub origin: Origin,
    pub file: LayerFile,
    pub relative: String,
}

/// The progress report for a planned read.
pub open spec fn step_of(read: PlannedRead) -> ArchiveRead {
    ArchiveRead { file: read.file, relative: read.relative }
}

impl PlannedRead {
    /// What the assembler reports as it takes this read up.
    pub fn step(&self) -> (step: ArchiveRead)
        ensures
            step == step_of(*self),
    {
        ArchiveRead { file: self.file, relative: self.relative.clone() }
    }
}

/// The reads of one layer: each wanted file, in the order wanted.
pub open spec fn layer_reads(origin: Origin, layer: LayerFiles, files: Seq<LayerFile>) -> Seq<PlannedRead> {
    files.map_values(|file: LayerFile| PlannedRead { origin, file, relative: relative_of(file, layer) })
}

/// The reads of the layers, layer by layer.
pub open spec fn layers_reads(origin: Origin, layers: Seq<LayerFiles>, files: Seq<LayerFile>) -> Seq<PlannedRead>
    decreases layers.len(),
{
    if layers.len() == 0 {
        Seq::empty()
    } else {
        layers_reads(origin, layers.drop_last(), files) + layer_reads(origin, layers.last(), files)
    }
}

/// Every wanted archive of the shipped layers and then of the mod
/// layers, in layer order.
pub open spec fn candidates(shipped: Seq<LayerFiles>, mods: Seq<LayerFiles>, files: Seq<LayerFile>) -> Seq<
    PlannedRead,
> {
    layers_reads(Origin::Shipped, shipped, files) + layers_reads(Origin::Mod, mods, files)
}

/// The reads of `layers` appended to `out`.
fn push_layer_reads(out: &mut Vec<PlannedRead>, origin: Origin, layers: &Vec<LayerFiles>, files: &Vec<LayerFile>)
    ensures
        final(out)@ == old(out)@ + layers_reads(origin, layers@, files@),
{
    let ghost start = out@;
    let mut i: usize = 0;
    while i < layers.len()
        invariant
            i <= layers@.len(),
            out@ == start + layers_reads(origin, layers@.take(i as int), files@),
        decreases layers.len() - i,
    {
        let ghost before = out@;
        let layer = &layers[i];
        let mut j: usize = 0;
        while j < files.len()
            invariant
                j <= files@.len(),
                out@ == before + layer_reads(origin, *layer, files@.take(j as int)),
            decreases files.len() - j,
        {
            let file = files[j];
            out.push(PlannedRead { origin, file, relative: file.relative(layer).clone() });
            proof {
                assert(files@.take(j as int + 1) == files@.take(j as int).push(file));
                assert(layer_reads(origin, *layer, files@.take(j as int + 1)) == layer_reads(
                    origin,
                    *layer,
                    files@.take(j as int),
                ).push(PlannedRead { origin, file, relative: relative_of(file, *layer) }));
            }
            j = j + 1;
        }
        proof {
            assert(files@.take(files@.len() as int) == files@);
            let next = layers@.take(i as int + 1);
            assert(next.drop_last() == layers@.take(i as int));
            assert(next.last() == *layer);
            assert(layers_reads(origin, next, files@) == layers_reads(origin, layers@.take(i as int), files@)
                + layer_reads(origin, *layer, files@));
        }
        i = i + 1;
    }
    proof {
        assert(layers@.take(layers@.len() as int) == layers@);
    }
}

/// Every wanted archive of the `shipped` and then of the `mods`
/// layers, in layer order, whether on disk or not.
pub fn candidate_reads(shipped: &Vec<LayerFiles>, mods: &Vec<LayerFiles>, files: &Vec<LayerFile>) -> (reads: Vec<
    PlannedRead,
>)
    ensures
        reads@ == candidates(shipped@, mods@, files@),
{
    let mut reads: Vec<PlannedRead> = Vec::new();
    push_layer_reads(&mut reads, Origin::Shipped, shipped, files);
    push_layer_reads(&mut reads, Origin::Mod, mods, files);
    reads
}

/// The entries of `items` whose flag in `keep` is set, in order.
pub open spec fn kept<T>(items: Seq<T>, keep: Seq<bool>) -> Seq<T>
    decreases items.len(),
{
    if items.len() == 0 {
        Seq::empty()
    } else {
        let rest = kept(items.drop_last(), keep);
        if keep[items.len() - 1] {
            rest.push(items.last())
        } else {
            rest
        }
    }
}

/// The candidate reads that are on disk (`on_disk[i]` says whether
/// `candidates[i]` is), in order: an expansion or mod resource that
/// does not exist is not an error.
pub fn plan_reads(candidates: Vec<PlannedRead>, on_disk: &Vec<bool>) -> (plan: Vec<PlannedRead>)
    requires
        on_disk@.len() == candidates@.len(),
    ensures
        plan@ == kept(candidates@, on_disk@),
{
    let ghost all = candidates@;
    let mut rest = candidates;
    let mut backwards: Vec<PlannedRead> = Vec::new();
    // Walk from the back so each read moves out with `pop`.
    while rest.len() > 0
        invariant
            rest@ == all.take(rest@.len() as int),
            rest@.len() <= all.len(),
            on_disk@.len() == all.len(),
            kept(all, on_disk@) == kept(rest@, on_disk@) + backwards@.reverse(),
        decreases rest.len(),
    {
        let ghost before = rest@;
        let read = rest.pop().unwrap();
        let n = rest.len();
        proof {
            assert(before.drop_last() == rest@);
            assert(before.last() == read);
        }
        if on_disk[n] {
            let ghost b = backwards@;
            backwards.push(read);
            proof {
                assert(backwards@.reverse() == seq![read] + b.reverse());
                assert(kept(before, on_disk@) == kept(rest@, on_disk@).push(read));
                assert(kept(rest@, on_disk@).push(read) + b.reverse() == kept(rest@, on_disk@) + (seq![read]
                    + b.reverse()));
            }
        }
    }
    let mut plan: Vec<PlannedRead> = Vec::new();
    while backwards.len() > 0
        invariant
            kept(all, on_disk@) == plan@ + backwards@.reverse(),
        decreases backwards.len(),
    {
        let ghost b = backwards@;
        let read = backwards.pop().unwrap();
        proof {
            assert(b == backwards@.push(read));
            assert(b.reverse() == seq![read] + backwards@.reverse());
            assert(plan@ + b.reverse() == plan@.push(read) + backwards@.reverse());
        }
        plan.push(read);
    }
    proof {
        assert(kept(rest@, on_disk@) == Seq::<PlannedRead>::empty());
        assert(plan@ + backwards@.reverse() == plan@);
    }
    plan
}

/// An archive read and parsed on the thread that read it: a record
/// database, or one of the two kinds of resource archive.
pub enum Parsed<D, A> {
    Database(D),
    Text(A),
    Items(A),
}

/// Why an archive could not be had: what the reader reported, or
/// that every reader stopped without delivering it.
#[derive(Clone, Debug, PartialEq, Eq)]
pub enum ReadProblem<E> {
    Failed(E),
    NoResult,
}

/// Why the load stopped: the archive, by its path under the game
/// directory, and its problem.
#[derive(Clone, Debug, PartialEq, Eq)]
pub struct ArchiveFailure<E> {
    pub path: String,
    pub problem: ReadProblem<E>,
}

impl<E> ReadProblem<E> {
    /// The problem, placed at the archive it is about.
    pub fn at(self, path: String) -> (failure: ArchiveFailure<E>)
        ensures
            failure == (ArchiveFailure { path, problem: self }),
    {
        ArchiveFailure { path, problem: self }
    }
}

/// The archives of one origin, each kind in layer order.
pub struct LayerSet<D, A> {
    pub databases: Vec<D>,
    pub text_archives: Vec<A>,
    pub item_archives: Vec<A>,
}

impl<D, A> LayerSet<D, A> {
    /// A set with nothing in it.
    pub fn empty() -> (set: LayerSet<D, A>)
        ensures
            set.databases@ == Seq::<D>::empty(),
            set.text_archives@ == Seq::<A>::empty(),
            set.item_archives@ == Seq::<A>::empty(),
    {
        LayerSet { databases: Vec::new(), text_archives: Vec::new(), item_archives: Vec::new() }
    }
}

/// The position of the first arrival for `wanted` at or after
/// `from`; `arr.len()` when there is none.
pub open spec fn next_for<R>(arr: Seq<(usize, R)>, wanted: int, from: int) -> int
    decreases arr.len() - from,
{
    if from >= arr.len() {
        arr.len() as int
    } else if arr[from].0 == wanted {
        from
    } else {
        next_for(arr, wanted, from + 1)
    }
}

/// The position of the last arrival for `wanted` before `upto`; `-1`
/// when there is none.
pub open spec fn last_for<R>(arr: Seq<(usize, R)>, wanted: int, upto: int) -> int
    decreases upto,
{
    if upto <= 0 {
        -1
    } else if arr[upto - 1].0 == wanted {
        upto - 1
    } else {
        last_for(arr, wanted, upto - 1)
    }
}

/// The result held for `wanted` once the first `upto` arrivals are in:
/// the latest of them for it.
pub open spec fn held<R>(arr: Seq<(usize, R)>, wanted: int, upto: int) -> Option<R> {
    let l = last_for(arr, wanted, upto);
    if l >= 0 {
        Some(arr[l].1)
    } else {
        None
    }
}

/// How many arrivals are in once the turn of `wanted`, begun with
/// `from` in, is over: no more if one for it is already in, else up to
/// and with the next one for it, else all.
pub open spec fn turn_end<R>(arr: Seq<(usize, R)>, wanted: int, from: int) -> int {
    if last_for(arr, wanted, from) >= 0 {
        from
    } else if next_for(arr, wanted, from) < arr.len() {
        next_for(arr, wanted, from) + 1
    } else {
        arr.len() as int
    }
}

/// What the turn of `wanted`, begun with `from` arrivals in, takes:
/// the latest already in for it, else the next to arrive for it, else
/// nothing.
pub open spec fn turn_result<R>(arr: Seq<(usize, R)>, wanted: int, from: int) -> Option<R> {
    if last_for(arr, wanted, from) >= 0 {
        held(arr, wanted, from)
    } else if next_for(arr, wanted, from) < arr.len() {
        Some(arr[next_for(arr, wanted, from)].1)
    } else {
        None
    }
}

/// How many arrivals are in when the turn of plan entry `k` begins.
pub open spec fn taken_in<R>(arr: Seq<(usize, R)>, k: nat) -> int
    decreases k,
{
    if k == 0 {
        0
    } else {
        turn_end(arr, k - 1, taken_in(arr, (k - 1) as nat))
    }
}

/// What the assembler files for plan entry `k`.
pub open spec fn arrival_for<R>(arr: Seq<(usize, R)>, k: nat) -> Option<R> {
    turn_result(arr, k as int, taken_in(arr, k))
}

/// Whether plan entry `k` was delivered and parsed.
pub open spec fn settled<D, A, E>(arr: Seq<(usize, Result<Parsed<D, A>, ReadProblem<E>>)>, k: nat) -> bool {
    arrival_for(arr, k) matches Some(Ok(_))
}

/// Whether every plan entry before `k` was delivered and parsed.
pub open spec fn settled_before<D, A, E>(arr: Seq<(usize, Result<Parsed<D, A>, ReadProblem<E>>)>, k: nat) -> bool {
    forall|j: nat| j < k ==> #[trigger] settled(arr, j)
}

/// The problem of an entry that did not settle.
pub open spec fn problem_of<D, A, E>(outcome: Option<Result<Parsed<D, A>, ReadProblem<E>>>) -> ReadProblem<E> {
    match outcome {
        Some(Err(problem)) => problem,
        _ => ReadProblem::NoResult,
    }
}

/// The databases of `origin` among the first `k` plan entries, in
/// plan order.
pub open spec fn filed_databases<D, A, E>(
    arr: Seq<(usize, Result<Parsed<D, A>, ReadProblem<E>>)>,
    plan: Seq<PlannedRead>,
    origin: Origin,
    k: nat,
) -> Seq<D>
    decreases k,
{
    if k == 0 {
        Seq::empty()
    } else {
        let rest = filed_databases(arr, plan, origin, (k - 1) as nat);
        match arrival_for(arr, (k - 1) as nat) {
            Some(Ok(Parsed::Database(d))) => if plan[k - 1].origin == origin {
                rest.push(d)
            } else {
                rest
            },
            _ => rest,
        }
    }
}

/// The text archives of `origin` among the first `k` plan entries.
pub open spec fn filed_texts<D, A, E>(
    arr: Seq<(usize, Result<Parsed<D, A>, ReadProblem<E>>)>,
    plan: Seq<PlannedRead>,
    origin: Origin,
    k: nat,
) -> Seq<A>
    decreases k,
{
    if k == 0 {
        Seq::empty()
    } else {
        let rest = filed_texts(arr, plan, origin, (k - 1) as nat);
        match arrival_for(arr, (k - 1) as nat) {
            Some(Ok(Parsed::Text(a))) => if plan[k - 1].origin == origin {
                rest.push(a)
            } else {
                rest
            },
            _ => rest,
        }
    }
}

/// The item archives of `origin` among the first `k` plan entries.
pub open spec fn filed_items<D, A, E>(
    arr: Seq<(usize, Result<Parsed<D, A>, ReadProblem<E>>)>,
    plan: Seq<PlannedRead>,
    origin: Origin,
    k: nat,
) -> Seq<A>
    decreases k,
{
    if k == 0 {
        Seq::empty()
    } else {
        let rest = filed_items(arr, plan, origin, (k - 1) as nat);
        match arrival_for(arr, (k - 1) as nat) {
            Some(Ok(Parsed::Items(a))) => if plan[k - 1].origin == origin {
                rest.push(a)
            } else {
                rest
            },
            _ => rest,
        }
    }
}

/// Whether `set` holds what the first `k` plan entries of `origin`
/// filed.
pub open spec fn holds_filed<D, A, E>(
    set: LayerSet<D, A>,
    arr: Seq<(usize, Result<Parsed<D, A>, ReadProblem<E>>)>,
    plan: Seq<PlannedRead>,
    origin: Origin,
    k: nat,
) -> bool {
    &&& set.databases@ == filed_databases(arr, plan, origin, k)
    &&& set.text_archives@ == filed_texts(arr, plan, origin, k)
    &&& set.item_archives@ == filed_items(arr, plan, origin, k)
}

proof fn lemma_last_for<R>(arr: Seq<(usize, R)>, wanted: int, upto: int)
    requires
        0 <= upto <= arr.len(),
    ensures
        last_for(arr, wanted, upto) < upto,
        last_for(arr, wanted, upto) >= 0 ==> arr[last_for(arr, wanted, upto)].0 == wanted,
        forall|j: int|
            last_for(arr, wanted, upto) < j < upto && 0 <= j ==> (#[trigger] arr[j]).0 != wanted,
    decreases upto,
{
    if upto > 0 {
        lemma_last_for(arr, wanted, upto - 1);
    }
}

proof fn lemma_next_for<R>(arr: Seq<(usize, R)>, wanted: int, from: int)
    requires
        0 <= from,
    ensures
        from <= next_for(arr, wanted, from) || (from > arr.len() && next_for(arr, wanted, from) == arr.len()),
        next_for(arr, wanted, from) <= arr.len(),
        next_for(arr, wanted, from) < arr.len() ==> arr[next_for(arr, wanted, from)].0 == wanted,
        forall|j: int| from <= j < next_for(arr, wanted, from) ==> (#[trigger] arr[j]).0 != wanted,
    decreases arr.len() - from,
{
    if from < arr.len() && arr[from].0 != wanted {
        lemma_next_for(arr, wanted, from + 1);
    }
}

/// With no arrival for `wanted` in `[from, to)`, the next one for it
/// is the same seen from either end.
proof fn lemma_next_for_skips<R>(arr: Seq<(usize, R)>, wanted: int, from: int, to: int)
    requires
        0 <= from <= to <= arr.len(),
        forall|j: int| from <= j < to ==> (#[trigger] arr[j]).0 != wanted,
    ensures
        next_for(arr, wanted, from) == next_for(arr, wanted, to),
    decreases to - from,
{
    if from < to {
        lemma_next_for_skips(arr, wanted, from + 1, to);
    }
}

/// The result for `wanted`, holding any other plan entry's result that
/// arrives first for its own turn; `None` once the arrivals end
/// without it. `early[i]` holds what arrived for entry `i`; arrivals
/// for entries past the plan are let go.
fn take<R>(
    wanted: usize,
    early: &mut Vec<Option<R>>,
    arrivals: &mut Vec<(usize, R)>,
    Ghost(arr): Ghost<Seq<(usize, R)>>,
    Ghost(from): Ghost<int>,
) -> (result: Option<R>)
    requires
        wanted < old(early)@.len(),
        0 <= from <= arr.len(),
        old(arrivals)@ == arr.subrange(from, arr.len() as int),
        forall|i: int| wanted <= i < old(early)@.len() ==> #[trigger] old(early)@[i] == held(arr, i, from),
    ensures
        result == turn_result(arr, wanted as int, from),
        final(arrivals)@ == arr.subrange(turn_end(arr, wanted as int, from), arr.len() as int),
        final(early)@.len() == old(early)@.len(),
        forall|i: int|
            wanted < i < final(early)@.len() ==> #[trigger] final(early)@[i] == held(
                arr,
                i,
                turn_end(arr, wanted as int, from),
            ),
{
    let n = early.len();
    let ghost mut at: int = from;
    proof {
        lemma_last_for(arr, wanted as int, from);
    }
    loop
        invariant
            early@.len() == n,
            n == old(early)@.len(),
            wanted < n,
            0 <= from <= at <= arr.len(),
            arrivals@ == arr.subrange(at, arr.len() as int),
            forall|i: int| wanted <= i < n ==> #[trigger] early@[i] == held(arr, i, at),
            at > from ==> last_for(arr, wanted as int, at - 1) < 0,
            at > from ==> last_for(arr, wanted as int, from) < 0,
        decreases arr.len() - at,
    {
        proof {
            lemma_last_for(arr, wanted as int, at);
            lemma_next_for(arr, wanted as int, from);
        }
        if early[wanted].is_some() {
            let ghost held_now = early@[wanted as int];
            let result = early.remove(wanted);
            early.insert(wanted, None);
            proof {
                if at > from {
                    lemma_last_for(arr, wanted as int, at - 1);
                    assert(last_for(arr, wanted as int, at) == at - 1);
                    assert forall|j: int| from <= j < at - 1 implies (#[trigger] arr[j]).0 != wanted by {
                        lemma_last_for(arr, wanted as int, at - 1);
                    }
                    lemma_next_for_skips(arr, wanted as int, from, at - 1);
                }
            }
            return result;
        }
        if arrivals.len() == 0 {
            proof {
                assert(at == arr.len());
                assert forall|j: int| from <= j < at implies (#[trigger] arr[j]).0 != wanted by {
                    lemma_last_for(arr, wanted as int, at);
                }
                lemma_next_for_skips(arr, wanted as int, from, at);
            }
            return None;
        }
        let (index, result) = arrivals.remove(0);
        proof {
            assert(arr[at] == (index, result));
            assert(arrivals@ == arr.subrange(at + 1, arr.len() as int));
        }
        if index < n {
            early.remove(index);
            early.insert(index, Some(result));
        }
        proof {
            at = at + 1;
            assert forall|i: int| wanted <= i < n implies #[trigger] early@[i] == held(arr, i, at) by {
                lemma_last_for(arr, i, at);
            }
        }
    }
}

/// The progress reports of the first `k` plan entries.
pub open spec fn steps_through(plan: Seq<PlannedRead>, k: int) -> Seq<ArchiveRead> {
    plan.take(k).map_values(|read: PlannedRead| step_of(read))
}

/// `parsed` filed into `set` by its kind.
fn file_into<D, A>(set: &mut LayerSet<D, A>, parsed: Parsed<D, A>)
    ensures
        match parsed {
            Parsed::Database(d) => {
                &&& final(set).databases@ == old(set).databases@.push(d)
                &&& final(set).text_archives@ == old(set).text_archives@
                &&& final(set).item_archives@ == old(set).item_archives@
            },
            Parsed::Text(a) => {
                &&& final(set).databases@ == old(set).databases@
                &&& final(set).text_archives@ == old(set).text_archives@.push(a)
                &&& final(set).item_archives@ == old(set).item_archives@
            },
            Parsed::Items(a) => {
                &&& final(set).databases@ == old(set).databases@
                &&& final(set).text_archives@ == old(set).text_archives@
                &&& final(set).item_archives@ == old(set).item_archives@.push(a)
            },
        },
{
    match parsed {
        Parsed::Database(database) => set.databases.push(database),
        Parsed::Text(archive) => set.text_archives.push(archive),
        Parsed::Items(archive) => set.item_archives.push(archive),
    }
}

/// Files the arrivals into their sets in plan order, whatever order
/// they came in: each archive is reported as it is taken up, and the
/// first failure in plan order is the load's — later archives'
/// outcomes are never looked at. An arrival is a reader's result for
/// the plan entry at its index; the reports come back beside the
/// outcome.
///
/// The outcome is `Ok` exactly when every plan entry settled; then the
/// shipped and the mod set hold, kind by kind and in plan order, what
/// their entries delivered, and every entry was reported. Otherwise it
/// is the failure of the first entry that did not settle, at its path
/// under `game_dir`, and the reports end with that entry.
pub fn assemble<D, A, E>(
    game_dir: &str,
    plan: &Vec<PlannedRead>,
    arrivals: Vec<(usize, Result<Parsed<D, A>, ReadProblem<E>>)>,
) -> (assembled: (Vec<ArchiveRead>, Result<(LayerSet<D, A>, LayerSet<D, A>), ArchiveFailure<E>>))
    ensures
        settled_before(arrivals@, plan@.len()) ==> {
            &&& assembled.0@ == steps_through(plan@, plan@.len() as int)
            &&& assembled.1 is Ok
            &&& holds_filed(assembled.1->Ok_0.0, arrivals@, plan@, Origin::Shipped, plan@.len())
            &&& holds_filed(assembled.1->Ok_0.1, arrivals@, plan@, Origin::Mod, plan@.len())
        },
        !settled_before(arrivals@, plan@.len()) ==> exists|f: nat|
            {
                &&& f < plan@.len()
                &&& settled_before(arrivals@, f)
                &&& !#[trigger] settled(arrivals@, f)
                &&& assembled.0@ == steps_through(plan@, f as int + 1)
                &&& assembled.1 is Err
                &&& assembled.1->Err_0.path@ == joined_path(game_dir@, plan@[f as int].relative@)
                &&& assembled.1->Err_0.problem == problem_of(arrival_for(arrivals@, f))
            },
{
    let ghost arr = arrivals@;
    let n = plan.len();
    let mut early: Vec<Option<Result<Parsed<D, A>, ReadProblem<E>>>> = Vec::new();
    let mut i: usize = 0;
    while i < n
        invariant
            i <= n,
            early@.len() == i,
            forall|j: int| 0 <= j < i ==> #[trigger] early@[j] is None,
        decreases n - i,
    {
        early.push(None);
        i = i + 1;
    }
    let mut queue = arrivals;
    let mut shipped: LayerSet<D, A> = LayerSet::empty();
    let mut mods: LayerSet<D, A> = LayerSet::empty();
    let mut reported: Vec<ArchiveRead> = Vec::new();
    proof {
        assert(queue@ == arr.subrange(0, arr.len() as int));
        assert forall|j: int| 0 <= j < n implies #[trigger] early@[j] == held(arr, j, taken_in(arr, 0)) by {}
        assert(reported@ == steps_through(plan@, 0));
    }
    let mut k: usize = 0;
    while k < n
        invariant
            n == plan@.len(),
            k <= n,
            early@.len() == n,
            0 <= taken_in(arr, k as nat) <= arr.len(),
            arr == arrivals@,
            queue@ == arr.subrange(taken_in(arr, k as nat), arr.len() as int),
            forall|j: int| k <= j < n ==> #[trigger] early@[j] == held(arr, j, taken_in(arr, k as nat)),
            reported@ == steps_through(plan@, k as int),
            settled_before(arr, k as nat),
            holds_filed(shipped, arr, plan@, Origin::Shipped, k as nat),
            holds_filed(mods, arr, plan@, Origin::Mod, k as nat),
        decreases n - k,
    {
        let read = &plan[k];
        reported.push(read.step());
        proof {
            assert(plan@.take(k as int + 1) == plan@.take(k as int).push(*read));
            assert(reported@ == steps_through(plan@, k as int + 1));
            lemma_next_for(arr, k as int, taken_in(arr, k as nat));
        }
        let ghost from = taken_in(arr, k as nat);
        let taken = take(k, &mut early, &mut queue, Ghost(arr), Ghost(from));
        proof {
            assert(taken == arrival_for(arr, k as nat));
            assert(taken_in(arr, (k + 1) as nat) == turn_end(arr, k as int, from));
        }
        let parsed = match taken {
            Some(Ok(parsed)) => parsed,
            Some(Err(problem)) => {
                let path = join_path(game_dir, read.relative.as_str());
                proof {
                    assert(!settled_before(arr, n as nat)) by {
                        assert(!settled(arr, k as nat));
                    }
                    assert(settled_before(arr, k as nat));
                }
                return (reported, Err(problem.at(path)));
            },
            None => {
                let path = join_path(game_dir, read.relative.as_str());
                proof {
                    assert(!settled_before(arr, n as nat)) by {
                        assert(!settled(arr, k as nat));
                    }
                }
                return (reported, Err(ReadProblem::NoResult.at(path)));
            },
        };
        proof {
            assert(settled(arr, k as nat));
            assert forall|j: nat| j < k + 1 implies #[trigger] settled(arr, j) by {
                if j < k {
                    assert(settled(arr, j));
                }
            }
        }
        match read.origin {
            Origin::Shipped => file_into(&mut shipped, parsed),
            Origin::Mod => file_into(&mut mods, parsed),
        }
        k = k + 1;
    }
    (reported, Ok((shipped, mods)))
}

/// Whatever order the readers deliver in, a plan entry for which
/// exactly one result arrived is filed with that result — whichever
/// turn it arrived on, early or late. So when every entry's result
/// arrives once, the assembly files exactly what a one-at-a-time read
/// would have, in plan order, and its first failure is the first in
/// plan order.
pub proof fn law_the_assembly_ignores_arrival_order<R>(arr: Seq<(usize, R)>, k: nat, at: int)
    requires
        0 <= at < arr.len(),
        arr[at].0 == k,
        forall|q: int| 0 <= q < arr.len() && (#[trigger] arr[q]).0 == k ==> q == at,
    ensures
        arrival_for(arr, k) == Some(arr[at].1),
{
    lemma_taken_in_bounded(arr, k);
    let from = taken_in(arr, k);
    lemma_last_for(arr, k as int, from);
    lemma_next_for(arr, k as int, from);
    if last_for(arr, k as int, from) < 0 {
        if at < from {
            assert(arr[at].0 != k);
        }
        if next_for(arr, k as int, from) > at {
            assert(arr[at].0 != k);
        }
    }
}

/// Two deliveries that each bring every plan entry's result once, the
/// same result for the same entry, are filed alike: the order they
/// came in makes no difference.
pub proof fn law_two_arrival_orders_file_alike<R>(first: Seq<(usize, R)>, second: Seq<(usize, R)>, k: nat, p: int, q: int)
    requires
        0 <= p < first.len(),
        0 <= q < second.len(),
        first[p].0 == k,
        second[q].0 == k,
        first[p].1 == second[q].1,
        forall|i: int| 0 <= i < first.len() && (#[trigger] first[i]).0 == k ==> i == p,
        forall|i: int| 0 <= i < second.len() && (#[trigger] second[i]).0 == k ==> i == q,
    ensures
        arrival_for(first, k) == arrival_for(second, k),
{
    law_the_assembly_ignores_arrival_order(first, k, p);
    law_the_assembly_ignores_arrival_order(second, k, q);
}

proof fn lemma_taken_in_bounded<R>(arr: Seq<(usize, R)>, k: nat)
    ensures
        0 <= taken_in(arr, k) <= arr.len(),
    decreases k,
{
    if k > 0 {
        lemma_taken_in_bounded(arr, (k - 1) as nat);
        lemma_next_for(arr, k - 1, taken_in(arr, (k - 1) as nat));
    }
}

/// The code of `c` with an ASCII capital lowered.
pub open spec fn ascii_lower(c: char) -> u32 {
    if 'A' <= c && c <= 'Z' {
        ((c as u32) + 32) as u32
    } else {
        c as u32
    }
}

/// Whether two names are the same up to ASCII case.
pub open spec fn same_name(a: Seq<char>, b: Seq<char>) -> bool {
    a.len() == b.len() && forall|i: int| 0 <= i < a.len() ==> ascii_lower(#[trigger] a[i]) == ascii_lower(b[i])
}

fn lower(c: char) -> (l: u32)
    ensures
        l == ascii_lower(c),
{
    if 'A' <= c && c <= 'Z' {
        c as u32 + 32
    } else {
        c as u32
    }
}

fn names_match(a: &str, b: &str) -> (same: bool)
    ensures
        same == same_name(a@, b@),
{
    let n = a.unicode_len();
    if n != b.unicode_len() {
        return false;
    }
    let mut i: usize = 0;
    while i < n
        invariant
            n == a@.len(),
            n == b@.len(),
            i <= n,
            forall|j: int| 0 <= j < i ==> ascii_lower(#[trigger] a@[j]) == ascii_lower(b@[j]),
        decreases n - i,
    {
        if lower(a.get_char(i)) != lower(b.get_char(i)) {
            return false;
        }
        i = i + 1;
    }
    true
}

/// The file named `archive` among the `names` of a layer's resources
/// folder — the first that matches up to ASCII case, so a
/// case-sensitive mount finds an archive however the install spells
/// it — as a path under `resources`; `None` when none matches.
pub fn find_archive(resources: &str, names: &Vec<String>, archive: &str) -> (found: Option<String>)
    ensures
        match found {
            Some(path) => exists|k: int|
                {
                    &&& 0 <= k < names@.len()
                    &&& same_name((#[trigger] names@[k])@, archive@)
                    &&& forall|j: int| 0 <= j < k ==> !same_name((#[trigger] names@[j])@, archive@)
                    &&& path@ == joined_path(resources@, names@[k]@)
                },
            None => forall|j: int| 0 <= j < names@.len() ==> !same_name((#[trigger] names@[j])@, archive@),
        },
{
    let mut k: usize = 0;
    while k < names.len()
        invariant
            k <= names@.len(),
            forall|j: int| 0 <= j < k ==> !same_name((#[trigger] names@[j])@, archive@),
        decreases names.len() - k,
    {
        if names_match(names[k].as_str(), archive) {
            return Some(join_path(resources, names[k].as_str()));
        }
        k = k + 1;
    }
    None
}

} // verus!
