//! Standing orders on the tabs: the tabs nominated to empty themselves
//! into the vault or to purge what the vault already holds, resolved
//! from the settings to the containers open right now, and the
//! requests a pane reports when the user toggles a nomination.

use vstd::prelude::*;
use crate::campaign::{Campaign, Realm, campaign_view};
use crate::autosave::Gate;
use crate::documents::{CharacterSlot, Doc};
use crate::drag::TabIndex;
use crate::shell::{Scope, covers_spec};

verus! {

/// A standing order a tab can carry.
#[derive(Clone, Copy, Debug, PartialEq, Eq, Structural)]
pub enum StandingOrder {
    /// Every item of the tab moves into the vault store.
    AutoMove,
    /// Every item the vault store already holds is deleted from the tab.
    PurgeDuplicates,
}

/// A tab as the settings nominate it: a transfer-stash tab of a
/// campaign, or a personal-stash tab of a character named by realm
/// and name.
#[derive(Clone, Debug, PartialEq, Eq)]
pub enum AutoMoveTab {
    TransferStash { campaign: Campaign, tab: TabIndex },
    CharacterStash { realm: Realm, name: String, tab: TabIndex },
}

/// What a toggle on a tab's header asked for: the tab nominated for an
/// order, or withdrawn from it.
#[derive(Clone, Debug, PartialEq, Eq)]
pub enum OrderRequest {
    Nominate { order: StandingOrder, tab: AutoMoveTab },
    Withdraw { order: StandingOrder, tab: AutoMoveTab },
}

/// A nominated tab among the documents open now.
#[derive(Clone, Copy, Debug, PartialEq, Eq, Structural)]
pub enum AutoMoveTarget {
    TransferStash(TabIndex),
    CharacterStash { character: CharacterSlot, tab: TabIndex },
}

impl AutoMoveTarget {
    /// The document the tab lives in.
    pub fn doc(self) -> (doc: Doc)
        ensures
            doc == match self {
                AutoMoveTarget::TransferStash(_) => Doc::Stash,
                AutoMoveTarget::CharacterStash { character, .. } => Doc::Character(character),
            },
    {
        match self {
            AutoMoveTarget::TransferStash(_) => Doc::Stash,
            AutoMoveTarget::CharacterStash { character, .. } => Doc::Character(character),
        }
    }
}

/// An open character as a nomination names it.
#[derive(Clone, Copy, Debug, PartialEq, Eq)]
pub struct OpenName<'a> {
    pub slot: CharacterSlot,
    pub realm: Realm,
    pub name: &'a str,
}

/// The readable characters among `characters` (each the realm and
/// name of a readable character, `None` for one that could not be
/// read), with the slot each occupies.
pub open spec fn readable(characters: Seq<Option<(Realm, String)>>) -> Seq<(usize, Realm, Seq<char>)>
    decreases characters.len(),
{
    if characters.len() == 0 {
        Seq::empty()
    } else {
        let before = readable(characters.drop_last());
        match characters.last() {
            Some(open) => before.push(((characters.len() - 1) as usize, open.0, open.1@)),
            None => before,
        }
    }
}

/// An open name as a value.
pub open spec fn open_view(open: OpenName) -> (usize, Realm, Seq<char>) {
    (open.slot.0, open.realm, open.name@)
}

/// The readable characters as a nomination names them, with the slot
/// each occupies, in slot order.
pub fn open_names<'a>(characters: &'a Vec<Option<(Realm, String)>>) -> (names: Vec<OpenName<'a>>)
    ensures
        names@.map_values(|open: OpenName| open_view(open)) == readable(characters@),
{
    let mut names: Vec<OpenName<'a>> = Vec::new();
    let mut slot: usize = 0;
    while slot < characters.len()
        invariant
            slot <= characters@.len(),
            names@.map_values(|open: OpenName| open_view(open)) == readable(characters@.take(slot as int)),
        decreases characters.len() - slot,
    {
        let ghost before = names@;
        proof {
            assert(characters@.take(slot as int + 1).drop_last() == characters@.take(slot as int));
        }
        match &characters[slot] {
            Some(open) => {
                names.push(OpenName { slot: CharacterSlot::new(slot), realm: open.0, name: open.1.as_str() });
                proof {
                    assert(names@.map_values(|open: OpenName| open_view(open)) == before.map_values(
                        |open: OpenName| open_view(open),
                    ).push(open_view(names@.last())));
                }
            },
            None => {},
        }
        slot = slot + 1;
    }
    proof {
        assert(characters@.take(characters@.len() as int) == characters@);
    }
    names
}

/// The slot of the first open character of `realm` named `name`.
pub open spec fn first_open(characters: Seq<OpenName>, realm: Realm, name: Seq<char>) -> Option<CharacterSlot>
    decreases characters.len(),
{
    if characters.len() == 0 {
        None
    } else {
        match first_open(characters.drop_last(), realm, name) {
            Some(slot) => Some(slot),
            None => if characters.last().realm == realm && characters.last().name@ == name {
                Some(characters.last().slot)
            } else {
                None
            },
        }
    }
}

/// The target a nomination names among the open documents.
pub open spec fn resolution(nomination: AutoMoveTab, campaign: Campaign, characters: Seq<OpenName>) -> Option<
    AutoMoveTarget,
> {
    match nomination {
        AutoMoveTab::TransferStash { campaign: nominated, tab } => if campaign_view(nominated)
            == campaign_view(campaign) {
            Some(AutoMoveTarget::TransferStash(tab))
        } else {
            None
        },
        AutoMoveTab::CharacterStash { realm, name, tab } => match first_open(characters, realm, name@) {
            Some(character) => Some(AutoMoveTarget::CharacterStash { character, tab }),
            None => None,
        },
    }
}

proof fn lemma_first_open_prefix(characters: Seq<OpenName>, realm: Realm, name: Seq<char>, k: int)
    requires
        0 <= k < characters.len(),
        first_open(characters.take(k), realm, name) is None,
    ensures
        first_open(characters.take(k + 1), realm, name) == if characters[k].realm == realm
            && characters[k].name@ == name {
            Some(characters[k].slot)
        } else {
            None::<CharacterSlot>
        },
{
    assert(characters.take(k + 1).drop_last() == characters.take(k));
}

proof fn lemma_first_open_found(characters: Seq<OpenName>, realm: Realm, name: Seq<char>, k: int)
    requires
        0 <= k <= characters.len(),
        first_open(characters.take(k), realm, name) is Some,
    ensures
        first_open(characters, realm, name) == first_open(characters.take(k), realm, name),
    decreases characters.len() - k,
{
    if k < characters.len() {
        assert(characters.take(k + 1).drop_last() == characters.take(k));
        lemma_first_open_found(characters, realm, name, k + 1);
    } else {
        assert(characters.take(k) == characters);
    }
}

/// The target a nomination names among the open documents: a
/// transfer-stash tab only under its own campaign, a character's tab
/// only while that character — by realm and name, since two realms may
/// each hold one of the same name — is open and readable.
pub fn resolve(nomination: &AutoMoveTab, campaign: &Campaign, characters: &Vec<OpenName>) -> (target: Option<
    AutoMoveTarget,
>)
    ensures
        target == resolution(*nomination, *campaign, characters@),
{
    match nomination {
        AutoMoveTab::TransferStash { campaign: nominated, tab } => {
            if nominated.same_as(campaign) {
                Some(AutoMoveTarget::TransferStash(*tab))
            } else {
                None
            }
        },
        AutoMoveTab::CharacterStash { realm, name, tab } => {
            let mut k: usize = 0;
            while k < characters.len()
                invariant
                    *nomination == (AutoMoveTab::CharacterStash { realm: *realm, name: *name, tab: *tab }),
                    k <= characters@.len(),
                    first_open(characters@.take(k as int), *realm, name@) is None,
                decreases characters.len() - k,
            {
                let open = characters[k];
                proof {
                    lemma_first_open_prefix(characters@, *realm, name@, k as int);
                }
                if open.realm == *realm && str_equal(open.name, name.as_str()) {
                    proof {
                        lemma_first_open_found(characters@, *realm, name@, k as int + 1);
                    }
                    return Some(AutoMoveTarget::CharacterStash { character: open.slot, tab: *tab });
                }
                k = k + 1;
            }
            proof {
                assert(characters@.take(characters@.len() as int) == characters@);
            }
            None
        },
    }
}

/// Whether two texts are the same, character by character.
fn str_equal(a: &str, b: &str) -> (same: bool)
    ensures
        same == (a@ == b@),
{
    let n = a.unicode_len();
    if n != b.unicode_len() {
        return false;
    }
    let mut i: usize = 0;
    while i < n
        invariant
            n == a@.len(),
            n == b@.len(),
            i <= n,
            forall|j: int| 0 <= j < i ==> a@[j] == b@[j],
        decreases n - i,
    {
        if a.get_char(i) != b.get_char(i) {
            return false;
        }
        i = i + 1;
    }
    proof {
        assert(a@ =~= b@);
    }
    true
}

/// Every nomination's target among the open documents, in nomination
/// order, nominations naming nothing open left out.
pub open spec fn resolved(nominations: Seq<AutoMoveTab>, campaign: Campaign, characters: Seq<OpenName>) -> Seq<
    AutoMoveTarget,
>
    decreases nominations.len(),
{
    if nominations.len() == 0 {
        Seq::empty()
    } else {
        let before = resolved(nominations.drop_last(), campaign, characters);
        match resolution(nominations.last(), campaign, characters) {
            Some(target) => before.push(target),
            None => before,
        }
    }
}

/// Every nomination's target among the open documents, in nomination
/// order; nominations naming nothing open are skipped.
pub fn targets(nominations: &Vec<AutoMoveTab>, campaign: &Campaign, characters: &Vec<OpenName>) -> (found: Vec<
    AutoMoveTarget,
>)
    ensures
        found@ == resolved(nominations@, *campaign, characters@),
{
    let mut found: Vec<AutoMoveTarget> = Vec::new();
    let mut k: usize = 0;
    while k < nominations.len()
        invariant
            k <= nominations@.len(),
            found@ == resolved(nominations@.take(k as int), *campaign, characters@),
        decreases nominations.len() - k,
    {
        proof {
            assert(nominations@.take(k as int + 1).drop_last() == nominations@.take(k as int));
        }
        match resolve(&nominations[k], campaign, characters) {
            Some(target) => found.push(target),
            None => {},
        }
        k = k + 1;
    }
    proof {
        assert(nominations@.take(nominations@.len() as int) == nominations@);
    }
    found
}

/// The document a target's tab lives in.
pub open spec fn target_doc(target: AutoMoveTarget) -> Doc {
    match target {
        AutoMoveTarget::TransferStash(_) => Doc::Stash,
        AutoMoveTarget::CharacterStash { character, .. } => Doc::Character(character),
    }
}

/// The targets whose documents `scope` covers, in their order.
pub open spec fn in_scope(targets: Seq<AutoMoveTarget>, scope: Scope) -> Seq<AutoMoveTarget>
    decreases targets.len(),
{
    if targets.len() == 0 {
        Seq::empty()
    } else {
        let before = in_scope(targets.drop_last(), scope);
        if covers_spec(scope, target_doc(targets.last())) {
            before.push(targets.last())
        } else {
            before
        }
    }
}

/// The open tabs nominated for an order (`nominations`, as the
/// settings list them) that `scope` covers, in nomination order.
pub fn order_targets(
    nominations: &Vec<AutoMoveTab>,
    campaign: &Campaign,
    characters: &Vec<OpenName>,
    scope: Scope,
) -> (found: Vec<AutoMoveTarget>)
    ensures
        found@ == in_scope(resolved(nominations@, *campaign, characters@), scope),
{
    let all = targets(nominations, campaign, characters);
    let mut found: Vec<AutoMoveTarget> = Vec::new();
    let mut k: usize = 0;
    while k < all.len()
        invariant
            k <= all@.len(),
            found@ == in_scope(all@.take(k as int), scope),
        decreases all.len() - k,
    {
        proof {
            assert(all@.take(k as int + 1).drop_last() == all@.take(k as int));
        }
        let target = all[k];
        if scope.covers(target.doc()) {
            found.push(target);
        }
        k = k + 1;
    }
    proof {
        assert(all@.take(all@.len() as int) == all@);
    }
    found
}

/// One piece of the work the standing orders ask for.
#[derive(Clone, Copy, Debug, PartialEq, Eq, Structural)]
pub enum Chore {
    /// Carry out `order` on the nominated tab.
    Carry { order: StandingOrder, target: AutoMoveTarget },
    /// Sync the component storage with the characters.
    SyncReagents,
    /// Sync the blueprint list with the characters.
    SyncBlueprints,
}

/// `order` carried out on each of `targets`, in their order.
pub open spec fn carried(order: StandingOrder, targets: Seq<AutoMoveTarget>) -> Seq<Chore> {
    targets.map_values(|target: AutoMoveTarget| Chore::Carry { order, target })
}

/// The work the standing orders ask for within `scope`: nothing while
/// an external change awaits the user (`gate` suspended); otherwise
/// every covered tab nominated for auto-move is emptied into the
/// store, then every covered tab nominated for the purge loses what the
/// store holds, then the component storage and the blueprint list are
/// synced where `scope` covers them.
pub open spec fn standing_work_spec(
    gate: Gate,
    scope: Scope,
    auto_moves: Seq<AutoMoveTab>,
    purges: Seq<AutoMoveTab>,
    campaign: Campaign,
    characters: Seq<OpenName>,
) -> Seq<Chore> {
    if gate == Gate::Suspended {
        Seq::empty()
    } else {
        carried(StandingOrder::AutoMove, in_scope(resolved(auto_moves, campaign, characters), scope))
            + carried(StandingOrder::PurgeDuplicates, in_scope(resolved(purges, campaign, characters), scope))
            + (if covers_spec(scope, Doc::Reagents) { seq![Chore::SyncReagents] } else { Seq::empty() })
            + (if covers_spec(scope, Doc::Blueprints) { seq![Chore::SyncBlueprints] } else { Seq::empty() })
    }
}

/// Appends `order` carried out on each of `targets` to `work`.
fn push_carried(work: &mut Vec<Chore>, order: StandingOrder, targets: &Vec<AutoMoveTarget>)
    ensures
        final(work)@ == old(work)@ + carried(order, targets@),
{
    let mut k: usize = 0;
    while k < targets.len()
        invariant
            k <= targets@.len(),
            work@ == old(work)@ + carried(order, targets@.take(k as int)),
        decreases targets.len() - k,
    {
        let ghost before = work@;
        work.push(Chore::Carry { order, target: targets[k] });
        proof {
            assert(carried(order, targets@.take(k as int + 1)) == carried(order, targets@.take(k as int)).push(
                Chore::Carry { order, target: targets@[k as int] },
            ));
        }
        k = k + 1;
    }
    proof {
        assert(targets@.take(targets@.len() as int) == targets@);
    }
}

/// The work the standing orders ask for within `scope`, in the order
/// it is carried out (see [`standing_work_spec`]): `auto_moves` and
/// `purges` are the tabs the settings nominate for each order.
pub fn standing_work(
    gate: Gate,
    scope: Scope,
    auto_moves: &Vec<AutoMoveTab>,
    purges: &Vec<AutoMoveTab>,
    campaign: &Campaign,
    characters: &Vec<OpenName>,
) -> (work: Vec<Chore>)
    ensures
        work@ == standing_work_spec(gate, scope, auto_moves@, purges@, *campaign, characters@),
        gate == Gate::Suspended ==> work@.len() == 0,
{
    let mut work: Vec<Chore> = Vec::new();
    if gate == Gate::Suspended {
        return work;
    }
    let moving = order_targets(auto_moves, campaign, characters, scope);
    push_carried(&mut work, StandingOrder::AutoMove, &moving);
    let purging = order_targets(purges, campaign, characters, scope);
    push_carried(&mut work, StandingOrder::PurgeDuplicates, &purging);
    let ghost orders = work@;
    if scope.covers(Doc::Reagents) {
        work.push(Chore::SyncReagents);
    }
    let ghost synced = work@;
    if scope.covers(Doc::Blueprints) {
        work.push(Chore::SyncBlueprints);
    }
    proof {
        assert(work@ == orders + (if covers_spec(scope, Doc::Reagents) {
            seq![Chore::SyncReagents]
        } else {
            Seq::empty()
        }) + (if covers_spec(scope, Doc::Blueprints) { seq![Chore::SyncBlueprints] } else { Seq::empty() }));
    }
    work
}

/// What a standing-order toggle on a tab's header asks for once the
/// user has set it to `nominated`.
pub fn order_request(order: StandingOrder, tab: AutoMoveTab, nominated: bool) -> (request: OrderRequest)
    ensures
        request == (if nominated {
            OrderRequest::Nominate { order, tab }
        } else {
            OrderRequest::Withdraw { order, tab }
        }),
{
    if nominated {
        OrderRequest::Nominate { order, tab }
    } else {
        OrderRequest::Withdraw { order, tab }
    }
}

/// The toggle's label for an order.
pub open spec fn toggle_label(order: StandingOrder) -> Seq<char> {
    match order {
        StandingOrder::AutoMove => "Auto-move to vault"@,
        StandingOrder::PurgeDuplicates => "Purge duplicates"@,
    }
}

/// What the auto-move toggle's hover text explains.
pub open spec fn auto_move_why() -> Seq<char> {
    "Every item in this tab is moved into the vault store whenever the app loads or reloads the file — after the game writes it, too — leaving the tab empty. Under the store's \"Skip duplicates in bulk moves\" an item the store already holds under the same record and roll seed is left in place; stacks are never treated as duplicates."@
}

/// What the purge toggle's hover text explains.
pub open spec fn purge_why() -> Seq<char> {
    "Whenever the app loads or reloads this tab — after the game writes it, too — every item whose record and roll seed the vault store already holds is deleted from the tab, whatever the store's duplicates setting says. Stacks are never duplicates. The file is backed up once per load before the first write."@
}

/// The toggle for an order on a tab's header: its label and the hover
/// text that says what the order does.
pub fn order_toggle_text(order: StandingOrder) -> (text: (&'static str, &'static str))
    ensures
        text.0@ == toggle_label(order),
        text.1@ == match order {
            StandingOrder::AutoMove => auto_move_why(),
            StandingOrder::PurgeDuplicates => purge_why(),
        },
{
    match order {
        StandingOrder::AutoMove => {
            let text = (
                "Auto-move to vault",
                "Every item in this tab is moved into the vault store whenever the app loads or reloads the file — after the game writes it, too — leaving the tab empty. Under the store's \"Skip duplicates in bulk moves\" an item the store already holds under the same record and roll seed is left in place; stacks are never treated as duplicates.",
            );
            proof {
                reveal_strlit("Auto-move to vault");
                reveal_strlit(
                    "Every item in this tab is moved into the vault store whenever the app loads or reloads the file — after the game writes it, too — leaving the tab empty. Under the store's \"Skip duplicates in bulk moves\" an item the store already holds under the same record and roll seed is left in place; stacks are never treated as duplicates.",
                );
            }
            text
        },
        StandingOrder::PurgeDuplicates => {
            let text = (
                "Purge duplicates",
                "Whenever the app loads or reloads this tab — after the game writes it, too — every item whose record and roll seed the vault store already holds is deleted from the tab, whatever the store's duplicates setting says. Stacks are never duplicates. The file is backed up once per load before the first write.",
            );
            proof {
                reveal_strlit("Purge duplicates");
                reveal_strlit(
                    "Whenever the app loads or reloads this tab — after the game writes it, too — every item whose record and roll seed the vault store already holds is deleted from the tab, whatever the store's duplicates setting says. Stacks are never duplicates. The file is backed up once per load before the first write.",
                );
            }
            text
        },
    }
}

/// What a toggled standing order does right away: a nomination whose
/// tab is open is carried out on it at once, unless an external change
/// awaits the user (`gate` suspended); a withdrawal only changes the
/// settings.
pub open spec fn carried_at_once(
    request: OrderRequest,
    campaign: Campaign,
    characters: Seq<OpenName>,
    gate: Gate,
) -> Option<Chore> {
    match request {
        OrderRequest::Nominate { order, tab } => match resolution(tab, campaign, characters) {
            Some(target) => if gate == Gate::Open {
                Some(Chore::Carry { order, target })
            } else {
                None
            },
            None => None,
        },
        OrderRequest::Withdraw { .. } => None,
    }
}

/// The work a toggled standing order asks for right away (see
/// [`carried_at_once`]).
pub fn on_request(request: &OrderRequest, campaign: &Campaign, characters: &Vec<OpenName>, gate: Gate) -> (chore:
    Option<Chore>)
    ensures
        chore == carried_at_once(*request, *campaign, characters@, gate),
        gate == Gate::Suspended ==> chore is None,
{
    match request {
        OrderRequest::Nominate { order, tab } => {
            match resolve(tab, campaign, characters) {
                Some(target) => if gate == Gate::Open {
                    Some(Chore::Carry { order: *order, target })
                } else {
                    None
                },
                None => None,
            }
        },
        OrderRequest::Withdraw { .. } => None,
    }
}

/// A nominated tab as the standing-order toasts name it, its character
/// by `name`.
pub open spec fn target_title(target: AutoMoveTarget, name: Option<Seq<char>>) -> Seq<char> {
    match target {
        AutoMoveTarget::TransferStash(tab) => "transfer stash tab "@ + crate::text::decimal(tab.0 as nat + 1),
        AutoMoveTarget::CharacterStash { character, tab } => crate::panes::doc_title(Doc::Character(character), name)
            + " stash tab "@ + crate::text::decimal(tab.0 as nat + 1),
    }
}

/// A nominated tab as the standing-order toasts name it.
pub fn target_label(target: AutoMoveTarget, name: Option<&str>) -> (text: String)
    requires
        match target {
            AutoMoveTarget::TransferStash(tab) => tab.0 < u64::MAX,
            AutoMoveTarget::CharacterStash { character, tab } => tab.0 < u64::MAX && character.0 < usize::MAX,
        },
    ensures
        text@ == target_title(
            target,
            match name {
                Some(n) => Some(n@),
                None => None,
            },
        ),
{
    match target {
        AutoMoveTarget::TransferStash(tab) => {
            let n = crate::text::decimal_text(tab.value() as u64 + 1);
            crate::text::join2("transfer stash tab ", n.as_str())
        },
        AutoMoveTarget::CharacterStash { character, tab } => {
            let n = crate::text::decimal_text(tab.value() as u64 + 1);
            crate::panes::doc_name(Doc::Character(character), name).concat(" stash tab ").concat(n.as_str())
        },
    }
}

} // verus!
