//! The command processor: what a command does to the store.

use crate::command::{Command, CommandView};
use crate::store::{is_listing, lemma_listing_shows, seed, texts, Store, SEED_KEY, SEED_URL};
use vstd::prelude::*;

verus! {

/// What is left to do once a command has been applied to the store. None of
/// it needs the store any more.
#[derive(Debug, PartialEq, Eq)]
pub enum Effect {
    /// Nothing: the command only changed the store.
    Done,
    /// Hand this snapshot back to whoever asked for the listing.
    Listing(Vec<(String, String)>),
    /// Write this snapshot to the durable file, over what the file held.
    Persist(Vec<(String, String)>),
}

/// The mapping after one command.
pub open spec fn applied(
    mapping: Map<Seq<char>, Seq<char>>,
    command: CommandView,
) -> Map<Seq<char>, Seq<char>> {
    match command {
        CommandView::Add { key, value } => mapping.insert(key, value),
        CommandView::Remove { key } => mapping.remove(key),
        CommandView::List => mapping,
        CommandView::Persist => mapping,
    }
}

/// The mapping after a sequence of commands, applied one after the other.
pub open spec fn applied_all(
    mapping: Map<Seq<char>, Seq<char>>,
    commands: Seq<CommandView>,
) -> Map<Seq<char>, Seq<char>>
    decreases commands.len(),
{
    if commands.len() == 0 {
        mapping
    } else {
        applied(applied_all(mapping, commands.drop_last()), commands.last())
    }
}

/// Whether a command changes the store: `List` and `Persist` only read it.
pub open spec fn is_mutation(command: CommandView) -> bool {
    command is Add || command is Remove
}

/// Whether a command leaves the entry from `key` to `url` as it is.
pub open spec fn spares(command: CommandView, key: Seq<char>, url: Seq<char>) -> bool {
    match command {
        CommandView::Add { key: added, value } => added != key || value == url,
        CommandView::Remove { key: removed } => removed != key,
        CommandView::List => true,
        CommandView::Persist => true,
    }
}

/// Whether `effect` is what the command leaves to do, on a store that holds
/// `mapping` once the command has been applied.
pub open spec fn is_effect_of(
    effect: Effect,
    command: CommandView,
    mapping: Map<Seq<char>, Seq<char>>,
) -> bool {
    match command {
        CommandView::Add { .. } => effect is Done,
        CommandView::Remove { .. } => effect is Done,
        CommandView::List => effect matches Effect::Listing(snapshot) && is_listing(
            texts(snapshot@),
            mapping,
        ),
        CommandView::Persist => effect matches Effect::Persist(snapshot) && is_listing(
            texts(snapshot@),
            mapping,
        ),
    }
}

/// Applies a command to the store. `Add` and `Remove` change it; `List` and
/// `Persist` leave it as it is and hand out a snapshot.
pub fn execute_command(command: Command, store: &mut Store) -> (effect: Effect)
    ensures
        final(store)@ == applied(old(store)@, command@),
        is_effect_of(effect, command@, final(store)@),
{
    match command {
        Command::Add { key, value } => {
            store.insert(key, value);
            Effect::Done
        },
        Command::Remove { key } => {
            store.remove(key.as_str());
            Effect::Done
        },
        Command::List => Effect::Listing(store.snapshot()),
        Command::Persist => Effect::Persist(store.snapshot()),
    }
}

/// One more command at the end of a sequence is applied last.
proof fn lemma_applied_all_push(
    mapping: Map<Seq<char>, Seq<char>>,
    commands: Seq<CommandView>,
    command: CommandView,
)
    ensures
        applied_all(mapping, commands.push(command)) == applied(
            applied_all(mapping, commands),
            command,
        ),
{
    assert(commands.push(command).drop_last() =~= commands);
}

/// The store after a sequence of commands holds the net effect of the
/// mutations among them, in their order: the lookups that stand between them
/// change nothing.
pub proof fn law_lookups_change_nothing(
    mapping: Map<Seq<char>, Seq<char>>,
    commands: Seq<CommandView>,
)
    ensures
        applied_all(mapping, commands) == applied_all(
            mapping,
            commands.filter(|command: CommandView| is_mutation(command)),
        ),
    decreases commands.len(),
{
    let mutates = |command: CommandView| is_mutation(command);
    reveal(Seq::filter);
    if commands.len() > 0 {
        let earlier = commands.drop_last();
        law_lookups_change_nothing(mapping, earlier);
        if is_mutation(commands.last()) {
            assert(commands.filter(mutates) == earlier.filter(mutates).push(commands.last()));
            lemma_applied_all_push(mapping, earlier.filter(mutates), commands.last());
        } else {
            assert(commands.filter(mutates) == earlier.filter(mutates));
        }
    }
}

/// A snapshot taken after a sequence of commands lists exactly the net
/// effect of the mutations among them.
pub proof fn law_snapshot_is_net_effect(
    mapping: Map<Seq<char>, Seq<char>>,
    commands: Seq<CommandView>,
    snapshot: Seq<(Seq<char>, Seq<char>)>,
)
    requires
        is_listing(snapshot, applied_all(mapping, commands)),
    ensures
        is_listing(
            snapshot,
            applied_all(mapping, commands.filter(|command: CommandView| is_mutation(command))),
        ),
{
    law_lookups_change_nothing(mapping, commands);
}

/// An entry stays in the store through every sequence of commands that
/// neither removes its key nor stores another URL under it.
pub proof fn law_entry_stays(
    mapping: Map<Seq<char>, Seq<char>>,
    commands: Seq<CommandView>,
    key: Seq<char>,
    url: Seq<char>,
)
    requires
        mapping.contains_pair(key, url),
        forall|i: int| 0 <= i < commands.len() ==> spares(#[trigger] commands[i], key, url),
    ensures
        applied_all(mapping, commands).contains_pair(key, url),
    decreases commands.len(),
{
    if commands.len() > 0 {
        let earlier = commands.drop_last();
        assert forall|i: int| 0 <= i < earlier.len() implies spares(
            #[trigger] earlier[i],
            key,
            url,
        ) by {
            assert(earlier[i] == commands[i]);
        }
        law_entry_stays(mapping, earlier, key, url);
        assert(spares(commands[commands.len() - 1], key, url));
    }
}

/// Every listing of a store that started with the seed shows the seed entry,
/// as long as no command removed the seed key or stored another URL under it.
pub proof fn law_seed_is_listed(
    commands: Seq<CommandView>,
    snapshot: Seq<(Seq<char>, Seq<char>)>,
)
    requires
        forall|i: int|
            0 <= i < commands.len() ==> spares(#[trigger] commands[i], SEED_KEY@, SEED_URL@),
        is_listing(snapshot, applied_all(seed(), commands)),
    ensures
        snapshot.contains((SEED_KEY@, SEED_URL@)),
{
    law_entry_stays(seed(), commands, SEED_KEY@, SEED_URL@);
    lemma_listing_shows(snapshot, applied_all(seed(), commands), SEED_KEY@, SEED_URL@);
}

} // verus!
