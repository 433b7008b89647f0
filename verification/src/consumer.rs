//! The background consumer of the command channel, as a state machine. The
//! caller owns the loop and the channel: it blocks on the channel, hands each
//! outcome of a read to [`receive`], and calls [`dispatch`] with the store
//! while it holds the store's lock. The machine has no final state.

use crate::codec::{decode, decoded, encodable, encoded, theorem_round_trip};
use crate::command::{Command, CommandView};
use crate::processor::{applied, execute_command, is_effect_of, Effect};
use crate::store::Store;
use vstd::prelude::*;

verus! {

/// How a blocking read of the channel ended.
#[derive(Debug, PartialEq, Eq)]
pub enum ChannelEvent {
    /// One whole payload arrived.
    Payload(Vec<u8>),
    /// The read failed. The next read may succeed.
    ReadError,
}

/// Something for the log. The consumer goes on after each of them.
#[derive(Debug, Clone, Copy, PartialEq, Eq)]
pub enum Notice {
    /// The channel could not be read.
    ReadFailed,
    /// A payload held no command.
    DecodeFailed,
}

/// The two states of the consumer.
#[derive(Debug, PartialEq, Eq)]
pub enum ConsumerState {
    /// Blocked on the channel.
    WaitingForMessage,
    /// A command has been decoded and is on its way to the store.
    Dispatching(Command),
}

/// The mapping after the consumer has seen one payload: a payload that holds
/// a command applies it, any other payload changes nothing.
pub open spec fn consumed(
    mapping: Map<Seq<char>, Seq<char>>,
    payload: Seq<u8>,
) -> Map<Seq<char>, Seq<char>> {
    match decoded(payload) {
        Some(command) => applied(mapping, command),
        None => mapping,
    }
}

/// The step out of `WaitingForMessage`. A payload that holds a command leads
/// to `Dispatching`; a malformed payload and a failed read lead back to
/// `WaitingForMessage`, with a notice for the log.
pub fn receive(event: ChannelEvent) -> (next: (ConsumerState, Option<Notice>))
    ensures
        match event {
            ChannelEvent::Payload(bytes) => match decoded(bytes@) {
                Some(command) => next.0 matches ConsumerState::Dispatching(c) && c@ == command
                    && next.1 is None,
                None => next.0 is WaitingForMessage && next.1 == Some(Notice::DecodeFailed),
            },
            ChannelEvent::ReadError => next.0 is WaitingForMessage && next.1 == Some(
                Notice::ReadFailed,
            ),
        },
{
    match event {
        ChannelEvent::Payload(bytes) => match decode(bytes.as_slice()) {
            Ok(command) => (ConsumerState::Dispatching(command), None),
            Err(_) => (ConsumerState::WaitingForMessage, Some(Notice::DecodeFailed)),
        },
        ChannelEvent::ReadError => (ConsumerState::WaitingForMessage, Some(Notice::ReadFailed)),
    }
}

/// The step back to `WaitingForMessage`: the command that was on its way is
/// applied to the store. Where none was, the store stays as it is.
pub fn dispatch(state: ConsumerState, store: &mut Store) -> (next: (ConsumerState, Effect))
    ensures
        next.0 is WaitingForMessage,
        match state {
            ConsumerState::Dispatching(command) => final(store)@ == applied(
                old(store)@,
                command@,
            ) && is_effect_of(next.1, command@, final(store)@),
            ConsumerState::WaitingForMessage => final(store)@ == old(store)@ && next.1 is Done,
        },
{
    match state {
        ConsumerState::Dispatching(command) => {
            let effect = execute_command(command, store);
            (ConsumerState::WaitingForMessage, effect)
        },
        ConsumerState::WaitingForMessage => (ConsumerState::WaitingForMessage, Effect::Done),
    }
}

/// One whole turn of the consumer, from `WaitingForMessage` and back: what
/// the read brought is received and, where it held a command, dispatched.
pub fn consume(event: ChannelEvent, store: &mut Store) -> (outcome: (Option<Notice>, Effect))
    ensures
        match event {
            ChannelEvent::Payload(bytes) => final(store)@ == consumed(old(store)@, bytes@)
                && match decoded(bytes@) {
                Some(command) => outcome.0 is None && is_effect_of(
                    outcome.1,
                    command,
                    final(store)@,
                ),
                None => outcome.0 == Some(Notice::DecodeFailed) && outcome.1 is Done,
            },
            ChannelEvent::ReadError => final(store)@ == old(store)@ && outcome.0 == Some(
                Notice::ReadFailed,
            ) && outcome.1 is Done,
        },
{
    let (state, notice) = receive(event);
    let (_, effect) = dispatch(state, store);
    (notice, effect)
}

/// A malformed payload does not stop the consumer: it changes nothing, and
/// the well-formed payload that follows it is applied as if it had come
/// alone.
pub proof fn law_malformed_payload_is_skipped(
    mapping: Map<Seq<char>, Seq<char>>,
    malformed: Seq<u8>,
    command: CommandView,
)
    requires
        decoded(malformed) is None,
        encodable(command),
    ensures
        consumed(mapping, malformed) == mapping,
        consumed(consumed(mapping, malformed), encoded(command)) == applied(mapping, command),
{
    theorem_round_trip(command);
}

} // verus!
