//! The channel codec: a command as one MessagePack payload, and back.
//!
//! `List` and `Persist` travel as a string that holds the variant's name.
//! `Add` and `Remove` travel as a map of one entry, from the variant's name to
//! the array of its fields in order.

use crate::command::{Command, CommandView};
use crate::store::texts;
use crate::text::{lemma_utf8_size, same_text};
use crate::wire::{
    lemma_unpack_packed, lemma_unpacked_is_packable, map_header, packable, packed_str, read_str,
    str_header, unpack_str, write_map_header, write_str,
};
use vstd::prelude::*;
use vstd::utf8::*;

verus! {

/// The header of a map of one entry.
pub const MAP_OF_ONE: u8 = 0x81;

/// The header of an array of one item.
pub const ARRAY_OF_ONE: u8 = 0x91;

/// The header of an array of two items.
pub const ARRAY_OF_TWO: u8 = 0x92;

/// Whether a command has a payload: each of its texts can be packed.
pub open spec fn encodable(command: CommandView) -> bool {
    match command {
        CommandView::Add { key, value } => packable(key) && packable(value),
        CommandView::Remove { key } => packable(key),
        CommandView::List => true,
        CommandView::Persist => true,
    }
}

/// The payload of a command.
pub open spec fn encoded(command: CommandView) -> Seq<u8> {
    match command {
        CommandView::Add { key, value } => seq![MAP_OF_ONE] + packed_str("Add"@) + seq![
            ARRAY_OF_TWO,
        ] + packed_str(key) + packed_str(value),
        CommandView::Remove { key } => seq![MAP_OF_ONE] + packed_str("Remove"@) + seq![
            ARRAY_OF_ONE,
        ] + packed_str(key),
        CommandView::List => packed_str("List"@),
        CommandView::Persist => packed_str("Persist"@),
    }
}

/// The command whose fields are the bytes after the name `Add`: an array of
/// two strings and nothing more.
pub open spec fn decoded_add(body: Seq<u8>) -> Option<CommandView> {
    if body.len() >= 1 && body[0] == ARRAY_OF_TWO {
        match unpack_str(body.skip(1)) {
            Some((key, key_end)) => match unpack_str(body.skip(1 + key_end)) {
                Some((value, value_end)) => if 1 + key_end + value_end == body.len() {
                    Some(CommandView::Add { key, value })
                } else {
                    None
                },
                None => None,
            },
            None => None,
        }
    } else {
        None
    }
}

/// The command whose fields are the bytes after the name `Remove`: an array
/// of one string and nothing more.
pub open spec fn decoded_remove(body: Seq<u8>) -> Option<CommandView> {
    if body.len() >= 1 && body[0] == ARRAY_OF_ONE {
        match unpack_str(body.skip(1)) {
            Some((key, key_end)) => if 1 + key_end == body.len() {
                Some(CommandView::Remove { key })
            } else {
                None
            },
            None => None,
        }
    } else {
        None
    }
}

/// The command that a payload holds, if it has the shape of one.
pub open spec fn decoded(bytes: Seq<u8>) -> Option<CommandView> {
    if bytes.len() >= 1 && bytes[0] == MAP_OF_ONE {
        match unpack_str(bytes.skip(1)) {
            Some((name, name_end)) => if name == "Add"@ {
                decoded_add(bytes.skip(1 + name_end))
            } else if name == "Remove"@ {
                decoded_remove(bytes.skip(1 + name_end))
            } else {
                None
            },
            None => None,
        }
    } else {
        match unpack_str(bytes) {
            Some((name, name_end)) => if name_end != bytes.len() {
                None
            } else if name == "List"@ {
                Some(CommandView::List)
            } else if name == "Persist"@ {
                Some(CommandView::Persist)
            } else {
                None
            },
            None => None,
        }
    }
}

/// The four variant names can be packed, and no two of them are the same.
proof fn lemma_variant_names()
    ensures
        packable("Add"@),
        packable("Remove"@),
        packable("List"@),
        packable("Persist"@),
        "Add"@ != "Remove"@,
        "Add"@ != "List"@,
        "Add"@ != "Persist"@,
        "Remove"@ != "List"@,
        "Remove"@ != "Persist"@,
        "List"@ != "Persist"@,
{
    reveal_strlit("Add");
    reveal_strlit("Remove");
    reveal_strlit("List");
    reveal_strlit("Persist");
    lemma_utf8_size("Add"@);
    lemma_utf8_size("Remove"@);
    lemma_utf8_size("List"@);
    lemma_utf8_size("Persist"@);
}

/// No packed string starts with the header of a map of one entry.
proof fn lemma_packed_str_first(text: Seq<char>)
    ensures
        packed_str(text).len() >= 1,
        packed_str(text)[0] != MAP_OF_ONE,
{
    let size = encode_utf8(text).len();
    assert(packed_str(text)[0] == str_header(size)[0]);
}

/// Round trip: the payload of a command is decoded as that command.
pub proof fn theorem_round_trip(command: CommandView)
    requires
        encodable(command),
    ensures
        decoded(encoded(command)) == Some(command),
{
    lemma_variant_names();
    let bytes = encoded(command);
    let empty = Seq::<u8>::empty();
    match command {
        CommandView::Add { key, value } => {
            let name = packed_str("Add"@);
            let body = seq![ARRAY_OF_TWO] + packed_str(key) + packed_str(value);
            assert(bytes[0] == MAP_OF_ONE);
            assert(bytes.skip(1) =~= name + body);
            lemma_unpack_packed("Add"@, body);
            assert(bytes.skip(1 + name.len() as int) =~= body);
            assert(body[0] == ARRAY_OF_TWO);
            assert(body.skip(1) =~= packed_str(key) + packed_str(value));
            lemma_unpack_packed(key, packed_str(value));
            assert(body.skip(1 + packed_str(key).len() as int) =~= packed_str(value) + empty);
            lemma_unpack_packed(value, empty);
        },
        CommandView::Remove { key } => {
            let name = packed_str("Remove"@);
            let body = seq![ARRAY_OF_ONE] + packed_str(key);
            assert(bytes[0] == MAP_OF_ONE);
            assert(bytes.skip(1) =~= name + body);
            lemma_unpack_packed("Remove"@, body);
            assert(bytes.skip(1 + name.len() as int) =~= body);
            assert(body[0] == ARRAY_OF_ONE);
            assert(body.skip(1) =~= packed_str(key) + empty);
            lemma_unpack_packed(key, empty);
        },
        CommandView::List => {
            lemma_packed_str_first("List"@);
            assert(bytes =~= packed_str("List"@) + empty);
            lemma_unpack_packed("List"@, empty);
        },
        CommandView::Persist => {
            lemma_packed_str_first("Persist"@);
            assert(bytes =~= packed_str("Persist"@) + empty);
            lemma_unpack_packed("Persist"@, empty);
        },
    }
}

/// Every command that a payload holds has a payload of its own: what was
/// decoded can be encoded.
pub proof fn law_decoded_is_encodable(bytes: Seq<u8>)
    requires
        decoded(bytes) is Some,
    ensures
        encodable(decoded(bytes).unwrap()),
{
    if bytes[0] == MAP_OF_ONE {
        let (name, name_end) = unpack_str(bytes.skip(1)).unwrap();
        let body = bytes.skip(1 + name_end);
        lemma_unpacked_is_packable(body.skip(1));
        if name == "Add"@ {
            let (key, key_end) = unpack_str(body.skip(1)).unwrap();
            lemma_unpacked_is_packable(body.skip(1 + key_end));
        }
    }
}

/// Why a value has no packed form: one of its texts has 4 GiB or more of
/// UTF-8, or it has 2^32 or more entries.
#[derive(Debug, Clone, Copy, PartialEq, Eq)]
pub struct TooLarge;

/// Why a payload holds no command: its bytes do not have the shape of any
/// variant.
#[derive(Debug, Clone, Copy, PartialEq, Eq)]
pub struct DecodeError;

impl DecodeError {
    /// The error in words, for a log line.
    pub fn message(&self) -> (words: String)
        ensures
            words@ == "payload does not have the shape of any command"@,
    {
        "payload does not have the shape of any command".to_owned()
    }
}

/// Encodes a command as the payload that the channel carries.
pub fn encode(command: &Command) -> (payload: Result<Vec<u8>, TooLarge>)
    ensures
        payload is Ok <==> encodable(command@),
        payload matches Ok(bytes) ==> bytes@ == encoded(command@),
{
    proof {
        lemma_variant_names();
    }
    let mut out: Vec<u8> = Vec::new();
    match command {
        Command::Add { key, value } => {
            out.push(MAP_OF_ONE);
            write_str(&mut out, "Add");
            out.push(ARRAY_OF_TWO);
            if !write_str(&mut out, key.as_str()) {
                return Err(TooLarge);
            }
            if !write_str(&mut out, value.as_str()) {
                return Err(TooLarge);
            }
            assert(out@ =~= encoded(command@));
        },
        Command::Remove { key } => {
            out.push(MAP_OF_ONE);
            write_str(&mut out, "Remove");
            out.push(ARRAY_OF_ONE);
            if !write_str(&mut out, key.as_str()) {
                return Err(TooLarge);
            }
            assert(out@ =~= encoded(command@));
        },
        Command::List => {
            write_str(&mut out, "List");
            assert(out@ =~= encoded(command@));
        },
        Command::Persist => {
            write_str(&mut out, "Persist");
            assert(out@ =~= encoded(command@));
        },
    }
    Ok(out)
}

/// Reads the fields of an `Add` from the bytes that start at `at`.
fn decode_add(bytes: &[u8], at: usize) -> (command: Option<Command>)
    requires
        at <= bytes@.len(),
    ensures
        command is Some <==> decoded_add(bytes@.skip(at as int)) is Some,
        command matches Some(c) ==> decoded_add(bytes@.skip(at as int)) == Some(c@),
{
    let ghost body = bytes@.skip(at as int);
    if at == bytes.len() || bytes[at] != ARRAY_OF_TWO {
        return None;
    }
    assert(body[0] == bytes@[at as int]);
    assert(body.skip(1) =~= bytes@.skip(at + 1));
    match read_str(bytes, at + 1) {
        Some((key, key_end)) => {
            assert(body.skip(1 + (key_end - (at + 1))) =~= bytes@.skip(key_end as int));
            match read_str(bytes, key_end) {
                Some((value, value_end)) => {
                    if value_end == bytes.len() {
                        Some(Command::Add { key: key.to_owned(), value: value.to_owned() })
                    } else {
                        None
                    }
                },
                None => None,
            }
        },
        None => None,
    }
}

/// Reads the field of a `Remove` from the bytes that start at `at`.
fn decode_remove(bytes: &[u8], at: usize) -> (command: Option<Command>)
    requires
        at <= bytes@.len(),
    ensures
        command is Some <==> decoded_remove(bytes@.skip(at as int)) is Some,
        command matches Some(c) ==> decoded_remove(bytes@.skip(at as int)) == Some(c@),
{
    let ghost body = bytes@.skip(at as int);
    if at == bytes.len() || bytes[at] != ARRAY_OF_ONE {
        return None;
    }
    assert(body[0] == bytes@[at as int]);
    assert(body.skip(1) =~= bytes@.skip(at + 1));
    match read_str(bytes, at + 1) {
        Some((key, key_end)) => {
            if key_end == bytes.len() {
                Some(Command::Remove { key: key.to_owned() })
            } else {
                None
            }
        },
        None => None,
    }
}

/// Decodes one payload of the channel. The payload has to be one whole
/// command: bytes that follow a command make it malformed.
pub fn decode(bytes: &[u8]) -> (command: Result<Command, DecodeError>)
    ensures
        command is Ok <==> decoded(bytes@) is Some,
        command matches Ok(c) ==> decoded(bytes@) == Some(c@),
{
    let found = if bytes.len() >= 1 && bytes[0] == MAP_OF_ONE {
        match read_str(bytes, 1) {
            Some((name, name_end)) => {
                assert(bytes@.skip(1 + (name_end - 1)) =~= bytes@.skip(name_end as int));
                if same_text(name, "Add") {
                    decode_add(bytes, name_end)
                } else if same_text(name, "Remove") {
                    decode_remove(bytes, name_end)
                } else {
                    None
                }
            },
            None => None,
        }
    } else {
        assert(bytes@.skip(0) =~= bytes@);
        match read_str(bytes, 0) {
            Some((name, name_end)) => {
                if name_end != bytes.len() {
                    None
                } else if same_text(name, "List") {
                    Some(Command::List)
                } else if same_text(name, "Persist") {
                    Some(Command::Persist)
                } else {
                    None
                }
            },
            None => None,
        }
    };
    match found {
        Some(c) => Ok(c),
        None => Err(DecodeError),
    }
}

/// The packed pairs of a listing, one after the other: each key, followed by
/// its URL.
pub open spec fn packed_entries(items: Seq<(Seq<char>, Seq<char>)>) -> Seq<u8>
    decreases items.len(),
{
    if items.len() == 0 {
        Seq::empty()
    } else {
        packed_entries(items.drop_last()) + packed_str(items.last().0) + packed_str(
            items.last().1,
        )
    }
}

/// Whether a listing has an image: a map header can state its length, and
/// each of its texts can be packed.
pub open spec fn snapshot_encodable(items: Seq<(Seq<char>, Seq<char>)>) -> bool {
    &&& items.len() <= 0xffff_ffff
    &&& forall|i: int|
        0 <= i < items.len() ==> packable((#[trigger] items[i]).0) && packable(items[i].1)
}

/// The image of a listing in the durable file: a MessagePack map from key to
/// URL, in the listing's order.
pub open spec fn encoded_snapshot(items: Seq<(Seq<char>, Seq<char>)>) -> Seq<u8> {
    map_header(items.len()) + packed_entries(items)
}

/// Encodes a snapshot as the image that the durable file holds.
pub fn encode_snapshot(snapshot: &Vec<(String, String)>) -> (image: Result<Vec<u8>, TooLarge>)
    ensures
        image is Ok <==> snapshot_encodable(texts(snapshot@)),
        image matches Ok(bytes) ==> bytes@ == encoded_snapshot(texts(snapshot@)),
{
    let ghost items = texts(snapshot@);
    if snapshot.len() > 0xffff_ffff {
        return Err(TooLarge);
    }
    let mut out: Vec<u8> = Vec::new();
    write_map_header(&mut out, snapshot.len() as u32);
    let mut i: usize = 0;
    while i < snapshot.len()
        invariant
            i <= snapshot@.len(),
            items == texts(snapshot@),
            out@ == map_header(items.len()) + packed_entries(items.subrange(0, i as int)),
            forall|j: int| 0 <= j < i ==> packable((#[trigger] items[j]).0) && packable(items[j].1),
        decreases snapshot@.len() - i,
    {
        let ghost before = items.subrange(0, i as int);
        let ghost upto = items.subrange(0, i as int + 1);
        assert(upto.drop_last() =~= before);
        assert(upto.last() == items[i as int]);
        if !write_str(&mut out, snapshot[i].0.as_str()) {
            return Err(TooLarge);
        }
        if !write_str(&mut out, snapshot[i].1.as_str()) {
            return Err(TooLarge);
        }
        assert(out@ =~= map_header(items.len()) + packed_entries(upto));
        i += 1;
    }
    assert(items.subrange(0, i as int) =~= items);
    Ok(out)
}

} // verus!
