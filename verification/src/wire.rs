//! The MessagePack pieces that the channel's payloads and the persisted
//! snapshot are made of: strings with their length headers, and the headers of
//! maps.

use crate::text::utf8_text;
use vstd::prelude::*;
use vstd::utf8::*;

verus! {

/// The header of a string whose UTF-8 form has `size` bytes: the shortest of
/// the four forms that can state the size.
pub open spec fn str_header(size: nat) -> Seq<u8> {
    if size < 32 {
        seq![(0xa0 + size) as u8]
    } else if size < 256 {
        seq![0xd9u8, size as u8]
    } else if size < 65536 {
        seq![0xdau8, (size / 256) as u8, (size % 256) as u8]
    } else {
        seq![
            0xdbu8,
            (size / 16777216) as u8,
            ((size / 65536) % 256) as u8,
            ((size / 256) % 256) as u8,
            (size % 256) as u8,
        ]
    }
}

/// Whether a text can be packed: a header states at most 32 bits of size.
pub open spec fn packable(text: Seq<char>) -> bool {
    encode_utf8(text).len() <= 0xffff_ffff
}

/// A text as a packed string: the header, followed by the UTF-8 bytes.
pub open spec fn packed_str(text: Seq<char>) -> Seq<u8> {
    str_header(encode_utf8(text).len()) + encode_utf8(text)
}

/// What a string header at the start of the bytes states: its own length and
/// the size of the text that follows. Any of the four forms is read, also one
/// that is longer than the size needs.
pub open spec fn str_prefix(bytes: Seq<u8>) -> Option<(int, int)> {
    if bytes.len() >= 1 && 0xa0 <= bytes[0] <= 0xbf {
        Some((1, bytes[0] - 0xa0))
    } else if bytes.len() >= 2 && bytes[0] == 0xd9 {
        Some((2, bytes[1] as int))
    } else if bytes.len() >= 3 && bytes[0] == 0xda {
        Some((3, bytes[1] * 256 + bytes[2]))
    } else if bytes.len() >= 5 && bytes[0] == 0xdb {
        Some((5, bytes[1] * 16777216 + bytes[2] * 65536 + bytes[3] * 256 + bytes[4]))
    } else {
        None
    }
}

/// The text of the packed string at the start of the bytes, with the number
/// of bytes that it takes up. There is none where no string header stands,
/// where the bytes end before the text does, or where the text's bytes are
/// not well-formed UTF-8.
pub open spec fn unpack_str(bytes: Seq<u8>) -> Option<(Seq<char>, int)> {
    match str_prefix(bytes) {
        Some((head, size)) => {
            if head + size <= bytes.len() && valid_utf8(bytes.subrange(head, head + size)) {
                Some((decode_utf8(bytes.subrange(head, head + size)), head + size))
            } else {
                None
            }
        },
        None => None,
    }
}

/// A string header is read back as the size that it was written for.
proof fn lemma_str_header_prefix(size: nat, rest: Seq<u8>)
    requires
        size <= 0xffff_ffff,
    ensures
        str_prefix(str_header(size) + rest) == Some((str_header(size).len() as int, size as int)),
{
    let bytes = str_header(size) + rest;
    if size < 32 {
        assert(bytes[0] == (0xa0 + size) as u8);
    } else if size < 256 {
        assert(bytes[0] == 0xd9u8);
        assert(bytes[1] == size as u8);
    } else if size < 65536 {
        assert(bytes[0] == 0xdau8);
        assert(bytes[1] == (size / 256) as u8);
        assert(bytes[2] == (size % 256) as u8);
    } else {
        assert(bytes[0] == 0xdbu8);
        assert(bytes[1] == (size / 16777216) as u8);
        assert(bytes[2] == ((size / 65536) % 256) as u8);
        assert(bytes[3] == ((size / 256) % 256) as u8);
        assert(bytes[4] == (size % 256) as u8);
    }
}

/// A packed string is read back as the text that was packed, whatever
/// follows it.
pub proof fn lemma_unpack_packed(text: Seq<char>, rest: Seq<u8>)
    requires
        packable(text),
    ensures
        unpack_str(packed_str(text) + rest) == Some((text, packed_str(text).len() as int)),
{
    let payload = encode_utf8(text);
    let head = str_header(payload.len());
    let bytes = packed_str(text) + rest;
    assert(bytes =~= head + (payload + rest));
    lemma_str_header_prefix(payload.len(), payload + rest);
    assert(bytes.subrange(head.len() as int, head.len() + payload.len() as int) =~= payload);
    encode_utf8_valid_utf8(text);
    encode_utf8_decode_utf8(text);
}

/// A text that was read from a packed string can be packed again.
pub proof fn lemma_unpacked_is_packable(bytes: Seq<u8>)
    requires
        unpack_str(bytes) is Some,
    ensures
        packable(unpack_str(bytes).unwrap().0),
{
    let (head, size) = str_prefix(bytes).unwrap();
    decode_utf8_encode_utf8(bytes.subrange(head, head + size));
}

/// Appends the header of a string of `size` bytes.
fn write_str_header(out: &mut Vec<u8>, size: u32)
    ensures
        final(out)@ == old(out)@ + str_header(size as nat),
{
    if size < 32 {
        out.push(0xa0 + size as u8);
    } else if size < 256 {
        out.push(0xd9);
        out.push(size as u8);
    } else if size < 65536 {
        out.push(0xda);
        out.push((size / 256) as u8);
        out.push((size % 256) as u8);
    } else {
        out.push(0xdb);
        out.push((size / 16777216) as u8);
        out.push(((size / 65536) % 256) as u8);
        out.push(((size / 256) % 256) as u8);
        out.push((size % 256) as u8);
    }
    assert(out@ =~= old(out)@ + str_header(size as nat));
}

/// Appends the text as a packed string. A text that cannot be packed leaves
/// the output as it was.
pub(crate) fn write_str(out: &mut Vec<u8>, text: &str) -> (done: bool)
    ensures
        done == packable(text@),
        done ==> final(out)@ == old(out)@ + packed_str(text@),
        !done ==> final(out)@ == old(out)@,
{
    let bytes = text.as_bytes();
    if bytes.len() > 0xffff_ffff {
        return false;
    }
    write_str_header(out, bytes.len() as u32);
    let ghost headed = out@;
    let mut i: usize = 0;
    while i < bytes.len()
        invariant
            i <= bytes.len(),
            out@ == headed + bytes@.subrange(0, i as int),
        decreases bytes.len() - i,
    {
        out.push(bytes[i]);
        assert(out@ =~= headed + bytes@.subrange(0, i as int + 1));
        i += 1;
    }
    assert(out@ =~= old(out)@ + packed_str(text@));
    true
}

/// Reads the packed string that starts at `at`: its text, and where the
/// bytes after it start.
pub(crate) fn read_str<'a>(bytes: &'a [u8], at: usize) -> (found: Option<(&'a str, usize)>)
    requires
        at <= bytes@.len(),
    ensures
        match found {
            Some((text, end)) => at <= end <= bytes@.len() && unpack_str(bytes@.skip(at as int))
                == Some((text@, end - at)),
            None => unpack_str(bytes@.skip(at as int)) is None,
        },
{
    let ghost tail = bytes@.skip(at as int);
    let left: usize = bytes.len() - at;
    if left < 1 {
        return None;
    }
    let first: u8 = bytes[at];
    assert(tail[0] == first);
    let head: usize;
    let size: usize;
    if 0xa0 <= first && first <= 0xbf {
        head = 1;
        size = (first - 0xa0) as usize;
    } else if first == 0xd9 {
        if left < 2 {
            return None;
        }
        assert(tail[1] == bytes@[at + 1]);
        head = 2;
        size = bytes[at + 1] as usize;
    } else if first == 0xda {
        if left < 3 {
            return None;
        }
        assert(tail[1] == bytes@[at + 1]);
        assert(tail[2] == bytes@[at + 2]);
        head = 3;
        size = bytes[at + 1] as usize * 256 + bytes[at + 2] as usize;
    } else if first == 0xdb {
        if left < 5 {
            return None;
        }
        assert(tail[1] == bytes@[at + 1]);
        assert(tail[2] == bytes@[at + 2]);
        assert(tail[3] == bytes@[at + 3]);
        assert(tail[4] == bytes@[at + 4]);
        let wide: u64 = bytes[at + 1] as u64 * 16777216 + bytes[at + 2] as u64 * 65536 + bytes[at
            + 3] as u64 * 256 + bytes[at + 4] as u64;
        if wide > (left - 5) as u64 {
            return None;
        }
        head = 5;
        size = wide as usize;
    } else {
        return None;
    }
    assert(str_prefix(tail) == Some((head as int, size as int)));
    if size > left - head {
        return None;
    }
    let start: usize = at + head;
    let end: usize = start + size;
    let payload = &bytes[start..end];
    assert(payload@ =~= tail.subrange(head as int, head as int + size as int));
    match utf8_text(payload) {
        Some(text) => {
            proof {
                encode_utf8_decode_utf8(text@);
            }
            Some((text, end))
        },
        None => None,
    }
}

/// The header of a map of `count` entries: the shortest of the three forms
/// that can state the count.
pub open spec fn map_header(count: nat) -> Seq<u8> {
    if count < 16 {
        seq![(0x80 + count) as u8]
    } else if count < 65536 {
        seq![0xdeu8, (count / 256) as u8, (count % 256) as u8]
    } else {
        seq![
            0xdfu8,
            (count / 16777216) as u8,
            ((count / 65536) % 256) as u8,
            ((count / 256) % 256) as u8,
            (count % 256) as u8,
        ]
    }
}

/// Appends the header of a map of `count` entries.
pub(crate) fn write_map_header(out: &mut Vec<u8>, count: u32)
    ensures
        final(out)@ == old(out)@ + map_header(count as nat),
{
    if count < 16 {
        out.push(0x80 + count as u8);
    } else if count < 65536 {
        out.push(0xde);
        out.push((count / 256) as u8);
        out.push((count % 256) as u8);
    } else {
        out.push(0xdf);
        out.push((count / 16777216) as u8);
        out.push(((count / 65536) % 256) as u8);
        out.push(((count / 256) % 256) as u8);
        out.push((count % 256) as u8);
    }
    assert(out@ =~= old(out)@ + map_header(count as nat));
}

} // verus!
