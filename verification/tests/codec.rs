use rgo::codec::{decode, encode, encode_snapshot, DecodeError};
use rgo::command::Command;
use std::collections::BTreeMap;

fn add(key: &str, value: &str) -> Command {
    Command::Add { key: key.to_string(), value: value.to_string() }
}

fn remove(key: &str) -> Command {
    Command::Remove { key: key.to_string() }
}

#[test]
fn list_is_the_packed_variant_name() {
    assert_eq!(encode(&Command::List), Ok(vec![0xa4, b'L', b'i', b's', b't']));
}

#[test]
fn persist_is_the_packed_variant_name() {
    assert_eq!(
        encode(&Command::Persist),
        Ok(vec![0xa7, b'P', b'e', b'r', b's', b'i', b's', b't'])
    );
}

#[test]
fn add_is_a_map_from_name_to_two_fields() {
    let mut expected = vec![0x81, 0xa3, b'A', b'd', b'd', 0x92, 0xa1, b'a', 0xb2];
    expected.extend_from_slice(b"http://example.com");
    assert_eq!(encode(&add("a", "http://example.com")), Ok(expected));
}

#[test]
fn remove_is_a_map_from_name_to_one_field() {
    assert_eq!(
        encode(&remove("a")),
        Ok(vec![0x81, 0xa6, b'R', b'e', b'm', b'o', b'v', b'e', 0x91, 0xa1, b'a'])
    );
}

#[test]
fn empty_texts_are_packed_as_empty_strings() {
    assert_eq!(
        encode(&add("", "")),
        Ok(vec![0x81, 0xa3, b'A', b'd', b'd', 0x92, 0xa0, 0xa0])
    );
    assert_eq!(decode(&[0x81, 0xa3, b'A', b'd', b'd', 0x92, 0xa0, 0xa0]), Ok(add("", "")));
}

#[test]
fn payloads_are_what_rmp_serde_writes_for_the_same_shape() {
    assert_eq!(encode(&Command::List).unwrap(), rmp_serde::to_vec("List").unwrap());
    assert_eq!(encode(&Command::Persist).unwrap(), rmp_serde::to_vec("Persist").unwrap());
    let mut as_map = BTreeMap::new();
    as_map.insert("Add", ("short", "x".repeat(300)));
    assert_eq!(
        encode(&add("short", &"x".repeat(300))).unwrap(),
        rmp_serde::to_vec(&as_map).unwrap()
    );
    let mut as_map = BTreeMap::new();
    as_map.insert("Remove", ("k".repeat(70000),));
    assert_eq!(encode(&remove(&"k".repeat(70000))).unwrap(), rmp_serde::to_vec(&as_map).unwrap());
}

#[test]
fn rmp_serde_reads_payloads_back() {
    let payload = encode(&add("a", "http://example.com")).unwrap();
    let read: BTreeMap<String, (String, String)> = rmp_serde::from_slice(&payload).unwrap();
    let mut expected = BTreeMap::new();
    expected.insert("Add".to_string(), ("a".to_string(), "http://example.com".to_string()));
    assert_eq!(read, expected);
    let payload = encode(&Command::List).unwrap();
    let read: String = rmp_serde::from_slice(&payload).unwrap();
    assert_eq!(read, "List");
}

#[test]
fn payloads_written_by_rmp_serde_are_decoded() {
    let mut as_map = BTreeMap::new();
    as_map.insert("Add", ("a", "http://example.com"));
    assert_eq!(decode(&rmp_serde::to_vec(&as_map).unwrap()), Ok(add("a", "http://example.com")));
    let mut as_map = BTreeMap::new();
    as_map.insert("Remove", ("a",));
    assert_eq!(decode(&rmp_serde::to_vec(&as_map).unwrap()), Ok(remove("a")));
    assert_eq!(decode(&rmp_serde::to_vec("List").unwrap()), Ok(Command::List));
    assert_eq!(decode(&rmp_serde::to_vec("Persist").unwrap()), Ok(Command::Persist));
}

#[test]
fn round_trip_of_every_variant() {
    for command in [add("a", "http://example.com"), remove("a"), Command::List, Command::Persist] {
        assert_eq!(decode(&encode(&command).unwrap()), Ok(command));
    }
}

#[test]
fn round_trip_of_text_beyond_ascii() {
    let command = add("gr\u{fc}\u{df}e", "https://example.com/\u{65e5}\u{672c}\u{8a9e}/\u{1f600}");
    assert_eq!(decode(&encode(&command).unwrap()), Ok(command));
    assert_eq!(
        encode(&remove("\u{e9}")),
        Ok(vec![0x81, 0xa6, b'R', b'e', b'm', b'o', b'v', b'e', 0x91, 0xa2, 0xc3, 0xa9])
    );
}

#[test]
fn string_headers_grow_with_the_text() {
    let header_at: usize = 9;
    let payload = encode(&remove(&"k".repeat(31))).unwrap();
    assert_eq!(payload[header_at], 0xbf);
    assert_eq!(payload.len(), header_at + 1 + 31);
    let payload = encode(&remove(&"k".repeat(32))).unwrap();
    assert_eq!(&payload[header_at..header_at + 2], &[0xd9, 32]);
    assert_eq!(payload.len(), header_at + 2 + 32);
    let payload = encode(&remove(&"k".repeat(255))).unwrap();
    assert_eq!(&payload[header_at..header_at + 2], &[0xd9, 255]);
    let payload = encode(&remove(&"k".repeat(256))).unwrap();
    assert_eq!(&payload[header_at..header_at + 3], &[0xda, 1, 0]);
    assert_eq!(payload.len(), header_at + 3 + 256);
    let payload = encode(&remove(&"k".repeat(65535))).unwrap();
    assert_eq!(&payload[header_at..header_at + 3], &[0xda, 255, 255]);
    let payload = encode(&remove(&"k".repeat(65536))).unwrap();
    assert_eq!(&payload[header_at..header_at + 5], &[0xdb, 0, 1, 0, 0]);
    assert_eq!(payload.len(), header_at + 5 + 65536);
    let payload = encode(&remove(&"k".repeat(0x0102_0304))).unwrap();
    assert_eq!(&payload[header_at..header_at + 5], &[0xdb, 1, 2, 3, 4]);
}

#[test]
fn round_trip_at_every_header_width() {
    for size in [0usize, 1, 31, 32, 255, 256, 65535, 65536, 70001] {
        let command = add(&"k".repeat(size), &"v".repeat(size));
        assert_eq!(decode(&encode(&command).unwrap()), Ok(command));
    }
}

#[test]
fn a_header_wider_than_needed_is_read() {
    assert_eq!(decode(&[0xd9, 4, b'L', b'i', b's', b't']), Ok(Command::List));
    assert_eq!(decode(&[0xda, 0, 4, b'L', b'i', b's', b't']), Ok(Command::List));
    assert_eq!(decode(&[0xdb, 0, 0, 0, 4, b'L', b'i', b's', b't']), Ok(Command::List));
    assert_eq!(
        decode(&[0x81, 0xd9, 6, b'R', b'e', b'm', b'o', b'v', b'e', 0x91, 0xda, 0, 1, b'a']),
        Ok(remove("a"))
    );
}

#[test]
fn malformed_payloads_are_refused() {
    let refused: Result<Command, DecodeError> = Err(DecodeError);
    assert_eq!(decode(&[]), refused);
    assert_eq!(decode(&[0x00]), refused);
    assert_eq!(decode(&[0xc0]), refused);
    assert_eq!(decode(&[0x81]), refused);
    assert_eq!(decode(b"not a command"), refused);
    assert_eq!(decode(&[0xa4, b'L', b'i', b's']), refused);
    assert_eq!(decode(&[0xa4, b'l', b'i', b's', b't']), refused);
    assert_eq!(decode(&[0xa3, b'A', b'd', b'd']), refused);
    assert_eq!(decode(&[0xa5, b'C', b'l', b'e', b'a', b'r']), refused);
    assert_eq!(decode(&[0x81, 0xa4, b'L', b'i', b's', b't', 0x90]), refused);
    assert_eq!(decode(&[0x81, 0xa5, b'C', b'l', b'e', b'a', b'r', 0x91, 0xa1, b'a']), refused);
    assert_eq!(decode(&[0xd9]), refused);
    assert_eq!(decode(&[0xda, 0]), refused);
    assert_eq!(decode(&[0xdb, 0, 0, 0]), refused);
    assert_eq!(decode(&[0xdb, 0xff, 0xff, 0xff, 0xff, b'L']), refused);
}

#[test]
fn payloads_with_bytes_after_the_command_are_refused() {
    let refused: Result<Command, DecodeError> = Err(DecodeError);
    let mut payload = encode(&Command::List).unwrap();
    payload.push(0);
    assert_eq!(decode(&payload), refused);
    let mut payload = encode(&add("a", "b")).unwrap();
    payload.push(0xa0);
    assert_eq!(decode(&payload), refused);
    let mut payload = encode(&remove("a")).unwrap();
    payload.extend_from_slice(&encode(&remove("a")).unwrap());
    assert_eq!(decode(&payload), refused);
}

#[test]
fn truncated_payloads_are_refused() {
    let payload = encode(&add("key", "http://example.com")).unwrap();
    for cut in 0..payload.len() {
        assert_eq!(decode(&payload[..cut]), Err(DecodeError), "cut at {}", cut);
    }
    assert_eq!(decode(&payload), Ok(add("key", "http://example.com")));
}

#[test]
fn fields_of_the_wrong_count_are_refused() {
    let refused: Result<Command, DecodeError> = Err(DecodeError);
    assert_eq!(decode(&[0x81, 0xa3, b'A', b'd', b'd', 0x91, 0xa1, b'a']), refused);
    assert_eq!(decode(&[0x81, 0xa3, b'A', b'd', b'd', 0x93, 0xa1, b'a', 0xa1, b'b', 0xa1, b'c']), refused);
    assert_eq!(
        decode(&[0x81, 0xa6, b'R', b'e', b'm', b'o', b'v', b'e', 0x92, 0xa1, b'a', 0xa1, b'b']),
        refused
    );
    assert_eq!(decode(&[0x82, 0xa3, b'A', b'd', b'd', 0x92, 0xa1, b'a', 0xa1, b'b']), refused);
}

#[test]
fn text_that_is_not_utf8_is_refused() {
    let refused: Result<Command, DecodeError> = Err(DecodeError);
    assert_eq!(
        decode(&[0x81, 0xa6, b'R', b'e', b'm', b'o', b'v', b'e', 0x91, 0xa2, 0xc3, 0x28]),
        refused
    );
    assert_eq!(
        decode(&[0x81, 0xa6, b'R', b'e', b'm', b'o', b'v', b'e', 0x91, 0xa1, 0xff]),
        refused
    );
    assert_eq!(
        decode(&[0x81, 0xa6, b'R', b'e', b'm', b'o', b'v', b'e', 0x91, 0xa3, 0xed, 0xa0, 0x80]),
        refused
    );
    assert_eq!(
        decode(&[0x81, 0xa6, b'R', b'e', b'm', b'o', b'v', b'e', 0x91, 0xa2, 0xc3, 0xa9]),
        Ok(remove("\u{e9}"))
    );
}

#[test]
fn the_decode_error_says_what_is_wrong() {
    assert_eq!(DecodeError.message(), "payload does not have the shape of any command");
}

#[test]
fn snapshot_image_is_a_map_from_key_to_url() {
    let snapshot = vec![("google".to_string(), "https://google.com".to_string())];
    let mut expected = vec![0x81, 0xa6];
    expected.extend_from_slice(b"google");
    expected.push(0xb2);
    expected.extend_from_slice(b"https://google.com");
    assert_eq!(encode_snapshot(&snapshot), Ok(expected));
    assert_eq!(encode_snapshot(&Vec::new()), Ok(vec![0x80]));
}

#[test]
fn snapshot_image_is_read_back_by_rmp_serde() {
    let mut snapshot = Vec::new();
    let mut expected = BTreeMap::new();
    for i in 0..20 {
        let key = format!("key-{:02}", i);
        let url = format!("https://example.com/{}", "p".repeat(i * 20));
        snapshot.push((key.clone(), url.clone()));
        expected.insert(key, url);
    }
    let image = encode_snapshot(&snapshot).unwrap();
    assert_eq!(&image[..3], &[0xde, 0, 20]);
    assert_eq!(image, rmp_serde::to_vec(&expected).unwrap());
    let read: BTreeMap<String, String> = rmp_serde::from_slice(&image).unwrap();
    assert_eq!(read, expected);
}

#[test]
fn snapshot_image_header_grows_with_the_count() {
    let mut snapshot = Vec::new();
    for i in 0..15 {
        snapshot.push((format!("{}", i), String::new()));
    }
    assert_eq!(encode_snapshot(&snapshot).unwrap()[0], 0x8f);
    snapshot.push(("15".to_string(), String::new()));
    assert_eq!(&encode_snapshot(&snapshot).unwrap()[..3], &[0xde, 0, 16]);
    for i in 16..65536 {
        snapshot.push((format!("{}", i), String::new()));
    }
    assert_eq!(&encode_snapshot(&snapshot).unwrap()[..5], &[0xdf, 0, 1, 0, 0]);
    let read: BTreeMap<String, String> =
        rmp_serde::from_slice(&encode_snapshot(&snapshot).unwrap()).unwrap();
    assert_eq!(read.len(), 65536);
}

#[test]
fn what_was_decoded_can_be_encoded() {
    let wide = [0x81, 0xd9, 3, b'A', b'd', b'd', 0x92, 0xda, 0, 1, b'a', 0xdb, 0, 0, 0, 1, b'b'];
    let command = decode(&wide).unwrap();
    assert_eq!(command, add("a", "b"));
    assert_eq!(
        encode(&command),
        Ok(vec![0x81, 0xa3, b'A', b'd', b'd', 0x92, 0xa1, b'a', 0xa1, b'b'])
    );
}

#[test]
fn a_cloned_command_is_the_same_command() {
    for command in [add("a", "http://example.com"), remove("a"), Command::List, Command::Persist] {
        assert_eq!(command.clone(), command);
    }
}
