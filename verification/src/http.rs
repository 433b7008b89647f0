//! The read paths that the HTTP surface serves: the redirect by key, and the
//! listing of the whole store.

use crate::command::CommandView;
use crate::processor::applied;
use crate::store::{is_listing, texts, Store};
use axum::response::Redirect;
use vstd::prelude::*;
use vstd::utf8::*;

verus! {

/// Where a request for an unknown key is sent.
pub const FALLBACK_PATH: &'static str = "/404";

/// `axum::response::Redirect`, the framework's redirect response. The library
/// builds such a response and hands it on; it never looks inside one.
#[verifier::external_type_specification]
#[verifier::external_body]
pub struct ExRedirect(axum::response::Redirect);

/// Whether a byte may stand in the value of an HTTP header: a tab, or any byte
/// from the space on but the delete character.
pub open spec fn header_byte(byte: u8) -> bool {
    byte >= 32 && byte != 127 || byte == 9
}

/// Whether a text can be sent as the value of an HTTP header.
pub open spec fn header_safe(text: Seq<char>) -> bool {
    forall|i: int|
        0 <= i < encode_utf8(text).len() ==> header_byte(#[trigger] encode_utf8(text)[i])
}

/// The response that `Redirect::to` builds for `location`: "303 See Other",
/// with `location` as its `Location` header.
pub uninterp spec fn see_other(location: Seq<char>) -> Redirect;

/// `Redirect::to` gives the same response for the same text, the one named
/// [`see_other`]. It panics on a text that is no header value, that is, on a
/// text with a byte that is not a [`header_byte`]: such texts are kept away
/// from it.
pub assume_specification[ axum::response::Redirect::to ](uri: &str) -> (built: Redirect)
    requires
        header_safe(uri@),
    ensures
        built == see_other(uri@),
;

/// Why a key cannot be answered with a redirect: the URL stored under it
/// holds a byte that no HTTP header can carry. The request is answered with a
/// server error; the store and the other requests are not touched by it.
#[derive(Debug, Clone, Copy, PartialEq, Eq)]
pub struct BadLocation;

/// Where a request for `key` is sent: to the URL stored under the key, or to
/// the fallback path if the key is not in the store.
pub open spec fn target(mapping: Map<Seq<char>, Seq<char>>, key: Seq<char>) -> Seq<char> {
    if mapping.contains_key(key) {
        mapping[key]
    } else {
        FALLBACK_PATH@
    }
}

/// The fallback path can be sent as a header value.
pub proof fn lemma_fallback_is_header_safe()
    ensures
        header_safe(FALLBACK_PATH@),
{
    reveal_strlit("/404");
    let text = FALLBACK_PATH@;
    assert(is_ascii_chars(text));
    is_ascii_chars_encode_utf8(text);
    assert forall|i: int| 0 <= i < encode_utf8(text).len() implies header_byte(
        #[trigger] encode_utf8(text)[i],
    ) by {
        assert(encode_utf8(text)[i] == text[i] as u8);
    }
}

/// The location that a request for `key` is redirected to.
pub fn redirect_target(key: &str, store: &Store) -> (location: String)
    ensures
        location@ == target(store@, key@),
{
    match store.get(key) {
        Some(url) => url.clone(),
        None => FALLBACK_PATH.to_owned(),
    }
}

/// Whether the text can be sent as the value of an HTTP header.
pub fn is_header_safe(text: &str) -> (safe: bool)
    ensures
        safe == header_safe(text@),
{
    let bytes = text.as_bytes();
    let mut i: usize = 0;
    while i < bytes.len()
        invariant
            i <= bytes.len(),
            bytes@ == encode_utf8(text@),
            forall|j: int| 0 <= j < i ==> header_byte(#[trigger] bytes@[j]),
        decreases bytes.len() - i,
    {
        let byte: u8 = bytes[i];
        if !(byte >= 32 && byte != 127 || byte == 9) {
            assert(!header_byte(encode_utf8(text@)[i as int]));
            return false;
        }
        i += 1;
    }
    true
}

/// Answers `GET /{key}`: a redirect to the URL stored under the key, or to
/// the fallback path if the key is not in the store. A stored URL that no
/// header can carry gives no redirect.
pub fn redirect(key: &str, store: &Store) -> (response: Result<Redirect, BadLocation>)
    ensures
        response is Ok <==> header_safe(target(store@, key@)),
        response matches Ok(sent) ==> sent == see_other(target(store@, key@)),
        !store@.contains_key(key@) ==> response == Ok::<Redirect, BadLocation>(
            see_other(FALLBACK_PATH@),
        ),
{
    proof {
        lemma_fallback_is_header_safe();
    }
    let location = redirect_target(key, store);
    if is_header_safe(location.as_str()) {
        Ok(Redirect::to(location.as_str()))
    } else {
        Err(BadLocation)
    }
}

/// Answers `GET /priv/list`: every key of the store with its URL.
pub fn list(store: &Store) -> (body: Vec<(String, String)>)
    ensures
        is_listing(texts(body@), store@),
{
    store.snapshot()
}

/// A key that is not in the store is sent to the fallback path.
pub proof fn law_unknown_key_falls_back(mapping: Map<Seq<char>, Seq<char>>, key: Seq<char>)
    requires
        !mapping.contains_key(key),
    ensures
        target(mapping, key) == FALLBACK_PATH@,
{
}

/// Once `Add` has stored a URL under a key, the key is sent to exactly that
/// URL.
pub proof fn law_added_key_is_found(
    mapping: Map<Seq<char>, Seq<char>>,
    key: Seq<char>,
    value: Seq<char>,
)
    ensures
        target(applied(mapping, CommandView::Add { key, value }), key) == value,
{
}

/// Once `Remove` has taken out a key that `Add` had stored, the key is sent
/// to the fallback path again.
pub proof fn law_removed_key_falls_back(
    mapping: Map<Seq<char>, Seq<char>>,
    key: Seq<char>,
    value: Seq<char>,
)
    ensures
        target(
            applied(applied(mapping, CommandView::Add { key, value }), CommandView::Remove { key }),
            key,
        ) == FALLBACK_PATH@,
{
}

} // verus!
