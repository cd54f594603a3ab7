//! Names made of hashes and of random numbers.
use std::collections::hash_map::DefaultHasher;
use vstd::prelude::*;
use vstd::utf8::{encode_utf8, is_ascii_chars};

use crate::json::{Json, json_text, jsons_of};
use crate::text::{chars_of, hex, hex_digit, hex_digits, joined};
use crate::types::{ResponsesInput, ResponsesRequest, opt_text};

verus! {

/// What a string writes into a hasher.
pub uninterp spec fn hashed_text(s: Seq<char>) -> Seq<Seq<u8>>;

/// `Hash` of `str`: what it writes into the hasher is a function of the string
/// alone, and comes after what was written before.
#[verifier::external_body]
fn hash_text(s: &str, hasher: &mut DefaultHasher)
    ensures
        final(hasher)@ == old(hasher)@ + hashed_text(s@),
{
    std::hash::Hash::hash(s, hasher)
}

/// The hash of a text.
pub open spec fn text_hash(s: Seq<char>) -> u64 {
    <DefaultHasher as vstd::std_specs::hash::DefaultHasherAdditionalSpecFns>::spec_finish(
        hashed_text(s),
    )
}

/// The hash of a text, the same for the same text.
pub fn hash_of_text(s: &str) -> (r: u64)
    ensures
        r == text_hash(s@),
{
    let mut hasher = DefaultHasher::new();
    hash_text(s, &mut hasher);
    assert(hasher@ =~= hashed_text(s@));
    std::hash::Hasher::finish(&hasher)
}

/// Whether a character is a hexadecimal digit in lower case.
pub open spec fn is_hex_digit(c: char) -> bool {
    '0' <= c <= '9' || 'a' <= c <= 'f'
}

/// Whether a text is the plain form of a random UUID: thirty-two hexadecimal
/// digits, among them those that tell the version and the variant.
pub open spec fn uuid_text(s: Seq<char>) -> bool {
    &&& s.len() == 32
    &&& forall|i: int| 0 <= i < s.len() ==> is_hex_digit(#[trigger] s[i])
    &&& s[12] == '4'
    &&& s[16] == '8' || s[16] == '9' || s[16] == 'a' || s[16] == 'b'
}

/// `uuid::Uuid::new_v4`, in its simple form: thirty-two lower-case hexadecimal
/// digits, with the version 4 and the variant of RFC 9562 in their places.
/// The other digits are random: nothing is said of them, nor that two calls
/// differ. The call panics where the system has no random numbers to give.
#[verifier::external_body]
pub(crate) fn fresh_uuid() -> (r: String)
    ensures
        uuid_text(r@),
{
    uuid::Uuid::new_v4().simple().to_string()
}

/// The text of the first message among some input items.
pub open spec fn first_message(items: Seq<Json>) -> Option<Seq<char>>
    decreases items.len(),
{
    if items.len() == 0 {
        None
    } else if items[0].has_str("type"@, "message"@) {
        Some(json_text(items[0]))
    } else {
        first_message(items.drop_first())
    }
}

/// What identifies the session of a request: the text of its input, or of the
/// first message in it.
pub open spec fn fingerprint(input: ResponsesInput) -> Option<Seq<char>> {
    match input {
        ResponsesInput::Text(text) => Some(text@),
        ResponsesInput::Messages(items) => first_message(jsons_of(items@)),
    }
}

/// What identifies the session of a request.
pub fn request_fingerprint(req: &ResponsesRequest) -> (r: Option<String>)
    ensures
        opt_text(r) == fingerprint(req.input),
{
    match &req.input {
        ResponsesInput::Text(text) => Some(text.clone()),
        ResponsesInput::Messages(items) => {
            let ghost all = jsons_of(items@);
            let mut i: usize = 0;
            assert(all.skip(0) =~= all);
            while i < items.len()
                invariant
                    i <= items@.len(),
                    all == jsons_of(items@),
                    first_message(all) == first_message(all.skip(i as int)),
                    req.input == ResponsesInput::Messages(*items),
                decreases items.len() - i,
            {
                assert(all.skip(i as int).drop_first() =~= all.skip(i + 1));
                if items[i].has_str("type", "message") {
                    return Some(items[i].to_text());
                }
                i = i + 1;
            }
            None
        },
    }
}

/// The session identity that is made of a hash.
pub open spec fn hashed_session_id(hash: u64) -> Seq<char> {
    "codex-relay-"@ + hex_digits(hash as int, 16)
}

/// The session identity that is made of a fresh identifier.
pub open spec fn fresh_session_id(fresh: Seq<char>) -> Seq<char> {
    "codex-relay-"@ + fresh
}

/// The session identity that is made of a hash.
pub fn session_id_for_hash(hash: u64) -> (r: String)
    ensures
        r@ == hashed_session_id(hash),
{
    joined("codex-relay-", hex(hash, 16).as_str())
}

/// The session identity that is made of a fresh identifier.
pub fn session_id_for_fresh(fresh: &str) -> (r: String)
    ensures
        r@ == fresh_session_id(fresh@),
{
    joined("codex-relay-", fresh)
}

/// Derives a stable session identity for a request that names none. A request
/// without a fingerprint gets a random one.
pub fn opencode_session_id_for_request(req: &ResponsesRequest) -> (r: String)
    ensures
        match fingerprint(req.input) {
            Some(text) => r@ == hashed_session_id(text_hash(text)),
            None => exists|fresh: Seq<char>|
                uuid_text(fresh) && r@ == #[trigger] fresh_session_id(fresh),
        },
{
    match request_fingerprint(req) {
        Some(text) => session_id_for_hash(hash_of_text(text.as_str())),
        None => session_id_for_fresh(fresh_uuid().as_str()),
    }
}

/// The start of a name and a hash, in place of the whole name.
pub open spec fn cut_name(name: Seq<char>, hash: u64) -> Seq<char> {
    name.take(
        if name.len() < 55 {
            name.len() as int
        } else {
            55
        },
    ) + ("-"@ + hex_digits(hash as int, 8))
}

/// A tool name that fits into sixty-four bytes, or else the start of the name
/// and a hash of the whole.
pub open spec fn bounded_name(name: Seq<char>) -> Seq<char> {
    if encode_utf8(name).len() <= 64 {
        name
    } else {
        cut_name(name, text_hash(name))
    }
}

/// The start of a name and a hash, in place of the whole name.
pub fn cut_name_with_hash(name: &str, hash: u64) -> (r: String)
    ensures
        r@ == cut_name(name@, hash),
{
    let suffix = joined("-", hex(hash, 8).as_str());
    let length: usize = chars_of(name).len();
    let prefix_len: usize = if length < 55 {
        length
    } else {
        55
    };
    assert(name@.subrange(0, prefix_len as int) =~= name@.take(prefix_len as int));
    joined(name.substring_char(0, prefix_len), suffix.as_str())
}

/// A tool name that fits into sixty-four bytes, or else the start of the name
/// and a hash of the whole.
pub fn bound_native_tool_name_value(name: &str) -> (r: String)
    ensures
        r@ == bounded_name(name@),
{
    if name.as_bytes().len() <= 64 {
        return name.to_owned();
    }
    cut_name_with_hash(name, hash_of_text(name))
}

proof fn lemma_no_more_chars_than_bytes(s: Seq<char>)
    ensures
        s.len() <= encode_utf8(s).len(),
    decreases s.len(),
{
    if s.len() > 0 {
        lemma_no_more_chars_than_bytes(s.drop_first());
    }
}

proof fn lemma_hex_digits(n: int, width: nat)
    ensures
        hex_digits(n, width).len() == width,
        forall|i: int| 0 <= i < width ==> is_hex_digit(#[trigger] hex_digits(n, width)[i]),
    decreases width,
{
    if width > 0 {
        lemma_hex_digits(n / 16, (width - 1) as nat);
        let d = n % 16;
        assert(is_hex_digit(hex_digit(d)));
    }
}

/// A bounded name has at most sixty-four characters.
pub proof fn bounded_names_are_short(name: Seq<char>)
    ensures
        bounded_name(name).len() <= 64,
{
    reveal_strlit("-");
    lemma_no_more_chars_than_bytes(name);
    lemma_hex_digits(text_hash(name) as int, 8);
}

/// A bounded name has at most sixty-four bytes, and is bounded already, where
/// the part of the name that is kept is ASCII.
pub proof fn bounded_names_fit(name: Seq<char>)
    requires
        encode_utf8(name).len() <= 64 || (name.len() >= 55 && is_ascii_chars(name.take(55))),
    ensures
        encode_utf8(bounded_name(name)).len() <= 64,
        bounded_name(bounded_name(name)) == bounded_name(name),
{
    if encode_utf8(name).len() > 64 {
        reveal_strlit("-");
        lemma_hex_digits(text_hash(name) as int, 8);
        let short = bounded_name(name);
        let digits = hex_digits(text_hash(name) as int, 8);
        assert(is_ascii_chars(short)) by {
            assert forall|i: int| 0 <= i < short.len() implies '\0' <= #[trigger] short[i]
                <= '\u{7f}' by {
                if i < 55 {
                    assert(short[i] == name.take(55)[i]);
                } else if i > 55 {
                    assert(short[i] == digits[i - 56]);
                }
            }
        }
        vstd::utf8::is_ascii_chars_encode_utf8(short);
    }
}

} // verus!
