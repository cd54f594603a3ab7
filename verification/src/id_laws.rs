//! What names and identities are made of.
use vstd::arithmetic::power::pow;
use vstd::prelude::*;
use vstd::utf8::encode_utf8;

use crate::ids::{
    bounded_name, cut_name, fingerprint, first_message, fresh_session_id, hashed_session_id,
    is_hex_digit, text_hash,
};
use crate::json::{Json, json_text, jsons_of};
use crate::text_laws::{digits_value, hex_digits_stand_for_the_number};
use crate::types::ResponsesInput;

verus! {

/// Whether a text is the start of a name, at most fifty-five characters of it,
/// a hyphen, and the eight lowest hexadecimal digits of a hash.
pub open spec fn is_cut(r: Seq<char>, name: Seq<char>, hash: int) -> bool {
    let kept: int = if name.len() < 55 {
        name.len() as int
    } else {
        55
    };
    &&& r.len() == kept + 9
    &&& forall|i: int| 0 <= i < kept ==> #[trigger] r[i] == name[i]
    &&& r[kept] == '-'
    &&& forall|i: int| kept < i < r.len() ==> is_hex_digit(#[trigger] r[i])
    &&& digits_value(r.skip(kept + 1)) == hash % pow(16, 8)
}

/// A name is cut after fifty-five characters, with its hash behind.
pub proof fn cut_names_have_their_hash(name: Seq<char>, hash: u64)
    ensures
        is_cut(cut_name(name, hash), name, hash as int),
{
    reveal_strlit("-");
    let kept: int = if name.len() < 55 {
        name.len() as int
    } else {
        55
    };
    let digits = crate::text::hex_digits(hash as int, 8);
    hex_digits_stand_for_the_number(hash as int, 8);
    let r = cut_name(name, hash);
    assert("-"@.len() == 1 && "-"@[0] == '-');
    assert(r =~= name.take(kept) + ("-"@ + digits));
    assert(r.skip(kept + 1) =~= digits);
    assert forall|i: int| kept < i < r.len() implies is_hex_digit(#[trigger] r[i]) by {
        assert(r[i] == digits[i - kept - 1]);
    }
}

/// A name of at most sixty-four bytes stays; a longer one is cut, with its own
/// hash behind.
pub proof fn long_names_are_cut_and_hashed(name: Seq<char>)
    ensures
        encode_utf8(name).len() <= 64 ==> bounded_name(name) == name,
        encode_utf8(name).len() > 64 ==> is_cut(bounded_name(name), name, text_hash(name) as int),
{
    cut_names_have_their_hash(name, text_hash(name));
}

/// The identity of a session that is made of a hash has all sixteen digits of
/// it behind a prefix, so that different hashes give different identities. One
/// that is made of a fresh identifier has that behind the same prefix.
pub proof fn session_ids_have_their_digits(hash: u64, other: u64, fresh: Seq<char>)
    ensures
        hashed_session_id(hash).len() == "codex-relay-"@.len() + 16,
        hashed_session_id(hash).take("codex-relay-"@.len() as int) == "codex-relay-"@,
        digits_value(hashed_session_id(hash).skip("codex-relay-"@.len() as int)) == hash as int,
        hashed_session_id(hash) == hashed_session_id(other) ==> hash == other,
        fresh_session_id(fresh).take("codex-relay-"@.len() as int) == "codex-relay-"@,
        fresh_session_id(fresh).skip("codex-relay-"@.len() as int) == fresh,
{
    let prefix = "codex-relay-"@;
    let n = prefix.len() as int;
    hex_digits_stand_for_the_number(hash as int, 16);
    hex_digits_stand_for_the_number(other as int, 16);
    assert(pow(16, 16) == 0x1_0000_0000_0000_0000) by {
        reveal(pow);
        reveal_with_fuel(pow, 17);
    }
    vstd::arithmetic::div_mod::lemma_small_mod(hash as nat, pow(16, 16) as nat);
    vstd::arithmetic::div_mod::lemma_small_mod(other as nat, pow(16, 16) as nat);
    assert(hashed_session_id(hash).take(n) =~= prefix);
    assert(hashed_session_id(hash).skip(n) =~= crate::text::hex_digits(hash as int, 16));
    assert(hashed_session_id(other).skip(n) =~= crate::text::hex_digits(other as int, 16));
    assert(fresh_session_id(fresh).take(n) =~= prefix);
    assert(fresh_session_id(fresh).skip(n) =~= fresh);
}

/// The session of a request is told by the text of its input, or by the text
/// of the first message among its items: what comes after it changes nothing.
pub proof fn the_first_message_tells_the_session(input: ResponsesInput)
    ensures
        input matches ResponsesInput::Text(text) ==> fingerprint(input) == Some(text@),
        input matches ResponsesInput::Messages(items) ==> match fingerprint(input) {
            Some(text) => exists|i: int|
                {
                    &&& 0 <= i < items@.len()
                    &&& (#[trigger] items@[i])@.str_at("type"@) == Some("message"@)
                    &&& text == json_text(items@[i]@)
                    &&& forall|j: int|
                        0 <= j < i ==> (#[trigger] items@[j])@.str_at("type"@) != Some("message"@)
                },
            None => forall|j: int|
                0 <= j < items@.len() ==> (#[trigger] items@[j])@.str_at("type"@) != Some(
                    "message"@,
                ),
        },
{
    if let ResponsesInput::Messages(items) = input {
        let all = jsons_of(items@);
        lemma_first_message(all);
        match first_message(all) {
            Some(text) => {
                let i = choose|i: int|
                    {
                        &&& 0 <= i < all.len()
                        &&& (#[trigger] all[i]).str_at("type"@) == Some("message"@)
                        &&& text == json_text(all[i])
                        &&& forall|j: int|
                            0 <= j < i ==> (#[trigger] all[j]).str_at("type"@) != Some("message"@)
                    };
                assert(items@[i]@ == all[i]);
                assert forall|j: int| 0 <= j < i implies (#[trigger] items@[j])@.str_at("type"@)
                    != Some("message"@) by {
                    assert(all[j] == items@[j]@);
                }
            },
            None => {
                assert forall|j: int| 0 <= j < items@.len() implies (
                #[trigger] items@[j])@.str_at("type"@) != Some("message"@) by {
                    assert(all[j] == items@[j]@);
                }
            },
        }
    }
}

proof fn lemma_first_message(items: Seq<Json>)
    ensures
        match first_message(items) {
            Some(text) => exists|i: int|
                {
                    &&& 0 <= i < items.len()
                    &&& (#[trigger] items[i]).str_at("type"@) == Some("message"@)
                    &&& text == json_text(items[i])
                    &&& forall|j: int|
                        0 <= j < i ==> (#[trigger] items[j]).str_at("type"@) != Some("message"@)
                },
            None => forall|j: int|
                0 <= j < items.len() ==> (#[trigger] items[j]).str_at("type"@) != Some("message"@),
        },
    decreases items.len(),
{
    if items.len() > 0 && !items[0].has_str("type"@, "message"@) {
        let rest = items.drop_first();
        lemma_first_message(rest);
        match first_message(rest) {
            Some(text) => {
                let i = choose|i: int|
                    {
                        &&& 0 <= i < rest.len()
                        &&& (#[trigger] rest[i]).str_at("type"@) == Some("message"@)
                        &&& text == json_text(rest[i])
                        &&& forall|j: int|
                            0 <= j < i ==> (#[trigger] rest[j]).str_at("type"@) != Some("message"@)
                    };
                assert(items[i + 1] == rest[i]);
                assert forall|j: int| 0 <= j < i + 1 implies (#[trigger] items[j]).str_at("type"@)
                    != Some("message"@) by {
                    if j > 0 {
                        assert(rest[j - 1] == items[j]);
                    }
                }
            },
            None => {
                assert forall|j: int| 0 <= j < items.len() implies (#[trigger] items[j]).str_at(
                    "type"@,
                ) != Some("message"@) by {
                    if j > 0 {
                        assert(rest[j - 1] == items[j]);
                    }
                }
            },
        }
    }
}

} // verus!
