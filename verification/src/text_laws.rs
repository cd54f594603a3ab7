//! What trimming, splitting and writing in hexadecimal do to a text, and what
//! the settings of the environment say.
use vstd::arithmetic::power::pow;
use vstd::prelude::*;

use crate::env::{RelayEnv, model_target, trimmed_names};
use crate::text::{
    hex_digit, hex_digits, is_white_space, parted, pieces, texts, trimmed, trimmed_end,
    trimmed_start,
};

verus! {

/// The white space of ASCII: tab, line feed, vertical tab, form feed, carriage
/// return and space.
pub proof fn ascii_white_space(c: char)
    requires
        c as u32 <= 0x7f,
    ensures
        is_white_space(c) <==> (c == '\t' || c == '\n' || c == '\x0b' || c == '\x0c' || c == '\r' || c
            == ' '),
{
}

/// The white space beyond ASCII: next line, the no-break space, the spaces of
/// the scripts, and the line and paragraph separators. No other character is.
pub proof fn unicode_white_space(c: char)
    requires
        c as u32 > 0x7f,
    ensures
        is_white_space(c) <==> (c == '\u{85}' || c == '\u{a0}' || c == '\u{1680}' || ('\u{2000}' <= c
            && c <= '\u{200a}') || c == '\u{2028}' || c == '\u{2029}' || c == '\u{202f}' || c
            == '\u{205f}' || c == '\u{3000}'),
{
}

proof fn lemma_trimmed_start_at(s: Seq<char>) -> (a: int)
    ensures
        0 <= a <= s.len(),
        trimmed_start(s) == s.skip(a),
        forall|i: int| 0 <= i < a ==> is_white_space(#[trigger] s[i]),
        a < s.len() ==> !is_white_space(s[a]),
    decreases s.len(),
{
    if s.len() > 0 && is_white_space(s[0]) {
        let rest = s.drop_first();
        let a = lemma_trimmed_start_at(rest);
        assert(rest.skip(a) =~= s.skip(a + 1));
        assert forall|i: int| 0 <= i < a + 1 implies is_white_space(#[trigger] s[i]) by {
            if i > 0 {
                assert(rest[i - 1] == s[i]);
            }
        }
        if a + 1 < s.len() {
            assert(rest[a] == s[a + 1]);
        }
        a + 1
    } else {
        assert(s.skip(0) =~= s);
        0
    }
}

proof fn lemma_trimmed_end_at(s: Seq<char>) -> (b: int)
    ensures
        0 <= b <= s.len(),
        trimmed_end(s) == s.take(b),
        forall|i: int| b <= i < s.len() ==> is_white_space(#[trigger] s[i]),
        b > 0 ==> !is_white_space(s[b - 1]),
    decreases s.len(),
{
    if s.len() > 0 && is_white_space(s.last()) {
        let rest = s.drop_last();
        let b = lemma_trimmed_end_at(rest);
        assert(rest.take(b) =~= s.take(b));
        assert forall|i: int| b <= i < s.len() implies is_white_space(#[trigger] s[i]) by {
            if i < rest.len() {
                assert(rest[i] == s[i]);
            }
        }
        if b > 0 {
            assert(rest[b - 1] == s[b - 1]);
        }
        b
    } else {
        assert(s.take(s.len() as int) =~= s);
        s.len() as int
    }
}

/// Trimming takes white space off the two ends, all of it, and nothing else.
pub proof fn trimming_takes_white_space_off_the_ends(s: Seq<char>)
    ensures
        exists|a: int, b: int|
            {
                &&& 0 <= a <= b <= s.len()
                &&& trimmed(s) == #[trigger] s.subrange(a, b)
                &&& forall|i: int| 0 <= i < a || b <= i < s.len() ==> is_white_space(#[trigger] s[i])
            },
        trimmed(s).len() > 0 ==> !is_white_space(trimmed(s)[0]) && !is_white_space(
            trimmed(s).last(),
        ),
{
    let a = lemma_trimmed_start_at(s);
    let middle = s.skip(a);
    let b = lemma_trimmed_end_at(middle);
    assert(middle.take(b) =~= s.subrange(a, a + b));
    assert forall|i: int| 0 <= i < a || a + b <= i < s.len() implies is_white_space(
        #[trigger] s[i],
    ) by {
        if i >= a + b {
            assert(middle[i - a] == s[i]);
        }
    }
    if b > 0 {
        assert(middle[0] == s[a]);
    }
}

/// Texts, one after the other, with a separator between each two.
pub open spec fn rejoined(ps: Seq<Seq<char>>, sep: char) -> Seq<char>
    decreases ps.len(),
{
    if ps.len() == 0 {
        Seq::empty()
    } else if ps.len() == 1 {
        ps[0]
    } else {
        rejoined(ps.drop_last(), sep).push(sep) + ps.last()
    }
}

/// The pieces of a text hold no separator, and the text is what they make with
/// a separator between each two.
pub proof fn pieces_make_the_text(s: Seq<char>, sep: char)
    ensures
        pieces(s, sep).len() > 0,
        rejoined(pieces(s, sep), sep) == s,
        forall|i: int| 0 <= i < pieces(s, sep).len() ==> !(#[trigger] pieces(s, sep)[i]).contains(sep),
    decreases s.len(),
{
    let ps = pieces(s, sep);
    if s.len() > 0 {
        let rest = s.drop_last();
        let before = pieces(rest, sep);
        pieces_make_the_text(rest, sep);
        assert(rest.push(s.last()) =~= s);
        if s.last() == sep {
            assert(ps.drop_last() =~= before);
            assert(rejoined(ps, sep) =~= s);
        } else {
            let last = before.last().push(s.last());
            assert(ps.drop_last() =~= before.drop_last());
            assert(ps.last() == last);
            if before.len() == 1 {
                assert(rejoined(before, sep) == before[0]);
                assert(ps[0] == last);
            } else {
                assert(rejoined(ps, sep) =~= rejoined(before.drop_last(), sep).push(sep) + last);
            }
            assert(rejoined(ps, sep) =~= s);
            assert(!before[before.len() - 1].contains(sep));
            assert(!last.contains(sep)) by {
                if last.contains(sep) {
                    let k = choose|k: int| 0 <= k < last.len() && last[k] == sep;
                    if k < before.last().len() {
                        assert(before.last()[k] == sep);
                    }
                }
            }
            assert forall|i: int| 0 <= i < ps.len() implies !(#[trigger] ps[i]).contains(sep) by {
                if i < ps.len() - 1 {
                    assert(ps[i] == before[i]);
                }
            }
        }
    }
}

/// A text is parted at the first separator, and at none where there is none.
pub proof fn parting_splits_at_the_first(s: Seq<char>, sep: char)
    ensures
        match parted(s, sep) {
            Some((a, b)) => s == a.push(sep) + b && !a.contains(sep),
            None => !s.contains(sep),
        },
{
    if s.contains(sep) {
        s.index_of_first_ensures(sep);
        let at = s.index_of_first(sep)->0;
        assert(s =~= s.take(at).push(sep) + s.skip(at + 1));
        if s.take(at).contains(sep) {
            let k = choose|k: int| 0 <= k < at && s.take(at)[k] == sep;
            assert(s[k] == sep);
        }
    }
}

/// The number that a hexadecimal digit stands for.
pub open spec fn digit_value(c: char) -> int {
    if '0' <= c <= '9' {
        c as int - '0' as int
    } else {
        c as int - 'a' as int + 10
    }
}

/// The number that hexadecimal digits stand for, the highest first.
pub open spec fn digits_value(ds: Seq<char>) -> int
    decreases ds.len(),
{
    if ds.len() == 0 {
        0
    } else {
        16 * digits_value(ds.drop_last()) + digit_value(ds.last())
    }
}

/// The lowest hexadecimal digits of a number: as many as asked for, in lower
/// case, and they stand for the number, but for its higher digits.
pub proof fn hex_digits_stand_for_the_number(n: int, width: nat)
    requires
        0 <= n,
    ensures
        hex_digits(n, width).len() == width,
        forall|i: int|
            0 <= i < width ==> crate::ids::is_hex_digit(#[trigger] hex_digits(n, width)[i]),
        digits_value(hex_digits(n, width)) == n % pow(16, width),
    decreases width,
{
    if width == 0 {
        vstd::arithmetic::power::lemma_pow0(16);
    } else {
        let w = (width - 1) as nat;
        let high = hex_digits(n / 16, w);
        let all = hex_digits(n, width);
        hex_digits_stand_for_the_number(n / 16, w);
        assert(all.drop_last() =~= high);
        assert(0 <= n % 16 < 16);
        assert(digit_value(hex_digit(n % 16)) == n % 16);
        assert(crate::ids::is_hex_digit(hex_digit(n % 16)));
        vstd::arithmetic::power::lemma_pow_positive(16, w);
        vstd::arithmetic::power::lemma_pow_positive(16, width);
        assert(pow(16, width) == 16 * pow(16, w)) by {
            reveal(pow);
        }
        vstd::arithmetic::div_mod::lemma_mod_breakdown(n, 16, pow(16, w));
    }
}

proof fn lemma_trimmed_names(ps: Seq<Seq<char>>, name: Seq<char>)
    ensures
        trimmed_names(ps).contains(name) <==> name.len() > 0 && exists|i: int|
            0 <= i < ps.len() && trimmed(#[trigger] ps[i]) == name,
    decreases ps.len(),
{
    if ps.len() > 0 {
        let rest = ps.drop_last();
        lemma_trimmed_names(rest, name);
        if exists|i: int| 0 <= i < ps.len() && trimmed(#[trigger] ps[i]) == name {
            let i = choose|i: int| 0 <= i < ps.len() && trimmed(#[trigger] ps[i]) == name;
            if i < rest.len() {
                assert(rest[i] == ps[i]);
            }
        }
        if exists|i: int| 0 <= i < rest.len() && trimmed(#[trigger] rest[i]) == name {
            let i = choose|i: int| 0 <= i < rest.len() && trimmed(#[trigger] rest[i]) == name;
            assert(ps[i] == rest[i]);
        }
        if trimmed(ps.last()) == name {
            assert(trimmed(ps[ps.len() - 1]) == name);
        }
    }
}

/// A name is denied exactly when it is not empty and stands, but for white
/// space around it, between commas of the list.
pub proof fn denied_names_stand_in_the_list(env: RelayEnv, name: Seq<char>)
    ensures
        env.denied().contains(name) <==> (env.tool_denylist matches Some(list) && name.len() > 0
            && exists|i: int|
            0 <= i < pieces(list@, ',').len() && trimmed(#[trigger] pieces(list@, ',')[i]) == name),
{
    if let Some(list) = env.tool_denylist {
        lemma_trimmed_names(pieces(list@, ','), name);
    }
}

/// Whether a piece of a model map is a pair whose source is `name`.
pub open spec fn maps_model(piece: Seq<char>, name: Seq<char>) -> bool {
    parted(piece, ':') matches Some((from, to)) && trimmed(from) == name
}

proof fn lemma_model_target(pairs: Seq<Seq<char>>, name: Seq<char>)
    ensures
        match model_target(pairs, name) {
            Some(target) => exists|i: int|
                {
                    &&& 0 <= i < pairs.len()
                    &&& maps_model(#[trigger] pairs[i], name)
                    &&& target == trimmed((parted(pairs[i], ':')->0).1)
                    &&& forall|j: int| 0 <= j < i ==> !maps_model(#[trigger] pairs[j], name)
                },
            None => forall|i: int| 0 <= i < pairs.len() ==> !maps_model(#[trigger] pairs[i], name),
        },
    decreases pairs.len(),
{
    if pairs.len() > 0 && !maps_model(pairs[0], name) {
        let rest = pairs.drop_first();
        lemma_model_target(rest, name);
        match model_target(rest, name) {
            Some(target) => {
                let i = choose|i: int|
                    {
                        &&& 0 <= i < rest.len()
                        &&& maps_model(#[trigger] rest[i], name)
                        &&& target == trimmed((parted(rest[i], ':')->0).1)
                        &&& forall|j: int| 0 <= j < i ==> !maps_model(#[trigger] rest[j], name)
                    };
                assert(pairs[i + 1] == rest[i]);
                assert forall|j: int| 0 <= j < i + 1 implies !maps_model(
                    #[trigger] pairs[j],
                    name,
                ) by {
                    if j > 0 {
                        assert(rest[j - 1] == pairs[j]);
                    }
                }
            },
            None => {
                assert forall|j: int| 0 <= j < pairs.len() implies !maps_model(
                    #[trigger] pairs[j],
                    name,
                ) by {
                    if j > 0 {
                        assert(rest[j - 1] == pairs[j]);
                    }
                }
            },
        }
    } else if pairs.len() > 0 {
        assert(maps_model(pairs[0], name));
    }
}

/// A model goes under the target of the first pair for it, and under its own
/// name where no pair is for it.
pub proof fn first_pair_maps_the_model(env: RelayEnv, name: Seq<char>)
    ensures
        env.model_map is None ==> env.mapped_model(name) == name,
        env.model_map matches Some(map) ==> {
            let ps = pieces(map@, ',');
            ||| exists|i: int|
                {
                    &&& 0 <= i < ps.len()
                    &&& maps_model(#[trigger] ps[i], name)
                    &&& env.mapped_model(name) == trimmed((parted(ps[i], ':')->0).1)
                    &&& forall|j: int| 0 <= j < i ==> !maps_model(#[trigger] ps[j], name)
                }
            ||| env.mapped_model(name) == name && forall|i: int|
                0 <= i < ps.len() ==> !maps_model(#[trigger] ps[i], name)
        },
{
    if let Some(map) = env.model_map {
        lemma_model_target(pieces(map@, ','), name);
    }
}

/// A model is known as a GLM model exactly when it stands in the list of them.
pub proof fn glm_models_stand_in_the_list(env: RelayEnv, name: Seq<char>)
    ensures
        env.knows_glm(name) <==> exists|i: int|
            0 <= i < env.glm_models@.len() && (#[trigger] env.glm_models@[i])@ == name,
{
    let names = texts(env.glm_models@);
    if env.knows_glm(name) {
        let i = choose|i: int| 0 <= i < names.len() && names[i] == name;
        assert(env.glm_models@[i]@ == name);
    }
    if exists|i: int| 0 <= i < env.glm_models@.len() && (#[trigger] env.glm_models@[i])@ == name {
        let i = choose|i: int|
            0 <= i < env.glm_models@.len() && (#[trigger] env.glm_models@[i])@ == name;
        assert(names[i] == name);
    }
}

} // verus!
