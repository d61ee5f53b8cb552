//! How the lines of the control protocol are read, character by character.

use vstd::prelude::*;

use crate::control::json::{field_value, quoted, string_field, u32_field};
use crate::control::text::{
    decimal, decimal_value, digit, leading_digits, match_from, match_from_is_first, occurs_at,
    trim_end, trim_start, white_space,
};

verus! {

/// The characters that count as white space.
pub open spec fn blank(c: char) -> bool {
    ||| c == '\t' || c == '\n' || c == '\u{b}' || c == '\u{c}' || c == '\r' || c == ' '
    ||| c == '\u{85}' || c == '\u{a0}' || c == '\u{1680}'
    ||| '\u{2000}' <= c <= '\u{200a}'
    ||| c == '\u{2028}' || c == '\u{2029}' || c == '\u{202f}' || c == '\u{205f}' || c == '\u{3000}'
}

/// White space is what has the Unicode property of that name.
pub proof fn white_space_is_blank(c: char)
    ensures
        white_space(c) == blank(c),
{
}

/// From `from` up to `to`, and no further, `s` is white space.
pub open spec fn blank_up_to(s: Seq<char>, from: int, to: int) -> bool {
    &&& 0 <= from <= to <= s.len()
    &&& forall|i: int| from <= i < to ==> blank(#[trigger] s[i])
    &&& to == s.len() || !blank(s[to])
}

/// Trimming the start of what begins at `from`.
proof fn trimmed_start(s: Seq<char>, from: int, to: int)
    requires
        blank_up_to(s, from, to),
    ensures
        trim_start(s.skip(from)) == s.skip(to),
    decreases to - from,
{
    let t = s.skip(from);
    if t.len() > 0 {
        white_space_is_blank(t[0]);
    }
    if from < to {
        assert(blank(s[from]));
        assert(t[0] == s[from]);
        assert(t.skip(1) =~= s.skip(from + 1));
        trimmed_start(s, from + 1, to);
    } else if t.len() > 0 {
        assert(t[0] == s[from]);
    }
}

/// Trimming the end of what reaches from `from` to the end.
proof fn trimmed_end(s: Seq<char>, from: int, to: int)
    requires
        0 <= from <= to <= s.len(),
        forall|i: int| to <= i < s.len() ==> blank(#[trigger] s[i]),
        from == to || !blank(s[to - 1]),
    ensures
        trim_end(s.skip(from)) == s.subrange(from, to),
    decreases s.len(),
{
    let t = s.skip(from);
    if t.len() > 0 {
        white_space_is_blank(t.last());
    }
    if to < s.len() {
        assert(blank(s[s.len() - 1]));
        assert(t.last() == s[s.len() - 1]);
        assert(t.drop_last() =~= s.drop_last().skip(from));
        trimmed_end(s.drop_last(), from, to);
        assert(s.drop_last().subrange(from, to) =~= s.subrange(from, to));
    } else {
        if from < to {
            assert(t.last() == s[to - 1]);
        }
        assert(s.subrange(from, to) =~= t);
    }
}

/// Trimming a text leaves what reaches from its first to its last character that is not white
/// space, and nothing of a text without one.
pub proof fn trimming_drops_the_blanks_around(s: Seq<char>, from: int, to: int)
    requires
        0 <= from <= to <= s.len(),
        forall|i: int| 0 <= i < from || to <= i < s.len() ==> blank(#[trigger] s[i]),
        from < to ==> !blank(s[from]) && !blank(s[to - 1]),
    ensures
        trim_end(trim_start(s)) == s.subrange(from, to),
{
    assert(s.skip(0) =~= s);
    if from < to {
        trimmed_start(s, 0, from);
        trimmed_end(s, from, to);
    } else {
        trimmed_start(s, 0, s.len() as int);
        assert(trim_end(s.skip(s.len() as int)) =~= Seq::empty());
        assert(s.subrange(from, to) =~= Seq::empty());
    }
}

/// `key` stands at position `i` of `json`, between double quotes.
pub open spec fn key_at(json: Seq<char>, key: Seq<char>, i: int) -> bool {
    &&& 0 <= i
    &&& i + key.len() + 2 <= json.len()
    &&& json[i] == '"'
    &&& json[i + 1 + key.len()] == '"'
    &&& forall|k: int| 0 <= k < key.len() ==> json[i + 1 + k] == #[trigger] key[k]
}

/// Standing between quotes is standing there as a quoted text.
proof fn quoted_stands(json: Seq<char>, key: Seq<char>, i: int)
    ensures
        key_at(json, key, i) == occurs_at(json, quoted(key), i),
{
    let n = key.len() as int;
    let q = quoted(key);
    assert(q.len() == n + 2);
    assert(q[0] == '"' && q[n + 1] == '"');
    if 0 <= i && i + n + 2 <= json.len() {
        let part = json.subrange(i, i + q.len());
        if key_at(json, key, i) {
            assert forall|k: int| 0 <= k < q.len() implies part[k] == q[k] by {
                if 0 < k < n + 1 {
                    assert(q[k] == key[k - 1]);
                    assert(json[i + 1 + (k - 1)] == key[k - 1]);
                }
            }
            assert(part =~= q);
        }
        if part == q {
            assert(part[0] == json[i]);
            assert(part[n + 1] == json[i + 1 + n]);
            assert forall|k: int| 0 <= k < key.len() implies json[i + 1 + k]
                == #[trigger] key[k] by {
                assert(part[k + 1] == json[i + 1 + k]);
                assert(q[k + 1] == key[k]);
            }
        }
    }
}

/// A line in which the name of a field does not stand has no such field.
pub proof fn absent_field_is_not_found(json: Seq<char>, key: Seq<char>)
    requires
        forall|i: int| !#[trigger] key_at(json, key, i),
    ensures
        string_field(json, key) is None,
        u32_field(json, key) is None,
{
    match_from_is_first(json, quoted(key), 0);
    if let Some(i) = match_from(json, quoted(key), 0) {
        quoted_stands(json, key, i);
        assert(!key_at(json, key, i));
    }
}

/// The name of the field stands at `at` and nowhere before; behind it comes white space up to
/// `colon`.
pub open spec fn named_first(json: Seq<char>, key: Seq<char>, at: int, colon: int) -> bool {
    &&& key_at(json, key, at)
    &&& forall|i: int| 0 <= i < at ==> !#[trigger] key_at(json, key, i)
    &&& blank_up_to(json, at + key.len() + 2, colon)
}

/// What follows the name of a field decides about it.
proof fn value_behind_the_name(json: Seq<char>, key: Seq<char>, at: int, colon: int)
    requires
        named_first(json, key, at, colon),
    ensures
        field_value(json, key) == if colon < json.len() && json[colon] == ':' {
            Some(trim_start(json.skip(colon + 1)))
        } else {
            None
        },
{
    match_from_is_first(json, quoted(key), 0);
    quoted_stands(json, key, at);
    assert(match_from(json, quoted(key), 0) == Some(at)) by {
        match match_from(json, quoted(key), 0) {
            Some(k) => {
                quoted_stands(json, key, k);
                if k < at {
                    assert(!key_at(json, key, k));
                }
            },
            None => {},
        }
    }
    trimmed_start(json, at + key.len() + 2, colon);
    let rest = json.skip(colon);
    if colon < json.len() {
        assert(rest[0] == json[colon]);
        assert(rest.skip(1) =~= json.skip(colon + 1));
    }
}

/// Without a colon behind its name a field has no value.
pub proof fn field_without_colon_has_no_value(
    json: Seq<char>,
    key: Seq<char>,
    at: int,
    colon: int,
)
    requires
        named_first(json, key, at, colon),
        colon == json.len() || json[colon] != ':',
    ensures
        string_field(json, key) is None,
        u32_field(json, key) is None,
{
    value_behind_the_name(json, key, at, colon);
}

/// The value of the field begins at `value`.
pub open spec fn value_at(
    json: Seq<char>,
    key: Seq<char>,
    at: int,
    colon: int,
    value: int,
) -> bool {
    &&& named_first(json, key, at, colon)
    &&& colon < json.len()
    &&& json[colon] == ':'
    &&& blank_up_to(json, colon + 1, value)
}

/// A string field holds what stands between the double quote that its value begins with and the
/// next one. If there are no two of them it holds nothing.
pub proof fn string_field_is_between_its_quotes(
    json: Seq<char>,
    key: Seq<char>,
    at: int,
    colon: int,
    value: int,
    end: int,
)
    requires
        value_at(json, key, at, colon, value),
        value < end <= json.len(),
        forall|i: int| value < i < end ==> #[trigger] json[i] != '"',
        end == json.len() || json[end] == '"',
    ensures
        string_field(json, key) == if json[value] == '"' && end < json.len() {
            Some(json.subrange(value + 1, end))
        } else {
            None
        },
{
    value_behind_the_name(json, key, at, colon);
    trimmed_start(json, colon + 1, value);
    let v = json.skip(value);
    assert(v[0] == json[value]);
    if json[value] == '"' {
        let quote = seq!['"'];
        match_from_is_first(v, quote, 1);
        let found = match_from(v, quote, 1);
        if end < json.len() {
            assert(v.subrange(end - value, end - value + 1) =~= quote);
            assert(occurs_at(v, quote, end - value));
        }
        if let Some(k) = found {
            assert(v.subrange(k, k + 1)[0] == v[k]);
            assert(v[k] == json[value + k]);
            assert(quote[0] == '"');
            assert(value + k >= end);
        }
        if end < json.len() {
            assert(found == Some(end - value));
            assert(v.subrange(1, end - value) =~= json.subrange(value + 1, end));
        }
    }
}

/// A line that ends before the value has neither a string nor a number there.
pub proof fn empty_value_is_nothing(
    json: Seq<char>,
    key: Seq<char>,
    at: int,
    colon: int,
)
    requires
        value_at(json, key, at, colon, json.len() as int),
    ensures
        string_field(json, key) is None,
        u32_field(json, key) is None,
{
    value_behind_the_name(json, key, at, colon);
    trimmed_start(json, colon + 1, json.len() as int);
}

/// The number that the characters from `from` up to `to` spell in decimal.
pub open spec fn number_in(s: Seq<char>, from: int, to: int) -> int
    decreases to - from,
{
    if to <= from {
        0
    } else {
        10 * number_in(s, from, to - 1) + (s[to - 1] as int - 48)
    }
}

/// The characters from `from` up to `to`, and no further, are digits.
pub open spec fn digits_up_to(s: Seq<char>, from: int, to: int) -> bool {
    &&& 0 <= from <= to <= s.len()
    &&& forall|i: int| from <= i < to ==> 48 <= #[trigger] s[i] as int <= 57
    &&& to == s.len() || !(48 <= s[to] as int <= 57)
}

/// What a stretch of digits spells.
proof fn stretch_of_digits(s: Seq<char>, from: int, to: int)
    requires
        0 <= from <= to <= s.len(),
        forall|i: int| from <= i < to ==> 48 <= #[trigger] s[i] as int <= 57,
    ensures
        decimal_value(s.subrange(from, to)) == number_in(s, from, to),
    decreases to - from,
{
    if from < to {
        let part = s.subrange(from, to);
        assert(part.drop_last() =~= s.subrange(from, to - 1));
        assert(part.last() == s[to - 1]);
        stretch_of_digits(s, from, to - 1);
        assert(48 <= s[to - 1] as int);
    } else {
        assert(s.subrange(from, to) =~= Seq::empty());
    }
}

/// How many digits follow.
proof fn digits_follow(s: Seq<char>, from: int, to: int)
    requires
        digits_up_to(s, from, to),
    ensures
        leading_digits(s.skip(from)) == to - from,
    decreases to - from,
{
    let t = s.skip(from);
    if from < to {
        assert(48 <= s[from] as int <= 57);
        assert(t[0] == s[from]);
        assert(digit(t[0]));
        assert(t.skip(1) =~= s.skip(from + 1));
        digits_follow(s, from + 1, to);
    } else if t.len() > 0 {
        assert(t[0] == s[from]);
    }
}

/// A number field holds the number that the digits spell with which its value begins, all of them
/// and with any zeros in front. If there are none, or if the number takes more than 32 bits, it
/// holds nothing.
pub proof fn number_field_is_what_its_digits_spell(
    json: Seq<char>,
    key: Seq<char>,
    at: int,
    colon: int,
    value: int,
    end: int,
)
    requires
        value_at(json, key, at, colon, value),
        digits_up_to(json, value, end),
    ensures
        value == end || number_in(json, value, end) >= 4294967296 ==> u32_field(json, key) is None,
        value < end && number_in(json, value, end) < 4294967296 ==> u32_field(json, key) is Some
            && u32_field(json, key).unwrap() == number_in(json, value, end),
{
    value_behind_the_name(json, key, at, colon);
    trimmed_start(json, colon + 1, value);
    digits_follow(json, value, end);
    stretch_of_digits(json, value, end);
    let v = json.skip(value);
    assert(v.take(end - value) =~= json.subrange(value, end));
}

/// A number is written with digits that spell it, and without a zero in front unless it is zero.
pub proof fn number_is_written_in_its_digits(n: nat)
    ensures
        decimal(n).len() > 0,
        digits_up_to(decimal(n), 0, decimal(n).len() as int),
        number_in(decimal(n), 0, decimal(n).len() as int) == n,
        n > 0 ==> decimal(n)[0] != '0',
        n == 0 ==> decimal(n).len() == 1,
    decreases n,
{
    let s = decimal(n);
    let len = s.len() as int;
    let last = ('0' as u32 + n % 10) as char;
    if n < 10 {
        assert(number_in(s, 0, 1) == 10 * number_in(s, 0, 0) + (s[0] as int - 48));
    } else {
        number_is_written_in_its_digits(n / 10);
        let front = decimal(n / 10);
        same_number(front, s, len - 1);
        assert(s[len - 1] == last);
        assert(s[0] == front[0]);
        assert forall|i: int| 0 <= i < len implies 48 <= #[trigger] s[i] as int <= 57 by {
            if i < len - 1 {
                assert(s[i] == front[i]);
            }
        }
    }
}

/// The same digits spell the same number.
proof fn same_number(a: Seq<char>, b: Seq<char>, n: int)
    requires
        0 <= n <= a.len(),
        n <= b.len(),
        forall|i: int| 0 <= i < n ==> a[i] == b[i],
    ensures
        number_in(a, 0, n) == number_in(b, 0, n),
    decreases n,
{
    if n > 0 {
        same_number(a, b, n - 1);
    }
}

} // verus!
