//! Fields of the flat JSON objects that the control protocol uses.
//!
//! A field is found by the first occurrence of its quoted name; the object is not parsed further.

use vstd::prelude::*;

use crate::control::text::{
    all_white, chars_of, decimal, decimal_spells_its_number, decimal_value, digit, find,
    leading_digits, leading_digits_of_run, match_from, match_from_is_first, occurs_at, parse_u32,
    skip_white_space, string_of, trim_start, trim_start_drops_white, trim_start_skips,
    white_space,
};

verus! {

/// `key` in double quotes.
pub open spec fn quoted(key: Seq<char>) -> Seq<char> {
    seq!['"'] + key + seq!['"']
}

/// What stands behind the colon of the field `key`, from the value on.
pub open spec fn field_value(json: Seq<char>, key: Seq<char>) -> Option<Seq<char>> {
    match match_from(json, quoted(key), 0) {
        None => None,
        Some(i) => {
            let rest = trim_start(json.skip(i + key.len() + 2));
            if rest.len() > 0 && rest[0] == ':' {
                Some(trim_start(rest.skip(1)))
            } else {
                None
            }
        },
    }
}

/// The string in the field `key`: what stands between the two double quotes of its value.
pub open spec fn string_field(json: Seq<char>, key: Seq<char>) -> Option<Seq<char>> {
    match field_value(json, key) {
        None => None,
        Some(value) => if value.len() == 0 || value[0] != '"' {
            None
        } else {
            match match_from(value, seq!['"'], 1) {
                None => None,
                Some(end) => Some(value.subrange(1, end)),
            }
        },
    }
}

/// The number in the field `key`: its value starts with digits, and they spell a number that fits.
pub open spec fn u32_field(json: Seq<char>, key: Seq<char>) -> Option<u32> {
    match field_value(json, key) {
        None => None,
        Some(value) => {
            let digits = value.take(leading_digits(value) as int);
            if digits.len() == 0 || decimal_value(digits) > u32::MAX {
                None
            } else {
                Some(decimal_value(digits) as u32)
            }
        },
    }
}

/// The position at which the value of the field `key` starts.
fn locate_value(json: &Vec<char>, key: &str) -> (r: Option<usize>)
    ensures
        match r {
            Some(at) => at <= json@.len() && field_value(json@, key@) == Some(
                json@.skip(at as int),
            ),
            None => field_value(json@, key@) is None,
        },
{
    let name: Vec<char> = chars_of(key);
    let mut pattern: Vec<char> = Vec::with_capacity(name.len());
    pattern.push('"');
    let mut k: usize = 0;
    while k < name.len()
        invariant
            k <= name@.len(),
            name@ == key@,
            pattern@ == seq!['"'] + key@.take(k as int),
        decreases name@.len() - k,
    {
        pattern.push(name[k]);
        k = k + 1;
        assert(pattern@ =~= seq!['"'] + key@.take(k as int));
    }
    pattern.push('"');
    assert(pattern@ =~= quoted(key@));
    let start: usize = match find(json, &pattern, 0) {
        Some(i) => i + pattern.len(),
        None => {
            return None;
        },
    };
    let colon: usize = skip_white_space(json, start);
    if colon < json.len() && json[colon] == ':' {
        assert(json@.skip(colon as int).skip(1) =~= json@.skip(colon + 1));
        Some(skip_white_space(json, colon + 1))
    } else {
        None
    }
}

/// The string value of the field `key` of a JSON object: `{"key": "value", ...}`.
pub fn extract_string_field(json: &str, key: &str) -> (r: Option<String>)
    ensures
        match r {
            Some(value) => string_field(json@, key@) == Some(value@),
            None => string_field(json@, key@) is None,
        },
{
    let v: Vec<char> = chars_of(json);
    let at: usize = match locate_value(&v, key) {
        Some(at) => at,
        None => {
            return None;
        },
    };
    if at >= v.len() || v[at] != '"' {
        return None;
    }
    let mut quote: Vec<char> = Vec::with_capacity(1);
    quote.push('"');
    assert(quote@ =~= seq!['"']);
    proof {
        match_from_shifted(v@, quote@, at as int, 1);
    }
    match find(&v, &quote, at + 1) {
        Some(end) => {
            assert(v@.skip(at as int).subrange(1, end - at) =~= v@.subrange(at + 1, end as int));
            Some(string_of(&v, at + 1, end))
        },
        None => None,
    }
}

/// The number in the field `key` of a JSON object: `{"key": 123, ...}`.
pub fn extract_u32_field(json: &str, key: &str) -> (r: Option<u32>)
    ensures
        r == u32_field(json@, key@),
{
    let v: Vec<char> = chars_of(json);
    match locate_value(&v, key) {
        Some(at) => parse_u32(&v, at),
        None => None,
    }
}

/// Searching the rest of a text is searching the text from there on.
proof fn match_from_shifted(s: Seq<char>, pat: Seq<char>, at: int, i: int)
    requires
        0 <= at <= s.len(),
        0 <= i,
        pat.len() > 0,
    ensures
        match match_from(s, pat, at + i) {
            Some(k) => match_from(s.skip(at), pat, i) == Some(k - at),
            None => match_from(s.skip(at), pat, i) is None,
        },
    decreases s.len() + 1 - at - i,
{
    if at + i <= s.len() {
        if i + pat.len() <= s.len() - at {
            assert(s.subrange(at + i, at + i + pat.len()) =~= s.skip(at).subrange(
                i,
                i + pat.len(),
            ));
        }
        if !occurs_at(s, pat, at + i) {
            match_from_shifted(s, pat, at, i + 1);
        }
    }
}

/// The value of a string field is a stretch of the object.
pub proof fn string_field_is_part(json: Seq<char>, key: Seq<char>)
    ensures
        string_field(json, key) matches Some(value) ==> exists|from: int, to: int|
            0 <= from <= to <= json.len() && value == #[trigger] json.subrange(from, to),
{
    if string_field(json, key) is Some {
        match_from_is_first(json, quoted(key), 0);
        let i = match_from(json, quoted(key), 0).unwrap();
        let after_key = i + key.len() + 2;
        let a = after_key + trim_start_skips(json.skip(after_key));
        let rest = json.skip(a);
        assert(trim_start(json.skip(after_key)) =~= rest);
        let b = a + 1 + trim_start_skips(rest.skip(1));
        let value = json.skip(b);
        assert(rest.skip(1) =~= json.skip(a + 1));
        assert(trim_start(rest.skip(1)) =~= value);
        match_from_is_first(value, seq!['"'], 1);
        let end = match_from(value, seq!['"'], 1).unwrap();
        assert(value.subrange(1, end) =~= json.subrange(b + 1, b + end));
    }
}

/// An object in which the field `key` stands behind `start`, with the white space `left` and `right`
/// on both sides of its colon, and then `value` and whatever follows it.
pub open spec fn with_field(
    start: Seq<char>,
    key: Seq<char>,
    left: Seq<char>,
    right: Seq<char>,
    value: Seq<char>,
) -> Seq<char> {
    start + quoted(key) + left + seq![':'] + right + value
}

/// The name of the field does not occur before the field itself.
pub open spec fn first_there(start: Seq<char>, key: Seq<char>, json: Seq<char>) -> bool {
    forall|i: int| 0 <= i < start.len() ==> !#[trigger] occurs_at(json, quoted(key), i)
}

/// The value of a field is what follows its colon, whatever the white space around that.
proof fn field_value_is_found(
    start: Seq<char>,
    key: Seq<char>,
    left: Seq<char>,
    right: Seq<char>,
    value: Seq<char>,
)
    requires
        all_white(left),
        all_white(right),
        value.len() > 0 ==> !white_space(value[0]),
        first_there(start, key, with_field(start, key, left, right, value)),
    ensures
        field_value(with_field(start, key, left, right, value), key) == Some(value),
{
    let json = with_field(start, key, left, right, value);
    let at = start.len() as int;
    assert(json.subrange(at, at + quoted(key).len()) =~= quoted(key));
    assert(occurs_at(json, quoted(key), at));
    match_from_is_first(json, quoted(key), 0);
    assert(match_from(json, quoted(key), 0) == Some(at));
    let colon = seq![':'] + right + value;
    assert(json.skip(at + key.len() + 2) =~= left + colon);
    assert(!white_space(':'));
    trim_start_drops_white(left, colon);
    assert(colon.skip(1) =~= right + value);
    trim_start_drops_white(right, value);
}

/// A number that is written into a field of an object is read back from it, whatever the white
/// space around the colon and whatever stands before and after, as long as the name of the field
/// does not occur earlier and no digit follows.
pub proof fn number_field_reads_back(
    start: Seq<char>,
    key: Seq<char>,
    left: Seq<char>,
    right: Seq<char>,
    n: u32,
    tail: Seq<char>,
)
    requires
        all_white(left),
        all_white(right),
        first_there(
            start,
            key,
            with_field(start, key, left, right, decimal(n as nat) + tail),
        ),
        tail.len() > 0 ==> !digit(tail[0]),
    ensures
        u32_field(with_field(start, key, left, right, decimal(n as nat) + tail), key) == Some(n),
{
    let digits = decimal(n as nat);
    decimal_spells_its_number(n as nat);
    leading_digits_of_run(digits, tail);
    let value = digits + tail;
    assert(digit(digits[0]));
    assert(value[0] == digits[0]);
    field_value_is_found(start, key, left, right, value);
    assert(value.take(digits.len() as int) =~= digits);
}

/// A string without double quotes that is written into a field of an object is read back from it,
/// whatever the white space around the colon and whatever stands before and after, as long as the
/// name of the field does not occur earlier.
pub proof fn string_field_reads_back(
    start: Seq<char>,
    key: Seq<char>,
    left: Seq<char>,
    right: Seq<char>,
    text: Seq<char>,
    tail: Seq<char>,
)
    requires
        all_white(left),
        all_white(right),
        first_there(start, key, with_field(start, key, left, right, quoted(text) + tail)),
        !text.contains('"'),
    ensures
        string_field(with_field(start, key, left, right, quoted(text) + tail), key) == Some(text),
{
    let value = quoted(text) + tail;
    field_value_is_found(start, key, left, right, value);
    let end: int = 1int + text.len();
    assert(value.subrange(end, end + 1) =~= seq!['"']);
    assert forall|j: int| 1 <= j < end implies !occurs_at(value, seq!['"'], j) by {
        assert(value[j] == text[j - 1]);
        assert(value.subrange(j, j + 1)[0] == value[j]);
        assert(text.contains(text[j - 1]));
    }
    match_from_is_first(value, seq!['"'], 1);
    let found = match_from(value, seq!['"'], 1);
    assert(occurs_at(value, seq!['"'], end));
    assert(found == Some(end));
    assert(value.subrange(1, end) =~= text);
}

} // verus!
