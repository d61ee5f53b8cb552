//! Characters, white space and decimal numbers.

use vstd::prelude::*;

verus! {

/// `String::push` of std: appends one character.
pub assume_specification[ std::string::String::push ](s: &mut std::string::String, c: char)
    ensures
        final(s)@ == old(s)@.push(c),
;

/// The characters that have the Unicode property `White_Space`.
pub open spec fn white_space(c: char) -> bool {
    let u = c as u32;
    ||| 0x9 <= u <= 0xd
    ||| u == 0x20
    ||| u == 0x85
    ||| u == 0xa0
    ||| u == 0x1680
    ||| 0x2000 <= u <= 0x200a
    ||| u == 0x2028
    ||| u == 0x2029
    ||| u == 0x202f
    ||| u == 0x205f
    ||| u == 0x3000
}

/// `s` without the white space that it starts with.
pub open spec fn trim_start(s: Seq<char>) -> Seq<char>
    decreases s.len(),
{
    if s.len() > 0 && white_space(s[0]) {
        trim_start(s.skip(1))
    } else {
        s
    }
}

/// `s` without the white space that it ends with.
pub open spec fn trim_end(s: Seq<char>) -> Seq<char>
    decreases s.len(),
{
    if s.len() > 0 && white_space(s.last()) {
        trim_end(s.drop_last())
    } else {
        s
    }
}

/// The decimal digits.
pub open spec fn digit(c: char) -> bool {
    '0' <= c <= '9'
}

/// How many digits `s` starts with.
pub open spec fn leading_digits(s: Seq<char>) -> nat
    decreases s.len(),
{
    if s.len() > 0 && digit(s[0]) {
        1 + leading_digits(s.skip(1))
    } else {
        0
    }
}

/// The number that a sequence of digits spells.
pub open spec fn decimal_value(digits: Seq<char>) -> nat
    decreases digits.len(),
{
    if digits.len() == 0 {
        0
    } else {
        10 * decimal_value(digits.drop_last()) + (digits.last() as u32 - '0' as u32) as nat
    }
}

/// The digits of `n`, without leading zeros.
pub open spec fn decimal(n: nat) -> Seq<char>
    decreases n,
{
    if n < 10 {
        seq![('0' as u32 + n) as char]
    } else {
        decimal(n / 10).push(('0' as u32 + n % 10) as char)
    }
}

/// `pat` stands in `hay` at position `i`.
pub open spec fn occurs_at(hay: Seq<char>, pat: Seq<char>, i: int) -> bool {
    0 <= i && i + pat.len() <= hay.len() && hay.subrange(i, i + pat.len()) == pat
}

/// The first position from `i` on at which `pat` stands in `hay`.
pub open spec fn match_from(hay: Seq<char>, pat: Seq<char>, i: int) -> Option<int>
    decreases hay.len() + 1 - i,
{
    if i > hay.len() {
        None
    } else if occurs_at(hay, pat, i) {
        Some(i)
    } else {
        match_from(hay, pat, i + 1)
    }
}

/// `match_from` gives a position at which the pattern stands, with none before it, or none at all.
pub proof fn match_from_is_first(hay: Seq<char>, pat: Seq<char>, i: int)
    ensures
        match match_from(hay, pat, i) {
            Some(k) => i <= k && occurs_at(hay, pat, k) && forall|j: int|
                i <= j < k ==> !occurs_at(hay, pat, j),
            None => forall|j: int| i <= j ==> !occurs_at(hay, pat, j),
        },
    decreases hay.len() + 1 - i,
{
    if i <= hay.len() && !occurs_at(hay, pat, i) {
        match_from_is_first(hay, pat, i + 1);
    }
}

/// Trimming the start of a text skips some of it; returns how much.
pub proof fn trim_start_skips(s: Seq<char>) -> (k: int)
    ensures
        0 <= k <= s.len(),
        trim_start(s) == s.skip(k),
    decreases s.len(),
{
    if s.len() > 0 && white_space(s[0]) {
        let k = trim_start_skips(s.skip(1));
        assert(s.skip(1).skip(k) =~= s.skip(k + 1));
        k + 1
    } else {
        assert(s.skip(0) =~= s);
        0
    }
}

/// Every character is white space.
pub open spec fn all_white(s: Seq<char>) -> bool {
    forall|i: int| 0 <= i < s.len() ==> white_space(#[trigger] s[i])
}

/// Trimming the start of a text drops the white space there, and nothing else.
pub proof fn trim_start_drops_white(white: Seq<char>, s: Seq<char>)
    requires
        all_white(white),
        s.len() > 0 ==> !white_space(s[0]),
    ensures
        trim_start(white + s) == s,
    decreases white.len(),
{
    if white.len() == 0 {
        assert(white + s =~= s);
    } else {
        assert(white_space(white[0]));
        assert((white + s).skip(1) =~= white.skip(1) + s);
        assert forall|i: int| 0 <= i < white.skip(1).len() implies white_space(
            #[trigger] white.skip(1)[i],
        ) by {
            assert(white.skip(1)[i] == white[i + 1]);
        }
        trim_start_drops_white(white.skip(1), s);
    }
}

/// The digits that a number is written with spell that number.
pub proof fn decimal_spells_its_number(n: nat)
    ensures
        decimal_value(decimal(n)) == n,
        decimal(n).len() > 0,
        forall|i: int| 0 <= i < decimal(n).len() ==> digit(#[trigger] decimal(n)[i]),
    decreases n,
{
    let d = ('0' as u32 + n % 10) as char;
    if n < 10 {
        assert(decimal(n).drop_last() =~= Seq::empty());
        assert(decimal_value(decimal(n)) == 10 * decimal_value(Seq::empty()) + n);
    } else {
        decimal_spells_its_number(n / 10);
        assert(decimal(n).drop_last() =~= decimal(n / 10));
    }
}

/// A run of digits is counted up to the character that ends it.
pub proof fn leading_digits_of_run(digits: Seq<char>, tail: Seq<char>)
    requires
        forall|i: int| 0 <= i < digits.len() ==> digit(#[trigger] digits[i]),
        tail.len() > 0 ==> !digit(tail[0]),
    ensures
        leading_digits(digits + tail) == digits.len(),
    decreases digits.len(),
{
    let s = digits + tail;
    if digits.len() == 0 {
        assert(s =~= tail);
    } else {
        assert(s.skip(1) =~= digits.skip(1) + tail);
        leading_digits_of_run(digits.skip(1), tail);
    }
}

/// The characters of `s`.
pub fn chars_of(s: &str) -> (v: Vec<char>)
    ensures
        v@ == s@,
{
    let mut v: Vec<char> = Vec::new();
    for c in it: s.chars()
        invariant
            v@ == it.seq().take(it.index()),
            it.seq() == s@,
    {
        v.push(c);
    }
    v
}

/// The string of the characters `v[from..to]`.
pub fn string_of(v: &Vec<char>, from: usize, to: usize) -> (s: String)
    requires
        from <= to <= v@.len(),
    ensures
        s@ == v@.subrange(from as int, to as int),
{
    let mut s: String = String::new();
    for i in from..to
        invariant
            from <= to <= v@.len(),
            s@ == v@.subrange(from as int, i as int),
    {
        s.push(v[i]);
        assert(v@.subrange(from as int, i + 1) =~= v@.subrange(from as int, i as int).push(
            v@[i as int],
        ));
    }
    s
}

/// Whether `c` has the Unicode property `White_Space`.
pub fn is_white_space(c: char) -> (r: bool)
    ensures
        r == white_space(c),
{
    let u: u32 = c as u32;
    (0x9 <= u && u <= 0xd) || u == 0x20 || u == 0x85 || u == 0xa0 || u == 0x1680 || (0x2000 <= u
        && u <= 0x200a) || u == 0x2028 || u == 0x2029 || u == 0x202f || u == 0x205f || u == 0x3000
}

/// The position from `from` on at which the white space ends.
pub fn skip_white_space(v: &Vec<char>, from: usize) -> (r: usize)
    requires
        from <= v@.len(),
    ensures
        from <= r <= v@.len(),
        v@.skip(r as int) == trim_start(v@.skip(from as int)),
{
    let mut i: usize = from;
    while i < v.len() && is_white_space(v[i])
        invariant
            from <= i <= v@.len(),
            trim_start(v@.skip(i as int)) == trim_start(v@.skip(from as int)),
        decreases v@.len() - i,
    {
        assert(v@.skip(i as int).skip(1) =~= v@.skip(i + 1));
        i = i + 1;
    }
    i
}

/// `s` without the white space around it.
pub fn trim(s: &str) -> (r: String)
    ensures
        r@ == trim_end(trim_start(s@)),
{
    let v: Vec<char> = chars_of(s);
    assert(v@.skip(0) =~= v@);
    let from: usize = skip_white_space(&v, 0);
    let mut to: usize = v.len();
    assert(v@.subrange(from as int, to as int) =~= v@.skip(from as int));
    while to > from && is_white_space(v[to - 1])
        invariant
            from <= to <= v@.len(),
            trim_end(v@.subrange(from as int, to as int)) == trim_end(trim_start(s@)),
        decreases to,
    {
        assert(v@.subrange(from as int, to as int).drop_last() =~= v@.subrange(
            from as int,
            to - 1,
        ));
        to = to - 1;
    }
    string_of(&v, from, to)
}

/// Whether `pat` stands in `hay` at position `i`.
fn stands_at(hay: &Vec<char>, pat: &Vec<char>, i: usize) -> (r: bool)
    requires
        i <= hay@.len(),
    ensures
        r == occurs_at(hay@, pat@, i as int),
{
    if pat.len() > hay.len() - i {
        return false;
    }
    for k in 0..pat.len()
        invariant
            i + pat@.len() <= hay.len(),
            forall|j: int| 0 <= j < k ==> hay@[i + j] == pat@[j],
    {
        if hay[i + k] != pat[k] {
            assert(hay@.subrange(i as int, i + pat@.len())[k as int] != pat@[k as int]);
            return false;
        }
    }
    assert(hay@.subrange(i as int, i + pat@.len()) =~= pat@);
    true
}

/// The first position from `from` on at which `pat` stands in `hay`.
pub fn find(hay: &Vec<char>, pat: &Vec<char>, from: usize) -> (r: Option<usize>)
    requires
        from <= hay@.len(),
    ensures
        match r {
            Some(i) => from <= i && i + pat@.len() <= hay.len() && match_from(
                hay@,
                pat@,
                from as int,
            ) == Some(i as int),
            None => match_from(hay@, pat@, from as int) is None,
        },
{
    let mut i: usize = from;
    while i < hay.len()
        invariant
            from <= i <= hay@.len(),
            match_from(hay@, pat@, i as int) == match_from(hay@, pat@, from as int),
        decreases hay@.len() - i,
    {
        if stands_at(hay, pat, i) {
            return Some(i);
        }
        i = i + 1;
    }
    if stands_at(hay, pat, i) {
        Some(i)
    } else {
        assert(match_from(hay@, pat@, i as int + 1) is None);
        None
    }
}

/// The number spelled by the digits from `from` on; nothing if there are none, or if it does not
/// fit.
pub fn parse_u32(v: &Vec<char>, from: usize) -> (r: Option<u32>)
    requires
        from <= v@.len(),
    ensures
        ({
            let s = v@.skip(from as int);
            let digits = s.take(leading_digits(s) as int);
            match r {
                Some(x) => digits.len() > 0 && decimal_value(digits) == x,
                None => digits.len() == 0 || decimal_value(digits) > u32::MAX,
            }
        }),
{
    let ghost s = v@.skip(from as int);
    let mut i: usize = from;
    let mut acc: u64 = 0;
    assert(s.take(0) =~= Seq::empty());
    assert(s.skip(0) =~= s);
    while i < v.len() && '0' <= v[i] && v[i] <= '9'
        invariant
            from <= i <= v@.len(),
            s == v@.skip(from as int),
            leading_digits(s) == (i - from) + leading_digits(s.skip(i - from)),
            acc <= u32::MAX ==> acc == decimal_value(s.take(i - from)),
            acc > u32::MAX ==> decimal_value(s.take(i - from)) > u32::MAX,
        decreases v@.len() - i,
    {
        assert(s.skip(i - from).skip(1) =~= s.skip(i + 1 - from));
        assert(s.take(i + 1 - from).drop_last() =~= s.take(i - from));
        assert(s.take(i + 1 - from).last() == v@[i as int]);
        let d: u64 = (v[i] as u32 - 48) as u64;
        if acc <= u32::MAX as u64 {
            acc = 10 * acc + d;
        }
        i = i + 1;
    }
    if i == from || acc > u32::MAX as u64 {
        None
    } else {
        Some(acc as u32)
    }
}

/// Appends the digits of `n` to `s`.
pub fn push_decimal(s: &mut String, n: u32)
    ensures
        final(s)@ == old(s)@ + decimal(n as nat),
    decreases n,
{
    let ghost before = s@;
    if n >= 10 {
        push_decimal(s, n / 10);
    }
    let d: u8 = 48 + (n % 10) as u8;
    s.push(d as char);
    assert(s@ =~= before + decimal(n as nat));
}

} // verus!
