//! Reading strings: trimming, splitting, searching, numbers.
use vstd::prelude::*;
use crate::text::{from_chars, to_chars};
use vstd::string::*;

verus! {

/// The characters with the Unicode property `White_Space`.
pub open spec fn white_space(c: char) -> bool {
    let n = c as int;
    ||| 0x9 <= n <= 0xd
    ||| n == 0x20
    ||| n == 0x85
    ||| n == 0xa0
    ||| n == 0x1680
    ||| 0x2000 <= n <= 0x200a
    ||| n == 0x2028
    ||| n == 0x2029
    ||| n == 0x202f
    ||| n == 0x205f
    ||| n == 0x3000
}

fn is_white_space(c: char) -> (b: bool)
    ensures
        b == white_space(c),
{
    proof {
        crate::text::char_code(c);
    }
    let n: u32 = c as u32;
    (0x9 <= n && n <= 0xd) || n == 0x20 || n == 0x85 || n == 0xa0 || n == 0x1680 || (0x2000 <= n
        && n <= 0x200a) || n == 0x2028 || n == 0x2029 || n == 0x202f || n == 0x205f || n == 0x3000
}

/// The text without white space at its end.
pub open spec fn trim_end(s: Seq<char>) -> Seq<char>
    decreases s.len(),
{
    if s.len() > 0 && white_space(s.last()) {
        trim_end(s.drop_last())
    } else {
        s
    }
}

/// The text without white space at its start.
pub open spec fn trim_start(s: Seq<char>) -> Seq<char>
    decreases s.len(),
{
    if s.len() > 0 && white_space(s[0]) {
        trim_start(s.skip(1))
    } else {
        s
    }
}

/// The text without white space at its ends.
pub open spec fn trimmed(s: Seq<char>) -> Seq<char> {
    trim_end(trim_start(s))
}

/// Spaces at the end are trimmed off with the white space before them.
pub proof fn padding_is_trimmed(s: Seq<char>, n: nat)
    ensures
        trimmed(s + Seq::new(n, |i: int| ' ')) == trimmed(s),
    decreases s.len(),
{
    let pad = Seq::new(n, |i: int| ' ');
    if s.len() == 0 {
        assert(s + pad =~= pad);
        spaces_trim_away(n);
    } else if white_space(s[0]) {
        assert((s + pad).skip(1) =~= s.skip(1) + pad);
        assert((s + pad)[0] == s[0]);
        padding_is_trimmed(s.skip(1), n);
    } else {
        assert((s + pad)[0] == s[0]);
        trim_end_padding(s, n);
    }
}

proof fn trims_shorten(s: Seq<char>)
    ensures
        trim_start(s).len() <= s.len(),
        trim_end(s).len() <= s.len(),
        trim_start(s).len() == s.len() ==> trim_start(s) == s,
        trimmed(s).len() == s.len() ==> trim_start(s) == s,
    decreases s.len(),
{
    if s.len() > 0 {
        trims_shorten(s.skip(1));
        trims_shorten(s.drop_last());
        trim_end_shortens(trim_start(s));
    }
}

proof fn trim_end_shortens(s: Seq<char>)
    ensures
        trim_end(s).len() <= s.len(),
    decreases s.len(),
{
    if s.len() > 0 {
        trim_end_shortens(s.drop_last());
    }
}

proof fn spaces_trim_away(n: nat)
    ensures
        trimmed(Seq::new(n, |i: int| ' ')) == Seq::<char>::empty(),
    decreases n,
{
    let pad = Seq::new(n, |i: int| ' ');
    if n > 0 {
        assert(pad.skip(1) =~= Seq::new((n - 1) as nat, |i: int| ' '));
        spaces_trim_away((n - 1) as nat);
    } else {
        assert(pad =~= Seq::<char>::empty());
    }
}

proof fn trim_end_padding(s: Seq<char>, n: nat)
    ensures
        trim_end(s + Seq::new(n, |i: int| ' ')) == trim_end(s),
    decreases n,
{
    let pad = Seq::new(n, |i: int| ' ');
    if n > 0 {
        assert((s + pad).drop_last() =~= s + Seq::new((n - 1) as nat, |i: int| ' '));
        trim_end_padding(s, (n - 1) as nat);
    } else {
        assert(s + pad =~= s);
    }
}

/// The text without white space at its ends.
pub fn trim(s: &str) -> (r: String)
    ensures
        r@ == trimmed(s@),
{
    let chars = to_chars(s);
    let mut from: usize = 0;
    assert(chars@.skip(0) =~= chars@);
    while from < chars.len() && is_white_space(chars[from])
        invariant
            from <= chars@.len(),
            trim_start(chars@) == trim_start(chars@.skip(from as int)),
        decreases chars@.len() - from,
    {
        assert(chars@.skip(from as int).skip(1) =~= chars@.skip(from + 1));
        from = from + 1;
    }
    let ghost start = chars@.skip(from as int);
    let mut to: usize = chars.len();
    assert(chars@.subrange(from as int, to as int) =~= start);
    while to > from && is_white_space(chars[to - 1])
        invariant
            from <= to <= chars@.len(),
            start == chars@.skip(from as int),
            trim_end(start) == trim_end(chars@.subrange(from as int, to as int)),
        decreases to,
    {
        assert(chars@.subrange(from as int, to as int).drop_last() =~= chars@.subrange(
            from as int,
            to - 1,
        ));
        to = to - 1;
    }
    from_chars(chars.as_slice(), from, to)
}

/// Where `c` first stands in `s`, or the length of `s`.
pub open spec fn first_at(s: Seq<char>, c: char) -> int
    decreases s.len(),
{
    if s.len() == 0 || s[0] == c {
        0
    } else {
        1 + first_at(s.skip(1), c)
    }
}

/// The pieces of `s` between the separators: piece `n`, where there is one.
pub open spec fn piece(s: Seq<char>, sep: char, n: nat) -> Option<Seq<char>>
    decreases n,
{
    let at = first_at(s, sep);
    if n == 0 {
        Some(s.take(at))
    } else if at < s.len() {
        piece(s.skip(at + 1), sep, (n - 1) as nat)
    } else {
        None
    }
}

pub proof fn first_at_bounds(s: Seq<char>, c: char)
    ensures
        0 <= first_at(s, c) <= s.len(),
    decreases s.len(),
{
    if s.len() > 0 && s[0] != c {
        first_at_bounds(s.skip(1), c);
    }
}

fn find_char(chars: &[char], c: char, from: usize) -> (at: usize)
    requires
        from <= chars@.len(),
    ensures
        from <= at <= chars@.len(),
        at == from + first_at(chars@.skip(from as int), c),
{
    let mut at: usize = from;
    while at < chars.len() && chars[at] != c
        invariant
            from <= at <= chars@.len(),
            first_at(chars@.skip(from as int), c) == at - from + first_at(
                chars@.skip(at as int),
                c,
            ),
        decreases chars@.len() - at,
    {
        assert(chars@.skip(at as int).skip(1) =~= chars@.skip(at + 1));
        at = at + 1;
    }
    at
}

/// The `n`-th piece of `s` between the separators.
pub fn split_piece(s: &str, sep: char, n: usize) -> (r: Option<String>)
    ensures
        match r {
            Some(p) => piece(s@, sep, n as nat) == Some(p@),
            None => piece(s@, sep, n as nat) is None,
        },
{
    let chars = to_chars(s);
    let mut from: usize = 0;
    let mut left: usize = n;
    assert(chars@.skip(0) =~= chars@);
    while left > 0
        invariant
            from <= chars@.len(),
            chars@ == s@,
            piece(s@, sep, n as nat) == piece(chars@.skip(from as int), sep, left as nat),
        decreases left,
    {
        let at: usize = find_char(chars.as_slice(), sep, from);
        if at >= chars.len() {
            return None;
        }
        assert(chars@.skip(from as int).skip(at - from + 1) =~= chars@.skip(at + 1));
        from = at + 1;
        left = left - 1;
    }
    let at: usize = find_char(chars.as_slice(), sep, from);
    assert(chars@.skip(from as int).take(at - from) =~= chars@.subrange(from as int, at as int));
    Some(from_chars(chars.as_slice(), from, at))
}

/// The piece of `s` behind the last separator; all of `s` where there is none.
pub open spec fn last_piece(s: Seq<char>, sep: char) -> Seq<char>
    decreases s.len(),
{
    if s.len() == 0 || s.last() == sep {
        Seq::empty()
    } else {
        last_piece(s.drop_last(), sep).push(s.last())
    }
}

/// The piece behind the last separator.
pub proof fn last_piece_behind(a: Seq<char>, sep: char, b: Seq<char>)
    requires
        !b.contains(sep),
    ensures
        last_piece(a + seq![sep] + b, sep) == b,
    decreases b.len(),
{
    let s = a + seq![sep] + b;
    if b.len() == 0 {
        assert(s.last() == sep);
        assert(b =~= Seq::<char>::empty());
    } else {
        assert(s.last() == b.last());
        assert(b.contains(b[b.len() - 1]));
        assert(s.drop_last() =~= a + seq![sep] + b.drop_last());
        assert forall|c: char| b.drop_last().contains(c) implies b.contains(c) by {
            let i = choose|i: int| 0 <= i < b.drop_last().len() && b.drop_last()[i] == c;
            assert(b[i] == c);
        }
        last_piece_behind(a, sep, b.drop_last());
        assert(b.drop_last().push(b.last()) =~= b);
    }
}

/// The piece of `s` behind the last separator; all of `s` where there is none.
pub fn rsplit_piece(s: &str, sep: char) -> (r: String)
    ensures
        r@ == last_piece(s@, sep),
{
    let chars = to_chars(s);
    let mut from: usize = chars.len();
    let ghost n = chars@.len();
    assert(chars@.take(n as int) =~= chars@);
    while from > 0 && chars[from - 1] != sep
        invariant
            from <= chars@.len(),
            n == chars@.len(),
            last_piece(chars@, sep) == last_piece(chars@.take(from as int), sep)
                + chars@.subrange(from as int, n as int),
        decreases from,
    {
        let ghost tail = chars@.subrange(from as int, n as int);
        assert(chars@.take(from as int).drop_last() =~= chars@.take(from - 1));
        assert(last_piece(chars@.take(from as int), sep) + tail =~= last_piece(
            chars@.take(from - 1),
            sep,
        ) + chars@.subrange(from - 1, n as int));
        from = from - 1;
    }
    assert(last_piece(chars@, sep) =~= chars@.subrange(from as int, n as int));
    from_chars(chars.as_slice(), from, chars.len())
}

/// Whether `part` stands in `s` at a place.
pub open spec fn stands_at(s: Seq<char>, part: Seq<char>, at: int) -> bool {
    0 <= at && at + part.len() <= s.len() && s.subrange(at, at + part.len()) == part
}

/// Whether `part` stands somewhere in `s`.
pub open spec fn has_part(s: Seq<char>, part: Seq<char>) -> bool {
    exists|at: int| stands_at(s, part, at)
}

fn matches_at(s: &[char], part: &[char], at: usize) -> (b: bool)
    requires
        at + part@.len() <= s.len(),
    ensures
        b == stands_at(s@, part@, at as int),
{
    let mut i: usize = 0;
    while i < part.len()
        invariant
            i <= part@.len(),
            at + part@.len() <= s.len(),
            forall|k: int| 0 <= k < i ==> s@[at + k] == part@[k],
        decreases part@.len() - i,
    {
        if s[at + i] != part[i] {
            assert(s@.subrange(at as int, at + part@.len())[i as int] != part@[i as int]);
            return false;
        }
        i = i + 1;
    }
    assert(s@.subrange(at as int, at + part@.len()) =~= part@);
    true
}

/// Whether `part` stands somewhere in `s`.
pub fn contains(s: &str, part: &str) -> (b: bool)
    ensures
        b == has_part(s@, part@),
{
    let hay = to_chars(s);
    let pat = to_chars(part);
    if pat.len() > hay.len() {
        return false;
    }
    let last: usize = hay.len() - pat.len();
    let mut at: usize = 0;
    while at <= last
        invariant
            hay@ == s@,
            pat@ == part@,
            last + pat@.len() == hay@.len(),
            at <= last + 1,
            forall|k: int| 0 <= k < at ==> !stands_at(s@, part@, k),
        decreases last + 1 - at,
    {
        if matches_at(hay.as_slice(), pat.as_slice(), at) {
            return true;
        }
        if at == last {
            assert forall|k: int| !stands_at(s@, part@, k) by {}
            return false;
        }
        at = at + 1;
    }
    false
}

/// Whether `s` ends with `part`.
pub open spec fn has_suffix(s: Seq<char>, part: Seq<char>) -> bool {
    stands_at(s, part, s.len() - part.len())
}

/// Whether `s` ends with `part`.
pub fn ends_with(s: &str, part: &str) -> (b: bool)
    ensures
        b == has_suffix(s@, part@),
{
    let hay = to_chars(s);
    let pat = to_chars(part);
    if pat.len() > hay.len() {
        return false;
    }
    matches_at(hay.as_slice(), pat.as_slice(), hay.len() - pat.len())
}

/// Whether `s` starts with `part`.
pub open spec fn has_prefix(s: Seq<char>, part: Seq<char>) -> bool {
    stands_at(s, part, 0)
}

/// Whether `s` starts with `part`.
pub fn starts_with(s: &str, part: &str) -> (b: bool)
    ensures
        b == has_prefix(s@, part@),
{
    let hay = to_chars(s);
    let pat = to_chars(part);
    if pat.len() > hay.len() {
        return false;
    }
    matches_at(hay.as_slice(), pat.as_slice(), 0)
}

/// Whether `s` holds the character.
pub fn has_char(s: &str, c: char) -> (b: bool)
    ensures
        b == s@.contains(c),
{
    let chars = to_chars(s);
    let mut i: usize = 0;
    while i < chars.len()
        invariant
            i <= chars@.len(),
            chars@ == s@,
            forall|k: int| 0 <= k < i ==> s@[k] != c,
        decreases chars@.len() - i,
    {
        if chars[i] == c {
            assert(s@[i as int] == c);
            return true;
        }
        i = i + 1;
    }
    false
}

/// The ASCII letters in lower case; the other characters as they are.
pub open spec fn ascii_lower(c: char) -> int {
    if 'A' <= c <= 'Z' {
        c as int + 32
    } else {
        c as int
    }
}

/// Whether two texts are the same but for the case of ASCII letters.
pub open spec fn same_ignoring_case(a: Seq<char>, b: Seq<char>) -> bool {
    a.len() == b.len() && forall|i: int|
        0 <= i < a.len() ==> ascii_lower(#[trigger] a[i]) == ascii_lower(b[i])
}

fn lower_code(c: char) -> (n: u32)
    ensures
        n == ascii_lower(c),
{
    proof {
        crate::text::char_code(c);
    }
    let n: u32 = c as u32;
    if 65 <= n && n <= 90 {
        n + 32
    } else {
        n
    }
}

/// Whether two texts are the same but for the case of ASCII letters.
pub fn eq_ignoring_case(a: &str, b: &str) -> (r: bool)
    ensures
        r == same_ignoring_case(a@, b@),
{
    let x = to_chars(a);
    let y = to_chars(b);
    if x.len() != y.len() {
        return false;
    }
    let mut i: usize = 0;
    while i < x.len()
        invariant
            i <= x@.len() == y@.len(),
            x@ == a@,
            y@ == b@,
            forall|k: int| 0 <= k < i ==> ascii_lower(#[trigger] a@[k]) == ascii_lower(b@[k]),
        decreases x@.len() - i,
    {
        if lower_code(x[i]) != lower_code(y[i]) {
            assert(ascii_lower(a@[i as int]) != ascii_lower(b@[i as int]));
            return false;
        }
        i = i + 1;
    }
    true
}

/// Whether all characters are decimal digits.
pub open spec fn all_digits(s: Seq<char>) -> bool {
    forall|i: int| 0 <= i < s.len() ==> '0' <= #[trigger] s[i] <= '9'
}

/// The number that decimal digits spell.
pub open spec fn digits_value(s: Seq<char>) -> nat
    decreases s.len(),
{
    if s.len() == 0 {
        0
    } else {
        (digits_value(s.drop_last()) * 10 + (s.last() as int - '0' as int)) as nat
    }
}

/// The number up to `max` that a text spells in decimal, with or without a plus sign.
pub open spec fn unsigned(s: Seq<char>, max: nat) -> Option<nat> {
    let digits = if s.len() > 0 && s[0] == '+' {
        s.skip(1)
    } else {
        s
    };
    if digits.len() > 0 && all_digits(digits) && digits_value(digits) <= max {
        Some(digits_value(digits))
    } else {
        None
    }
}

/// The signed 64-bit number that a text spells in decimal, with or without a sign.
pub open spec fn signed(s: Seq<char>) -> Option<int> {
    if s.len() > 0 && s[0] == '-' {
        let digits = s.skip(1);
        if digits.len() > 0 && all_digits(digits) && digits_value(digits)
            <= 0x8000_0000_0000_0000 {
            Some(-(digits_value(digits) as int))
        } else {
            None
        }
    } else {
        match unsigned(s, 0x7fff_ffff_ffff_ffff) {
            Some(v) => Some(v as int),
            None => None,
        }
    }
}

/// The number up to `max` that the digits `chars[from..]` spell.
fn parse_digits(chars: &[char], from: usize, max: u64) -> (r: Option<u64>)
    requires
        from <= chars@.len(),
    ensures
        ({
            let d = chars@.skip(from as int);
            match r {
                Some(v) => d.len() > 0 && all_digits(d) && v == digits_value(d) && v <= max,
                None => d.len() == 0 || !all_digits(d) || digits_value(d) > max,
            }
        }),
{
    let ghost d = chars@.skip(from as int);
    if from == chars.len() {
        return None;
    }
    let mut v: u64 = 0;
    let mut over: bool = false;
    let mut i: usize = from;
    while i < chars.len()
        invariant
            from <= i <= chars@.len(),
            d == chars@.skip(from as int),
            all_digits(d.take(i - from)),
            !over ==> v == digits_value(d.take(i - from)) && v <= max,
            over ==> digits_value(d.take(i - from)) > max,
        decreases chars@.len() - i,
    {
        let c: char = chars[i];
        proof {
            crate::text::char_code(c);
            assert(d.take(i - from + 1).drop_last() =~= d.take(i - from));
            assert(d[i - from] == c);
        }
        let n: u32 = c as u32;
        if n < 48 || n > 57 {
            assert(!all_digits(d));
            return None;
        }
        let digit: u64 = (n - 48) as u64;
        assert(all_digits(d.take(i - from + 1))) by {
            assert forall|k: int| 0 <= k < d.take(i - from + 1).len() implies '0'
                <= #[trigger] d.take(i - from + 1)[k] <= '9' by {
                if k < i - from {
                    assert(d.take(i - from)[k] == d.take(i - from + 1)[k]);
                }
            }
        }
        if !over {
            let wide: u128 = v as u128 * 10 + digit as u128;
            if wide > max as u128 {
                over = true;
            } else {
                v = wide as u64;
            }
        }
        i = i + 1;
    }
    assert(d.take(i - from) =~= d);
    if over {
        None
    } else {
        Some(v)
    }
}

/// The number up to `max` that a text spells in decimal, with or without a plus sign.
pub fn parse_unsigned(s: &str, max: u64) -> (r: Option<u64>)
    ensures
        match r {
            Some(v) => unsigned(s@, max as nat) == Some(v as nat),
            None => unsigned(s@, max as nat) is None,
        },
{
    let chars = to_chars(s);
    assert(chars@.skip(0) =~= chars@);
    let from: usize = if chars.len() > 0 && chars[0] == '+' {
        1
    } else {
        0
    };
    parse_digits(chars.as_slice(), from, max)
}

/// The signed 64-bit number that a text spells in decimal, with or without a sign.
pub fn parse_signed(s: &str) -> (r: Option<i64>)
    ensures
        match r {
            Some(v) => signed(s@) == Some(v as int),
            None => signed(s@) is None,
        },
{
    let chars = to_chars(s);
    if chars.len() > 0 && chars[0] == '-' {
        match parse_digits(chars.as_slice(), 1, 0x8000_0000_0000_0000) {
            Some(v) => if v == 0x8000_0000_0000_0000 {
                Some(i64::MIN)
            } else {
                Some(-(v as i64))
            },
            None => None,
        }
    } else {
        match parse_unsigned(s, 0x7fff_ffff_ffff_ffff) {
            Some(v) => Some(v as i64),
            None => None,
        }
    }
}

/// Where `part` first stands in `s` at or behind `from`.
pub open spec fn find_bytes(s: Seq<u8>, part: Seq<u8>, from: nat) -> Option<nat>
    decreases s.len() + 1 - from,
{
    if from + part.len() > s.len() {
        None
    } else if s.subrange(from as int, (from + part.len()) as int) == part {
        Some(from)
    } else {
        find_bytes(s, part, from + 1)
    }
}

/// Where `part` first stands in `s` at or behind `from`.
pub fn find_bytes_from(s: &[u8], part: &[u8], from: usize) -> (r: Option<usize>)
    requires
        from <= s@.len(),
    ensures
        match r {
            Some(at) => find_bytes(s@, part@, from as nat) == Some(at as nat) && from <= at && at
                + part@.len() <= s@.len(),
            None => find_bytes(s@, part@, from as nat) is None,
        },
{
    let n: usize = s.len();
    let m: usize = part.len();
    let mut at: usize = from;
    loop
        invariant
            n == s@.len(),
            m == part@.len(),
            from <= at <= n,
            find_bytes(s@, part@, from as nat) == find_bytes(s@, part@, at as nat),
        decreases n - at,
    {
        if m > n - at {
            return None;
        }
        if crate::text::bytes_equal(&s[at..at + m], part) {
            return Some(at);
        }
        assert(m == 0 ==> s@.subrange(at as int, at + m) =~= part@);
        at = at + 1;
    }
}

} // verus!
