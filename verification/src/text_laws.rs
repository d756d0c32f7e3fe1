//! What reading and writing of text promise: numbers come back, trimming takes white space only,
//! pieces make up the text, and searching finds the first place.
use vstd::prelude::*;
use crate::scan;
use crate::text;

verus! {

/// A written number is read back: its digits are decimal digits that spell it, without a leading
/// zero.
pub proof fn decimals_are_read_back(n: nat)
    ensures
        text::decimal(n).len() > 0,
        scan::all_digits(text::decimal(n)),
        scan::digits_value(text::decimal(n)) == n,
        n > 0 ==> text::decimal(n)[0] != '0',
    decreases n,
{
    let d = text::decimal(n);
    if n < 10 {
        digit_is_read_back(n);
        assert(d.drop_last() =~= Seq::empty());
        reveal_with_fuel(scan::digits_value, 2);
    } else {
        decimals_are_read_back(n / 10);
        digit_is_read_back(n % 10);
        let front = text::decimal(n / 10);
        assert(d.drop_last() =~= front);
        assert forall|i: int| 0 <= i < d.len() implies '0' <= #[trigger] d[i] <= '9' by {
            if i < front.len() {
                assert(d[i] == front[i]);
            }
        }
        assert(d[0] == front[0]);
    }
}

proof fn digit_is_read_back(d: nat)
    requires
        d < 10,
    ensures
        '0' <= text::digit_char(d) <= '9',
        text::digit_char(d) as int - '0' as int == d,
{
}

/// Digits spell a number place by place: the last digit counts once, those before it ten times.
pub proof fn digits_count_by_place(front: Seq<char>, c: char)
    requires
        scan::all_digits(front),
        '0' <= c <= '9',
    ensures
        scan::digits_value(front.push(c)) == 10 * scan::digits_value(front) + (c as int - '0' as int),
{
    assert(front.push(c).drop_last() =~= front);
}

/// A written number up to `max` is read back, with or without a plus sign; a larger one is refused,
/// and so is what is no number.
pub proof fn unsigned_numbers_are_read_back(n: nat, max: nat)
    ensures
        scan::unsigned(text::decimal(n), max) == if n <= max {
            Some(n)
        } else {
            None
        },
        scan::unsigned(seq!['+'] + text::decimal(n), max) == if n <= max {
            Some(n)
        } else {
            None
        },
        scan::unsigned(Seq::empty(), max) is None,
        scan::unsigned(seq!['+'], max) is None,
        scan::unsigned(seq!['-'] + text::decimal(n), max) is None,
{
    decimals_are_read_back(n);
    let d = text::decimal(n);
    assert('0' <= d[0] <= '9');
    assert((seq!['+'] + d).skip(1) =~= d);
    assert(seq!['+'].skip(1) =~= Seq::empty());
    let minus = seq!['-'] + d;
    assert(minus[0] == '-');
    assert(!scan::all_digits(minus));
}

/// What is read as a number holds digits only, but for one sign in front.
pub proof fn numbers_are_digits(s: Seq<char>, i: int)
    requires
        scan::signed(s) is Some,
        0 <= i < s.len(),
    ensures
        '0' <= s[i] <= '9' || i == 0 && s.len() > 1 && (s[i] == '-' || s[i] == '+'),
        scan::signed(s)->Some_0 < 0 ==> s[0] == '-',
        -0x8000_0000_0000_0000 <= scan::signed(s)->Some_0 < 0x8000_0000_0000_0000,
{
    if i > 0 && (s[0] == '-' || s[0] == '+') {
        assert(s.skip(1)[i - 1] == s[i]);
    }
}

/// A written signed number is read back where it fits in 64 bits.
pub proof fn signed_numbers_are_read_back(n: int)
    ensures
        scan::signed(text::signed_decimal(n)) == if -0x8000_0000_0000_0000 <= n
            < 0x8000_0000_0000_0000 {
            Some(n)
        } else {
            None
        },
{
    if n < 0 {
        decimals_are_read_back((-n) as nat);
        assert((seq!['-'] + text::decimal((-n) as nat)).skip(1) =~= text::decimal((-n) as nat));
    } else {
        decimals_are_read_back(n as nat);
        unsigned_numbers_are_read_back(n as nat, 0x7fff_ffff_ffff_ffff);
        assert('0' <= text::decimal(n as nat)[0] <= '9');
    }
}

/// A text of white space only.
pub open spec fn blank(s: Seq<char>) -> bool {
    forall|i: int| 0 <= i < s.len() ==> scan::white_space(#[trigger] s[i])
}

/// A text that neither starts nor ends with white space.
pub open spec fn tight(s: Seq<char>) -> bool {
    s.len() > 0 ==> !scan::white_space(s[0]) && !scan::white_space(s[s.len() - 1])
}

/// Of the ASCII characters tab, line feed, vertical tab, form feed, carriage return and space are
/// white space.
pub proof fn ascii_white_space(c: char)
    requires
        (c as int) < 128,
    ensures
        scan::white_space(c) <==> c as int == 9 || c as int == 10 || c as int == 11 || c as int == 12
            || c as int == 13 || c == ' ',
{
}

/// Beyond ASCII the next-line character, the no-break space and the spaces and separators of
/// Unicode are white space.
pub proof fn other_white_space(c: char)
    requires
        c as int >= 128,
    ensures
        scan::white_space(c) <==> c == '\u{85}' || c == '\u{a0}' || c == '\u{1680}' || (
        '\u{2000}' <= c && c <= '\u{200a}') || c == '\u{2028}' || c == '\u{2029}' || c
            == '\u{202f}' || c == '\u{205f}' || c == '\u{3000}',
{
}

/// Trimming takes white space off both ends and nothing else: what stands between is left as it is,
/// and starts and ends with something else.
pub proof fn trimming_takes_white_space_only(before: Seq<char>, s: Seq<char>, after: Seq<char>)
    requires
        blank(before),
        blank(after),
        tight(s),
    ensures
        scan::trimmed(before + s + after) == s,
{
    start_is_trimmed(before, s + after);
    assert(before + s + after =~= before + (s + after));
    if s.len() > 0 {
        assert((s + after)[0] == s[0]);
        end_is_trimmed(s, after);
    } else {
        assert(s + after =~= after);
        assert(after + Seq::empty() =~= after);
        start_is_trimmed(after, Seq::empty());
        assert(s =~= Seq::empty());
    }
}

proof fn start_is_trimmed(before: Seq<char>, s: Seq<char>)
    requires
        blank(before),
    ensures
        scan::trim_start(before + s) == scan::trim_start(s),
    decreases before.len(),
{
    if before.len() == 0 {
        assert(before + s =~= s);
    } else {
        let rest = before.skip(1);
        assert forall|i: int| 0 <= i < rest.len() implies scan::white_space(#[trigger] rest[i]) by {
            assert(rest[i] == before[i + 1]);
        }
        start_is_trimmed(rest, s);
        assert((before + s)[0] == before[0]);
        assert((before + s).skip(1) =~= rest + s);
    }
}

proof fn end_is_trimmed(s: Seq<char>, after: Seq<char>)
    requires
        blank(after),
        s.len() > 0,
        !scan::white_space(s[s.len() - 1]),
    ensures
        scan::trim_end(s + after) == s,
    decreases after.len(),
{
    if after.len() == 0 {
        assert(s + after =~= s);
    } else {
        let rest = after.drop_last();
        assert forall|i: int| 0 <= i < rest.len() implies scan::white_space(#[trigger] rest[i]) by {
            assert(rest[i] == after[i]);
        }
        end_is_trimmed(s, rest);
        assert((s + after).last() == after[after.len() - 1]);
        assert((s + after).drop_last() =~= s + rest);
    }
}

/// Every text is its trimmed text between two pieces of white space.
pub proof fn trimmed_texts_are_tight(s: Seq<char>)
    ensures
        tight(scan::trimmed(s)),
        exists|from: int, to: int|
            0 <= from <= to <= s.len() && scan::trimmed(s) == #[trigger] s.subrange(from, to)
                && blank(s.take(from)) && blank(s.skip(to)),
{
    let from = start_found(s);
    let start = s.skip(from);
    let n = end_found(start);
    let to = from + n;
    assert(scan::trimmed(s) =~= s.subrange(from, to));
    assert(blank(s.skip(to))) by {
        assert forall|i: int| 0 <= i < s.skip(to).len() implies scan::white_space(
            #[trigger] s.skip(to)[i],
        ) by {
            assert(s.skip(to)[i] == start.skip(n)[i]);
        }
    }
}

proof fn start_found(s: Seq<char>) -> (from: int)
    ensures
        0 <= from <= s.len(),
        scan::trim_start(s) == s.skip(from),
        blank(s.take(from)),
        from < s.len() ==> !scan::white_space(s[from]),
    decreases s.len(),
{
    if s.len() > 0 && scan::white_space(s[0]) {
        let from = start_found(s.skip(1)) + 1;
        assert(s.skip(1).skip(from - 1) =~= s.skip(from));
        assert forall|i: int| 0 <= i < s.take(from).len() implies scan::white_space(
            #[trigger] s.take(from)[i],
        ) by {
            if i > 0 {
                assert(s.skip(1).take(from - 1)[i - 1] == s[i]);
            }
        }
        from
    } else {
        assert(s.skip(0) =~= s);
        0
    }
}

proof fn end_found(s: Seq<char>) -> (to: int)
    ensures
        0 <= to <= s.len(),
        scan::trim_end(s) == s.take(to),
        blank(s.skip(to)),
        to > 0 ==> !scan::white_space(s[to - 1]),
    decreases s.len(),
{
    if s.len() > 0 && scan::white_space(s.last()) {
        let to = end_found(s.drop_last());
        assert(s.drop_last().take(to) =~= s.take(to));
        assert forall|i: int| 0 <= i < s.skip(to).len() implies scan::white_space(
            #[trigger] s.skip(to)[i],
        ) by {
            if to + i < s.len() - 1 {
                assert(s.drop_last().skip(to)[i] == s[to + i]);
            }
        }
        to
    } else {
        assert(s.take(s.len() as int) =~= s);
        s.len() as int
    }
}

/// A separator is found at its first place.
pub proof fn first_places_are_found(a: Seq<char>, c: char, b: Seq<char>)
    requires
        !a.contains(c),
    ensures
        scan::first_at(a + seq![c] + b, c) == a.len(),
        scan::first_at(a, c) == a.len(),
    decreases a.len(),
{
    let s = a + seq![c] + b;
    if a.len() > 0 {
        assert(a.contains(a[0]));
        assert(s[0] == a[0]);
        assert(s.skip(1) =~= a.skip(1) + seq![c] + b);
        assert forall|x: char| a.skip(1).contains(x) implies a.contains(x) by {
            let i = choose|i: int| 0 <= i < a.skip(1).len() && a.skip(1)[i] == x;
            assert(a[i + 1] == x);
        }
        first_places_are_found(a.skip(1), c, b);
    } else {
        assert(s[0] == c);
    }
}

/// A text without the separator is one piece; otherwise the first piece stands before the first
/// separator and the other pieces are those of what stands behind it.
pub proof fn pieces_stand_between_separators(a: Seq<char>, sep: char, b: Seq<char>, n: nat)
    requires
        !a.contains(sep),
    ensures
        scan::piece(a, sep, 0) == Some(a),
        scan::piece(a, sep, n + 1) is None,
        scan::piece(a + seq![sep] + b, sep, 0) == Some(a),
        scan::piece(a + seq![sep] + b, sep, n + 1) == scan::piece(b, sep, n),
{
    first_places_are_found(a, sep, b);
    let s = a + seq![sep] + b;
    assert(a.take(a.len() as int) =~= a);
    assert(s.take(a.len() as int) =~= a);
    assert(s.skip(a.len() as int + 1) =~= b);
}

/// A text without the separator is its own last piece.
pub proof fn texts_without_separator_are_one_piece(s: Seq<char>, sep: char)
    requires
        !s.contains(sep),
    ensures
        scan::last_piece(s, sep) == s,
    decreases s.len(),
{
    if s.len() > 0 {
        assert(s.contains(s[s.len() - 1]));
        let d = s.drop_last();
        assert forall|x: char| d.contains(x) implies s.contains(x) by {
            let i = choose|i: int| 0 <= i < d.len() && d[i] == x;
            assert(s[i] == x);
        }
        texts_without_separator_are_one_piece(d, sep);
        assert(d.push(s.last()) =~= s);
    }
}

/// A part is found wherever it stands; a text starts with its front and ends with its back.
pub proof fn parts_are_found(a: Seq<char>, part: Seq<char>, b: Seq<char>)
    ensures
        scan::has_part(a + part + b, part),
        scan::has_prefix(part + b, part),
        scan::has_suffix(a + part, part),
{
    let s = a + part + b;
    assert(s.subrange(a.len() as int, (a.len() + part.len()) as int) =~= part);
    assert(scan::stands_at(s, part, a.len() as int));
    assert((part + b).subrange(0, part.len() as int) =~= part);
    assert((a + part).subrange(a.len() as int, (a.len() + part.len()) as int) =~= part);
}

/// What is found is there: a text with a part is that part with something before and behind it.
pub proof fn found_parts_are_there(s: Seq<char>, part: Seq<char>)
    ensures
        scan::has_prefix(s, part) ==> s.len() >= part.len() && s.take(part.len() as int) == part,
        scan::has_suffix(s, part) ==> s.len() >= part.len() && s.skip(s.len() - part.len()) == part,
        scan::has_part(s, part) ==> exists|at: int|
            0 <= at <= s.len() - part.len() && #[trigger] s.subrange(at, at + part.len()) == part,
{
    if scan::has_prefix(s, part) {
        assert(s.take(part.len() as int) =~= s.subrange(0, part.len() as int));
    }
    if scan::has_suffix(s, part) {
        let at = s.len() - part.len();
        assert(s.skip(at) =~= s.subrange(at, at + part.len()));
    }
    if scan::has_part(s, part) {
        let at = choose|at: int| scan::stands_at(s, part, at);
        assert(s.subrange(at, at + part.len()) == part);
    }
}

/// Bytes are found at the first place at or behind `from` where they stand, and only there.
pub proof fn bytes_are_found_first(s: Seq<u8>, part: Seq<u8>, from: nat)
    requires
        from <= s.len(),
    ensures
        match scan::find_bytes(s, part, from) {
            Some(at) => {
                &&& from <= at
                &&& at + part.len() <= s.len()
                &&& s.subrange(at as int, (at + part.len()) as int) == part
                &&& forall|k: int|
                    from <= k < at ==> #[trigger] s.subrange(k, k + part.len()) != part
            },
            None => forall|k: int|
                from <= k <= s.len() - part.len() ==> #[trigger] s.subrange(k, k + part.len())
                    != part,
        },
    decreases s.len() + 1 - from,
{
    if from + part.len() <= s.len() && s.subrange(from as int, (from + part.len()) as int) != part {
        if from == s.len() {
            assert(s.subrange(from as int, (from + part.len()) as int) =~= part);
        }
        bytes_are_found_first(s, part, from + 1);
    }
}

/// Texts are ordered by the first character in which they differ, and a text stands before what
/// goes on behind it.
pub proof fn texts_are_ordered_by_their_first_difference(
    front: Seq<char>,
    c: char,
    a: Seq<char>,
    d: char,
    b: Seq<char>,
)
    requires
        (c as int) < (d as int),
    ensures
        text::lex_less(front + seq![c] + a, front + seq![d] + b),
        !text::lex_less(front + seq![d] + b, front + seq![c] + a),
        text::lex_less(front, front + seq![c] + a),
        !text::lex_less(front + seq![c] + a, front),
    decreases front.len(),
{
    let x = front + seq![c] + a;
    let y = front + seq![d] + b;
    if front.len() == 0 {
        assert(x[0] == c && y[0] == d);
    } else {
        let rest = front.skip(1);
        texts_are_ordered_by_their_first_difference(rest, c, a, d, b);
        assert(x[0] == front[0] && y[0] == front[0]);
        assert(x.skip(1) =~= rest + seq![c] + a);
        assert(y.skip(1) =~= rest + seq![d] + b);
    }
}

/// Lower case changes the letters A to Z only, each into the letter that stands 32 places behind
/// it; nothing is left to change then.
pub proof fn ascii_text_in_lower_case(s: Seq<char>, i: int)
    requires
        text::ascii_only(s),
        0 <= i < s.len(),
    ensures
        text::lowercase(s).len() == s.len(),
        text::lowercase(s)[i] as int == if 65 <= s[i] as int <= 90 {
            s[i] as int + 32
        } else {
            s[i] as int
        },
{
}

/// Two texts are the same but for case exactly where they are the same in lower case.
pub proof fn case_is_ignored(a: Seq<char>, b: Seq<char>)
    requires
        text::ascii_only(a),
        text::ascii_only(b),
    ensures
        scan::same_ignoring_case(a, b) == (text::lowercase(a) == text::lowercase(b)),
{
    let x = text::lowercase(a);
    let y = text::lowercase(b);
    if scan::same_ignoring_case(a, b) {
        assert forall|i: int| 0 <= i < x.len() implies x[i] == y[i] by {
            ascii_text_in_lower_case(a, i);
            ascii_text_in_lower_case(b, i);
            assert(scan::ascii_lower(a[i]) == scan::ascii_lower(b[i]));
            assert(x[i] as int == y[i] as int);
        }
        assert(x =~= y);
    }
    if x == y {
        assert(a.len() == x.len() && b.len() == y.len());
        assert forall|i: int| 0 <= i < a.len() implies scan::ascii_lower(#[trigger] a[i])
            == scan::ascii_lower(b[i]) by {
            ascii_text_in_lower_case(a, i);
            ascii_text_in_lower_case(b, i);
        }
    }
}

} // verus!
