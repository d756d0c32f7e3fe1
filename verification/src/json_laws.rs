//! JSON string literals are read back.
use vstd::prelude::*;
use crate::json;
use crate::text;

verus! {

/// The value of a hexadecimal digit.
pub open spec fn hex_value(c: char) -> int {
    if '0' <= c <= '9' {
        c as int - 48
    } else {
        c as int - 87
    }
}

/// What a reader of a JSON string literal gets of the characters between the quotes.
pub open spec fn read_chars(s: Seq<char>) -> Seq<char>
    decreases s.len(),
{
    if s.len() == 0 {
        s
    } else if s[0] == '\\' && s.len() >= 6 && s[1] == 'u' {
        seq![
            (4096 * hex_value(s[2]) + 256 * hex_value(s[3]) + 16 * hex_value(s[4]) + hex_value(
                s[5],
            )) as char,
        ] + read_chars(s.skip(6))
    } else if s[0] == '\\' && s.len() >= 2 {
        let c = if s[1] == 'b' {
            '\u{8}'
        } else if s[1] == 't' {
            '\t'
        } else if s[1] == 'n' {
            '\n'
        } else if s[1] == 'f' {
            '\u{c}'
        } else if s[1] == 'r' {
            '\r'
        } else {
            s[1]
        };
        seq![c] + read_chars(s.skip(2))
    } else {
        seq![s[0]] + read_chars(s.skip(1))
    }
}

/// A string literal holds the characters of the string and nothing else: reading what stands
/// between its quotes gives the string back.
pub proof fn string_literals_are_read_back(s: Seq<char>)
    ensures
        json::json_quoted(s).len() >= 2,
        json::json_quoted(s)[0] == '"',
        json::json_quoted(s).last() == '"',
        read_chars(json::json_quoted(s).subrange(1, json::json_quoted(s).len() - 1)) == s,
{
    let q = json::json_quoted(s);
    assert(q.subrange(1, q.len() - 1) =~= json::json_escaped(s));
    escaped_is_read_back(s);
}

proof fn escaped_is_read_back(s: Seq<char>)
    ensures
        read_chars(json::json_escaped(s)) == s,
    decreases s.len(),
{
    if s.len() > 0 {
        let c = s[0];
        let rest = s.skip(1);
        let tail = json::json_escaped(rest);
        escaped_from_front(s);
        escaped_is_read_back(rest);
        let e = json::json_char(c);
        let t = e + tail;
        assert(t.skip(e.len() as int) =~= tail);
        assert(forall|i: int| 0 <= i < e.len() ==> t[i] == e[i]);
        if e.len() == 6 {
            text::char_code(c);
            assert((c as int) < 32);
            digits_are_read_back(c as int / 16);
            digits_are_read_back(c as int % 16);
            assert(16 * (c as int / 16) + c as int % 16 == c as int);
        }
        assert(read_chars(t) =~= seq![c] + rest);
        assert(seq![c] + rest =~= s);
    }
}

proof fn digits_are_read_back(n: int)
    requires
        0 <= n < 16,
    ensures
        hex_value(json::hex_digit(n)) == n,
        json::hex_digit(n) as int >= 48,
{
    let c = json::hex_digit(n);
    if n < 10 {
        assert(c as int == 48 + n);
    } else {
        assert(c as int == 87 + n);
    }
}

proof fn escaped_from_front(s: Seq<char>)
    requires
        s.len() > 0,
    ensures
        json::json_escaped(s) == json::json_char(s[0]) + json::json_escaped(s.skip(1)),
    decreases s.len(),
{
    reveal_with_fuel(json::json_escaped, 2);
    let d = s.drop_last();
    if d.len() == 0 {
        assert(s.skip(1) =~= Seq::empty());
        assert(json::json_escaped(s) =~= json::json_char(s[0]));
        assert(json::json_char(s[0]) + json::json_escaped(s.skip(1)) =~= json::json_char(s[0]));
    } else {
        escaped_from_front(d);
        assert(s.skip(1).drop_last() =~= d.skip(1));
        assert(s.skip(1).last() == s.last());
        assert(json::json_escaped(s) =~= json::json_char(s[0]) + json::json_escaped(s.skip(1)));
    }
}

/// No control character stands in a literal.
pub proof fn literals_have_no_control_characters(s: Seq<char>, i: int)
    requires
        0 <= i < json::json_quoted(s).len(),
    ensures
        json::json_quoted(s)[i] as int >= 32,
{
    if 0 < i < json::json_quoted(s).len() - 1 {
        escaped_has_no_controls(s, i - 1);
    }
}

proof fn escaped_has_no_controls(s: Seq<char>, i: int)
    requires
        0 <= i < json::json_escaped(s).len(),
    ensures
        json::json_escaped(s)[i] as int >= 32,
    decreases s.len(),
{
    if s.len() > 0 {
        let front = json::json_escaped(s.drop_last());
        if i < front.len() {
            escaped_has_no_controls(s.drop_last(), i);
        } else {
            let c = s.last();
            text::char_code(c);
            if (c as int) < 32 {
                digits_are_read_back(c as int / 16);
                digits_are_read_back(c as int % 16);
            }
            assert(json::json_escaped(s)[i] == json::json_char(c)[i - front.len()]);
        }
    }
}

} // verus!
