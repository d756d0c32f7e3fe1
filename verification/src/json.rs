//! JSON property values and property maps.
use vstd::prelude::*;
use crate::double::Double;
use crate::text;
use crate::text::{decimal_text, signed_decimal_text, str_equal};
use vstd::string::*;

verus! {

/// A JSON value as a property holds it. Numbers come in three forms: whole and not negative,
/// whole and negative, and floating-point with their JSON spelling. Arrays and objects are held
/// as their compact JSON text.
#[derive(Debug, PartialEq)]
pub enum JsonValue {
    Null,
    Bool(bool),
    Unsigned(u64),
    Negative(i64),
    Float { value: Double, spelling: String },
    Text(String),
    Nested(String),
}

/// What a JSON value is.
pub enum JsonView {
    Null,
    Bool(bool),
    Unsigned(u64),
    Negative(i64),
    Float { bits: u64, spelling: Seq<char> },
    Text(Seq<char>),
    Nested(Seq<char>),
}

impl View for JsonValue {
    type V = JsonView;

    open spec fn view(&self) -> JsonView {
        match self {
            JsonValue::Null => JsonView::Null,
            JsonValue::Bool(b) => JsonView::Bool(*b),
            JsonValue::Unsigned(n) => JsonView::Unsigned(*n),
            JsonValue::Negative(n) => JsonView::Negative(*n),
            JsonValue::Float { value, spelling } => JsonView::Float {
                bits: value.bits,
                spelling: spelling@,
            },
            JsonValue::Text(s) => JsonView::Text(s@),
            JsonValue::Nested(s) => JsonView::Nested(s@),
        }
    }
}

impl Clone for JsonValue {
    fn clone(&self) -> (v: Self)
        ensures
            v == *self,
    {
        match self {
            JsonValue::Null => JsonValue::Null,
            JsonValue::Bool(b) => JsonValue::Bool(*b),
            JsonValue::Unsigned(n) => JsonValue::Unsigned(*n),
            JsonValue::Negative(n) => JsonValue::Negative(*n),
            JsonValue::Float { value, spelling } => JsonValue::Float {
                value: *value,
                spelling: spelling.clone(),
            },
            JsonValue::Text(s) => JsonValue::Text(s.clone()),
            JsonValue::Nested(s) => JsonValue::Nested(s.clone()),
        }
    }
}

/// A hexadecimal digit.
pub open spec fn hex_digit(n: int) -> char {
    if n < 10 {
        ('0' as int + n) as char
    } else {
        ('a' as int + n - 10) as char
    }
}

/// A character as it stands in a JSON string literal.
pub open spec fn json_char(c: char) -> Seq<char> {
    if c == '"' || c == '\\' {
        seq!['\\', c]
    } else if c == '\u{8}' {
        seq!['\\', 'b']
    } else if c == '\t' {
        seq!['\\', 't']
    } else if c == '\n' {
        seq!['\\', 'n']
    } else if c == '\u{c}' {
        seq!['\\', 'f']
    } else if c == '\r' {
        seq!['\\', 'r']
    } else if (c as int) < 32 {
        seq!['\\', 'u', '0', '0', hex_digit(c as int / 16), hex_digit(c as int % 16)]
    } else {
        seq![c]
    }
}

/// The characters of a string, escaped for a JSON string literal.
pub open spec fn json_escaped(s: Seq<char>) -> Seq<char>
    decreases s.len(),
{
    if s.len() == 0 {
        s
    } else {
        json_escaped(s.drop_last()) + json_char(s.last())
    }
}

/// A string as a JSON string literal: the characters in double quotes, escaped.
pub open spec fn json_quoted(s: Seq<char>) -> Seq<char> {
    seq!['"'] + json_escaped(s) + seq!['"']
}

/// A string as a JSON string literal, by `serde_json::to_string`: quotes, backslashes and control
/// characters are escaped, the rest stands as it is. Serializing a string into a string does not
/// fail.
#[verifier::external_body]
fn quote(s: &str) -> (r: String)
    ensures
        r@ == json_quoted(s@),
{
    serde_json::to_string(s).unwrap_or_default()
}

/// What `serde_json` makes of the decimal spelling of a number: the bits of the nearest double
/// and its JSON spelling; nothing where the text is no number or not a finite one.
pub uninterp spec fn json_float(s: Seq<char>) -> Option<(u64, Seq<char>)>;

/// The number that a text spells, by `str::parse` into the type that
/// `serde_json::Number::from_f64` takes, with the spelling that `serde_json` gives it; the claim
/// is only that the characters of the text determine the result.
#[verifier::external_body]
pub(crate) fn parse_float(s: &str) -> (r: Option<(Double, String)>)
    ensures
        match r {
            Some((value, spelling)) => json_float(s@) == Some((value.bits, spelling@)),
            None => json_float(s@) is None,
        },
{
    let number = s.parse().ok().and_then(serde_json::Number::from_f64)?;
    let bits = number.as_f64().map(|d| d.to_bits())?;
    Some((Double { bits }, number.to_string()))
}

/// The compact JSON text of a value.
pub open spec fn json_text(v: JsonView) -> Seq<char> {
    match v {
        JsonView::Null => "null"@,
        JsonView::Bool(b) => if b {
            "true"@
        } else {
            "false"@
        },
        JsonView::Unsigned(n) => text::decimal(n as nat),
        JsonView::Negative(n) => text::signed_decimal(n as int),
        JsonView::Float { bits, spelling } => spelling,
        JsonView::Text(s) => json_quoted(s),
        JsonView::Nested(s) => s,
    }
}

impl JsonValue {
    /// The compact JSON text of the value.
    pub fn to_json(&self) -> (s: String)
        ensures
            s@ == json_text(self@),
    {
        match self {
            JsonValue::Null => "null".to_string(),
            JsonValue::Bool(b) => if *b {
                "true".to_string()
            } else {
                "false".to_string()
            },
            JsonValue::Unsigned(n) => decimal_text(*n),
            JsonValue::Negative(n) => signed_decimal_text(*n),
            JsonValue::Float { value, spelling } => spelling.clone(),
            JsonValue::Text(s) => quote(s.as_str()),
            JsonValue::Nested(s) => s.clone(),
        }
    }

    /// The value of a signed whole number.
    pub fn whole(n: i64) -> (v: JsonValue)
        ensures
            v == if n >= 0 {
                JsonValue::Unsigned(n as u64)
            } else {
                JsonValue::Negative(n)
            },
    {
        if n >= 0 {
            JsonValue::Unsigned(n as u64)
        } else {
            JsonValue::Negative(n)
        }
    }
}

/// The properties of a feature: keys with their values, no key twice.
#[derive(Debug)]
pub struct JsonMap {
    entries: Vec<(String, JsonValue)>,
}

/// One key with its value.
pub type Entry = (Seq<char>, JsonView);

/// The entries by what they are.
pub open spec fn entries_view(s: Seq<(String, JsonValue)>) -> Seq<Entry> {
    s.map_values(|e: (String, JsonValue)| (e.0@, e.1@))
}

/// No key stands twice.
pub open spec fn keys_distinct(s: Seq<Entry>) -> bool {
    forall|i: int, j: int| 0 <= i < j < s.len() ==> (#[trigger] s[i]).0 != (#[trigger] s[j]).0
}

/// The place of a key, where it is there.
pub open spec fn key_place(s: Seq<Entry>, key: Seq<char>) -> Option<int>
    decreases s.len(),
{
    if s.len() == 0 {
        None
    } else if s.last().0 == key {
        Some(s.len() - 1)
    } else {
        key_place(s.drop_last(), key)
    }
}

/// The entries after a key got a value: in its place where the key was there, at the end
/// otherwise.
pub open spec fn with_entry(s: Seq<Entry>, key: Seq<char>, value: JsonView) -> Seq<Entry> {
    match key_place(s, key) {
        Some(i) => s.update(i, (key, value)),
        None => s.push((key, value)),
    }
}

pub proof fn key_place_props(s: Seq<Entry>, key: Seq<char>)
    ensures
        key_place(s, key) matches Some(i) ==> 0 <= i < s.len() && s[i].0 == key,
        key_place(s, key) is None ==> forall|i: int| 0 <= i < s.len() ==> (#[trigger] s[i]).0 != key,
    decreases s.len(),
{
    if s.len() > 0 {
        key_place_props(s.drop_last(), key);
        if key_place(s, key) is None {
            assert forall|i: int| 0 <= i < s.len() implies (#[trigger] s[i]).0 != key by {
                if i < s.len() - 1 {
                    assert(s.drop_last()[i] == s[i]);
                }
            }
        }
    }
}

impl View for JsonMap {
    type V = Seq<Entry>;

    closed spec fn view(&self) -> Seq<Entry> {
        entries_view(self.entries@)
    }
}

impl JsonMap {
    /// No key stands twice.
    pub open spec fn wf(&self) -> bool {
        keys_distinct(self@)
    }

    pub fn new() -> (m: JsonMap)
        ensures
            m.wf(),
            m@ == Seq::<Entry>::empty(),
    {
        let m = JsonMap { entries: Vec::new() };
        assert(m@ =~= Seq::<Entry>::empty());
        m
    }

    pub fn len(&self) -> (n: usize)
        ensures
            n == self@.len(),
    {
        self.entries.len()
    }

    /// The key and the value at a place.
    pub fn entry(&self, i: usize) -> (e: (&str, &JsonValue))
        requires
            i < self@.len(),
        ensures
            e.0@ == self@[i as int].0,
            e.1@ == self@[i as int].1,
    {
        (self.entries[i].0.as_str(), &self.entries[i].1)
    }

    fn find(&self, key: &str) -> (r: Option<usize>)
        ensures
            match r {
                Some(i) => key_place(self@, key@) == Some(i as int),
                None => key_place(self@, key@) is None,
            },
    {
        let mut i: usize = self.entries.len();
        assert(self@.take(i as int) =~= self@);
        while i > 0
            invariant
                i <= self.entries@.len(),
                key_place(self@, key@) == key_place(self@.take(i as int), key@),
            decreases i,
        {
            assert(self@.take(i as int).last() == self@[i - 1]);
            assert(self@.take(i as int).drop_last() =~= self@.take(i - 1));
            if str_equal(self.entries[i - 1].0.as_str(), key) {
                return Some(i - 1);
            }
            i = i - 1;
        }
        None
    }

    /// The value of a key.
    pub fn get(&self, key: &str) -> (r: Option<&JsonValue>)
        ensures
            match key_place(self@, key@) {
                Some(i) => r matches Some(v) && v@ == self@[i].1,
                None => r is None,
            },
    {
        proof {
            key_place_props(self@, key@);
        }
        match self.find(key) {
            Some(i) => Some(&self.entries[i].1),
            None => None,
        }
    }

    /// Gives a key a value: in its place where the key is there, at the end otherwise.
    pub fn insert(&mut self, key: String, value: JsonValue)
        requires
            old(self).wf(),
        ensures
            final(self).wf(),
            final(self)@ == with_entry(old(self)@, key@, value@),
    {
        proof {
            key_place_props(self@, key@);
        }
        match self.find(key.as_str()) {
            Some(i) => {
                self.entries.set(i, (key, value));
                assert(self@ =~= old(self)@.update(i as int, (key@, value@)));
            },
            None => {
                self.entries.push((key, value));
                assert(self@ =~= old(self)@.push((key@, value@)));
            },
        }
    }
}

impl Clone for JsonMap {
    fn clone(&self) -> (m: Self)
        ensures
            m@ == self@,
    {
        let mut entries: Vec<(String, JsonValue)> = Vec::new();
        let mut i: usize = 0;
        while i < self.entries.len()
            invariant
                i <= self.entries@.len(),
                entries@ == self.entries@.take(i as int),
            decreases self.entries@.len() - i,
        {
            let e = &self.entries[i];
            entries.push((e.0.clone(), e.1.clone()));
            assert(self.entries@.take(i + 1) =~= self.entries@.take(i as int).push(
                self.entries@[i as int],
            ));
            i = i + 1;
        }
        assert(self.entries@.take(i as int) =~= self.entries@);
        JsonMap { entries }
    }
}

/// A new key goes behind the others.
pub proof fn new_entries_are_appended(s: Seq<Entry>, key: Seq<char>, value: JsonView)
    requires
        forall|i: int| 0 <= i < s.len() ==> (#[trigger] s[i]).0 != key,
    ensures
        with_entry(s, key, value) == s.push((key, value)),
{
    key_place_props(s, key);
}

/// The value that a key has, where it has one.
pub open spec fn value_of(s: Seq<Entry>, key: Seq<char>) -> Option<JsonView> {
    match key_place(s, key) {
        Some(i) => Some(s[i].1),
        None => None,
    }
}

/// A key is found exactly where it stands, with the value that stands beside it.
pub proof fn keys_are_found(s: Seq<Entry>, i: int)
    requires
        keys_distinct(s),
        0 <= i < s.len(),
    ensures
        key_place(s, s[i].0) == Some(i),
        value_of(s, s[i].0) == Some(s[i].1),
{
    key_place_props(s, s[i].0);
    if let Some(j) = key_place(s, s[i].0) {
        if j != i {
            assert(s[i].0 != s[j].0);
        }
    } else {
        assert(s[i].0 != s[i].0);
    }
}

/// A key that was given a value has that value; every other key has the value it had; the keys that
/// were there keep their places, and at most one is added, at the end.
pub proof fn values_are_found_again(
    s: Seq<Entry>,
    key: Seq<char>,
    value: JsonView,
    other: Seq<char>,
)
    requires
        keys_distinct(s),
        other != key,
    ensures
        keys_distinct(with_entry(s, key, value)),
        value_of(with_entry(s, key, value), key) == Some(value),
        value_of(with_entry(s, key, value), other) == value_of(s, other),
        with_entry(s, key, value).len() == s.len() + if value_of(s, key) is Some {
            0nat
        } else {
            1nat
        },
        forall|i: int|
            0 <= i < s.len() ==> (#[trigger] with_entry(s, key, value)[i]).0 == s[i].0,
{
    let n = with_entry(s, key, value);
    key_place_props(s, key);
    key_place_props(s, other);
    key_place_props(n, key);
    key_place_props(n, other);
    assert(keys_distinct(n));
    let at = match key_place(s, key) {
        Some(i) => i,
        None => s.len() as int,
    };
    assert(n[at] == (key, value));
    keys_are_found(n, at);
    if let Some(j) = key_place(s, other) {
        assert(n[j] == s[j]);
        keys_are_found(n, j);
    } else if let Some(j) = key_place(n, other) {
        assert(j != at);
        assert(s[j].0 == other);
    }
}

/// The literals have their names, and a number is spelled so that it reads back.
pub proof fn values_are_spelled(n: u64, m: i64)
    requires
        m < 0,
    ensures
        json_text(JsonView::Null) == "null"@,
        json_text(JsonView::Bool(true)) == "true"@,
        json_text(JsonView::Bool(false)) == "false"@,
        crate::scan::unsigned(json_text(JsonView::Unsigned(n)), u64::MAX as nat) == Some(n as nat),
        crate::scan::signed(json_text(JsonView::Negative(m))) == Some(m as int),
{
    crate::text_laws::unsigned_numbers_are_read_back(n as nat, u64::MAX as nat);
    crate::text_laws::signed_numbers_are_read_back(m as int);
}

} // verus!
