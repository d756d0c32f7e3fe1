//! Which reference system a description stands for.
use vstd::prelude::*;
use vstd::utf8::*;
use crate::ingest::crs;
use crate::ingest::crs::CrsInfo;
use crate::scan;
use crate::text;
use crate::text_laws;
use vstd::string::*;

verus! {

/// Codes 4326 and 4269 are longitude and latitude, 3857 and its old numbers 900913 and 102100 Web
/// Mercator; no other code is supported.
pub proof fn codes_have_kinds(code: u32)
    ensures
        crs::kind_of_code(code) is Wgs84 <==> code == 4326,
        crs::kind_of_code(code) is Nad83 <==> code == 4269,
        crs::kind_of_code(code) is WebMercator <==> code == 3857 || code == 900913 || code
            == 102100,
        !(crs::kind_of_code(code) is Unknown),
{
}

/// The names of the kinds.
pub proof fn kinds_have_names(c: CrsInfo)
    ensures
        c.kind is Wgs84 ==> c.name() == "EPSG:4326"@,
        c.kind is Nad83 ==> c.name() == "EPSG:4269 (treated as EPSG:4326)"@,
        c.kind is WebMercator ==> c.name() == "EPSG:3857"@,
        c.kind is Unsupported ==> c.name() == "UNSUPPORTED"@,
        c.kind is Unknown ==> c.name() == "UNKNOWN"@,
{
}

/// Without a code the words decide: the names of WGS 84 first, then those of NAD 83, then those of
/// Web Mercator.
pub proof fn words_have_kinds(upper: Seq<char>)
    ensures
        ({
            let wgs = scan::has_part(upper, "GCS_WGS_1984"@) || scan::has_part(upper, "WGS_1984"@)
                && scan::has_part(upper, "GEOGCS"@);
            let nad = scan::has_part(upper, "GCS_NORTH_AMERICAN_1983"@) || scan::has_part(
                upper,
                "NAD83"@,
            );
            let web = scan::has_part(upper, "WEB_MERCATOR"@) || scan::has_part(
                upper,
                "MERCATOR_AUXILIARY_SPHERE"@,
            );
            let kind = crs::kind_of_keywords(upper);
            &&& kind is Wgs84 <==> wgs
            &&& kind is Nad83 <==> !wgs && nad
            &&& kind is WebMercator <==> !wgs && !nad && web
            &&& kind is Unsupported <==> !wgs && !nad && !web
        }),
{
}

/// A description with one of the names is of the kind of that name, whatever stands around it.
pub proof fn names_are_found(before: Seq<char>, after: Seq<char>)
    ensures
        crs::kind_of_keywords(before + "GCS_WGS_1984"@ + after) is Wgs84,
        !(crs::kind_of_keywords(before + "NAD83"@ + after) is WebMercator),
        !(crs::kind_of_keywords(before + "NAD83"@ + after) is Unsupported),
        !(crs::kind_of_keywords(before + "GCS_NORTH_AMERICAN_1983"@ + after) is WebMercator),
        !(crs::kind_of_keywords(before + "GCS_NORTH_AMERICAN_1983"@ + after) is Unsupported),
        !(crs::kind_of_keywords(before + "WEB_MERCATOR"@ + after) is Unsupported),
        !(crs::kind_of_keywords(before + "MERCATOR_AUXILIARY_SPHERE"@ + after) is Unsupported),
{
    text_laws::parts_are_found(before, "GCS_WGS_1984"@, after);
    text_laws::parts_are_found(before, "NAD83"@, after);
    text_laws::parts_are_found(before, "GCS_NORTH_AMERICAN_1983"@, after);
    text_laws::parts_are_found(before, "WEB_MERCATOR"@, after);
    text_laws::parts_are_found(before, "MERCATOR_AUXILIARY_SPHERE"@, after);
}

/// The code of a node stands between the third and the fourth quotation mark, where the name
/// between the first two is that of the EPSG, in whatever case.
pub proof fn nodes_have_codes(
    front: Seq<char>,
    name: Seq<char>,
    between: Seq<char>,
    code: Seq<char>,
    rest: Seq<char>,
)
    requires
        !front.contains('"'),
        !name.contains('"'),
        !between.contains('"'),
        !code.contains('"'),
    ensures
        ({
            let q = seq!['"'];
            let node = front + q + (name + q + (between + q + (code + q + rest)));
            crs::authority_code(node) == if scan::same_ignoring_case(
                scan::trimmed(name),
                "EPSG"@,
            ) {
                scan::unsigned(scan::trimmed(code), 0xffff_ffff)
            } else {
                None
            }
        }),
{
    let q = seq!['"'];
    let d = code + q + rest;
    let c = between + q + d;
    let b = name + q + c;
    text_laws::pieces_stand_between_separators(front, '"', b, 0);
    text_laws::pieces_stand_between_separators(front, '"', b, 2);
    text_laws::pieces_stand_between_separators(name, '"', c, 0);
    text_laws::pieces_stand_between_separators(name, '"', c, 1);
    text_laws::pieces_stand_between_separators(between, '"', d, 0);
    text_laws::pieces_stand_between_separators(code, '"', rest, 0);
}

/// A node that names the EPSG and a number has that number as its code.
pub proof fn written_codes_are_read(front: Seq<char>, between: Seq<char>, n: u32, rest: Seq<char>)
    requires
        !front.contains('"'),
        !between.contains('"'),
    ensures
        ({
            let q = seq!['"'];
            let node = front + q + ("EPSG"@ + q + (between + q + (text::decimal(n as nat) + q
                + rest)));
            crs::authority_code(node) == Some(n as nat)
        }),
{
    reveal_strlit("EPSG");
    let name = "EPSG"@;
    let code = text::decimal(n as nat);
    let none = Seq::<char>::empty();
    text_laws::decimals_are_read_back(n as nat);
    text_laws::unsigned_numbers_are_read_back(n as nat, 0xffff_ffff);
    if code.contains('"') {
        let i = choose|i: int| 0 <= i < code.len() && code[i] == '"';
        assert('0' <= code[i] <= '9');
    }
    assert('0' <= code[0] <= '9' && '0' <= code[code.len() - 1] <= '9');
    text_laws::trimming_takes_white_space_only(none, code, none);
    assert(none + code + none =~= code);
    text_laws::trimming_takes_white_space_only(none, name, none);
    assert(none + name + none =~= name);
    nodes_have_codes(front, name, between, code, rest);
}

/// Whether a node starts at a byte of a description in upper case.
pub open spec fn node_at(upper: Seq<u8>, at: int) -> bool {
    &&& 0 <= at
    &&& at + 9 <= upper.len()
    &&& upper.subrange(at, at + 9) == encode_utf8("AUTHORITY"@)
}

/// Nodes do not overlap.
proof fn nodes_stand_apart(upper: Seq<u8>, a: int, b: int)
    requires
        node_at(upper, a),
        node_at(upper, b),
        a < b,
    ensures
        a + 9 <= b,
{
    reveal_strlit("AUTHORITY");
    let word = "AUTHORITY"@;
    is_ascii_chars_encode_utf8(word);
    let bytes = encode_utf8(word);
    if b < a + 9 {
        let k = b - a;
        assert(upper.subrange(b, b + 9)[0] == bytes[0]);
        assert(upper.subrange(a, a + 9)[k] == bytes[k]);
        assert(bytes[0] == word[0] as u8);
        assert(bytes[k] == word[k] as u8);
    }
}

/// The code of a description is that of its last node with one: it is the code of some node, and no
/// node behind that one has a code. There is none only where no node has one.
pub proof fn the_last_code_counts(upper: Seq<u8>, wkt: Seq<char>, from: nat)
    requires
        from <= upper.len(),
    ensures
        match crs::last_code(upper, wkt, from) {
            Some(code) => exists|at: int|
                {
                    &&& from <= at
                    &&& #[trigger] node_at(upper, at)
                    &&& crs::code_at(wkt, at as nat) == Some(code)
                    &&& forall|k: int|
                        at < k && #[trigger] node_at(upper, k) ==> crs::code_at(
                            wkt,
                            k as nat,
                        ) is None
                },
            None => forall|k: int|
                from <= k && #[trigger] node_at(upper, k) ==> crs::code_at(wkt, k as nat) is None,
        },
    decreases upper.len() + 1 - from,
{
    reveal_strlit("AUTHORITY");
    is_ascii_chars_encode_utf8("AUTHORITY"@);
    let word = encode_utf8("AUTHORITY"@);
    text_laws::bytes_are_found_first(upper, word, from);
    match scan::find_bytes(upper, word, from) {
        None => {
            assert forall|k: int| from <= k && #[trigger] node_at(upper, k) implies crs::code_at(
                wkt,
                k as nat,
            ) is None by {
                assert(upper.subrange(k, k + word.len()) == word);
            }
        },
        Some(at) => {
            assert(node_at(upper, at as int));
            the_last_code_counts(upper, wkt, at + 9);
            match crs::last_code(upper, wkt, at + 9) {
                Some(code) => {
                    let p = choose|p: int|
                        {
                            &&& at + 9 <= p
                            &&& #[trigger] node_at(upper, p)
                            &&& crs::code_at(wkt, p as nat) == Some(code)
                            &&& forall|k: int|
                                p < k && #[trigger] node_at(upper, k) ==> crs::code_at(
                                    wkt,
                                    k as nat,
                                ) is None
                        };
                    assert(node_at(upper, p));
                },
                None => {
                    assert forall|k: int|
                        at < k && #[trigger] node_at(upper, k) implies crs::code_at(
                        wkt,
                        k as nat,
                    ) is None by {
                        nodes_stand_apart(upper, at as int, k);
                    }
                    if crs::code_at(wkt, at) is None {
                        assert forall|k: int|
                            from <= k && #[trigger] node_at(upper, k) implies crs::code_at(
                            wkt,
                            k as nat,
                        ) is None by {
                            if k < at {
                                assert(upper.subrange(k, k + word.len()) == word);
                            }
                        }
                    }
                },
            }
        },
    }
}

/// A code decides where there is one, and is reported; otherwise the words decide.
pub proof fn codes_go_before_words(wkt: Seq<char>, upper: Seq<char>)
    ensures
        match crs::last_code(encode_utf8(upper), wkt, 0) {
            Some(code) => crs::kind_and_code(wkt, upper) == (
                crs::kind_of_code(code as u32),
                Some(code as u32),
            ),
            None => crs::kind_and_code(wkt, upper) == (crs::kind_of_keywords(upper), None::<u32>),
        },
{
}

/// Upper case changes the letters a to z only, each into the letter that stands 32 places before
/// it.
pub proof fn ascii_text_in_upper_case(s: Seq<char>, i: int)
    requires
        text::ascii_only(s),
        0 <= i < s.len(),
    ensures
        crs::uppercase(s).len() == s.len(),
        crs::uppercase(s)[i] as int == if 97 <= s[i] as int <= 122 {
            s[i] as int - 32
        } else {
            s[i] as int
        },
{
}

/// A code is shown as an option is.
pub proof fn codes_are_shown(n: u32)
    ensures
        crs::debug_code(Some(n)) == "Some("@ + text::decimal(n as nat) + ")"@,
        crs::debug_code(None) == "None"@,
{
}

} // verus!
