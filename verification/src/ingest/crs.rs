//! CRS detection.
//!
//! * EPSG:4326 (WGS84) is the identity.
//! * EPSG:4269 (NAD83) is treated as the identity: the two differ by one or two metres, which is
//!   below tile quantization at every supported zoom.
//! * EPSG:3857 and its old numbers (Web Mercator) have an exact analytic inverse.
//! * Anything else is rejected.
use vstd::prelude::*;
use vstd::utf8::*;
use crate::ingest::error::{IngestError, IngestResult};
use crate::scan;
use crate::scan::{contains, eq_ignoring_case, find_bytes_from, parse_unsigned, split_piece, trim};
use crate::text;
use crate::text::decimal_text;
use vstd::string::*;

verus! {

/// What `str::to_uppercase` makes of a string with characters beyond ASCII: Unicode upper case,
/// which can change the number of characters.
pub uninterp spec fn unicode_uppercase(s: Seq<char>) -> Seq<char>;

/// An ASCII letter in upper case; any other character as it is.
pub open spec fn ascii_upper(c: char) -> char {
    if 'a' <= c && c <= 'z' {
        (c as u32 - 32) as char
    } else {
        c
    }
}

/// The string with its ASCII letters in upper case.
pub open spec fn ascii_uppercase(s: Seq<char>) -> Seq<char> {
    s.map_values(|c: char| ascii_upper(c))
}

/// The string in upper case.
pub open spec fn uppercase(s: Seq<char>) -> Seq<char> {
    if text::ascii_only(s) {
        ascii_uppercase(s)
    } else {
        unicode_uppercase(s)
    }
}

/// The string in upper case, by `str::to_uppercase`: of ASCII text the letters are in upper case
/// and the rest is as it was; of other text the characters of the argument determine those of the
/// result, and how is left unsaid.
#[verifier::external_body]
fn to_upper(s: &str) -> (r: String)
    ensures
        text::ascii_only(s@) ==> r@ == ascii_uppercase(s@),
        !text::ascii_only(s@) ==> r@ == unicode_uppercase(s@),
{
    s.to_uppercase()
}

/// The kinds of coordinate reference systems that are told apart.
#[derive(Debug, Clone, Copy, PartialEq, Eq, Structural)]
pub enum CrsKind {
    /// EPSG:4326.
    Wgs84,
    /// EPSG:4269, treated as WGS84.
    Nad83,
    /// EPSG:3857.
    WebMercator,
    /// Detected but not safely reprojectable.
    Unsupported,
    /// No CRS information at all.
    Unknown,
}

/// What is known of the CRS of a source.
#[derive(Debug)]
pub struct CrsInfo {
    pub kind: CrsKind,
    pub epsg: Option<u32>,
    /// Raw `.prj` text, when available.
    pub raw: Option<String>,
    /// True when the CRS was missing and WGS84 was assumed by policy.
    pub assumed: bool,
}

impl Clone for CrsInfo {
    fn clone(&self) -> (c: Self)
        ensures
            c == *self,
    {
        CrsInfo {
            kind: self.kind,
            epsg: self.epsg,
            raw: match &self.raw {
                Some(s) => Some(s.clone()),
                None => None,
            },
            assumed: self.assumed,
        }
    }
}

impl CrsInfo {
    /// The name of the CRS in records and messages.
    pub open spec fn name(self) -> Seq<char> {
        match self.kind {
            CrsKind::Wgs84 => "EPSG:4326"@,
            CrsKind::Nad83 => "EPSG:4269 (treated as EPSG:4326)"@,
            CrsKind::WebMercator => "EPSG:3857"@,
            CrsKind::Unsupported => "UNSUPPORTED"@,
            CrsKind::Unknown => "UNKNOWN"@,
        }
    }

    pub fn label(&self) -> (s: &'static str)
        ensures
            s@ == self.name(),
    {
        match self.kind {
            CrsKind::Wgs84 => "EPSG:4326",
            CrsKind::Nad83 => "EPSG:4269 (treated as EPSG:4326)",
            CrsKind::WebMercator => "EPSG:3857",
            CrsKind::Unsupported => "UNSUPPORTED",
            CrsKind::Unknown => "UNKNOWN",
        }
    }
}

/// The CRS kind of an EPSG code.
pub open spec fn kind_of_code(code: u32) -> CrsKind {
    if code == 4326 {
        CrsKind::Wgs84
    } else if code == 4269 {
        CrsKind::Nad83
    } else if code == 3857 || code == 900913 || code == 102100 {
        CrsKind::WebMercator
    } else {
        CrsKind::Unsupported
    }
}

/// The CRS kind by the keyword families of a text in upper case.
pub open spec fn kind_of_keywords(upper: Seq<char>) -> CrsKind {
    if scan::has_part(upper, "GCS_WGS_1984"@) || scan::has_part(upper, "WGS_1984"@)
        && scan::has_part(upper, "GEOGCS"@) {
        CrsKind::Wgs84
    } else if scan::has_part(upper, "GCS_NORTH_AMERICAN_1983"@) || scan::has_part(upper, "NAD83"@) {
        CrsKind::Nad83
    } else if scan::has_part(upper, "WEB_MERCATOR"@) || scan::has_part(
        upper,
        "MERCATOR_AUXILIARY_SPHERE"@,
    ) {
        CrsKind::WebMercator
    } else {
        CrsKind::Unsupported
    }
}

/// The EPSG code of a fragment `AUTHORITY["EPSG","4326"]...`, white space tolerated.
pub open spec fn authority_code(fragment: Seq<char>) -> Option<nat> {
    match (scan::piece(fragment, '"', 1), scan::piece(fragment, '"', 3)) {
        (Some(name), Some(code)) => if scan::same_ignoring_case(scan::trimmed(name), "EPSG"@) {
            scan::unsigned(scan::trimmed(code), 0xffff_ffff)
        } else {
            None
        },
        _ => None,
    }
}

/// The EPSG code of the node that starts at a byte of the text; nothing where no character starts
/// there.
pub open spec fn code_at(wkt: Seq<char>, at: nat) -> Option<nat> {
    let bytes = encode_utf8(wkt);
    if at <= bytes.len() && is_char_boundary(bytes, at as int) {
        authority_code(decode_utf8(bytes.skip(at as int)))
    } else {
        None
    }
}

/// The code of the last `AUTHORITY` node with one, where `upper` holds the bytes of the text in
/// upper case and the search starts at `from`.
pub open spec fn last_code(upper: Seq<u8>, wkt: Seq<char>, from: nat) -> Option<nat>
    decreases upper.len() + 1 - from,
{
    match scan::find_bytes(upper, encode_utf8("AUTHORITY"@), from) {
        Some(at) => if at < from || at + 9 > upper.len() {
            None
        } else {
            match last_code(upper, wkt, at + 9) {
                Some(code) => Some(code),
                None => code_at(wkt, at),
            }
        },
        None => None,
    }
}

/// What is known of a CRS by its `.prj` text and that text in upper case.
pub open spec fn kind_and_code(wkt: Seq<char>, upper: Seq<char>) -> (CrsKind, Option<u32>) {
    match last_code(encode_utf8(upper), wkt, 0) {
        Some(code) => (kind_of_code(code as u32), Some(code as u32)),
        None => (kind_of_keywords(upper), None),
    }
}

fn parse_authority(fragment: &str) -> (r: Option<u32>)
    ensures
        match r {
            Some(code) => authority_code(fragment@) == Some(code as nat),
            None => authority_code(fragment@) is None,
        },
{
    let name = match split_piece(fragment, '"', 1) {
        Some(name) => name,
        None => return None,
    };
    let code = match split_piece(fragment, '"', 3) {
        Some(code) => code,
        None => return None,
    };
    if !eq_ignoring_case(trim(name.as_str()).as_str(), "EPSG") {
        return None;
    }
    match parse_unsigned(trim(code.as_str()).as_str(), 0xffff_ffff) {
        Some(v) => Some(v as u32),
        None => None,
    }
}

/// The EPSG authority code of a text, given with the text in upper case. When several
/// `AUTHORITY` nodes exist, the last one names the root CRS.
pub fn epsg_code_of(wkt: &str, upper: &str) -> (r: Option<u32>)
    ensures
        match r {
            Some(code) => last_code(encode_utf8(upper@), wkt@, 0) == Some(code as nat),
            None => last_code(encode_utf8(upper@), wkt@, 0) is None,
        },
{
    let hay = upper.as_bytes();
    let n: usize = hay.len();
    let size: usize = wkt.as_bytes().len();
    let needle = "AUTHORITY".as_bytes();
    let ghost bytes = encode_utf8(wkt@);
    proof {
        reveal_strlit("AUTHORITY");
        is_ascii_chars_encode_utf8("AUTHORITY"@);
    }
    let mut last: Option<u32> = None;
    let mut from: usize = 0;
    loop
        invariant
            hay@ == encode_utf8(upper@),
            n == hay@.len(),
            size == encode_utf8(wkt@).len(),
            needle@ == encode_utf8("AUTHORITY"@),
            needle@.len() == 9,
            bytes == encode_utf8(wkt@),
            from <= hay@.len(),
            match last_code(hay@, wkt@, from as nat) {
                Some(code) => last_code(hay@, wkt@, 0) == Some(code),
                None => last_code(hay@, wkt@, 0) == match last {
                    Some(code) => Some(code as nat),
                    None => None,
                },
            },
        decreases hay@.len() - from,
    {
        match find_bytes_from(hay, needle, from) {
            None => return last,
            Some(at) => {
                let mut here: Option<u32> = None;
                proof {
                    encode_utf8_valid_utf8(wkt@);
                }
                if at <= size && wkt.is_char_boundary(at) {
                    let (_, rest) = wkt.split_at(at);
                    proof {
                        assert(bytes.subrange(at as int, bytes.len() as int) =~= bytes.skip(
                            at as int,
                        ));
                        encode_utf8_decode_utf8(rest@);
                    }
                    here = parse_authority(rest);
                }
                assert(match here {
                    Some(code) => code_at(wkt@, at as nat) == Some(code as nat),
                    None => code_at(wkt@, at as nat) is None,
                });
                if here.is_some() {
                    last = here;
                }
                from = at + 9;
            },
        }
    }
}

/// The EPSG authority code of a text. When several `AUTHORITY` nodes exist, the last one names
/// the root CRS.
pub fn extract_epsg_code(wkt: &str) -> (r: Option<u32>)
    ensures
        match r {
            Some(code) => last_code(encode_utf8(uppercase(wkt@)), wkt@, 0) == Some(code as nat),
            None => last_code(encode_utf8(uppercase(wkt@)), wkt@, 0) is None,
        },
{
    let upper = to_upper(wkt);
    epsg_code_of(wkt, upper.as_str())
}

/// What is known of a CRS by its `.prj` text and that text in upper case: an authority code wins
/// when present; otherwise a handful of keyword families are matched.
pub fn classify_crs(wkt: &str, upper: &str) -> (r: (CrsKind, Option<u32>))
    ensures
        r == kind_and_code(wkt@, upper@),
{
    if let Some(code) = epsg_code_of(wkt, upper) {
        let kind = match code {
            4326 => CrsKind::Wgs84,
            4269 => CrsKind::Nad83,
            3857 | 900913 | 102100 => CrsKind::WebMercator,
            _ => CrsKind::Unsupported,
        };
        return (kind, Some(code));
    }
    let kind = if contains(upper, "GCS_WGS_1984") || (contains(upper, "WGS_1984") && contains(
        upper,
        "GEOGCS",
    )) {
        CrsKind::Wgs84
    } else if contains(upper, "GCS_NORTH_AMERICAN_1983") || contains(upper, "NAD83") {
        CrsKind::Nad83
    } else if contains(upper, "WEB_MERCATOR") || contains(upper, "MERCATOR_AUXILIARY_SPHERE") {
        CrsKind::WebMercator
    } else {
        CrsKind::Unsupported
    };
    (kind, None)
}

/// Detects the CRS from `.prj` content.
pub fn detect_crs(prj_wkt: Option<&str>) -> (c: CrsInfo)
    ensures
        match prj_wkt {
            None => c == (CrsInfo {
                kind: CrsKind::Unknown,
                epsg: None,
                raw: None,
                assumed: false,
            }),
            Some(wkt) => {
                &&& (c.kind, c.epsg) == kind_and_code(wkt@, uppercase(wkt@))
                &&& c.raw matches Some(raw) && raw@ == wkt@
                &&& !c.assumed
            },
        },
{
    match prj_wkt {
        None => CrsInfo { kind: CrsKind::Unknown, epsg: None, raw: None, assumed: false },
        Some(wkt) => {
            let upper = to_upper(wkt);
            let (kind, epsg) = classify_crs(wkt, upper.as_str());
            CrsInfo { kind, epsg, raw: Some(String::from_str(wkt)), assumed: false }
        },
    }
}

/// What has to be done to coordinates to bring them to longitude and latitude.
#[derive(Debug, Clone, Copy, PartialEq, Eq, Structural)]
pub enum Reprojection {
    /// They are longitude and latitude.
    Identity,
    /// The inverse of the spherical Mercator projection.
    InverseMercator,
}

/// The `Debug` form of an optional code.
pub open spec fn debug_code(code: Option<u32>) -> Seq<char> {
    match code {
        Some(c) => "Some("@ + text::decimal(c as nat) + ")"@,
        None => "None"@,
    }
}

/// What has to be done to the coordinates of a source. Unknown and unsupported systems are errors,
/// so that callers reject the file instead of silently misaligning overlays.
pub fn reprojection_for(info: &CrsInfo) -> (r: IngestResult<Reprojection>)
    ensures
        match info.kind {
            CrsKind::Wgs84 => r == IngestResult::<Reprojection>::Ok(Reprojection::Identity),
            CrsKind::Nad83 => r == IngestResult::<Reprojection>::Ok(Reprojection::Identity),
            CrsKind::WebMercator => r == IngestResult::<Reprojection>::Ok(
                Reprojection::InverseMercator,
            ),
            CrsKind::Unknown => r matches Err(IngestError::UnknownCrs(m)) && m@
                == "no .prj provided and no CRS override supplied"@,
            CrsKind::Unsupported => r matches Err(IngestError::UnsupportedCrs(m)) && m@
                == "CRS Unsupported (EPSG "@ + debug_code(info.epsg)
                + ") cannot be safely reprojected in MVP"@,
        },
{
    match info.kind {
        CrsKind::Wgs84 => Ok(Reprojection::Identity),
        CrsKind::Nad83 => Ok(Reprojection::Identity),
        CrsKind::WebMercator => Ok(Reprojection::InverseMercator),
        CrsKind::Unknown => Err(
            IngestError::UnknownCrs("no .prj provided and no CRS override supplied".to_string()),
        ),
        CrsKind::Unsupported => {
            let code = match info.epsg {
                Some(c) => {
                    let mut s = String::from_str("Some(");
                    s.append(decimal_text(c as u64).as_str());
                    s.append(")");
                    s
                },
                None => String::from_str("None"),
            };
            let mut msg = String::from_str("CRS Unsupported (EPSG ");
            msg.append(code.as_str());
            msg.append(") cannot be safely reprojected in MVP");
            Err(IngestError::UnsupportedCrs(msg))
        },
    }
}

} // verus!
