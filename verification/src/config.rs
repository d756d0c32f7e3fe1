//! Tile-generation configuration.
use vstd::prelude::*;
use crate::model::ZoomRange;
use crate::text;
use crate::text::{str_equal, to_lower};
use vstd::string::*;

verus! {

/// Standard tile extent.
pub const DEFAULT_EXTENT: u32 = 4096;

/// Preferred max gzipped tile size.
pub const TARGET_MAX_TILE_BYTES: usize = 250_000;

/// Hard max gzipped tile size.
pub const HARD_MAX_TILE_BYTES: usize = 750_000;

/// Geometry is not simplified at or above this zoom.
pub const SIMPLIFY_BELOW_ZOOM: u8 = 14;

/// Configuration for one tile-generation run.
#[derive(Debug, Clone)]
pub struct TileConfig {
    /// Layer name written into every tile.
    pub layer_name: String,
    /// Tile extent in integer units.
    pub extent: u32,
    /// Buffer in extent units around each tile edge.
    pub buffer: u32,
    /// Zoom range to generate.
    pub zoom_range: ZoomRange,
    /// Zooms below this value may be simplified; at and above it geometry is preserved verbatim.
    pub simplify_below_zoom: u8,
    /// Preferred gzipped tile size target.
    pub target_max_tile_bytes: usize,
    /// Hard gzipped tile size cap; tiles are pruned until under it.
    pub hard_max_tile_bytes: usize,
    /// Gzip compression level (1 to 9).
    pub gzip_level: u32,
    /// Property policy (allowlist, denylist, payload caps).
    pub property_policy: PropertyPolicy,
    /// When true, tiles are generated in parallel worker threads.
    pub parallel: bool,
}

/// The value of `parallel` in a stored configuration that does not give it.
pub fn default_true() -> (b: bool)
    ensures
        b,
{
    true
}

impl Default for TileConfig {
    fn default() -> (c: Self)
        ensures
            c.layer_name@ == "vis_layer"@,
            c.extent == DEFAULT_EXTENT,
            c.buffer == 256,
            c.zoom_range == (ZoomRange { min_zoom: 0, max_zoom: 16 }),
            c.simplify_below_zoom == SIMPLIFY_BELOW_ZOOM,
            c.target_max_tile_bytes == TARGET_MAX_TILE_BYTES,
            c.hard_max_tile_bytes == HARD_MAX_TILE_BYTES,
            c.gzip_level == 6,
            c.property_policy.is_default(),
            c.parallel,
            c.fault() is None,
    {
        TileConfig {
            layer_name: "vis_layer".to_string(),
            extent: DEFAULT_EXTENT,
            buffer: 256,
            zoom_range: ZoomRange::new(0, 16),
            simplify_below_zoom: SIMPLIFY_BELOW_ZOOM,
            target_max_tile_bytes: TARGET_MAX_TILE_BYTES,
            hard_max_tile_bytes: HARD_MAX_TILE_BYTES,
            gzip_level: 6,
            property_policy: PropertyPolicy::default(),
            parallel: true,
        }
    }
}

impl TileConfig {
    /// The first rule that the configuration breaks.
    pub open spec fn fault(&self) -> Option<Seq<char>> {
        if self.extent == 0 {
            Some("extent must be > 0"@)
        } else if self.zoom_range.max_zoom > 20 {
            Some("max_zoom > 20 is unsupported (integer overflow)"@)
        } else if self.gzip_level == 0 || self.gzip_level > 9 {
            Some("gzip_level must be in 1..=9"@)
        } else if self.target_max_tile_bytes > self.hard_max_tile_bytes {
            Some("target_max_tile_bytes must be <= hard_max_tile_bytes"@)
        } else {
            None
        }
    }

    pub fn validate(&self) -> (r: Result<(), String>)
        ensures
            match r {
                Ok(_) => self.fault() is None,
                Err(msg) => self.fault() == Some(msg@),
            },
    {
        if self.extent == 0 {
            return Err("extent must be > 0".to_string());
        }
        if self.zoom_range.max_zoom > 20 {
            return Err("max_zoom > 20 is unsupported (integer overflow)".to_string());
        }
        if self.gzip_level == 0 || self.gzip_level > 9 {
            return Err("gzip_level must be in 1..=9".to_string());
        }
        if self.target_max_tile_bytes > self.hard_max_tile_bytes {
            return Err("target_max_tile_bytes must be <= hard_max_tile_bytes".to_string());
        }
        Ok(())
    }
}

/// Attribute policy applied during normalization and tile assembly: analysis attributes are
/// preserved, personal data is stripped, and the property payload per feature is capped.
#[derive(Debug, Clone)]
pub struct PropertyPolicy {
    /// If `Some`, only these properties survive (case-insensitive).
    pub allowlist: Option<Vec<String>>,
    /// Always dropped, even when no allowlist is set (personal data).
    pub denylist: Vec<String>,
    /// Properties kept during size mitigation (identifiers).
    pub core_properties: Vec<String>,
    /// Max serialized bytes of key/value payload per feature.
    pub max_property_bytes_per_feature: usize,
    /// Max number of properties per feature.
    pub max_fields_per_feature: usize,
}

/// The strings of a list.
pub open spec fn strings(list: Seq<String>) -> Seq<Seq<char>> {
    list.map_values(|s: String| s@)
}

/// The denylist of a policy that does not give one.
pub open spec fn denied_by_default() -> Seq<Seq<char>> {
    seq![
        "owner_name"@,
        "ownername"@,
        "owner"@,
        "owner_first"@,
        "owner_last"@,
        "mailing_address"@,
        "email"@,
        "phone"@,
        "ssn"@,
        "tax_id"@,
    ]
}

/// The identifiers that a policy keeps when it does not say which.
pub open spec fn core_by_default() -> Seq<Seq<char>> {
    seq!["assetId"@, "parcelId"@, "propertyId"@]
}

fn default_denylist() -> (list: Vec<String>)
    ensures
        strings(list@) == denied_by_default(),
{
    let list = vec![
        "owner_name".to_string(),
        "ownername".to_string(),
        "owner".to_string(),
        "owner_first".to_string(),
        "owner_last".to_string(),
        "mailing_address".to_string(),
        "email".to_string(),
        "phone".to_string(),
        "ssn".to_string(),
        "tax_id".to_string(),
    ];
    assert(strings(list@) =~= denied_by_default());
    list
}

fn default_core_properties() -> (list: Vec<String>)
    ensures
        strings(list@) == core_by_default(),
{
    let list = vec!["assetId".to_string(), "parcelId".to_string(), "propertyId".to_string()];
    assert(strings(list@) =~= core_by_default());
    list
}

fn default_max_property_bytes() -> (n: usize)
    ensures
        n == 512,
{
    512
}

fn default_max_fields() -> (n: usize)
    ensures
        n == 32,
{
    32
}

impl Default for PropertyPolicy {
    fn default() -> (p: Self)
        ensures
            p.is_default(),
    {
        PropertyPolicy {
            allowlist: None,
            denylist: default_denylist(),
            core_properties: default_core_properties(),
            max_property_bytes_per_feature: default_max_property_bytes(),
            max_fields_per_feature: default_max_fields(),
        }
    }
}

/// Whether a list holds a key, in whatever case.
pub open spec fn listed(list: Seq<Seq<char>>, key: Seq<char>) -> bool {
    exists|i: int|
        0 <= i < list.len() && text::lowercase(#[trigger] list[i]) == text::lowercase(key)
}

/// Whether one of `names` is `name`.
pub fn has_name(names: &[String], name: &str) -> (b: bool)
    ensures
        b == strings(names@).contains(name@),
{
    let mut i: usize = 0;
    while i < names.len()
        invariant
            i <= names@.len(),
            forall|j: int| 0 <= j < i ==> (#[trigger] names@[j])@ != name@,
        decreases names@.len() - i,
    {
        if str_equal(names[i].as_str(), name) {
            assert(strings(names@)[i as int] == name@);
            return true;
        }
        i = i + 1;
    }
    assert(!strings(names@).contains(name@)) by {
        if strings(names@).contains(name@) {
            let j = choose|j: int| 0 <= j < strings(names@).len() && strings(names@)[j] == name@;
            assert(names@[j]@ == name@);
        }
    }
    false
}

impl PropertyPolicy {
    /// The policy of a configuration that gives none.
    pub open spec fn is_default(&self) -> bool {
        &&& self.allowlist is None
        &&& strings(self.denylist@) == denied_by_default()
        &&& strings(self.core_properties@) == core_by_default()
        &&& self.max_property_bytes_per_feature == 512
        &&& self.max_fields_per_feature == 32
    }

    pub open spec fn denies(&self, key: Seq<char>) -> bool {
        listed(strings(self.denylist@), key)
    }

    /// A key survives unless it is denied; where there is an allowlist, only if it is on it.
    pub open spec fn allows(&self, key: Seq<char>) -> bool {
        &&& !self.denies(key)
        &&& self.allowlist matches Some(list) ==> listed(strings(list@), key)
    }

    pub open spec fn keeps_as_core(&self, key: Seq<char>) -> bool {
        listed(strings(self.core_properties@), key)
    }

    /// Case-insensitive membership.
    fn in_list(list: &[String], key: &str) -> (b: bool)
        ensures
            b == listed(strings(list@), key@),
    {
        let lower = to_lower(key);
        let mut lowered: Vec<String> = Vec::new();
        let mut i: usize = 0;
        while i < list.len()
            invariant
                i <= list@.len(),
                lowered@.len() == i,
                forall|j: int|
                    0 <= j < i ==> (#[trigger] lowered@[j])@ == text::lowercase(
                        strings(list@)[j],
                    ),
            decreases list@.len() - i,
        {
            lowered.push(to_lower(list[i].as_str()));
            i = i + 1;
        }
        let b = has_name(lowered.as_slice(), lower.as_str());
        proof {
            let names = strings(lowered@);
            if b {
                let j = choose|j: int| 0 <= j < names.len() && names[j] == lower@;
                assert(lowered@[j]@ == text::lowercase(strings(list@)[j]));
            }
            if listed(strings(list@), key@) {
                let j = choose|j: int|
                    0 <= j < strings(list@).len() && text::lowercase(#[trigger] strings(list@)[j])
                        == text::lowercase(key@);
                assert(lowered@[j]@ == text::lowercase(strings(list@)[j]));
                assert(names[j] == lower@);
            }
        }
        b
    }

    pub fn is_denied(&self, key: &str) -> (b: bool)
        ensures
            b == self.denies(key@),
    {
        Self::in_list(self.denylist.as_slice(), key)
    }

    pub fn is_allowed(&self, key: &str) -> (b: bool)
        ensures
            b == self.allows(key@),
    {
        match &self.allowlist {
            Some(list) => Self::in_list(list.as_slice(), key) && !self.is_denied(key),
            None => !self.is_denied(key),
        }
    }

    pub fn is_core(&self, key: &str) -> (b: bool)
        ensures
            b == self.keeps_as_core(key@),
    {
        Self::in_list(self.core_properties.as_slice(), key)
    }
}

/// The policy does not see the case of a key.
pub proof fn policy_ignores_case(policy: PropertyPolicy, a: Seq<char>, b: Seq<char>)
    requires
        text::lowercase(a) == text::lowercase(b),
    ensures
        policy.denies(a) == policy.denies(b),
        policy.allows(a) == policy.allows(b),
        policy.keeps_as_core(a) == policy.keeps_as_core(b),
{
}

/// Nothing on the denylist is allowed, in whatever case it is written.
pub proof fn denied_keys_are_not_allowed(policy: PropertyPolicy, i: int, key: Seq<char>)
    requires
        text::lowercase(key) == text::lowercase(policy.denylist@[i]@),
        0 <= i < policy.denylist@.len(),
    ensures
        !policy.allows(key),
{
    assert(strings(policy.denylist@)[i] == policy.denylist@[i]@);
}

/// A configuration is refused exactly where it has no extent, zooms above 20, a compression level
/// outside 1 to 9, or a target above the cap; the first of these in this order is named.
pub proof fn configurations_are_checked(c: TileConfig)
    ensures
        c.fault() is None <==> c.extent > 0 && c.zoom_range.max_zoom <= 20 && 1 <= c.gzip_level <= 9
            && c.target_max_tile_bytes <= c.hard_max_tile_bytes,
        c.extent == 0 ==> c.fault() == Some("extent must be > 0"@),
        c.extent > 0 && c.zoom_range.max_zoom > 20 ==> c.fault() == Some(
            "max_zoom > 20 is unsupported (integer overflow)"@,
        ),
        c.extent > 0 && c.zoom_range.max_zoom <= 20 && !(1 <= c.gzip_level <= 9) ==> c.fault()
            == Some("gzip_level must be in 1..=9"@),
        c.extent > 0 && c.zoom_range.max_zoom <= 20 && 1 <= c.gzip_level <= 9
            && c.target_max_tile_bytes > c.hard_max_tile_bytes ==> c.fault() == Some(
            "target_max_tile_bytes must be <= hard_max_tile_bytes"@,
        ),
{
}

/// What a policy denies and keeps when it does not say so itself: the names of owners and their
/// addresses and numbers go, the identifiers of assets, parcels and properties stay.
pub proof fn policies_have_defaults(policy: PropertyPolicy)
    requires
        policy.is_default(),
    ensures
        policy.allowlist is None,
        policy.max_property_bytes_per_feature == 512,
        policy.max_fields_per_feature == 32,
        policy.denies("owner_name"@) && policy.denies("ownername"@) && policy.denies("owner"@),
        policy.denies("owner_first"@) && policy.denies("owner_last"@),
        policy.denies("mailing_address"@) && policy.denies("email"@) && policy.denies("phone"@),
        policy.denies("ssn"@) && policy.denies("tax_id"@),
        policy.keeps_as_core("assetId"@) && policy.keeps_as_core("parcelId"@)
            && policy.keeps_as_core("propertyId"@),
        strings(policy.denylist@).len() == 10,
        strings(policy.core_properties@).len() == 3,
{
    let d = denied_by_default();
    assert(d[0] == "owner_name"@ && d[1] == "ownername"@ && d[2] == "owner"@ && d[3]
        == "owner_first"@ && d[4] == "owner_last"@ && d[5] == "mailing_address"@ && d[6]
        == "email"@ && d[7] == "phone"@ && d[8] == "ssn"@ && d[9] == "tax_id"@);
    let c = core_by_default();
    assert(c[0] == "assetId"@ && c[1] == "parcelId"@ && c[2] == "propertyId"@);
}

} // verus!
