//! The layer catalog.
use vstd::prelude::*;
use crate::api::auth;
use crate::api::auth::AccessDecision;
use crate::api::dto::LayerListQuery;
use crate::api::error::ApiError;
use crate::api::error::NOT_FOUND;
use crate::api::tiles::layer_not_found;
use crate::ingest::validate;
use crate::model::LayerCategory;
use crate::model::LayerMetadata;
use crate::scan;
use crate::text;

verus! {

/// The tenant that a query is limited to: an authenticated caller's own, whatever the query says.
pub open spec fn scope(caller: Option<Seq<char>>, asked: Option<Seq<char>>) -> Option<Seq<char>> {
    match caller {
        Some(c) => Some(c),
        None => asked,
    }
}

/// The text of an optional string.
pub open spec fn opt_text(s: Option<String>) -> Option<Seq<char>> {
    match s {
        Some(t) => Some(t@),
        None => None,
    }
}

/// The tenant that a query is limited to.
pub fn scoped_tenant(caller: Option<&str>, asked: Option<String>) -> (r: Option<String>)
    ensures
        opt_text(r) == scope(validate::opt_str(caller), opt_text(asked)),
{
    match caller {
        Some(c) => Some(c.to_string()),
        None => asked,
    }
}

/// Whether a layer has a text in its name or in one of its tags, in lower case.
pub open spec fn mentions(l: LayerMetadata, needle: Seq<char>) -> bool {
    scan::has_part(text::lowercase(l.name@), needle) || exists|i: int|
        0 <= i < l.tags@.len() && scan::has_part(text::lowercase((#[trigger] l.tags@[i])@), needle)
}

/// Whether a layer passes the filters.
pub open spec fn passes(
    l: LayerMetadata,
    tenant: Option<Seq<char>>,
    category: Option<LayerCategory>,
    market: Option<Seq<char>>,
) -> bool {
    &&& tenant matches Some(t) ==> l.tenant_id@ == t
    &&& category matches Some(c) ==> l.category == c
    &&& market matches Some(m) ==> mentions(l, text::lowercase(m))
}

fn mentions_text(l: &LayerMetadata, needle: &str) -> (b: bool)
    ensures
        b == mentions(*l, needle@),
{
    let name = text::to_lower(l.name.as_str());
    if scan::contains(name.as_str(), needle) {
        return true;
    }
    let mut i: usize = 0;
    while i < l.tags.len()
        invariant
            i <= l.tags@.len(),
            forall|k: int|
                0 <= k < i ==> !scan::has_part(text::lowercase((#[trigger] l.tags@[k])@), needle@),
        decreases l.tags@.len() - i,
    {
        let tag = text::to_lower(l.tags[i].as_str());
        if scan::contains(tag.as_str(), needle) {
            return true;
        }
        i = i + 1;
    }
    false
}

/// Where a layer goes among layers in order: behind those whose id is not greater.
pub open spec fn id_slot(t: Seq<LayerMetadata>, id: Seq<char>) -> int
    decreases t.len(),
{
    if t.len() == 0 || !text::lex_less(id, t.last().layer_id@) {
        t.len() as int
    } else {
        id_slot(t.drop_last(), id)
    }
}

/// The first `n` layers that pass, in the order of their ids.
pub open spec fn listed(
    layers: Seq<LayerMetadata>,
    tenant: Option<Seq<char>>,
    category: Option<LayerCategory>,
    market: Option<Seq<char>>,
    n: nat,
) -> Seq<LayerMetadata>
    decreases n,
{
    if n == 0 {
        Seq::empty()
    } else {
        let before = listed(layers, tenant, category, market, (n - 1) as nat);
        let l = layers[n - 1];
        if passes(l, tenant, category, market) {
            before.insert(id_slot(before, l.layer_id@), l)
        } else {
            before
        }
    }
}

/// There is a place for every layer.
pub proof fn slot_bounds(t: Seq<LayerMetadata>, id: Seq<char>)
    ensures
        0 <= id_slot(t, id) <= t.len(),
    decreases t.len(),
{
    if t.len() > 0 {
        slot_bounds(t.drop_last(), id);
    }
}

fn find_slot(t: &Vec<LayerMetadata>, id: &str) -> (at: usize)
    ensures
        at == id_slot(t@, id@),
        at <= t@.len(),
{
    let mut at: usize = t.len();
    assert(t@.take(at as int) =~= t@);
    while at > 0
        invariant
            at <= t@.len(),
            id_slot(t@.take(at as int), id@) == id_slot(t@, id@),
        decreases at,
    {
        let ghost head = t@.take(at as int);
        assert(head.drop_last() =~= t@.take(at - 1));
        assert(head.last() == t@[at - 1]);
        if !text::str_less(id, t[at - 1].layer_id.as_str()) {
            return at;
        }
        at = at - 1;
    }
    at
}

/// Lists the layers that pass the filters, in the order of their ids. Authenticated callers see
/// their own tenant's layers only, whatever the query says.
pub fn list_layers(caller: Option<&str>, query: LayerListQuery, layers: Vec<LayerMetadata>) -> (out:
    Vec<LayerMetadata>)
    ensures
        out@ == listed(
            layers@,
            scope(validate::opt_str(caller), opt_text(query.tenant_id)),
            query.category,
            opt_text(query.market),
            layers@.len(),
        ),
{
    let tenant = scoped_tenant(caller, query.tenant_id);
    let needle: Option<String> = match &query.market {
        Some(m) => Some(text::to_lower(m.as_str())),
        None => None,
    };
    let ghost all = layers@;
    let ghost scoped = opt_text(tenant);
    let ghost market = opt_text(query.market);
    let mut out: Vec<LayerMetadata> = Vec::new();
    for l in it: layers
        invariant
            it.seq() == all,
            scoped == opt_text(tenant),
            market == opt_text(query.market),
            match market {
                Some(m) => needle matches Some(s) && s@ == text::lowercase(m),
                None => needle is None,
            },
            out@ == listed(all, scoped, query.category, market, it.index() as nat),
    {
        assert(all[it.index() as int] == l);
        let by_tenant = match &tenant {
            Some(t) => text::str_equal(l.tenant_id.as_str(), t.as_str()),
            None => true,
        };
        let by_category = match query.category {
            Some(c) => l.category == c,
            None => true,
        };
        let by_market = match &needle {
            Some(s) => mentions_text(&l, s.as_str()),
            None => true,
        };
        if by_tenant && by_category && by_market {
            let at: usize = find_slot(&out, l.layer_id.as_str());
            out.insert(at, l);
        }
    }
    out
}

/// How a request for a layer is answered, and what goes to the audit trail.
#[derive(Debug)]
pub struct LayerReply {
    pub result: Result<LayerMetadata, ApiError>,
    pub audit: Option<AccessDecision>,
}

/// Whether a reply is the one to a request for a layer, by what the catalog has under its id.
pub open spec fn answers(
    r: LayerReply,
    caller: Option<Seq<char>>,
    layer_id: Seq<char>,
    found: Option<LayerMetadata>,
) -> bool {
    match found {
        Some(l) if auth::may_touch(caller, l.tenant_id@) => {
            &&& r.result == Result::<LayerMetadata, ApiError>::Ok(l)
            &&& match caller {
                Some(c) => r.audit matches Some(a) && a.allows(c, "layer"@, layer_id),
                None => r.audit is None,
            }
        },
        _ => {
            &&& r.result matches Err(e) && e.is(
                NOT_FOUND,
                "LAYER_NOT_FOUND"@,
                "layer "@ + layer_id + " not found"@,
            )
            &&& match found {
                Some(_) => r.audit matches Some(a) && a.denies(
                    caller->Some_0,
                    "layer"@,
                    layer_id,
                ),
                None => r.audit is None,
            }
        },
    }
}

/// Answers a request for a layer. Unknown layers and other tenants' layers are both not found, so
/// that nothing is learned of what other tenants have. Decisions on an authenticated caller are
/// audited under the caller's tenant.
pub fn get_layer(
    caller: Option<&str>,
    layer_id: &str,
    found: Result<Option<LayerMetadata>, ApiError>,
) -> (r: LayerReply)
    ensures
        match found {
            Err(e) => r.result == Result::<LayerMetadata, ApiError>::Err(e) && r.audit is None,
            Ok(l) => answers(r, validate::opt_str(caller), layer_id@, l),
        },
{
    let layer = match found {
        Err(e) => {
            return LayerReply { result: Err(e), audit: None };
        },
        Ok(None) => {
            return LayerReply { result: Err(layer_not_found(layer_id)), audit: None };
        },
        Ok(Some(l)) => l,
    };
    match caller {
        None => LayerReply { result: Ok(layer), audit: None },
        Some(c) => {
            if text::str_equal(c, layer.tenant_id.as_str()) {
                LayerReply {
                    result: Ok(layer),
                    audit: Some(AccessDecision::allow(c, "layer", layer_id)),
                }
            } else {
                LayerReply {
                    result: Err(layer_not_found(layer_id)),
                    audit: Some(AccessDecision::deny(c, "layer", layer_id)),
                }
            }
        },
    }
}

/// Another tenant's layer cannot be told from one that does not exist: the answers are the same.
pub proof fn foreign_layers_look_absent(
    caller: Option<Seq<char>>,
    layer_id: Seq<char>,
    foreign: LayerMetadata,
    r: LayerReply,
    absent: LayerReply,
)
    requires
        !auth::may_touch(caller, foreign.tenant_id@),
        answers(r, caller, layer_id, Some(foreign)),
        answers(absent, caller, layer_id, None),
    ensures
        r.result matches Err(e) && absent.result matches Err(f) && e.is(
            f.status,
            f.code@,
            f.message@,
        ),
{
}

/// A listing holds nothing but layers that pass the filters; for an authenticated caller, nothing of
/// another tenant.
pub proof fn listings_are_scoped(
    layers: Seq<LayerMetadata>,
    caller: Seq<char>,
    asked: Option<Seq<char>>,
    category: Option<LayerCategory>,
    market: Option<Seq<char>>,
    n: nat,
    i: int,
)
    requires
        n <= layers.len(),
        0 <= i < listed(layers, scope(Some(caller), asked), category, market, n).len(),
    ensures
        ({
            let l = listed(layers, scope(Some(caller), asked), category, market, n)[i];
            auth::may_touch(Some(caller), l.tenant_id@) && layers.contains(l)
        }),
    decreases n,
{
    let tenant = scope(Some(caller), asked);
    let before = listed(layers, tenant, category, market, (n - 1) as nat);
    let l = layers[n - 1];
    if passes(l, tenant, category, market) {
        let at = id_slot(before, l.layer_id@);
        slot_bounds(before, l.layer_id@);
        if i < at {
            listings_are_scoped(layers, caller, asked, category, market, (n - 1) as nat, i);
        } else if i > at {
            listings_are_scoped(layers, caller, asked, category, market, (n - 1) as nat, i - 1);
        }
    } else {
        listings_are_scoped(layers, caller, asked, category, market, (n - 1) as nat, i);
    }
}

/// Every layer that passes the filters is in the listing.
pub proof fn listings_are_complete(
    layers: Seq<LayerMetadata>,
    tenant: Option<Seq<char>>,
    category: Option<LayerCategory>,
    market: Option<Seq<char>>,
    n: nat,
    i: int,
)
    requires
        n <= layers.len(),
        0 <= i < n,
        passes(layers[i], tenant, category, market),
    ensures
        listed(layers, tenant, category, market, n).contains(layers[i]),
    decreases n,
{
    let before = listed(layers, tenant, category, market, (n - 1) as nat);
    let out = listed(layers, tenant, category, market, n);
    let l = layers[n - 1];
    let at = id_slot(before, l.layer_id@);
    slot_bounds(before, l.layer_id@);
    if i == n - 1 {
        assert(out[at] == l);
    } else {
        listings_are_complete(layers, tenant, category, market, (n - 1) as nat, i);
        let k = choose|k: int| 0 <= k < before.len() && before[k] == layers[i];
        if passes(l, tenant, category, market) {
            if k < at {
                assert(out[k] == before[k]);
            } else {
                assert(out[k + 1] == before[k]);
            }
        }
    }
}

/// Layers whose ids are in order.
pub open spec fn ordered(t: Seq<LayerMetadata>) -> bool {
    forall|i: int, j: int|
        0 <= i < j < t.len() ==> !text::lex_less(
            (#[trigger] t[j]).layer_id@,
            (#[trigger] t[i]).layer_id@,
        )
}

/// The place of a layer is behind those whose id is not greater and before the others.
pub proof fn slot_splits(t: Seq<LayerMetadata>, id: Seq<char>)
    requires
        ordered(t),
    ensures
        forall|i: int| 0 <= i < id_slot(t, id) ==> !text::lex_less(id, (#[trigger] t[i]).layer_id@),
        forall|i: int| id_slot(t, id) <= i < t.len() ==> text::lex_less(
            id,
            (#[trigger] t[i]).layer_id@,
        ),
    decreases t.len(),
{
    if t.len() > 0 {
        let last = t.last().layer_id@;
        if text::lex_less(id, last) {
            assert(ordered(t.drop_last())) by {
                assert forall|i: int, j: int| 0 <= i < j < t.drop_last().len() implies !text::lex_less(
                    (#[trigger] t.drop_last()[j]).layer_id@,
                    (#[trigger] t.drop_last()[i]).layer_id@,
                ) by {
                    assert(t.drop_last()[i] == t[i] && t.drop_last()[j] == t[j]);
                }
            }
            slot_splits(t.drop_last(), id);
            slot_bounds(t.drop_last(), id);
            assert forall|i: int| 0 <= i < id_slot(t, id) implies !text::lex_less(
                id,
                (#[trigger] t[i]).layer_id@,
            ) by {
                assert(t.drop_last()[i] == t[i]);
            }
            assert forall|i: int| id_slot(t, id) <= i < t.len() implies text::lex_less(
                id,
                (#[trigger] t[i]).layer_id@,
            ) by {
                if i < t.len() - 1 {
                    assert(t.drop_last()[i] == t[i]);
                }
            }
        } else {
            assert forall|i: int| 0 <= i < t.len() implies !text::lex_less(
                id,
                (#[trigger] t[i]).layer_id@,
            ) by {
                if i < t.len() - 1 && text::lex_less(id, t[i].layer_id@) {
                    let a = t[i].layer_id@;
                    assert(!text::lex_less(t[t.len() - 1].layer_id@, t[i].layer_id@));
                    text::lex_total(a, last);
                    if text::lex_less(a, last) {
                        text::lex_transitive(id, a, last);
                    }
                }
            }
        }
    }
}

/// A listing is in the order of the layers' ids.
pub proof fn listings_are_ordered(
    layers: Seq<LayerMetadata>,
    tenant: Option<Seq<char>>,
    category: Option<LayerCategory>,
    market: Option<Seq<char>>,
    n: nat,
)
    requires
        n <= layers.len(),
    ensures
        ordered(listed(layers, tenant, category, market, n)),
    decreases n,
{
    if n > 0 {
        listings_are_ordered(layers, tenant, category, market, (n - 1) as nat);
        let before = listed(layers, tenant, category, market, (n - 1) as nat);
        let l = layers[n - 1];
        if passes(l, tenant, category, market) {
            let at = id_slot(before, l.layer_id@);
            slot_bounds(before, l.layer_id@);
            slot_splits(before, l.layer_id@);
            let out = before.insert(at, l);
            assert forall|i: int, j: int| 0 <= i < j < out.len() implies !text::lex_less(
                (#[trigger] out[j]).layer_id@,
                (#[trigger] out[i]).layer_id@,
            ) by {
                let a = if i < at {
                    i
                } else {
                    i - 1
                };
                let b = if j < at {
                    j
                } else {
                    j - 1
                };
                if i != at {
                    assert(out[i] == before[a]);
                }
                if j != at {
                    assert(out[j] == before[b]);
                }
                if i == at && text::lex_less(before[b].layer_id@, l.layer_id@) {
                    text::lex_transitive(l.layer_id@, before[b].layer_id@, l.layer_id@);
                    text::lex_irreflexive(l.layer_id@);
                }
            }
        }
    }
}

} // verus!
