//! What listings, uploads and operations promise.
use vstd::prelude::*;
use crate::api::dto::LayerMetadataInputDto;
use crate::api::dto::UploadRequest;
use crate::api::dto::UploadResponse;
use crate::api::error::ApiError;
use crate::api::layers;
use crate::api::layers::LayerReply;
use crate::api::ops;
use crate::api::uploads;
use crate::api::uploads::JobSeed;
use crate::api::uploads::UploadPlan;
use crate::config;
use crate::ingest::validate;
use crate::model::JobRecord;
use crate::model::JobStatus;
use crate::model::LayerCategory;
use crate::model::LayerMetadata;
use crate::model::LayerMetadataInput;
use crate::model::SourceFormat;
use crate::scan;
use crate::text;
use crate::text_laws;

verus! {

/// An authenticated caller is held to the own tenant, whatever the query asks for; without a caller
/// the query has its way.
pub proof fn callers_are_held_to_their_tenant(caller: Seq<char>, asked: Option<Seq<char>>)
    ensures
        layers::scope(Some(caller), asked) == Some(caller),
        layers::scope(None, asked) == asked,
{
}

/// A layer passes where it has the tenant, the category and the market that are asked for. What is
/// not asked for does not matter.
pub proof fn layers_pass_by_what_is_asked(
    l: LayerMetadata,
    tenant: Option<Seq<char>>,
    category: Option<LayerCategory>,
    market: Option<Seq<char>>,
)
    ensures
        layers::passes(l, None, None, None),
        layers::passes(l, tenant, category, market) == (layers::passes(l, tenant, None, None)
            && layers::passes(l, None, category, None) && layers::passes(l, None, None, market)),
        tenant matches Some(t) ==> (layers::passes(l, tenant, None, None) <==> l.tenant_id@ == t),
        category matches Some(c) ==> (layers::passes(l, None, category, None) <==> l.category == c),
{
}

/// A market is looked for in the name and in every tag, and nowhere else; upper and lower case do
/// not matter.
pub proof fn markets_are_found_in_names_and_tags(l: LayerMetadata, market: Seq<char>, i: int)
    ensures
        scan::has_part(text::lowercase(l.name@), text::lowercase(market)) ==> layers::passes(
            l,
            None,
            None,
            Some(market),
        ),
        0 <= i < l.tags@.len() && scan::has_part(
            text::lowercase(l.tags@[i]@),
            text::lowercase(market),
        ) ==> layers::passes(l, None, None, Some(market)),
        layers::passes(l, None, None, Some(market)) ==> scan::has_part(
            text::lowercase(l.name@),
            text::lowercase(market),
        ) || exists|k: int|
            0 <= k < l.tags@.len() && scan::has_part(
                text::lowercase((#[trigger] l.tags@[k])@),
                text::lowercase(market),
            ),
{
}

/// A listing of layers: those at the places `at`, each place that passes once, in the order of the
/// ids; layers of one id stay as they came.
pub open spec fn lists(
    all: Seq<LayerMetadata>,
    tenant: Option<Seq<char>>,
    category: Option<LayerCategory>,
    market: Option<Seq<char>>,
    out: Seq<LayerMetadata>,
    at: Seq<int>,
) -> bool {
    &&& at.len() == out.len()
    &&& forall|k: int|
        0 <= k < at.len() ==> 0 <= (#[trigger] at[k]) < all.len() && out[k] == all[at[k]]
            && layers::passes(all[at[k]], tenant, category, market)
    &&& forall|i: int|
        0 <= i < all.len() && layers::passes(#[trigger] all[i], tenant, category, market)
            ==> at.contains(i)
    &&& forall|j: int, k: int|
        0 <= j < k < at.len() ==> comes_before(all, #[trigger] at[j], #[trigger] at[k])
}

/// Whether the layer at `a` comes before the one at `b`.
pub open spec fn comes_before(all: Seq<LayerMetadata>, a: int, b: int) -> bool {
    ||| text::lex_less(all[a].layer_id@, all[b].layer_id@)
    ||| all[a].layer_id@ == all[b].layer_id@ && a < b
}

/// A listing has every layer that passes exactly once, by id, those of one id as they came.
pub proof fn listings_have_each_layer_once(
    all: Seq<LayerMetadata>,
    tenant: Option<Seq<char>>,
    category: Option<LayerCategory>,
    market: Option<Seq<char>>,
)
    ensures
        exists|at: Seq<int>| #[trigger]
            lists(
                all,
                tenant,
                category,
                market,
                layers::listed(all, tenant, category, market, all.len()),
                at,
            ),
{
    let at = places_listed(all, tenant, category, market, all.len());
    assert(all.take(all.len() as int) =~= all);
}

proof fn places_listed(
    all: Seq<LayerMetadata>,
    tenant: Option<Seq<char>>,
    category: Option<LayerCategory>,
    market: Option<Seq<char>>,
    n: nat,
) -> (at: Seq<int>)
    requires
        n <= all.len(),
    ensures
        lists(
            all.take(n as int),
            tenant,
            category,
            market,
            layers::listed(all, tenant, category, market, n),
            at,
        ),
    decreases n,
{
    let out = layers::listed(all, tenant, category, market, n);
    let head = all.take(n as int);
    if n == 0 {
        assert(lists(head, tenant, category, market, out, Seq::empty()));
        Seq::empty()
    } else {
        let m = n - 1;
        let before = layers::listed(all, tenant, category, market, m as nat);
        let small = all.take(m);
        let at = places_listed(all, tenant, category, market, m as nat);
        let l = all[m];
        assert forall|i: int| 0 <= i < m implies small[i] == #[trigger] head[i] by {}
        if layers::passes(l, tenant, category, market) {
            let slot = layers::id_slot(before, l.layer_id@);
            layers::slot_bounds(before, l.layer_id@);
            layers::listings_are_ordered(all, tenant, category, market, m as nat);
            layers::slot_splits(before, l.layer_id@);
            let new = at.insert(slot, m);
            assert forall|k: int| 0 <= k < new.len() implies 0 <= (#[trigger] new[k]) < head.len()
                && out[k] == head[new[k]] && layers::passes(
                head[new[k]],
                tenant,
                category,
                market,
            ) by {
                if k < slot {
                    assert(new[k] == at[k]);
                } else if k > slot {
                    assert(new[k] == at[k - 1]);
                }
            }
            assert forall|i: int|
                0 <= i < head.len() && layers::passes(
                    #[trigger] head[i],
                    tenant,
                    category,
                    market,
                ) implies new.contains(i) by {
                if i == m {
                    assert(new[slot] == m);
                } else {
                    assert(small[i] == head[i]);
                    assert(at.contains(i));
                    let k = choose|k: int| 0 <= k < at.len() && at[k] == i;
                    if k < slot {
                        assert(new[k] == i);
                    } else {
                        assert(new[k + 1] == i);
                    }
                }
            }
            assert forall|j: int, k: int| 0 <= j < k < new.len() implies comes_before(
                head,
                #[trigger] new[j],
                #[trigger] new[k],
            ) by {
                if j < slot && k < slot {
                    assert(new[j] == at[j] && new[k] == at[k]);
                    assert(comes_before(small, at[j], at[k]));
                } else if j < slot && k > slot {
                    assert(new[j] == at[j] && new[k] == at[k - 1]);
                    assert(comes_before(small, at[j], at[k - 1]));
                } else if j > slot {
                    assert(new[j] == at[j - 1] && new[k] == at[k - 1]);
                    assert(comes_before(small, at[j - 1], at[k - 1]));
                } else if j < slot {
                    assert(new[j] == at[j] && new[k] == m);
                    assert(before[j] == small[at[j]]);
                    text::lex_total(l.layer_id@, before[j].layer_id@);
                } else {
                    assert(new[j] == m && new[k] == at[k - 1]);
                    assert(before[k - 1] == small[at[k - 1]]);
                }
            }
            assert(lists(head, tenant, category, market, out, new));
            new
        } else {
            assert forall|k: int| 0 <= k < at.len() implies 0 <= (#[trigger] at[k]) < head.len()
                && out[k] == head[at[k]] && layers::passes(
                head[at[k]],
                tenant,
                category,
                market,
            ) by {
                assert(small[at[k]] == head[at[k]]);
            }
            assert forall|i: int|
                0 <= i < head.len() && layers::passes(
                    #[trigger] head[i],
                    tenant,
                    category,
                    market,
                ) implies at.contains(i) by {
                assert(i < m);
                assert(small[i] == head[i]);
            }
            assert forall|j: int, k: int| 0 <= j < k < at.len() implies comes_before(
                head,
                #[trigger] at[j],
                #[trigger] at[k],
            ) by {
                assert(comes_before(small, at[j], at[k]));
            }
            assert(lists(head, tenant, category, market, out, at));
            at
        }
    }
}

/// A layer is answered with what the catalog has, and a decision on an authenticated caller is
/// audited under the caller's tenant. A layer that is absent, or another tenant's, is not found.
pub proof fn layers_are_answered(
    r: LayerReply,
    caller: Seq<char>,
    layer_id: Seq<char>,
    l: LayerMetadata,
)
    ensures
        layers::answers(r, None, layer_id, Some(l)) ==> r.result == Result::<
            LayerMetadata,
            ApiError,
        >::Ok(l) && r.audit is None,
        layers::answers(r, Some(caller), layer_id, Some(l)) && l.tenant_id@ == caller ==> {
            &&& r.result == Result::<LayerMetadata, ApiError>::Ok(l)
            &&& r.audit matches Some(a)
            &&& a.allows(caller, "layer"@, layer_id)
        },
        layers::answers(r, Some(caller), layer_id, Some(l)) && l.tenant_id@ != caller ==> {
            &&& r.result matches Err(e)
            &&& e.is(404, "LAYER_NOT_FOUND"@, "layer "@ + layer_id + " not found"@)
            &&& r.audit matches Some(a)
            &&& a.denies(caller, "layer"@, layer_id)
        },
        layers::answers(r, Some(caller), layer_id, None) ==> {
            &&& r.result matches Err(e)
            &&& e.is(404, "LAYER_NOT_FOUND"@, "layer "@ + layer_id + " not found"@)
            &&& r.audit is None
        },
{
}

/// Operations are attributed to the caller, without one to the operator; a replay to the name in
/// the request where that is not blank.
pub proof fn operations_are_attributed(
    caller: Seq<char>,
    asked: String,
)
    ensures
        ops::actor(Some(caller)) == "api:"@ + caller,
        ops::actor(None) == "api:operator"@,
        ops::requester(None, Some(caller)) == "api:"@ + caller,
        ops::requester(None, None) == "api:operator"@,
        text_laws::blank(asked@) ==> ops::requester(Some(asked), Some(caller)) == "api:"@ + caller,
        text_laws::blank(asked@) ==> ops::requester(Some(asked), None) == "api:operator"@,
        !text_laws::blank(asked@) ==> ops::requester(Some(asked), Some(caller)) == asked@,
        !text_laws::blank(asked@) ==> ops::requester(Some(asked), None) == asked@,
{
    blank_texts_trim_to_nothing(asked@);
}

/// Trimming leaves nothing of a text just where it is blank.
pub proof fn blank_texts_trim_to_nothing(s: Seq<char>)
    ensures
        scan::trimmed(s).len() == 0 <==> text_laws::blank(s),
{
    text_laws::trimmed_texts_are_tight(s);
    let (from, to) = choose|from: int, to: int|
        0 <= from <= to <= s.len() && scan::trimmed(s) == #[trigger] s.subrange(from, to)
            && text_laws::blank(s.take(from)) && text_laws::blank(s.skip(to));
    if scan::trimmed(s).len() == 0 {
        assert forall|i: int| 0 <= i < s.len() implies scan::white_space(#[trigger] s[i]) by {
            if i < from {
                assert(s.take(from)[i] == s[i]);
            } else {
                assert(s.skip(to)[i - to] == s[i]);
            }
        }
    }
    if text_laws::blank(s) {
        text_laws::trimming_takes_white_space_only(s, Seq::empty(), Seq::empty());
        assert(s + Seq::<char>::empty() + Seq::<char>::empty() =~= s);
    }
}

/// A job is replayed just where it has failed, is eligible and has replays left.
pub proof fn failed_jobs_with_replays_left_are_replayed(
    job: JobRecord,
    job_id: Seq<char>,
    max_replays: u32,
)
    ensures
        ops::replay_fault(job, job_id, max_replays) is None <==> job.status == JobStatus::Failed
            && job.replay_eligible && job.replay_count < max_replays,
        job.status == JobStatus::Cancelled ==> ops::replay_fault(job, job_id, max_replays) == Some(
            (422u16, "REPLAY_NOT_ALLOWED"@, "cancelled jobs cannot be replayed"@),
        ),
        job.status != JobStatus::Cancelled && job.status != JobStatus::Failed ==> ops::replay_fault(
            job,
            job_id,
            max_replays,
        ) == Some((409u16, "JOB_ALREADY_ACTIVE"@, "job "@ + job_id + " is "@ + job.status.name())),
        job.status == JobStatus::Failed && !job.replay_eligible ==> {
            &&& ops::replay_fault(job, job_id, max_replays) matches Some((status, code, msg))
            &&& status == 422
            &&& code == "REPLAY_NOT_ALLOWED"@
            &&& msg == "original job failed permanent validation ("@ + ops::debug_opt(
                job.error_code,
            ) + "); correct the source data and submit a new upload"@
        },
        job.status == JobStatus::Failed && job.replay_eligible && job.replay_count >= max_replays
            ==> ops::replay_fault(job, job_id, max_replays) == Some(
            (
                422u16,
                "REPLAY_NOT_ALLOWED"@,
                "job "@ + job_id + " reached the maximum of "@ + text::decimal(max_replays as nat)
                    + " manual replays; submit a new upload"@,
            ),
        ),
{
}

/// An optional text in a message says whether there is one, and quotes it.
pub proof fn optional_texts_are_quoted(s: String)
    ensures
        ops::debug_opt(None) == "None"@,
        ops::debug_opt(Some(s)) == "Some("@ + text::debug_quoted(s@) + ")"@,
{
}

/// Whether `out` lists the first `n` records each once, with their times and places: a newer one
/// before an older one, and those of one time as they came.
pub open spec fn by_age(times: Seq<i64>, n: nat, out: Seq<(i64, usize)>) -> bool {
    &&& out.len() == n
    &&& forall|k: int|
        0 <= k < n ==> (#[trigger] out[k]).1 < n && out[k].0 == times[out[k].1 as int]
    &&& forall|i: int| 0 <= i < n ==> out.contains((#[trigger] times[i], i as usize))
    &&& forall|j: int, k: int| 0 <= j < k < n ==> newer(#[trigger] out[j], #[trigger] out[k])
}

/// Records are listed each once: a newer one before an older one, and those of one time as they
/// came.
pub proof fn newer_records_come_first(times: Seq<i64>, n: nat)
    requires
        n <= times.len() <= usize::MAX,
    ensures
        by_age(times, n, ops::newest(times, n)),
    decreases n,
{
    if n > 0 {
        let m = (n - 1) as nat;
        newer_records_come_first(times, m);
        let before = ops::newest(times, m);
        newest_slot_splits(before, times[m as int]);
        one_more_record(times, m, before, ops::newest_slot(before, times[m as int]));
    }
}

proof fn one_more_record(times: Seq<i64>, m: nat, before: Seq<(i64, usize)>, slot: int)
    requires
        m < times.len() <= usize::MAX,
        by_age(times, m, before),
        0 <= slot <= before.len(),
        forall|i: int| 0 <= i < slot ==> (#[trigger] before[i]).0 >= times[m as int],
        forall|i: int| slot <= i < before.len() ==> (#[trigger] before[i]).0 < times[m as int],
    ensures
        by_age(times, m + 1, before.insert(slot, (times[m as int], m as usize))),
{
    let item = (times[m as int], m as usize);
    let out = before.insert(slot, item);
    let n = m + 1;
    assert forall|k: int| 0 <= k < n implies (#[trigger] out[k]).1 < n && out[k].0
        == times[out[k].1 as int] by {
        if k < slot {
            assert(out[k] == before[k]);
        } else if k > slot {
            assert(out[k] == before[k - 1]);
        }
    }
    assert forall|i: int| 0 <= i < n implies out.contains((#[trigger] times[i], i as usize)) by {
        if i == m {
            assert(out[slot] == item);
        } else {
            assert(before.contains((times[i], i as usize)));
            let k = choose|k: int| 0 <= k < before.len() && before[k] == (times[i], i as usize);
            if k < slot {
                assert(out[k] == before[k]);
            } else {
                assert(out[k + 1] == before[k]);
            }
        }
    }
    assert forall|j: int, k: int| 0 <= j < k < n implies newer(
        #[trigger] out[j],
        #[trigger] out[k],
    ) by {
        if k < slot {
            assert(out[j] == before[j] && out[k] == before[k]);
        } else if j > slot {
            assert(out[j] == before[j - 1] && out[k] == before[k - 1]);
        } else if j < slot && k > slot {
            assert(out[j] == before[j] && out[k] == before[k - 1]);
        } else if j < slot {
            assert(out[j] == before[j] && out[k] == item);
            assert(before[j].1 < m);
        } else {
            assert(out[j] == item && out[k] == before[k - 1]);
        }
    }
}

/// Whether record `a` comes before record `b`.
pub open spec fn newer(a: (i64, usize), b: (i64, usize)) -> bool {
    a.0 > b.0 || a.0 == b.0 && a.1 < b.1
}

proof fn newest_slot_splits(t: Seq<(i64, usize)>, time: i64)
    requires
        forall|j: int, k: int| 0 <= j < k < t.len() ==> newer(#[trigger] t[j], #[trigger] t[k]),
    ensures
        0 <= ops::newest_slot(t, time) <= t.len(),
        forall|i: int| 0 <= i < ops::newest_slot(t, time) ==> (#[trigger] t[i]).0 >= time,
        forall|i: int| ops::newest_slot(t, time) <= i < t.len() ==> (#[trigger] t[i]).0 < time,
    decreases t.len(),
{
    if t.len() > 0 {
        let d = t.drop_last();
        if t.last().0 < time {
            assert forall|j: int, k: int| 0 <= j < k < d.len() implies newer(
                #[trigger] d[j],
                #[trigger] d[k],
            ) by {
                assert(d[j] == t[j] && d[k] == t[k]);
            }
            newest_slot_splits(d, time);
            assert forall|i: int| 0 <= i < d.len() implies #[trigger] t[i] == d[i] by {}
        } else {
            assert forall|i: int| 0 <= i < t.len() implies (#[trigger] t[i]).0 >= time by {
                if i < t.len() - 1 {
                    assert(newer(t[i], t[t.len() - 1]));
                }
            }
        }
    }
}

/// Whether a character stands between the components of a path.
pub open spec fn is_slash(c: char) -> bool {
    c == '/' || c == '\\'
}

/// A name that is absolute, or that has `..` as a component anywhere, leaves its directory.
pub proof fn climbing_names_are_refused(a: Seq<char>, b: Seq<char>)
    ensures
        a.len() > 0 && is_slash(a[0]) ==> !uploads::stays_below(a),
        (a.len() == 0 || is_slash(a.last())) && (b.len() == 0 || is_slash(b[0]))
            ==> !uploads::stays_below(a + ".."@ + b),
{
    reveal_strlit("..");
    let s = a + ".."@ + b;
    let i = a.len() as int;
    if (a.len() == 0 || is_slash(a.last())) && (b.len() == 0 || is_slash(b[0])) {
        assert(s[i] == '.' && s[i + 1] == '.');
        if a.len() > 0 {
            assert(s[i - 1] == a.last());
        }
        if b.len() > 0 {
            assert(s[i + 2] == b[0]);
        }
        assert(uploads::climbs_at(s, i));
    }
}

/// A name that is refused is absolute or has `..` as a component; every other name is taken.
pub proof fn other_names_are_taken(s: Seq<char>)
    requires
        s.len() == 0 || !is_slash(s[0]),
        forall|a: Seq<char>, b: Seq<char>|
            s == #[trigger] (a + ".."@ + b) ==> !((a.len() == 0 || is_slash(a.last())) && (
            b.len() == 0 || is_slash(b[0]))),
    ensures
        uploads::stays_below(s),
{
    assert forall|i: int| !#[trigger] uploads::climbs_at(s, i) by {
        if uploads::climbs_at(s, i) {
            let a = s.take(i);
            let b = s.skip(i + 2);
            reveal_strlit("..");
            assert(s =~= a + ".."@ + b);
        }
    }
}

/// Formats are named in messages.
pub proof fn formats_have_labels()
    ensures
        uploads::format_name(SourceFormat::GeoJson) == "GeoJson"@,
        uploads::format_name(SourceFormat::Shapefile) == "Shapefile"@,
        uploads::format_name(SourceFormat::Kml) == "Kml"@,
        uploads::format_name(SourceFormat::GeoPackage) == "GeoPackage"@,
        uploads::format_name(SourceFormat::FlatGeobuf) == "FlatGeobuf"@,
{
}

/// The zooms that are asked for are the zooms of the upload; else the category that is named
/// decides, and without one the zooms of other layers.
pub proof fn zooms_are_chosen(req: UploadRequest, m: LayerMetadataInputDto, c: LayerCategory)
    ensures
        req.requested_zoom_range matches Some(z) ==> uploads::chosen_zooms(req) == z,
        req.requested_zoom_range is None && req.metadata == Some(m) && m.category == Some(c)
            ==> uploads::chosen_zooms(req).min_zoom == c.zooms().0 && uploads::chosen_zooms(
            req,
        ).max_zoom == c.zooms().1,
        req.requested_zoom_range is None && (req.metadata is None || req.metadata == Some(m)
            && m.category is None) ==> uploads::chosen_zooms(req).min_zoom == 0
            && uploads::chosen_zooms(req).max_zoom == 16,
        req.metadata == Some(m) ==> uploads::named_category(req.metadata) == m.category,
        req.metadata is None ==> uploads::named_category(req.metadata) is None,
{
}

/// What an uploader says of a layer is stored as it was said. The choice to assume WGS84 is a tag
/// behind the given ones, where it is not among them; nothing else is added.
pub proof fn metadata_is_stored(
    input: Option<LayerMetadataInput>,
    m: LayerMetadataInputDto,
    wgs84: bool,
)
    requires
        uploads::stores(input, Some(m), wgs84),
    ensures
        input matches Some(i) && i.name == m.name && i.description == m.description && i.category
            == m.category,
        config::strings(input->Some_0.tags@).len() >= config::strings(m.tags@).len(),
        forall|k: int|
            0 <= k < config::strings(m.tags@).len() ==> #[trigger] config::strings(
                input->Some_0.tags@,
            )[k] == config::strings(m.tags@)[k],
        wgs84 ==> config::strings(input->Some_0.tags@).contains("assume-wgs84"@),
        !wgs84 || config::strings(m.tags@).contains("assume-wgs84"@) ==> config::strings(
            input->Some_0.tags@,
        ) == config::strings(m.tags@),
        wgs84 && !config::strings(m.tags@).contains("assume-wgs84"@) ==> config::strings(
            input->Some_0.tags@,
        ) == config::strings(m.tags@).push("assume-wgs84"@),
{
    let given = config::strings(m.tags@);
    if wgs84 && !given.contains("assume-wgs84"@) {
        assert(given.push("assume-wgs84"@)[given.len() as int] == "assume-wgs84"@);
    }
}

/// Where nothing is said of a layer, nothing is stored but the choice to assume WGS84.
pub proof fn nothing_said_nothing_stored(input: Option<LayerMetadataInput>, wgs84: bool)
    requires
        uploads::stores(input, None, wgs84),
    ensures
        input is Some == wgs84,
        input matches Some(i) ==> i.name is None && i.description is None && i.category is None
            && config::strings(i.tags@) == seq!["assume-wgs84"@],
{
}

/// WGS84 is assumed just where the job has the tag for it.
pub proof fn wgs84_is_assumed_by_tag(job: JobRecord)
    ensures
        uploads::assumes_wgs84(job) <==> (job.layer_input is Some && exists|k: int|
            0 <= k < job.layer_input->Some_0.tags@.len() && (
            #[trigger] job.layer_input->Some_0.tags@[k])@ == "assume-wgs84"@),
{
    if job.layer_input is Some {
        let tags = job.layer_input->Some_0.tags@;
        let texts = config::strings(tags);
        assert forall|k: int| 0 <= k < tags.len() implies texts[k] == (#[trigger] tags[k])@ by {}
        if texts.contains("assume-wgs84"@) {
            let k = choose|k: int| 0 <= k < texts.len() && texts[k] == "assume-wgs84"@;
            assert(tags[k]@ == "assume-wgs84"@);
        }
    }
}

/// An upload goes ahead just where tenant and layer are named, the tenant id is valid, the file
/// stays below its directory, the format is one that is read, and the file is of its type. The
/// first of these that does not hold is what the refusal names.
pub proof fn uploads_are_judged(req: UploadRequest, tenant_valid: bool, pattern: Seq<char>)
    ensures
        uploads::upload_fault(req, tenant_valid, pattern) is None <==> !text_laws::blank(
            req.tenant_id@,
        ) && !text_laws::blank(req.layer_id@) && tenant_valid && uploads::stays_below(
            req.file_name@,
        ) && (req.source_format == SourceFormat::GeoJson || req.source_format
            == SourceFormat::Shapefile) && validate::file_type_fault(
            req.file_name@,
            layers::opt_text(req.content_type),
            req.source_format,
        ) is None,
        text_laws::blank(req.tenant_id@) || text_laws::blank(req.layer_id@)
            ==> uploads::upload_fault(req, tenant_valid, pattern) == Some(
            (400u16, "INVALID_REQUEST"@, "tenantId and layerId are required"@),
        ),
        !text_laws::blank(req.tenant_id@) && !text_laws::blank(req.layer_id@) && !tenant_valid
            ==> uploads::upload_fault(req, tenant_valid, pattern) == Some(
            (
                400u16,
                "INVALID_TENANT_ID"@,
                "tenantId "@ + text::debug_quoted(req.tenant_id@) + " does not match "@ + pattern,
            ),
        ),
        !text_laws::blank(req.tenant_id@) && !text_laws::blank(req.layer_id@) && tenant_valid
            && !uploads::stays_below(req.file_name@) ==> uploads::upload_fault(
            req,
            tenant_valid,
            pattern,
        ) == Some(
            (
                400u16,
                "INVALID_RESOURCE_ID"@,
                "fileName "@ + text::debug_quoted(req.file_name@) + " leaves its directory"@,
            ),
        ),
        !text_laws::blank(req.tenant_id@) && !text_laws::blank(req.layer_id@) && tenant_valid
            && uploads::stays_below(req.file_name@) && req.source_format != SourceFormat::GeoJson
            && req.source_format != SourceFormat::Shapefile ==> {
            &&& uploads::upload_fault(req, tenant_valid, pattern) matches Some((status, code, _))
            &&& status == 422
            &&& code == "UNSUPPORTED_FORMAT"@
        },
{
    blank_texts_trim_to_nothing(req.tenant_id@);
    blank_texts_trim_to_nothing(req.layer_id@);
}

/// Content goes to the address of its job.
pub proof fn content_has_an_address(job_id: Seq<char>)
    ensures
        uploads::upload_url(job_id) == "/api/v1/ingest/uploads/"@ + job_id + "/content"@,
{
}

/// A repeated request is answered with the job that is there where its payload is the same, and is
/// a conflict where it is not, or where nothing is known of the first payload.
pub proof fn repeated_requests_are_told_apart(
    r: Result<(u16, UploadResponse), ApiError>,
    job: JobRecord,
    first: String,
    again: Seq<char>,
    key: Seq<char>,
    expires_in: u64,
)
    requires
        uploads::resolves(r, job, again, key, expires_in),
        job.request_fingerprint is None || job.request_fingerprint == Some(first),
    ensures
        r is Ok <==> job.request_fingerprint is Some && first@ == again,
        r matches Ok(a) ==> a.0 == 200 && a.1.job_id@ == job.job_id@ && a.1.idempotency_key@ == key
            && a.1.upload_url@ == uploads::upload_url(job.job_id@) && a.1.expires_in == expires_in
            && a.1.status == job.status,
        r matches Err(e) ==> e.is(
            409,
            "IDEMPOTENCY_KEY_PAYLOAD_MISMATCH"@,
            "Idempotency-Key was already used with a different payload (job "@ + job.job_id@ + ")"@,
        ),
{
}

/// A new job waits for its content: it belongs to the tenant and the layer of the upload, nothing
/// has happened to it, and nobody holds it.
pub proof fn new_jobs_wait(
    job: JobRecord,
    plan: UploadPlan,
    seed: JobSeed,
    key: Seq<char>,
    fingerprint: Seq<char>,
)
    requires
        uploads::creates(job, plan, seed, key, fingerprint),
    ensures
        job.job_id == seed.job_id && job.tenant_id == plan.tenant_id && job.layer_id
            == plan.layer_id,
        job.status == JobStatus::UploadPending && job.state_version == 1,
        job.source_uri@ == seed.staging_root@ + "/input/"@ + plan.file_name@,
        job.source_format == plan.source_format && job.requested_zoom_range == plan.zoom_range,
        job.created_at == seed.now && job.updated_at == seed.now,
        job.error is None && job.error_code is None && job.error_class is None,
        job.failed_stage is None && job.replay_audit is None && job.outcome is None,
        !job.replay_eligible && job.replay_count == 0 && job.duplicate_event_count == 0,
        job.idempotency_key is Some && job.idempotency_key->Some_0@ == key,
        job.request_fingerprint is Some && job.request_fingerprint->Some_0@ == fingerprint,
        job.event_dedupe_fingerprint is None && job.lease_token is None,
        job.locked_by is None && job.lease_expires_at is None,
        job.trace_id == Some(seed.trace_id) && job.requested_tile_version == Some(
            seed.tile_version,
        ),
        job.layer_input == plan.layer_input,
{
}

/// Every `file://` in front of a location goes, and nothing else does.
pub proof fn schemes_are_taken_off(s: Seq<char>)
    ensures
        uploads::without_scheme("file://"@ + s) == uploads::without_scheme(s),
        !scan::has_prefix(s, "file://"@) ==> uploads::without_scheme(s) == s,
        !scan::has_prefix(uploads::without_scheme(s), "file://"@),
    decreases s.len(),
{
    reveal_strlit("file://");
    let scheme = seq!['f', 'i', 'l', 'e', ':', '/', '/'];
    assert("file://"@ =~= scheme);
    let t = "file://"@ + s;
    assert(t.take(7) =~= scheme);
    assert(t.skip(7) =~= s);
    if s.len() >= 7 && s.take(7) == scheme {
        assert(s =~= "file://"@ + s.skip(7));
        text_laws::parts_are_found(Seq::empty(), "file://"@, s.skip(7));
        schemes_are_taken_off(s.skip(7));
    } else if scan::has_prefix(s, "file://"@) {
        assert(s.take(7) =~= scheme);
    }
}

} // verus!
