//! The ingestion orchestrator: validates constraints, classifies and
//! compresses the payload, and performs the two-namespace metadata update —
//! insert the media record, then append its id to the owner's upload index.
//! The two writes are independent; a failure between them leaves the record
//! without an index entry, reported as an internal error and not rolled
//! back.
//!
//! Placing the blob on the filesystem happens between [`upload_prepare`] and
//! [`upload_commit`], in the surrounding process, which hands the chosen
//! path in.

use vstd::prelude::*;

use vstd::utf8::encode_utf8;

use crate::catalog::{get_account, lists_media, put_account, records_enumerate,
    scan_media_records, store_media, views_of};
use crate::classify::{classify, spec_classify};
use crate::codec::{account_map, enc_media, media_map, spec_key};
use crate::compress::{prepare_payload, stored_form_of};
use crate::config::Config;
use crate::error::{is_bad_request, ApiError};
use crate::ident::{current_timestamp, random_alphanumeric};
use crate::records::{AccountView, ContentType, MediaRecord, MediaView};
use crate::store::{ns_contents, Namespace};
use crate::tags::{normalize_tags, spec_normalize_tags};

verus! {

/// An upload request: the payload arrives as a base64 string in the body.
#[derive(Clone, Debug)]
pub struct UploadMedia {
    pub name: String,
    pub unlisted: Option<bool>,
    pub tags: Option<Vec<String>>,
    pub upload_data: String,
    pub api_key: String,
}

/// What `base64::decode` yields for the given characters; `None` on input
/// that is not standard base64. A function of the characters alone.
pub uninterp spec fn b64_of(s: Seq<char>) -> Option<Seq<u8>>;

/// Relies on `base64::decode` (standard alphabet, padded): success and the
/// decoded bytes depend on the input characters alone.
#[verifier::external_body]
fn base64_decode(s: &String) -> (r: Option<Vec<u8>>)
    ensures
        r is Some <==> b64_of(s@) is Some,
        r matches Some(v) ==> b64_of(s@) == Some(v@),
{
    base64::decode(s.as_str()).ok()
}

/// Everything the ingestion decided before the blob is placed: the payload's
/// category and extension, and the bytes to write, compressed or raw.
pub struct UploadPlan {
    pub data_type: ContentType,
    pub extension: String,
    pub stored: Vec<u8>,
    pub data_compressed: bool,
}

/// The display name exceeds the configured maximum (0 disables the check).
pub open spec fn spec_name_too_long(cfg: Config, name: Seq<char>) -> bool {
    cfg.media_max_name_length > 0 && encode_utf8(name).len() > cfg.media_max_name_length
}

/// The owner has reached the configured upload-count quota (0 disables it).
pub open spec fn spec_quota_reached(cfg: Config, acct: AccountView) -> bool {
    cfg.user_upload_limit > 0 && acct.uploads.len() >= cfg.user_upload_limit
}

/// The payload exceeds the configured per-upload size limit in whole
/// megabytes (0 disables it).
pub open spec fn spec_size_exceeded(cfg: Config, payload: Seq<u8>) -> bool {
    cfg.user_upload_size_limit > 0 && payload.len() as int / 1000000
        > cfg.user_upload_size_limit
}

/// Saturating sum of two stored sizes.
pub open spec fn sat_add(a: u64, b: u64) -> u64 {
    if a + b > u64::MAX {
        u64::MAX
    } else {
        (a + b) as u64
    }
}

/// Saturating sum of the stored sizes of the records, in order.
pub open spec fn sat_sum_sizes(rs: Seq<MediaView>) -> u64
    decreases rs.len(),
{
    if rs.len() == 0 {
        0
    } else {
        sat_add(sat_sum_sizes(rs.drop_last()), rs.last().data_size)
    }
}

/// The mathematical sum of the stored sizes, in order.
spec fn int_sum_sizes(rs: Seq<MediaView>) -> int
    decreases rs.len(),
{
    if rs.len() == 0 {
        0
    } else {
        int_sum_sizes(rs.drop_last()) + rs.last().data_size
    }
}

/// The saturating sum is the mathematical sum clipped at the top of the
/// range, so it does not depend on the order of the records.
proof fn lemma_sat_sum_clips(rs: Seq<MediaView>)
    ensures
        int_sum_sizes(rs) >= 0,
        sat_sum_sizes(rs) as int == if int_sum_sizes(rs) > u64::MAX {
            u64::MAX as int
        } else {
            int_sum_sizes(rs)
        },
    decreases rs.len(),
{
    if rs.len() > 0 {
        lemma_sat_sum_clips(rs.drop_last());
    }
}

/// Removing one record takes exactly its size out of the sum.
proof fn lemma_int_sum_remove(rs: Seq<MediaView>, j: int)
    requires
        0 <= j < rs.len(),
    ensures
        int_sum_sizes(rs) == int_sum_sizes(rs.remove(j)) + rs[j].data_size,
    decreases rs.len(),
{
    if j == rs.len() - 1 {
        assert(rs.remove(j) =~= rs.drop_last());
    } else {
        assert(rs.remove(j).drop_last() =~= rs.drop_last().remove(j));
        assert(rs.remove(j).last() == rs.last());
        lemma_int_sum_remove(rs.drop_last(), j);
    }
}

/// Multiset-equal record lists have the same size sum.
proof fn lemma_int_sum_multiset(rs1: Seq<MediaView>, rs2: Seq<MediaView>)
    requires
        rs1.to_multiset() == rs2.to_multiset(),
    ensures
        int_sum_sizes(rs1) == int_sum_sizes(rs2),
    decreases rs1.len(),
{
    broadcast use vstd::multiset::group_multiset_axioms;
    broadcast use vstd::seq_lib::group_to_multiset_ensures;

    vstd::seq_lib::to_multiset_len(rs1);
    vstd::seq_lib::to_multiset_len(rs2);
    if rs1.len() > 0 {
        let n = rs1.len() - 1;
        let v = rs1.last();
        assert(rs1.contains(v));
        assert(rs1.to_multiset().count(v) > 0);
        assert(rs2.to_multiset().count(v) > 0);
        assert(rs2.contains(v));
        let j = choose|j: int| 0 <= j < rs2.len() && rs2[j] == v;
        let rs1p = rs1.drop_last();
        let rs2p = rs2.remove(j);
        vstd::seq_lib::to_multiset_remove(rs1, n);
        vstd::seq_lib::to_multiset_remove(rs2, j);
        assert(rs1.remove(n) =~= rs1p);
        assert(rs1p.to_multiset() == rs2p.to_multiset());
        lemma_int_sum_multiset(rs1p, rs2p);
        lemma_int_sum_remove(rs2, j);
    }
}

/// Storing the payload would push the total stored size over the configured
/// ceiling, summed over every record in the media namespace regardless of
/// owner (0 disables it; so does an empty namespace).
pub open spec fn spec_total_exceeded(cfg: Config, rs: Seq<MediaView>, payload: Seq<u8>) -> bool {
    cfg.user_total_upload_size_limit > 0 && rs.len() > 0 && sat_sum_sizes(rs) as int / 1000000
        + payload.len() as int / 1000000 > cfg.user_total_upload_size_limit
}

/// Sums the stored sizes of the records, saturating at the top of the range.
pub fn total_stored_size(rs: &Vec<MediaRecord>) -> (r: u64)
    ensures
        r == sat_sum_sizes(views_of(rs@)),
{
    let ghost rv = views_of(rs@);
    let mut acc: u64 = 0;
    let mut i: usize = 0;
    proof {
        assert(rv.take(0) =~= Seq::<MediaView>::empty());
    }
    while i < rs.len()
        invariant
            i <= rs@.len(),
            rv == views_of(rs@),
            rv.len() == rs@.len(),
            acc == sat_sum_sizes(rv.take(i as int)),
        decreases rs@.len() - i,
    {
        let size = rs[i].data_size;
        proof {
            assert(rv.take(i as int + 1).drop_last() =~= rv.take(i as int));
            assert(rv.take(i as int + 1).last() == rv[i as int]);
        }
        if size > u64::MAX - acc {
            acc = u64::MAX;
        } else {
            acc = acc + size;
        }
        i += 1;
    }
    proof {
        assert(rv.take(rs@.len() as int) =~= rv);
    }
    acc
}

/// The global ceiling blocks this payload: it is configured, and every
/// listing of the media namespace's records exceeds it.
pub open spec fn spec_ceiling_blocks(
    cfg: Config,
    media_raw: Map<Seq<u8>, Seq<u8>>,
    payload: Seq<u8>,
) -> bool {
    cfg.user_total_upload_size_limit > 0 && forall|rs: Seq<MediaView>|
        #[trigger] lists_media(media_map(media_raw), rs) ==> spec_total_exceeded(cfg, rs, payload)
}

/// The global ceiling does not block this payload: it is disabled, or every
/// listing of the media namespace's records leaves it room (the listings
/// agree up to order, so one is as good as all).
pub open spec fn spec_ceiling_clear(
    cfg: Config,
    media_raw: Map<Seq<u8>, Seq<u8>>,
    payload: Seq<u8>,
) -> bool {
    cfg.user_total_upload_size_limit == 0 || forall|rs: Seq<MediaView>|
        #[trigger] lists_media(media_map(media_raw), rs) ==> !spec_total_exceeded(
            cfg,
            rs,
            payload,
        )
}

/// Validates an upload request and decides what will be stored.
///
/// The checks run in order — authorization, name length, upload quota,
/// payload decoding, per-upload size, global total size — and the first
/// failure wins; then the payload is classified and the compression policy
/// applied. Nothing is written: both namespaces are read only.
pub fn upload_prepare(
    cfg: &Config,
    media_ns: &Namespace,
    user_ns: &Namespace,
    owner: &String,
    req: &UploadMedia,
) -> (r: Result<UploadPlan, ApiError>)
    ensures
        r matches Ok(plan) ==> {
            let am = account_map(ns_contents(user_ns));
            let okey = spec_key(owner@);
            &&& am.contains_key(okey)
            &&& !spec_name_too_long(*cfg, req.name@)
            &&& !spec_quota_reached(*cfg, am[okey])
            &&& (b64_of(req.upload_data@) matches Some(payload) && {
                &&& !spec_size_exceeded(*cfg, payload)
                &&& spec_ceiling_clear(*cfg, ns_contents(media_ns), payload)
                &&& spec_classify(payload) == Some((plan.data_type, plan.extension@))
                &&& plan.data_compressed == (cfg.backend_store_compressed && crate::compress::deflate_of(
                    payload,
                ).len() < payload.len())
                &&& (plan.data_compressed ==> plan.stored@ == crate::compress::deflate_of(payload))
                &&& (!plan.data_compressed ==> plan.stored@ == payload)
                &&& stored_form_of(payload, plan.stored@, plan.data_compressed)
                &&& plan.stored@.len() <= payload.len()
                &&& (plan.data_compressed ==> plan.stored@.len() < payload.len())
            })
        },
        r == Err::<UploadPlan, ApiError>(ApiError::Unauthorized) ==> !account_map(ns_contents(user_ns)).contains_key(
            spec_key(owner@),
        ),
        r == Err::<UploadPlan, ApiError>(ApiError::BadRequestNameLength) ==> spec_name_too_long(*cfg, req.name@),
        r == Err::<UploadPlan, ApiError>(ApiError::BadRequestUploadQuota) ==> {
            let am = account_map(ns_contents(user_ns));
            &&& !spec_name_too_long(*cfg, req.name@)
            &&& am.contains_key(spec_key(owner@))
            &&& spec_quota_reached(*cfg, am[spec_key(owner@)])
        },
        r == Err::<UploadPlan, ApiError>(ApiError::BadRequestSizeLimit) ==> (b64_of(req.upload_data@) matches Some(p)
            && spec_size_exceeded(*cfg, p)),
        r == Err::<UploadPlan, ApiError>(ApiError::BadRequestTotalSizeLimit) ==> (b64_of(req.upload_data@) matches Some(p)
            && !spec_size_exceeded(*cfg, p) && exists|rs: Seq<MediaView>|
            #[trigger] lists_media(media_map(ns_contents(media_ns)), rs) && spec_total_exceeded(
                *cfg,
                rs,
                p,
            )),
        r matches Err(e) ==> (e == ApiError::Internal || e == ApiError::Unauthorized
            || is_bad_request(e)),
        // The first failing check is owed its error: only a store failure,
        // always reported as an internal error, may pre-empt it.
        !account_map(ns_contents(user_ns)).contains_key(spec_key(owner@)) ==> (r
            == Err::<UploadPlan, ApiError>(ApiError::Unauthorized) || r == Err::<
            UploadPlan,
            ApiError,
        >(ApiError::Internal)),
        ({
            let am = account_map(ns_contents(user_ns));
            am.contains_key(spec_key(owner@)) && spec_name_too_long(*cfg, req.name@)
        }) ==> (r == Err::<UploadPlan, ApiError>(ApiError::BadRequestNameLength) || r == Err::<
            UploadPlan,
            ApiError,
        >(ApiError::Internal)),
        ({
            let am = account_map(ns_contents(user_ns));
            am.contains_key(spec_key(owner@)) && !spec_name_too_long(*cfg, req.name@)
                && spec_quota_reached(*cfg, am[spec_key(owner@)])
        }) ==> (r == Err::<UploadPlan, ApiError>(ApiError::BadRequestUploadQuota) || r == Err::<
            UploadPlan,
            ApiError,
        >(ApiError::Internal)),
        ({
            let am = account_map(ns_contents(user_ns));
            am.contains_key(spec_key(owner@)) && !spec_name_too_long(*cfg, req.name@)
                && !spec_quota_reached(*cfg, am[spec_key(owner@)]) && b64_of(
                req.upload_data@,
            ) is None
        }) ==> r == Err::<UploadPlan, ApiError>(ApiError::Internal),
        ({
            let am = account_map(ns_contents(user_ns));
            am.contains_key(spec_key(owner@)) && !spec_name_too_long(*cfg, req.name@)
                && !spec_quota_reached(*cfg, am[spec_key(owner@)]) && (b64_of(
                req.upload_data@,
            ) matches Some(p) && spec_size_exceeded(*cfg, p))
        }) ==> (r == Err::<UploadPlan, ApiError>(ApiError::BadRequestSizeLimit) || r == Err::<
            UploadPlan,
            ApiError,
        >(ApiError::Internal)),
        ({
            let am = account_map(ns_contents(user_ns));
            am.contains_key(spec_key(owner@)) && !spec_name_too_long(*cfg, req.name@)
                && !spec_quota_reached(*cfg, am[spec_key(owner@)]) && (b64_of(
                req.upload_data@,
            ) matches Some(p) && !spec_size_exceeded(*cfg, p) && spec_ceiling_blocks(
                *cfg,
                ns_contents(media_ns),
                p,
            ))
        }) ==> (r == Err::<UploadPlan, ApiError>(ApiError::BadRequestTotalSizeLimit) || r == Err::<
            UploadPlan,
            ApiError,
        >(ApiError::Internal)),
        ({
            let am = account_map(ns_contents(user_ns));
            am.contains_key(spec_key(owner@)) && !spec_name_too_long(*cfg, req.name@)
                && !spec_quota_reached(*cfg, am[spec_key(owner@)]) && (b64_of(
                req.upload_data@,
            ) matches Some(p) && !spec_size_exceeded(*cfg, p) && spec_ceiling_clear(
                *cfg,
                ns_contents(media_ns),
                p,
            ) && spec_classify(p) is Some)
        }) ==> (r is Ok || r == Err::<UploadPlan, ApiError>(ApiError::Internal)),
{
    let account = match get_account(user_ns, owner)? {
        Some(a) => a,
        None => {
            return Err(ApiError::Unauthorized);
        },
    };
    if cfg.media_max_name_length > 0 {
        let name_bytes = req.name.as_str().as_bytes_vec();
        if name_bytes.len() as u64 > cfg.media_max_name_length {
            return Err(ApiError::BadRequestNameLength);
        }
    }
    if cfg.user_upload_limit > 0 && account.uploads.len() as u64 >= cfg.user_upload_limit {
        return Err(ApiError::BadRequestUploadQuota);
    }
    let payload = match base64_decode(&req.upload_data) {
        Some(p) => p,
        None => {
            return Err(ApiError::Internal);
        },
    };
    let mb_size = (payload.len() as u64) / 1000000;
    if cfg.user_upload_size_limit > 0 && mb_size > cfg.user_upload_size_limit {
        return Err(ApiError::BadRequestSizeLimit);
    }
    if cfg.user_total_upload_size_limit > 0 {
        let records = scan_media_records(media_ns)?;
        if records.len() > 0 {
            let total = total_stored_size(&records);
            let mb_total = total / 1000000;
            if mb_total > cfg.user_total_upload_size_limit || cfg.user_total_upload_size_limit
                - mb_total < mb_size {
                proof {
                    let rv = views_of(records@);
                    assert(spec_total_exceeded(*cfg, rv, payload@));
                }
                return Err(ApiError::BadRequestTotalSizeLimit);
            }
        }
        proof {
            let mmw = media_map(ns_contents(media_ns));
            let rsw = views_of(records@);
            assert(lists_media(mmw, rsw) && !spec_total_exceeded(*cfg, rsw, payload@));
            let ksw = choose|ksw: Seq<Seq<u8>>| records_enumerate(mmw, rsw, ksw);
            assert forall|rs2: Seq<MediaView>| #[trigger] lists_media(mmw, rs2) implies
                !spec_total_exceeded(*cfg, rs2, payload@) by {
                let ks2 = choose|ks2: Seq<Seq<u8>>| records_enumerate(mmw, rs2, ks2);
                crate::catalog::lemma_enumerations_agree(mmw, rsw, ksw, rs2, ks2);
                lemma_int_sum_multiset(rsw, rs2);
                lemma_sat_sum_clips(rsw);
                lemma_sat_sum_clips(rs2);
                vstd::seq_lib::to_multiset_len(rsw);
                vstd::seq_lib::to_multiset_len(rs2);
            }
            assert(spec_ceiling_clear(*cfg, ns_contents(media_ns), payload@));
        }
    }
    let (data_type, extension) = classify(&payload)?;
    let (stored, data_compressed) = prepare_payload(payload, cfg.backend_store_compressed);
    Ok(UploadPlan { data_type, extension, stored, data_compressed })
}

/// Freshness of a new identifier: when the drawn id was not already present
/// in the media namespace, the upload adds its record under that id and
/// leaves every previously stored record untouched. Which id is drawn is
/// random, so its absence beforehand is a premise, not a promise.
pub proof fn lemma_fresh_upload(mm_old: Map<Seq<u8>, MediaView>, rec: MediaView)
    requires
        !mm_old.contains_key(spec_key(rec.id)),
    ensures
        mm_old.insert(spec_key(rec.id), rec)[spec_key(rec.id)] == rec,
        forall|k: Seq<u8>| #[trigger]
            mm_old.contains_key(k) ==> k != spec_key(rec.id) && mm_old.insert(
                spec_key(rec.id),
                rec,
            )[k] == mm_old[k],
{
}

/// Builds the media record for a placed blob and performs the two-namespace
/// update: insert the record into the media namespace and flush, then append
/// its id to the owner's upload index and flush. A failure after the first
/// write leaves the record in place without an index entry.
pub fn upload_commit(
    cfg: &Config,
    media_ns: &mut Namespace,
    user_ns: &mut Namespace,
    owner: &String,
    req: &UploadMedia,
    plan: UploadPlan,
    blob_path: String,
) -> (r: Result<MediaRecord, ApiError>)
    ensures
        r matches Ok(rec) ==> {
            let okey = spec_key(owner@);
            let am_old = account_map(ns_contents(old(user_ns)));
            &&& rec@.id.len() == cfg.media_dynamic_id_length
            &&& crate::spec_alphanumeric(rec@.id)
            &&& rec@.name == req.name@
            &&& rec@.extension == plan.extension@
            &&& rec@.data_type == plan.data_type
            &&& rec@.data_size == plan.stored@.len()
            &&& rec@.data_path == blob_path@
            &&& rec@.data_compressed == plan.data_compressed
            &&& rec@.author_username == owner@
            &&& rec@.unlisted == (req.unlisted matches Some(true))
            &&& rec@.tags == spec_normalize_tags(
                cfg.tags_default.deep_view(),
                cfg.tags_allow_custom,
                cfg.tags_max_name_length,
                req.tags.deep_view(),
            )
            &&& rec@.downloads == 0
            &&& ns_contents(final(media_ns)) == ns_contents(old(media_ns)).insert(
                spec_key(rec@.id),
                enc_media(rec@),
            )
            &&& media_map(ns_contents(final(media_ns))) == media_map(
                ns_contents(old(media_ns)),
            ).insert(spec_key(rec@.id), rec@)
            &&& am_old.contains_key(okey)
            &&& account_map(ns_contents(final(user_ns))) == am_old.insert(
                spec_key(am_old[okey].username),
                AccountView {
                    username: am_old[okey].username,
                    uploads: am_old[okey].uploads.push(rec@.id),
                },
            )
        },
        r == Err::<MediaRecord, ApiError>(ApiError::Unauthorized) ==> !account_map(ns_contents(old(user_ns))).contains_key(
            spec_key(owner@),
        ) && ns_contents(final(media_ns)) == ns_contents(old(media_ns)) && ns_contents(
            final(user_ns),
        ) == ns_contents(old(user_ns)),
        // An unknown owner is owed a refusal, leaving both namespaces
        // untouched; only a store failure may pre-empt the kind.
        !account_map(ns_contents(old(user_ns))).contains_key(spec_key(owner@)) ==> (r == Err::<
            MediaRecord,
            ApiError,
        >(ApiError::Unauthorized) || r == Err::<MediaRecord, ApiError>(ApiError::Internal))
            && ns_contents(final(media_ns)) == ns_contents(old(media_ns)) && ns_contents(
            final(user_ns),
        ) == ns_contents(old(user_ns)),
        r matches Err(e) ==> (e == ApiError::Internal || e == ApiError::Unauthorized),
{
    let account = match get_account(user_ns, owner)? {
        Some(a) => a,
        None => {
            return Err(ApiError::Unauthorized);
        },
    };
    let ghost am_old = account_map(ns_contents(user_ns));
    let id = random_alphanumeric(cfg.media_dynamic_id_length);
    let now = current_timestamp();
    let tags = normalize_tags(cfg, &req.tags);
    let data_size = plan.stored.len() as u64;
    let record = MediaRecord {
        id,
        name: req.name.clone(),
        extension: plan.extension,
        data_type: plan.data_type,
        data_size,
        data_path: blob_path,
        data_compressed: plan.data_compressed,
        upload_date: now,
        author_username: owner.clone(),
        unlisted: match req.unlisted {
            Some(b) => b,
            None => false,
        },
        tags,
        downloads: 0,
    };
    store_media(media_ns, &record)?;
    media_ns.flush()?;
    let mut account = account;
    let ghost acct_old = account@;
    account.uploads.push(record.id.clone());
    proof {
        assert(account@.uploads =~= acct_old.uploads.push(record.id@));
        assert(account@ == AccountView {
            username: am_old[spec_key(owner@)].username,
            uploads: am_old[spec_key(owner@)].uploads.push(record.id@),
        });
    }
    put_account(user_ns, &account)?;
    user_ns.flush()?;
    Ok(record)
}

} // verus!
