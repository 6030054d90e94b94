//! Instance-wide statistics: how many records the media namespace holds and
//! how much stored payload they account for, and how many entries the user
//! namespace holds.

use vstd::prelude::*;

use crate::catalog::{records_enumerate, scan_media_records, views_of};
use crate::codec::media_map;
use crate::error::ApiError;
use crate::ingest::{sat_sum_sizes, total_stored_size};
use crate::records::MediaView;
use crate::store::{ns_contents, scan_matches, Namespace};

verus! {

/// Media totals of the instance.
#[derive(Clone, Debug)]
pub struct MediaStats {
    pub media_count: u64,
    pub media_storage_usage: u64,
}

/// Account totals of the instance.
#[derive(Clone, Debug)]
pub struct UserStats {
    pub user_count: u64,
}

/// Some enumeration of the decoded records certifies the totals: the count
/// of records and the saturating sum of their stored sizes.
pub open spec fn media_stats_ok(
    mm: Map<Seq<u8>, MediaView>,
    media_count: u64,
    media_storage_usage: u64,
) -> bool {
    exists|rs: Seq<MediaView>, ks: Seq<Seq<u8>>|
        #[trigger] records_enumerate(mm, rs, ks) && media_count == rs.len()
            && media_storage_usage == sat_sum_sizes(rs)
}

/// Some listing of the raw entries certifies the count.
pub open spec fn user_stats_ok(m: Map<Seq<u8>, Seq<u8>>, user_count: u64) -> bool {
    exists|es: Seq<(Vec<u8>, Vec<u8>)>| #[trigger] scan_matches(m, es) && user_count == es.len()
}

/// Counts the decodable media records and sums their stored sizes,
/// saturating at the top of the range; undecodable entries are skipped.
pub fn media(media_ns: &Namespace) -> (r: Result<MediaStats, ApiError>)
    ensures
        r matches Ok(s) ==> media_stats_ok(
            media_map(ns_contents(media_ns)),
            s.media_count,
            s.media_storage_usage,
        ),
        r matches Err(e) ==> e == ApiError::Internal,
{
    let ghost mm = media_map(ns_contents(media_ns));
    let records = scan_media_records(media_ns)?;
    let ghost ks = choose|ks: Seq<Seq<u8>>| records_enumerate(mm, views_of(records@), ks);
    let media_count = records.len() as u64;
    let media_storage_usage = total_stored_size(&records);
    proof {
        assert(media_stats_ok(mm, media_count, media_storage_usage)) by {
            assert(records_enumerate(mm, views_of(records@), ks) && media_count == views_of(
                records@,
            ).len() && media_storage_usage == sat_sum_sizes(views_of(records@)));
        }
    }
    Ok(MediaStats { media_count, media_storage_usage })
}

/// Counts the entries of the user namespace, decodable or not.
pub fn user(user_ns: &Namespace) -> (r: Result<UserStats, ApiError>)
    ensures
        r matches Ok(s) ==> user_stats_ok(ns_contents(user_ns), s.user_count),
        r matches Err(e) ==> e == ApiError::Internal,
{
    let entries = user_ns.scan()?;
    let user_count = entries.len() as u64;
    proof {
        assert(user_stats_ok(ns_contents(user_ns), user_count)) by {
            assert(scan_matches(ns_contents(user_ns), entries@) && user_count == entries@.len());
        }
    }
    Ok(UserStats { user_count })
}

} // verus!
