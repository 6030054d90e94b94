//! Retrieval and accounting: the read-only record projection, the lookup a
//! download starts from, and the serving step that decompresses the blob and
//! increments the per-record download counter.

use vstd::prelude::*;

use crate::catalog::{get_media_by_key, records_enumerate, scan_media_records, replace_media,
    views_of};
use crate::codec::{enc_media, media_map, spec_key};
use crate::compress::{recover_payload, spec_served_payload, stored_form_of};
use crate::error::ApiError;
use crate::records::{ContentType, MediaRecord, MediaView};
use crate::store::{ns_contents, Namespace};

verus! {

/// A request naming one media record.
#[derive(Clone, Debug)]
pub struct Media {
    pub id: String,
}

/// A served file: its bytes and the disposition header the surrounding
/// process sends with them.
#[derive(Clone, Debug)]
pub struct FileResponse {
    pub data: Vec<u8>,
    pub content_disposition: String,
}

/// The read-only projection of a media record reported to clients.
#[derive(Clone, Debug)]
pub struct ContentInfo {
    pub author_username: String,
    pub content_name: String,
    pub content_size: u64,
    pub content_type: ContentType,
    pub upload_date: u64,
    pub unlisted: bool,
    pub tags: Option<Vec<String>>,
    pub downloads: u64,
}

/// The projection reports exactly these fields of the record.
pub open spec fn info_projects(ci: ContentInfo, m: MediaView) -> bool {
    &&& ci.author_username@ == m.author_username
    &&& ci.content_name@ == m.name
    &&& ci.content_size == m.data_size
    &&& ci.content_type == m.data_type
    &&& ci.upload_date == m.upload_date
    &&& ci.unlisted == m.unlisted
    &&& ci.tags.deep_view() == m.tags
    &&& ci.downloads == m.downloads
}

/// Reports the stored metadata of the record with the given identifier; a
/// missing or undecodable record is an internal error.
pub fn info(media_ns: &Namespace, identification: &Media) -> (r: Result<ContentInfo, ApiError>)
    ensures
        r matches Ok(ci) ==> media_map(ns_contents(media_ns)).contains_key(
            spec_key(identification.id@),
        ) && info_projects(ci, media_map(ns_contents(media_ns))[spec_key(identification.id@)]),
        !media_map(ns_contents(media_ns)).contains_key(spec_key(identification.id@)) ==> r is Err,
        r matches Err(e) ==> e == ApiError::Internal,
{
    let media = get_media_by_key(media_ns, &identification.id)?;
    Ok(
        ContentInfo {
            author_username: media.author_username,
            content_name: media.name,
            content_size: media.data_size,
            content_type: media.data_type,
            upload_date: media.upload_date,
            unlisted: media.unlisted,
            tags: media.tags,
            downloads: media.downloads,
        },
    )
}

/// Finds the record carrying the given identifier by a full scan, as the
/// download path does.
pub fn find_media(media_ns: &Namespace, id: &String) -> (r: Result<MediaRecord, ApiError>)
    ensures
        r matches Ok(m) ==> m@.id == id@ && exists|k: Seq<u8>|
            #[trigger] media_map(ns_contents(media_ns)).contains_key(k) && media_map(
                ns_contents(media_ns),
            )[k] == m@,
        r matches Err(e) ==> e == ApiError::Internal,
{
    let ghost mm = media_map(ns_contents(media_ns));
    let rs = scan_media_records(media_ns)?;
    let ghost ks = choose|ks: Seq<Seq<u8>>| records_enumerate(mm, views_of(rs@), ks);
    let mut i: usize = 0;
    while i < rs.len()
        invariant
            i <= rs@.len(),
            mm == media_map(ns_contents(media_ns)),
            records_enumerate(mm, views_of(rs@), ks),
        decreases rs@.len() - i,
    {
        if rs[i].id.eq(id) {
            let m = rs[i].duplicate();
            proof {
                assert(mm.contains_key(ks[i as int]));
                assert(mm[ks[i as int]] == views_of(rs@)[i as int]);
            }
            return Ok(m);
        }
        i += 1;
    }
    Err(ApiError::Internal)
}

/// The record after one more download.
pub open spec fn bump_downloads(m: MediaView) -> MediaView {
    MediaView { downloads: (m.downloads + 1) as u64, ..m }
}

/// The record after `n` more downloads.
pub open spec fn bumped_n(m: MediaView, n: nat) -> MediaView
    decreases n,
{
    if n == 0 {
        m
    } else {
        bump_downloads(bumped_n(m, (n - 1) as nat))
    }
}

/// Download accounting: `n` sequential downloads of a record increase its
/// counter by exactly `n` and change nothing else about it.
pub proof fn lemma_download_accounting(m: MediaView, n: nat)
    requires
        m.downloads + n <= u64::MAX,
    ensures
        bumped_n(m, n).downloads == m.downloads + n,
        bumped_n(m, n) == (MediaView { downloads: (m.downloads + n) as u64, ..m }),
    decreases n,
{
    if n > 0 {
        lemma_download_accounting(m, (n - 1) as nat);
    }
}

/// Serves a download from the record and the bytes read from its blob:
/// decompresses them if the record is compressed, and increments the
/// record's download counter in the store.
pub fn serve_download(media_ns: &mut Namespace, media: &MediaRecord, blob: Vec<u8>) -> (r: Result<
    Vec<u8>,
    ApiError,
>)
    requires
        media.downloads < u64::MAX,
    ensures
        r matches Ok(data) ==> {
            &&& ns_contents(final(media_ns)) == ns_contents(old(media_ns)).insert(
                spec_key(media.id@),
                enc_media(bump_downloads(media@)),
            )
            &&& media_map(ns_contents(final(media_ns))) == media_map(
                ns_contents(old(media_ns)),
            ).insert(spec_key(media.id@), bump_downloads(media@))
            &&& spec_served_payload(blob@, media.data_compressed) == Some(data@)
            &&& forall|payload: Seq<u8>|
                stored_form_of(payload, blob@, media.data_compressed) ==> data@ == payload
        },
        r matches Err(e) ==> e == ApiError::Internal,
{
    let data = match recover_payload(blob, media.data_compressed) {
        Some(d) => d,
        None => {
            return Err(ApiError::Internal);
        },
    };
    let mut edited = media.duplicate();
    edited.downloads = edited.downloads + 1;
    proof {
        assert(edited@ == bump_downloads(media@));
    }
    replace_media(media_ns, &edited)?;
    Ok(data)
}

} // verus!
