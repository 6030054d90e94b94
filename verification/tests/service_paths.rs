use centix_core::catalog::{get_account, put_account};
use centix_core::config::Config;
use centix_core::error::ApiError;
use centix_core::ingest::{upload_commit, upload_prepare, UploadMedia, UploadPlan};
use centix_core::is_alphanumeric_ascii;
use centix_core::mutate::{delete, edit, DeleteMedia, EditMedia};
use centix_core::query::{all_tags, search, SearchQuery};
use centix_core::records::{Account, ContentType, MediaRecord};
use centix_core::retrieve::{find_media, info, serve_download, Media};
use centix_core::stats::{media as media_stats, user as user_stats};
use centix_core::store::Namespace;

fn fresh_store() -> (Namespace, Namespace) {
    let db = sled::Config::new().temporary(true).open().expect("temporary store");
    let media = Namespace::from_tree(db.open_tree("media").expect("media tree"));
    let user = Namespace::from_tree(db.open_tree("user").expect("user tree"));
    (media, user)
}

fn seed_account(user_ns: &mut Namespace, username: &str) {
    let account = Account { username: username.to_string(), uploads: vec![] };
    put_account(user_ns, &account).expect("seeding the account");
}

fn png_payload(extra: usize) -> Vec<u8> {
    let mut data = vec![0x89, 0x50, 0x4E, 0x47, 0x0D, 0x0A, 0x1A, 0x0A];
    for i in 0..extra {
        data.push((i % 251) as u8);
    }
    data
}

fn upload_request(name: &str, payload: &[u8], unlisted: Option<bool>, tags: Option<Vec<String>>) -> UploadMedia {
    UploadMedia {
        name: name.to_string(),
        unlisted,
        tags,
        upload_data: base64::encode(payload),
        api_key: String::from("SECRET-REDACTED"),
    }
}

fn do_upload(
    cfg: &Config,
    media_ns: &mut Namespace,
    user_ns: &mut Namespace,
    owner: &str,
    req: &UploadMedia,
) -> Result<(MediaRecord, UploadPlan), ApiError> {
    let plan = upload_prepare(cfg, media_ns, user_ns, &owner.to_string(), req)?;
    let stored = plan.stored.clone();
    let kept = UploadPlan {
        data_type: plan.data_type,
        extension: plan.extension.clone(),
        stored,
        data_compressed: plan.data_compressed,
    };
    let rec = upload_commit(
        cfg,
        media_ns,
        user_ns,
        &owner.to_string(),
        req,
        plan,
        format!("./content/{:?}/blob", kept.data_type),
    )?;
    Ok((rec, kept))
}

#[test]
fn upload_produces_wellformed_record() {
    let (mut media_ns, mut user_ns) = fresh_store();
    seed_account(&mut user_ns, "etho");
    let cfg = Config::default();
    let payload = png_payload(100);
    let req = upload_request("cat picture", &payload, None, None);
    let (rec, plan) = do_upload(&cfg, &mut media_ns, &mut user_ns, "etho", &req).expect("upload");
    assert_eq!(rec.id.len(), cfg.media_dynamic_id_length);
    assert!(is_alphanumeric_ascii(&rec.id));
    assert_eq!(rec.name, "cat picture");
    assert_eq!(rec.extension, "png");
    assert_eq!(rec.data_type, ContentType::Image);
    assert_eq!(rec.author_username, "etho");
    assert_eq!(rec.data_size as usize, plan.stored.len());
    assert!(!rec.unlisted);
    assert_eq!(rec.downloads, 0);
    let account = get_account(&user_ns, &String::from("etho")).unwrap().unwrap();
    assert_eq!(account.uploads, vec![rec.id.clone()]);
    let details = info(&media_ns, &Media { id: rec.id.clone() }).expect("info");
    assert_eq!(details.content_name, "cat picture");
    assert_eq!(details.downloads, 0);
}

#[test]
fn upload_then_download_round_trips() {
    let (mut media_ns, mut user_ns) = fresh_store();
    seed_account(&mut user_ns, "etho");
    let cfg = Config::default();
    let payload = png_payload(50000);
    let req = upload_request("big picture", &payload, None, None);
    let (rec, plan) = do_upload(&cfg, &mut media_ns, &mut user_ns, "etho", &req).expect("upload");
    // The blob file holds plan.stored; serving it back yields the payload,
    // whether or not compression was applied.
    let served = serve_download(&mut media_ns, &rec, plan.stored.clone()).expect("download");
    assert_eq!(served, payload);
}

#[test]
fn tiny_other_upload_is_stored_raw() {
    // A 10-byte buffer carrying an archive signature: it classifies under
    // the catch-all category, its zlib form is larger than ten bytes, so
    // the record stores the raw bytes with the compressed flag off.
    let (mut media_ns, mut user_ns) = fresh_store();
    seed_account(&mut user_ns, "etho");
    let cfg = Config::default();
    assert!(cfg.backend_store_compressed);
    let payload = vec![0x1F, 0x8B, 0x08, 0, 0, 0, 0, 0, 0, 0];
    let req = upload_request("tiny", &payload, None, None);
    let (rec, plan) = do_upload(&cfg, &mut media_ns, &mut user_ns, "etho", &req).expect("upload");
    assert_eq!(rec.data_type, ContentType::Other);
    assert!(!rec.data_compressed);
    assert_eq!(rec.data_size, 10);
    assert_eq!(plan.stored, payload);
    let served = serve_download(&mut media_ns, &rec, plan.stored.clone()).expect("download");
    assert_eq!(served, payload);
}

#[test]
fn unknown_owner_is_unauthorized() {
    let (media_ns, user_ns) = fresh_store();
    let cfg = Config::default();
    let req = upload_request("x", &png_payload(10), None, None);
    let r = upload_prepare(&cfg, &media_ns, &user_ns, &String::from("ghost"), &req);
    assert_eq!(r.err(), Some(ApiError::Unauthorized));
}

#[test]
fn oversize_name_is_rejected() {
    let (media_ns, mut user_ns) = fresh_store();
    seed_account(&mut user_ns, "etho");
    let mut cfg = Config::default();
    cfg.media_max_name_length = 4;
    let req = upload_request("too long", &png_payload(10), None, None);
    let r = upload_prepare(&cfg, &media_ns, &user_ns, &String::from("etho"), &req);
    assert_eq!(r.err(), Some(ApiError::BadRequestNameLength));
}

#[test]
fn upload_quota_is_enforced() {
    let (mut media_ns, mut user_ns) = fresh_store();
    seed_account(&mut user_ns, "etho");
    let mut cfg = Config::default();
    cfg.user_upload_limit = 1;
    let req = upload_request("first", &png_payload(10), None, None);
    do_upload(&cfg, &mut media_ns, &mut user_ns, "etho", &req).expect("first upload");
    let again = upload_request("second", &png_payload(10), None, None);
    let r = upload_prepare(&cfg, &media_ns, &user_ns, &String::from("etho"), &again);
    assert_eq!(r.err(), Some(ApiError::BadRequestUploadQuota));
}

#[test]
fn zero_quota_disables_the_limit() {
    let (mut media_ns, mut user_ns) = fresh_store();
    seed_account(&mut user_ns, "etho");
    let mut cfg = Config::default();
    cfg.user_upload_limit = 0;
    for i in 0..3 {
        let req = upload_request(&format!("upload {i}"), &png_payload(10), None, None);
        do_upload(&cfg, &mut media_ns, &mut user_ns, "etho", &req).expect("upload under no quota");
    }
    let stats = media_stats(&media_ns).expect("stats");
    assert_eq!(stats.media_count, 3);
}

#[test]
fn per_upload_size_limit_is_enforced() {
    let (media_ns, mut user_ns) = fresh_store();
    seed_account(&mut user_ns, "etho");
    let mut cfg = Config::default();
    cfg.user_upload_size_limit = 1;
    let req = upload_request("large", &png_payload(2_100_000), None, None);
    let r = upload_prepare(&cfg, &media_ns, &user_ns, &String::from("etho"), &req);
    assert_eq!(r.err(), Some(ApiError::BadRequestSizeLimit));
}

#[test]
fn total_size_ceiling_is_enforced_once_records_exist() {
    let (mut media_ns, mut user_ns) = fresh_store();
    seed_account(&mut user_ns, "etho");
    let mut cfg = Config::default();
    cfg.backend_store_compressed = false;
    cfg.user_upload_size_limit = 0;
    cfg.user_total_upload_size_limit = 1;
    // With nothing stored the ceiling check is skipped, even for a payload
    // already past the ceiling on its own.
    let first = upload_request("first", &png_payload(2_500_000), None, None);
    do_upload(&cfg, &mut media_ns, &mut user_ns, "etho", &first).expect("first upload");
    // Now the stored total alone exceeds the ceiling, so any further upload
    // is refused.
    let second = upload_request("second", &png_payload(10), None, None);
    let r = upload_prepare(&cfg, &media_ns, &user_ns, &String::from("etho"), &second);
    assert_eq!(r.err(), Some(ApiError::BadRequestTotalSizeLimit));
}

#[test]
fn malformed_payload_is_an_internal_error() {
    let (media_ns, mut user_ns) = fresh_store();
    seed_account(&mut user_ns, "etho");
    let cfg = Config::default();
    let mut req = upload_request("x", &png_payload(10), None, None);
    req.upload_data = String::from("not base64!!!");
    let r = upload_prepare(&cfg, &media_ns, &user_ns, &String::from("etho"), &req);
    assert_eq!(r.err(), Some(ApiError::Internal));
}

#[test]
fn unlisted_records_hidden_from_anonymous_search() {
    let (mut media_ns, mut user_ns) = fresh_store();
    seed_account(&mut user_ns, "etho");
    let cfg = Config::default();
    let req = upload_request("secret", &png_payload(10), Some(true), None);
    let (rec, _) = do_upload(&cfg, &mut media_ns, &mut user_ns, "etho", &req).expect("upload");
    let query = SearchQuery {
        username: None,
        content_type: None,
        api_key: None,
        tags: None,
        downloads: None,
    };
    let anonymous = search(&media_ns, &query, false).expect("search");
    assert!(!anonymous.ids.contains(&rec.id));
    let authenticated = search(&media_ns, &query, true).expect("search");
    assert!(authenticated.ids.contains(&rec.id));
}

#[test]
fn tag_filter_requires_every_requested_tag() {
    let (mut media_ns, mut user_ns) = fresh_store();
    seed_account(&mut user_ns, "etho");
    let cfg = Config::default();
    let tagged = upload_request(
        "tagged",
        &png_payload(10),
        None,
        Some(vec![String::from("funny"), String::from("meme")]),
    );
    let (tagged_rec, _) =
        do_upload(&cfg, &mut media_ns, &mut user_ns, "etho", &tagged).expect("upload");
    let untagged = upload_request("untagged", &png_payload(20), None, None);
    let (untagged_rec, _) =
        do_upload(&cfg, &mut media_ns, &mut user_ns, "etho", &untagged).expect("upload");
    let single = upload_request("half", &png_payload(30), None, Some(vec![String::from("meme")]));
    let (single_rec, _) =
        do_upload(&cfg, &mut media_ns, &mut user_ns, "etho", &single).expect("upload");

    let query = SearchQuery {
        username: None,
        content_type: None,
        api_key: None,
        tags: Some(vec![String::from("Funny"), String::from("meme")]),
        downloads: None,
    };
    let found = search(&media_ns, &query, false).expect("search");
    assert!(found.ids.contains(&tagged_rec.id));
    assert!(!found.ids.contains(&untagged_rec.id));
    assert!(!found.ids.contains(&single_rec.id));
}

#[test]
fn search_ranks_by_download_count_when_asked() {
    let (mut media_ns, mut user_ns) = fresh_store();
    seed_account(&mut user_ns, "etho");
    let cfg = Config::default();
    let mut ids = Vec::new();
    for i in 0..3 {
        let req = upload_request(&format!("item {i}"), &png_payload(10 + i), None, None);
        let (rec, plan) = do_upload(&cfg, &mut media_ns, &mut user_ns, "etho", &req).expect("upload");
        for _ in 0..i {
            let current = find_media(&media_ns, &rec.id).expect("lookup");
            serve_download(&mut media_ns, &current, plan.stored.clone()).expect("download");
        }
        ids.push(rec.id);
    }
    let query = SearchQuery {
        username: None,
        content_type: None,
        api_key: None,
        tags: None,
        downloads: Some(true),
    };
    let found = search(&media_ns, &query, false).expect("search");
    assert_eq!(found.ids, vec![ids[2].clone(), ids[1].clone(), ids[0].clone()]);
}

#[test]
fn ranking_keeps_scan_order_on_ties() {
    // With every download count equal, the ranked listing must keep the
    // unranked listing's order: the sort is stable.
    let (mut media_ns, mut user_ns) = fresh_store();
    seed_account(&mut user_ns, "etho");
    let cfg = Config::default();
    for i in 0..4 {
        let req = upload_request(&format!("item {i}"), &png_payload(10 + i), None, None);
        do_upload(&cfg, &mut media_ns, &mut user_ns, "etho", &req).expect("upload");
    }
    let unranked = SearchQuery {
        username: None,
        content_type: None,
        api_key: None,
        tags: None,
        downloads: None,
    };
    let ranked = SearchQuery { downloads: Some(true), ..unranked.clone() };
    let plain = search(&media_ns, &unranked, false).expect("search");
    let sorted = search(&media_ns, &ranked, false).expect("search");
    assert_eq!(sorted.ids, plain.ids);
}

#[test]
fn sequential_downloads_count_exactly() {
    let (mut media_ns, mut user_ns) = fresh_store();
    seed_account(&mut user_ns, "etho");
    let cfg = Config::default();
    let req = upload_request("counted", &png_payload(10), None, None);
    let (rec, plan) = do_upload(&cfg, &mut media_ns, &mut user_ns, "etho", &req).expect("upload");
    for _ in 0..5 {
        let current = find_media(&media_ns, &rec.id).expect("lookup");
        serve_download(&mut media_ns, &current, plan.stored.clone()).expect("download");
    }
    let details = info(&media_ns, &Media { id: rec.id.clone() }).expect("info");
    assert_eq!(details.downloads, 5);
}

#[test]
fn delete_enforces_ownership() {
    let (mut media_ns, mut user_ns) = fresh_store();
    seed_account(&mut user_ns, "etho");
    seed_account(&mut user_ns, "rival");
    let cfg = Config::default();
    let req = upload_request("mine", &png_payload(10), None, None);
    let (rec, _) = do_upload(&cfg, &mut media_ns, &mut user_ns, "etho", &req).expect("upload");

    let body = DeleteMedia { id: rec.id.clone(), api_key: String::from("SECRET-REDACTED") };
    let refused = delete(&mut media_ns, &mut user_ns, &body, &String::from("rival"));
    assert_eq!(refused.err(), Some(ApiError::Unauthorized));
    assert!(info(&media_ns, &Media { id: rec.id.clone() }).is_ok());

    delete(&mut media_ns, &mut user_ns, &body, &String::from("etho")).expect("owner deletes");
    assert!(info(&media_ns, &Media { id: rec.id.clone() }).is_err());
    assert!(find_media(&media_ns, &rec.id).is_err());
    let account = get_account(&user_ns, &String::from("etho")).unwrap().unwrap();
    assert!(!account.uploads.contains(&rec.id));
}

#[test]
fn edit_respects_switch_auth_and_name_bound() {
    let (mut media_ns, mut user_ns) = fresh_store();
    seed_account(&mut user_ns, "etho");
    let cfg = Config::default();
    let req = upload_request("before", &png_payload(10), None, Some(vec![String::from("meme")]));
    let (rec, _) = do_upload(&cfg, &mut media_ns, &mut user_ns, "etho", &req).expect("upload");

    let rename = EditMedia {
        id: rec.id.clone(),
        api_key: String::from("SECRET-REDACTED"),
        name: Some(String::from("after")),
        unlisted: Some(true),
        tags: None,
        edit_tags: None,
    };
    let mut frozen = cfg.clone();
    frozen.media_allow_editing = false;
    assert_eq!(
        edit(&frozen, &mut media_ns, &rename, true).err(),
        Some(ApiError::Forbidden),
    );
    assert_eq!(edit(&cfg, &mut media_ns, &rename, false).err(), Some(ApiError::Unauthorized));

    edit(&cfg, &mut media_ns, &rename, true).expect("edit");
    let details = info(&media_ns, &Media { id: rec.id.clone() }).expect("info");
    assert_eq!(details.content_name, "after");
    assert!(details.unlisted);
    assert_eq!(details.tags, Some(vec![String::from("meme")]));

    let oversize = EditMedia {
        id: rec.id.clone(),
        api_key: String::from("SECRET-REDACTED"),
        name: Some("x".repeat(cfg.media_max_name_length as usize + 1)),
        unlisted: None,
        tags: None,
        edit_tags: None,
    };
    assert_eq!(
        edit(&cfg, &mut media_ns, &oversize, true).err(),
        Some(ApiError::BadRequestNameLength),
    );

    let clear_tags = EditMedia {
        id: rec.id.clone(),
        api_key: String::from("SECRET-REDACTED"),
        name: None,
        unlisted: None,
        tags: None,
        edit_tags: Some(true),
    };
    edit(&cfg, &mut media_ns, &clear_tags, true).expect("edit tags");
    let details = info(&media_ns, &Media { id: rec.id.clone() }).expect("info");
    assert_eq!(details.tags, None);
}

#[test]
fn tags_endpoint_reports_each_tag_once() {
    let (mut media_ns, mut user_ns) = fresh_store();
    seed_account(&mut user_ns, "etho");
    let cfg = Config::default();
    let first = upload_request(
        "one",
        &png_payload(10),
        None,
        Some(vec![String::from("funny"), String::from("meme")]),
    );
    do_upload(&cfg, &mut media_ns, &mut user_ns, "etho", &first).expect("upload");
    let second = upload_request(
        "two",
        &png_payload(20),
        None,
        Some(vec![String::from("MEME"), String::from("clip")]),
    );
    do_upload(&cfg, &mut media_ns, &mut user_ns, "etho", &second).expect("upload");
    let mut tags = all_tags(&media_ns).expect("tags").tags;
    tags.sort();
    assert_eq!(tags, vec![String::from("clip"), String::from("funny"), String::from("meme")]);
}

#[test]
fn stats_count_records_and_accounts() {
    let (mut media_ns, mut user_ns) = fresh_store();
    seed_account(&mut user_ns, "etho");
    seed_account(&mut user_ns, "rival");
    let cfg = Config::default();
    let mut expected_usage: u64 = 0;
    for i in 0..2 {
        let req = upload_request(&format!("item {i}"), &png_payload(40 + i), None, None);
        let (rec, _) = do_upload(&cfg, &mut media_ns, &mut user_ns, "etho", &req).expect("upload");
        expected_usage += rec.data_size;
    }
    let media = media_stats(&media_ns).expect("media stats");
    assert_eq!(media.media_count, 2);
    assert_eq!(media.media_storage_usage, expected_usage);
    let users = user_stats(&user_ns).expect("user stats");
    assert_eq!(users.user_count, 2);
}

#[test]
fn index_stays_consistent_across_upload_and_delete() {
    // Both directions of the index invariant, on concrete stores: every id
    // in an account's upload list denotes a live record authored by that
    // account, and every live record is listed by its author.
    let (mut media_ns, mut user_ns) = fresh_store();
    seed_account(&mut user_ns, "etho");
    seed_account(&mut user_ns, "rival");
    let cfg = Config::default();
    let mut kept_ids = Vec::new();
    for (owner, name) in [("etho", "a"), ("etho", "b"), ("rival", "c")] {
        let req = upload_request(name, &png_payload(10 + name.len()), None, None);
        let (rec, _) = do_upload(&cfg, &mut media_ns, &mut user_ns, owner, &req).expect("upload");
        kept_ids.push((owner.to_string(), rec.id));
    }
    let victim = kept_ids.remove(1);
    let body = DeleteMedia { id: victim.1.clone(), api_key: String::from("SECRET-REDACTED") };
    delete(&mut media_ns, &mut user_ns, &body, &String::from("etho")).expect("delete");

    for owner in ["etho", "rival"] {
        let account = get_account(&user_ns, &owner.to_string()).unwrap().unwrap();
        for id in &account.uploads {
            let details = info(&media_ns, &Media { id: id.clone() }).expect("listed id is live");
            assert_eq!(details.author_username, owner);
        }
    }
    let everything = SearchQuery {
        username: None,
        content_type: None,
        api_key: None,
        tags: None,
        downloads: None,
    };
    let live = search(&media_ns, &everything, true).expect("search");
    assert_eq!(live.ids.len(), 2);
    for id in &live.ids {
        let record = find_media(&media_ns, id).expect("record");
        let account = get_account(&user_ns, &record.author_username).unwrap().unwrap();
        assert!(account.uploads.contains(id));
    }
}

#[test]
fn search_filters_by_author_and_type() {
    let (mut media_ns, mut user_ns) = fresh_store();
    seed_account(&mut user_ns, "etho");
    seed_account(&mut user_ns, "rival");
    let cfg = Config::default();
    let mine = upload_request("mine", &png_payload(10), None, None);
    let (mine_rec, _) = do_upload(&cfg, &mut media_ns, &mut user_ns, "etho", &mine).expect("upload");
    let theirs = upload_request("theirs", &png_payload(20), None, None);
    let (theirs_rec, _) =
        do_upload(&cfg, &mut media_ns, &mut user_ns, "rival", &theirs).expect("upload");

    let by_author = SearchQuery {
        username: Some(String::from("etho")),
        content_type: None,
        api_key: None,
        tags: None,
        downloads: None,
    };
    let found = search(&media_ns, &by_author, false).expect("search");
    assert!(found.ids.contains(&mine_rec.id));
    assert!(!found.ids.contains(&theirs_rec.id));

    let by_type = SearchQuery {
        username: None,
        content_type: Some(ContentType::Video),
        api_key: None,
        tags: None,
        downloads: None,
    };
    let none = search(&media_ns, &by_type, false).expect("search");
    assert!(none.ids.is_empty());
}
