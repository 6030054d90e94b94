use centix_core::codec::{decode_account, decode_media, encode_account, encode_media};
use centix_core::records::{Account, ContentType, MediaRecord};

fn sample_record() -> MediaRecord {
    MediaRecord {
        id: String::from("HilrvkpJ"),
        name: String::from("Funny cat video"),
        extension: String::from("mp4"),
        data_type: ContentType::Video,
        data_size: 582000,
        data_path: String::from("./content/Video/a1b2c3"),
        data_compressed: true,
        upload_date: 1700000000,
        author_username: String::from("etho"),
        unlisted: false,
        tags: Some(vec![String::from("funny"), String::from("meme")]),
        downloads: 42,
    }
}

#[test]
fn media_record_round_trips() {
    let rec = sample_record();
    let bytes = encode_media(&rec);
    let back = decode_media(&bytes).expect("an encoded record must decode");
    assert_eq!(back.id, rec.id);
    assert_eq!(back.name, rec.name);
    assert_eq!(back.extension, rec.extension);
    assert_eq!(back.data_type, rec.data_type);
    assert_eq!(back.data_size, rec.data_size);
    assert_eq!(back.data_path, rec.data_path);
    assert_eq!(back.data_compressed, rec.data_compressed);
    assert_eq!(back.upload_date, rec.upload_date);
    assert_eq!(back.author_username, rec.author_username);
    assert_eq!(back.unlisted, rec.unlisted);
    assert_eq!(back.tags, rec.tags);
    assert_eq!(back.downloads, rec.downloads);
}

#[test]
fn media_record_without_tags_round_trips() {
    let mut rec = sample_record();
    rec.tags = None;
    rec.data_compressed = false;
    let bytes = encode_media(&rec);
    let back = decode_media(&bytes).expect("an encoded record must decode");
    assert_eq!(back.tags, None);
    assert_eq!(back.data_compressed, false);
}

#[test]
fn media_record_with_unicode_fields_round_trips() {
    let mut rec = sample_record();
    rec.name = String::from("Vid\u{00e9}o dr\u{00f4}le \u{1F600}");
    rec.author_username = String::from("\u{00fc}ser");
    let bytes = encode_media(&rec);
    let back = decode_media(&bytes).expect("an encoded record must decode");
    assert_eq!(back.name, rec.name);
    assert_eq!(back.author_username, rec.author_username);
}

#[test]
fn corrupt_bytes_do_not_decode() {
    assert!(decode_media(&vec![]).is_none());
    assert!(decode_media(&vec![0xFF; 3]).is_none());
    let mut bytes = encode_media(&sample_record());
    bytes.pop();
    assert!(decode_media(&bytes).is_none());
    bytes.push(0);
    bytes.push(0);
    assert!(decode_media(&bytes).is_none());
}

#[test]
fn account_round_trips() {
    let account = Account {
        username: String::from("etho"),
        uploads: vec![String::from("HilrvkpJ"), String::from("Ab12Cd34")],
    };
    let bytes = encode_account(&account);
    let back = decode_account(&bytes).expect("an encoded account must decode");
    assert_eq!(back.username, account.username);
    assert_eq!(back.uploads, account.uploads);
}

#[test]
fn empty_account_round_trips() {
    let account = Account { username: String::from("n"), uploads: vec![] };
    let bytes = encode_account(&account);
    let back = decode_account(&bytes).expect("an encoded account must decode");
    assert_eq!(back.username, account.username);
    assert!(back.uploads.is_empty());
}
