use centix_core::config::Config;
use centix_core::tags::normalize_tags;

fn config_with_vocabulary(vocabulary: &[&str], allow_custom: bool) -> Config {
    let mut cfg = Config::default();
    cfg.tags_default = vocabulary.iter().map(|t| t.to_string()).collect();
    cfg.tags_allow_custom = allow_custom;
    cfg
}

#[test]
fn vocabulary_match_is_case_insensitive_and_stored_lowercase() {
    let cfg = config_with_vocabulary(&["meme"], false);
    let tags = normalize_tags(&cfg, &Some(vec![String::from("Meme")]));
    assert_eq!(tags, Some(vec![String::from("meme")]));
}

#[test]
fn unknown_tags_are_discarded_when_custom_tags_are_disallowed() {
    // Two requested lists where only "meme" is in the vocabulary: both end
    // up holding exactly ["meme"].
    let cfg = config_with_vocabulary(&["meme"], false);
    let first = normalize_tags(&cfg, &Some(vec![String::from("Meme")]));
    let second = normalize_tags(
        &cfg,
        &Some(vec![String::from("meme"), String::from("NSFW")]),
    );
    assert_eq!(first, Some(vec![String::from("meme")]));
    assert_eq!(second, Some(vec![String::from("meme")]));
}

#[test]
fn all_tags_discarded_reads_as_absent() {
    let cfg = config_with_vocabulary(&["meme"], false);
    assert_eq!(normalize_tags(&cfg, &Some(vec![String::from("unknown")])), None);
    assert_eq!(normalize_tags(&cfg, &Some(vec![])), None);
    assert_eq!(normalize_tags(&cfg, &None), None);
}

#[test]
fn duplicate_submissions_are_stored_once() {
    let cfg = config_with_vocabulary(&["meme", "funny"], false);
    let tags = normalize_tags(
        &cfg,
        &Some(vec![
            String::from("Meme"),
            String::from("funny"),
            String::from("meme"),
            String::from("MEME"),
        ]),
    );
    assert_eq!(tags, Some(vec![String::from("meme"), String::from("funny")]));
}

#[test]
fn custom_tags_kept_within_length_bound() {
    let mut cfg = config_with_vocabulary(&["meme"], true);
    cfg.tags_max_name_length = 5;
    let tags = normalize_tags(
        &cfg,
        &Some(vec![String::from("SHORT"), String::from("toolongtag")]),
    );
    assert_eq!(tags, Some(vec![String::from("short")]));
}

#[test]
fn default_vocabulary_covers_stock_tags() {
    let cfg = Config::default();
    let tags = normalize_tags(
        &cfg,
        &Some(vec![String::from("Funny"), String::from("CLIP"), String::from("other")]),
    );
    assert_eq!(tags, Some(vec![String::from("funny"), String::from("clip")]));
}
