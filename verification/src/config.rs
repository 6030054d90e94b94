//! Instance configuration consumed by the core. Limits valued `0` disable
//! the corresponding check.

use vstd::prelude::*;

verus! {

/// Configuration of the instance. Loading it from disk is the surrounding
/// process's job; the core only reads it.
#[derive(Clone, Debug)]
pub struct Config {
    // Media related
    pub media_allow_editing: bool,
    pub media_max_name_length: u64,
    pub media_dynamic_id_length: usize,
    // Service related
    pub backend_store_compressed: bool,
    pub backend_domains: Vec<String>,
    pub backend_media_directory: Option<String>,
    pub backend_analytics_key: Option<String>,
    // Media tags
    pub tags_default: Vec<String>,
    pub tags_allow_custom: bool,
    pub tags_max_name_length: u64,
    // Registration related
    pub registration_allow: bool,
    pub registration_use_invite_keys: bool,
    // User related
    pub user_upload_limit: u64,
    pub user_upload_size_limit: u64,
    pub user_total_upload_size_limit: u64,
    pub user_username_limit: u64,
    pub user_password_limit: u64,
    pub user_first_admin: bool,
}

impl Default for Config {
    /// The stock configuration of a fresh instance.
    fn default() -> (r: Config)
        ensures
            r.media_allow_editing == true,
            r.media_max_name_length == 32,
            r.media_dynamic_id_length == 4,
            r.backend_store_compressed == true,
            r.backend_domains@.len() == 0,
            r.backend_media_directory is None,
            r.backend_analytics_key is None,
            r.tags_default.deep_view() =~= seq!["funny"@, "meme"@, "nsfw"@, "clip"@],
            r.tags_allow_custom == false,
            r.tags_max_name_length == 16,
            r.registration_allow == true,
            r.registration_use_invite_keys == false,
            r.user_upload_limit == 60,
            r.user_upload_size_limit == 12,
            r.user_total_upload_size_limit == 120,
            r.user_username_limit == 24,
            r.user_password_limit == 128,
            r.user_first_admin == true,
    {
        let mut tags_default: Vec<String> = Vec::new();
        tags_default.push("funny".to_owned());
        tags_default.push("meme".to_owned());
        tags_default.push("nsfw".to_owned());
        tags_default.push("clip".to_owned());
        proof {
            assert(tags_default.deep_view() =~= seq!["funny"@, "meme"@, "nsfw"@, "clip"@]);
        }
        Config {
            media_allow_editing: true,
            media_max_name_length: 32,
            media_dynamic_id_length: 4,
            backend_store_compressed: true,
            backend_domains: Vec::new(),
            backend_media_directory: None,
            backend_analytics_key: None,
            tags_default,
            tags_allow_custom: false,
            tags_max_name_length: 16,
            registration_allow: true,
            registration_use_invite_keys: false,
            user_upload_limit: 60,
            user_upload_size_limit: 12,
            user_total_upload_size_limit: 120,
            user_username_limit: 24,
            user_password_limit: 128,
            user_first_admin: true,
        }
    }
}

/// The slice of the configuration that the instance reports to clients.
#[derive(Clone, Debug)]
pub struct ApiConfig {
    pub media_allow_editing: bool,
    pub media_max_name_length: u64,
    pub backend_domains: Vec<String>,
    pub tags_default: Vec<String>,
    pub tags_allow_custom: bool,
    pub tags_max_name_length: u64,
    pub registration_allow: bool,
    pub registration_use_invite_keys: bool,
    pub user_upload_limit: u64,
    pub user_upload_size_limit: u64,
    pub user_total_upload_size_limit: u64,
    pub user_username_limit: u64,
    pub user_password_limit: u64,
}

impl From<Config> for ApiConfig {
    /// Projects the reportable fields out of the full configuration.
    fn from(config: Config) -> (r: ApiConfig) {
        ApiConfig {
            media_allow_editing: config.media_allow_editing,
            media_max_name_length: config.media_max_name_length,
            backend_domains: config.backend_domains,
            tags_default: config.tags_default,
            tags_allow_custom: config.tags_allow_custom,
            tags_max_name_length: config.tags_max_name_length,
            registration_allow: config.registration_allow,
            registration_use_invite_keys: config.registration_use_invite_keys,
            user_upload_limit: config.user_upload_limit,
            user_upload_size_limit: config.user_upload_size_limit,
            user_total_upload_size_limit: config.user_total_upload_size_limit,
            user_username_limit: config.user_username_limit,
            user_password_limit: config.user_password_limit,
        }
    }
}

impl vstd::std_specs::convert::FromSpecImpl<Config> for ApiConfig {
    open spec fn obeys_from_spec() -> bool {
        true
    }

    open spec fn from_spec(config: Config) -> ApiConfig {
        ApiConfig {
            media_allow_editing: config.media_allow_editing,
            media_max_name_length: config.media_max_name_length,
            backend_domains: config.backend_domains,
            tags_default: config.tags_default,
            tags_allow_custom: config.tags_allow_custom,
            tags_max_name_length: config.tags_max_name_length,
            registration_allow: config.registration_allow,
            registration_use_invite_keys: config.registration_use_invite_keys,
            user_upload_limit: config.user_upload_limit,
            user_upload_size_limit: config.user_upload_size_limit,
            user_total_upload_size_limit: config.user_total_upload_size_limit,
            user_username_limit: config.user_username_limit,
            user_password_limit: config.user_password_limit,
        }
    }
}

} // verus!
