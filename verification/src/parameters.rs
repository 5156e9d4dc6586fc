//! Process configuration values. Reading the environment is the outer
//! program's job; this constructor applies the documented defaults to
//! whatever was left unset.
use vstd::prelude::*;

verus! {

/// The configuration the process runs with. Paths are carried as plain
/// text; durations are in seconds.
pub struct Parameters {
    pub bot_name: String,
    pub owner_id: u64,
    pub settings_database_path: String,
    pub chat_database_root_path: String,
    pub max_database_connections_count: u32,
    pub max_message_age_secs: u64,
    pub message_clean_periodicity_secs: u64,
    pub is_webhook_mode_enabled: bool,
}

impl Parameters {
    /// Assemble the configuration, filling every optional value with its
    /// default: 5 connections per tenant pool, a three-day retention
    /// window, a one-day sweep period, and long-polling mode.
    pub fn new(
        bot_name: String,
        owner_id: u64,
        settings_database_path: String,
        chat_database_root_path: String,
        max_database_connections_count: Option<u32>,
        max_message_age_secs: Option<u64>,
        message_clean_periodicity_secs: Option<u64>,
        is_webhook_mode_enabled: Option<bool>,
    ) -> (r: Parameters)
        ensures
            r.bot_name == bot_name,
            r.owner_id == owner_id,
            r.settings_database_path == settings_database_path,
            r.chat_database_root_path == chat_database_root_path,
            r.max_database_connections_count == (match max_database_connections_count {
                Some(n) => n,
                None => 5u32,
            }),
            r.max_message_age_secs == (match max_message_age_secs {
                Some(n) => n,
                None => 259200u64,
            }),
            r.message_clean_periodicity_secs == (match message_clean_periodicity_secs {
                Some(n) => n,
                None => 86400u64,
            }),
            r.is_webhook_mode_enabled == (match is_webhook_mode_enabled {
                Some(b) => b,
                None => false,
            }),
    {
        Parameters {
            bot_name,
            owner_id,
            settings_database_path,
            chat_database_root_path,
            max_database_connections_count: match max_database_connections_count {
                Some(n) => n,
                None => 5,
            },
            max_message_age_secs: match max_message_age_secs {
                Some(n) => n,
                None => 259200,
            },
            message_clean_periodicity_secs: match message_clean_periodicity_secs {
                Some(n) => n,
                None => 86400,
            },
            is_webhook_mode_enabled: match is_webhook_mode_enabled {
                Some(b) => b,
                None => false,
            },
        }
    }
}

} // verus!
