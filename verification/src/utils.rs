//! Small decision helpers: ownership checks and the duplicate-reply choice.
use vstd::prelude::*;
use crate::settings_db::SettingsDb;

verus! {

/// The settings key under which the configured reply image is stored.
pub open spec fn image_key() -> Seq<char> {
    "image_file_id"@
}

/// The reply owed for a detected duplicate: the configured image if one is
/// set, otherwise a fixed "nothing configured" notice.
pub enum SlowpokeReply {
    /// Send the configured image, by its stored file id.
    Photo(String),
    /// No image is configured: send the fallback notice text.
    NoAssetConfigured,
}

/// A message counts as the owner's exactly when its sender is known and is
/// the configured owner.
pub fn is_sender_an_owner(from: &Option<u64>, owner_id: u64) -> (r: bool)
    ensures
        r == (*from == Some(owner_id)),
{
    match from {
        Some(user_id) => *user_id == owner_id,
        None => false,
    }
}

/// Decide the duplicate reply from the settings store: the configured
/// image when `image_file_id` is set, the fallback notice when it is not.
/// Delivering the reply is the transport layer's job.
pub fn send_slowpoke(settings: &SettingsDb) -> (r: SlowpokeReply)
    requires
        settings.wf(),
    ensures
        settings.spec_map().contains_key(image_key()) ==> (r matches SlowpokeReply::Photo(f)
            && f@ == settings.spec_map()[image_key()]),
        !settings.spec_map().contains_key(image_key()) ==> (r is NoAssetConfigured),
{
    match settings.get_setting("image_file_id") {
        Ok(file_id) => SlowpokeReply::Photo(file_id),
        Err(_) => SlowpokeReply::NoAssetConfigured,
    }
}

} // verus!
