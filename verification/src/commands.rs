//! Bot command handling: which reply each command earns, and the one
//! command with a side effect, setting the reply image.
use vstd::prelude::*;
use crate::settings_db::SettingsDb;
use crate::utils::image_key;

verus! {

/// The commands the bot supports.
#[derive(Clone, Copy, PartialEq, Eq, Structural, Debug)]
pub enum Command {
    /// Display info about the bot.
    About,
    /// Show help.
    Help,
    /// Set the reply image from the photo of the replied-to message.
    SetImage,
}

/// The outcome of handling one command. The transport layer turns each
/// variant into the matching localized message.
#[derive(Clone, Copy, PartialEq, Eq, Structural, Debug)]
pub enum CommandReply {
    /// The about text.
    AboutText,
    /// The plain help text.
    HelpText,
    /// The help text with the admin addendum, for the owner.
    HelpTextForAdmin,
    /// The sender may not perform this operation.
    PermissionDenied,
    /// The reply image was stored.
    ImageUpdated,
    /// The replied-to message carries no photo.
    MissedPhotoInMessage,
    /// The command did not reply to any message.
    MissedReplyMessage,
}

/// Handle one command from a sender. `reply_photo` is the replied-to
/// message, if any, reduced to the file id of its first photo, if any.
/// Only the owner's `SetImage` over a photo changes the settings store;
/// every other path leaves it untouched.
pub fn command_handler(
    command: &Command,
    sender_id: Option<u64>,
    owner_id: u64,
    reply_photo: &Option<Option<String>>,
    settings: &mut SettingsDb,
) -> (r: CommandReply)
    requires
        old(settings).wf(),
    ensures
        final(settings).wf(),
        match command {
            Command::About => r == CommandReply::AboutText && *final(settings) == *old(settings),
            Command::Help => *final(settings) == *old(settings) && r == (
            if sender_id == Some(owner_id) {
                CommandReply::HelpTextForAdmin
            } else {
                CommandReply::HelpText
            }),
            Command::SetImage => {
                if sender_id != Some(owner_id) {
                    r == CommandReply::PermissionDenied && *final(settings) == *old(settings)
                } else {
                    match reply_photo {
                        None => r == CommandReply::MissedReplyMessage
                            && *final(settings) == *old(settings),
                        Some(None) => r == CommandReply::MissedPhotoInMessage
                            && *final(settings) == *old(settings),
                        Some(Some(file_id)) => r == CommandReply::ImageUpdated
                            && final(settings).spec_map()
                            == old(settings).spec_map().insert(image_key(), file_id@),
                    }
                }
            },
        },
{
    match command {
        Command::About => CommandReply::AboutText,
        Command::Help => {
            if crate::utils::is_sender_an_owner(&sender_id, owner_id) {
                CommandReply::HelpTextForAdmin
            } else {
                CommandReply::HelpText
            }
        },
        Command::SetImage => {
            if !crate::utils::is_sender_an_owner(&sender_id, owner_id) {
                CommandReply::PermissionDenied
            } else {
                match reply_photo {
                    None => CommandReply::MissedReplyMessage,
                    Some(None) => CommandReply::MissedPhotoInMessage,
                    Some(Some(file_id)) => {
                        settings.add_setting("image_file_id", file_id.as_str());
                        CommandReply::ImageUpdated
                    },
                }
            }
        },
    }
}

} // verus!
