//! What the operator has set up.
use vstd::prelude::*;

verus! {

/// The settings of the display that are texts, whole numbers and switches.
#[derive(Debug, Clone)]
pub struct ChatConfig {
    // Display toggles
    pub show_username: bool,
    pub show_color: bool,
    pub show_platform: bool,
    pub show_rank: bool,
    pub show_role_badges: bool,
    pub disable_custom_colors: bool,
    // Message easing
    pub easing_enabled: bool,
    // Images (ascii rendering)
    /// "none" | "all"
    pub images_mode: String,
    pub ascii_converter_path: String,
    pub ascii_width: usize,
    /// JSON map of `"token": "image-or-gif URL"` — matched as `:token:` and as a standalone word;
    /// a matched token resolves to a URL that is embedded like a raw URL in the message.
    pub image_map_path: String,
    /// Minimum rank tier allowed to show embedded images (owner/admin/mod/sponsor/opal/gold/
    /// silver/regular/coal/trash). Users below this show the `<image>` placeholder instead.
    /// Default "regular" = everyone.
    ///
    /// This can ALSO be a numeric score threshold (the user's own trust level), e.g. "20" means
    /// only users with a user-DB score >= 20 can embed images.
    pub image_min_rank: String,
    /// Optional `Referer` header sent when downloading images (some CDNs only allow embedding
    /// when a Referer is present). Empty = no Referer.
    pub image_referer: String,
    // Emoji map
    pub emoji_enabled: bool,
    pub emoji_map_path: String,
    pub max_buffered: usize,
    // YouTube OAuth (optional; needed for the Google login flow)
    pub google_oauth_client_id: String,
    pub google_oauth_client_secret: String,
    // Audio playback (TTS clips)
    /// Whether the chat display plays rendered audio at all.
    pub play_audio: bool,
    // Message fade
    /// Seconds a message stays on screen before being faded out. `0` = never fade (default).
    pub message_fade_secs: u64,
    /// `"remove"` = drop the message outright at the timeout; `"dim"` = dim it for the final ~2s
    /// (or ~20% of the lifetime) then drop it.
    pub message_fade_mode: String,
}

/// Where a config file without the key leaves audio playback: on.
pub fn default_play_audio() -> (r: bool)
    ensures
        r,
{
    true
}

pub fn default_message_fade_mode() -> (r: String)
    ensures
        r@ == "remove"@,
{
    "remove".to_owned()
}

pub fn default_image_map_path() -> (r: String)
    ensures
        r@ == "image_map.json"@,
{
    "image_map.json".to_owned()
}

pub fn default_min_rank() -> (r: String)
    ensures
        r@ == "regular"@,
{
    "regular".to_owned()
}

impl Default for ChatConfig {
    fn default() -> (c: Self)
        ensures
            c.show_username && c.show_color && c.show_platform && c.show_rank
                && c.show_role_badges,
            !c.disable_custom_colors && !c.easing_enabled,
            c.images_mode@ == "none"@,
            c.ascii_converter_path@ == "ascii-image-converter"@,
            c.ascii_width == 60,
            c.image_map_path@ == "image_map.json"@,
            c.image_min_rank@ == "regular"@,
            c.image_referer@.len() == 0,
            c.emoji_enabled,
            c.emoji_map_path@ == "emoji_map.json"@,
            c.max_buffered == 200,
            c.google_oauth_client_id@.len() == 0,
            c.google_oauth_client_secret@.len() == 0,
            c.play_audio,
            c.message_fade_secs == 0,
            c.message_fade_mode@ == "remove"@,
    {
        ChatConfig {
            show_username: true,
            show_color: true,
            show_platform: true,
            show_rank: true,
            show_role_badges: true,
            disable_custom_colors: false,
            easing_enabled: false,
            images_mode: "none".to_owned(),
            ascii_converter_path: "ascii-image-converter".to_owned(),
            ascii_width: 60,
            image_map_path: default_image_map_path(),
            image_min_rank: default_min_rank(),
            image_referer: String::new(),
            emoji_enabled: true,
            emoji_map_path: "emoji_map.json".to_owned(),
            max_buffered: 200,
            google_oauth_client_id: String::new(),
            google_oauth_client_secret: String::new(),
            play_audio: default_play_audio(),
            message_fade_secs: 0,
            message_fade_mode: default_message_fade_mode(),
        }
    }
}

} // verus!
