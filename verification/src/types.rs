//! The values that the display passes around.
use crate::time::Instant;
use vstd::prelude::*;

verus! {

#[derive(Debug)]
pub struct ChatMessageItem {
    pub id: String,
    pub username: String,
    pub name_color: String,
    pub rank: String,
    /// Raw user score (when the engine enriched the user); used for custom trust-level thresholds
    /// (e.g. `image_min_rank` as a number).
    pub score: i64,
    pub role_badges: String,
    /// Whether the user has at least one reprimand on record.
    pub reprimanded: bool,
    pub platform: String,
    /// Raw identifier the adapter supplied (usually the platform handle).
    pub user_handle: String,
    /// Enriched user DB uuid7 (when the engine resolved the user).
    pub user_uuid7: String,
    pub content: String,
    /// Rendered ascii art for an image in the message (may fill in later).
    pub image_art: Option<String>,
    /// Why an image was NOT shown (e.g. "rank too low", "embedding not allowed", "conversion
    /// failed"). `None` = no image attempted, or rendered fine. The renderer shows a plain
    /// `<image>` placeholder when this is Some.
    pub image_status: Option<String>,
    /// When the message entered the display buffer, the start of the fade clock.
    pub added_at: Instant,
}

impl Clone for ChatMessageItem {
    fn clone(&self) -> (r: ChatMessageItem)
        ensures
            r == *self,
    {
        ChatMessageItem {
            id: self.id.clone(),
            username: self.username.clone(),
            name_color: self.name_color.clone(),
            rank: self.rank.clone(),
            score: self.score,
            role_badges: self.role_badges.clone(),
            reprimanded: self.reprimanded,
            platform: self.platform.clone(),
            user_handle: self.user_handle.clone(),
            user_uuid7: self.user_uuid7.clone(),
            content: self.content.clone(),
            image_art: match &self.image_art {
                Some(s) => Some(s.clone()),
                None => None,
            },
            image_status: match &self.image_status {
                Some(s) => Some(s.clone()),
                None => None,
            },
            added_at: self.added_at,
        }
    }
}

#[derive(Clone, Debug)]
pub struct AppStatus {
    pub connected: bool,
    pub detail: String,
}

impl Default for AppStatus {
    fn default() -> (s: Self)
        ensures
            s.connected,
            s.detail@ == "connected to cockatiel engine"@,
    {
        AppStatus { connected: true, detail: "connected to cockatiel engine".to_owned() }
    }
}

impl AppStatus {
    /// The engine's stream has ended.
    pub fn disconnect(&mut self)
        ensures
            !final(self).connected,
            final(self).detail@ == "disconnected from engine"@,
    {
        self.connected = false;
        self.detail = "disconnected from engine".to_owned();
    }
}

#[derive(Clone, Copy, Debug, PartialEq, Eq, Structural)]
pub enum UiMode {
    Chat,
    LoginMenu,
    ActionMenu,
    Input,
    KickHandle,
    TimeoutPrompt,
}

} // verus!
