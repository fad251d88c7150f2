use vstd::prelude::*;

verus! {

/// A registered Discord webhook.
#[derive(Debug, Clone)]
pub struct Webhook {
    pub id: i64,
    pub name: String,
    pub url: String,
    pub is_forum: bool,
}

/// What the host asks for when it starts an upload session.
#[derive(Debug, Clone)]
pub struct UploadRequest {
    pub webhook_id: i64,
    pub file_paths: Vec<String>,
    pub group_by_metadata: bool,
    pub max_images_per_message: u8,
    pub is_forum_channel: bool,
    pub include_player_names: bool,
    pub grouping_time_window: u32,
    pub group_by_world: bool,
}

/// Grouping window, in minutes, used when a request names none.
pub fn default_time_window() -> (r: u32)
    ensures
        r == 10,
{
    10
}

/// Grouping by world is on unless a request turns it off.
pub fn default_true() -> (r: bool)
    ensures
        r,
{
    true
}

/// One file that could not be uploaded in a session.
#[derive(Debug, Clone)]
pub struct FailedUpload {
    pub file_path: String,
    pub error: String,
    pub retry_count: u32,
    pub is_retryable: bool,
}

/// The photographer recorded in a screenshot.
#[derive(Debug, Clone)]
pub struct AuthorInfo {
    pub display_name: String,
    pub id: String,
}

/// The world a screenshot was taken in.
#[derive(Debug, Clone)]
pub struct WorldInfo {
    pub name: String,
    pub id: String,
    pub instance_id: String,
}

/// A player present when a screenshot was taken.
#[derive(Debug, Clone)]
pub struct PlayerInfo {
    pub display_name: String,
    pub id: String,
}

/// Metadata embedded in one screenshot; every part is optional.
#[derive(Debug, Clone)]
pub struct ImageMetadata {
    pub author: Option<AuthorInfo>,
    pub world: Option<WorldInfo>,
    pub players: Vec<PlayerInfo>,
}

/// Where extracted metadata came from.
#[derive(Debug, Clone, Copy, PartialEq, Eq, Structural)]
pub enum MetadataSource {
    /// VRCX-style JSON in a PNG "Description" text chunk.
    Vrcx,
    /// VRChat's native XMP packet.
    VrchatXmp,
    /// Nothing embedded was found.
    NotFound,
}

/// Metadata together with the place it was found.
#[derive(Debug, Clone)]
pub struct MetadataWithSource {
    pub metadata: Option<ImageMetadata>,
    pub source: MetadataSource,
}

/// The settings the user interface edits.
#[derive(Debug, Clone)]
pub struct AppConfig {
    pub last_webhook_id: Option<i64>,
    pub group_by_metadata: bool,
    pub max_images_per_message: u8,
    pub enable_global_shortcuts: bool,
    pub auto_compress_threshold: u64,
    pub upload_quality: u8,
    pub compression_format: String,
}

} // verus!

verus! {

impl PlayerInfo {
    /// An equal copy of this player.
    pub fn duplicate(&self) -> (r: Self)
        ensures
            r == *self,
    {
        PlayerInfo { display_name: self.display_name.clone(), id: self.id.clone() }
    }
}

impl WorldInfo {
    /// An equal copy of this world.
    pub fn duplicate(&self) -> (r: Self)
        ensures
            r == *self,
    {
        WorldInfo { name: self.name.clone(), id: self.id.clone(), instance_id: self.instance_id.clone() }
    }
}

} // verus!
