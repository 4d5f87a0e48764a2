use vstd::prelude::*;

verus! {

/// The stored record of an issued key. The key itself is never stored, only
/// its hash. Points in time are seconds since the Unix epoch.
#[derive(Debug, Clone)]
pub struct ApiKey {
    pub id: i64,
    pub user_id: i64,
    pub key_hash: String,
    pub key_prefix: String,
    pub environment: String,
    pub version: i32,
    pub scopes: Vec<String>,
    pub is_active: bool,
    pub issued_at: i64,
    pub expires_at: Option<i64>,
    pub last_used_at: Option<i64>,
    pub usage_count: i64,
}

} // verus!
