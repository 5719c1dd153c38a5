//! Startup configuration for the service.

use vstd::prelude::*;

verus! {

/// Configuration read at startup: the platform credential, the path of the
/// durable correlation store, the moderation (admin) channel, the main
/// discussion channel, and the two public links carried by the off-topic
/// notice.
pub struct Config {
    pub token: String,
    pub db: String,
    pub admin_group: i64,
    pub main_group: i64,
    pub offtopic_group: String,
    pub meta_group: String,
}

} // verus!
