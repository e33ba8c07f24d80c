use vstd::prelude::*;

pub mod text;
pub mod json_tree;
pub mod error;
pub mod server_logs;
pub mod cache;
pub mod cache_fetch;
pub mod curseforge;
pub mod install;
pub mod progress;
pub mod adjunct;
pub mod mrpack;
pub mod mrpack_plan;
pub mod pack_scan;
pub mod modpack_batch;
pub mod servers;
pub mod oauth;
pub mod appearance;
pub mod logshare;
pub mod launcher;
pub mod version_documents;
pub mod hmcl_libraries;
pub mod upgrade;
pub mod upgrade_apply;
pub mod upgrade_backup;
pub mod upgrade_warnings;
pub mod upgrade_staging;
pub mod batch_query;
pub mod sse_chunking;

verus! {
}
