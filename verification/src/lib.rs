//! RepoHarbor's verified core: the pure logic behind the repo dashboard.
pub mod activity;
pub mod agents;
pub mod ai;
pub mod appearance;
pub mod attention;
pub mod cache;
pub mod ci;
pub mod cloud;
pub mod dispatch;
pub mod enrich;
pub mod fleet;
pub mod folder_picker;
pub mod forge;
pub mod git_ops;
pub mod inbox;
pub mod krunner;
pub mod launch;
pub mod llama;
pub mod model;
pub mod notifier;
pub mod oauth;
pub mod paths;
pub mod scan;
pub mod search;
pub mod semantic;
pub mod summarize;
pub mod text;
pub mod tray;
pub mod watcher;
