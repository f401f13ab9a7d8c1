//! Document listing framework: document model, permissions, locale
//! selection, plugin registry, session bookkeeping and the document index.

pub mod text;
pub mod perm;
pub mod doc;
pub mod keyed;
pub mod json;
pub mod clock;
pub mod storage;
pub mod i18n;
pub mod registry;
pub mod session;
pub mod auth;
pub mod standalone;
pub mod web;
pub mod markdown;
