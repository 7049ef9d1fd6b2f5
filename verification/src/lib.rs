//! The downtime-detection core of a website-uptime monitor: hostname
//! normalization, a baseline connectivity check, status probing with one
//! retry, change detection against stored state, alert fan-out and batched
//! write-back. The network transport, the site store and the messaging
//! channel are collaborators behind the `HttpClient`, `SiteStore` and
//! `Messenger` interfaces; what is proved about the poll cycle holds of any
//! implementation that meets their contracts.

pub mod site;
pub mod numfmt;
pub mod parse_url;
pub mod http;
pub mod baseline;
pub mod alert;
pub mod format;
pub mod store;
pub mod poll;
pub mod data;
