//! Rewrites URLs inside free-form text so that tracking query parameters and
//! referral path segments are removed, leaving every other character alone.

pub mod clipboard;
pub mod config;
pub mod locator;
pub mod logger;
pub mod macos;
pub mod parts;
pub mod query;
pub mod rules;
pub mod sanitization;
pub mod scan;
pub mod text;
pub mod windows;
