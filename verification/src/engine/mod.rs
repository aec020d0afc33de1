pub mod seo;
pub mod feed;
pub mod analytics;
pub mod config;
pub mod links;
pub mod template;
pub mod migrate;
pub mod minify;
pub mod markdown;
pub mod index;
pub mod pages;
pub mod highlight;
