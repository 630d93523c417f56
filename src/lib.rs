pub mod wire;
pub mod record;
pub mod record_batch;
pub mod metadata;
pub mod common;
pub mod request;
pub mod response;
pub mod api_versions;
pub mod describe_topic;
pub mod fetch;
pub mod handler;
pub mod server;
