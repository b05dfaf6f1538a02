//! The logic of a Cloudflare speed test: what to request, what to make of the
//! answers, and what to show.

pub mod config;
pub mod double;
pub mod download;
pub mod failure;
pub mod latency;
pub mod packet_loss;
pub mod percentile;
pub mod rating;
pub mod reading;
pub mod report;
pub mod request;
pub mod results;
pub mod session;
pub mod style;
pub mod text;
pub mod trace;
pub mod transfer;
pub mod upload;
