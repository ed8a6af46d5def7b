//! Verified core of a small web front end for a microtak-server instance:
//! HTTP Basic Auth checking, URL and path building for the admin API,
//! the enrollment QR payload, and the display decisions of the HTML pages.

pub mod auth;
pub mod client;
pub mod pages;
pub mod qr;
pub mod text;
