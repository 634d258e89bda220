//! Named feeds of IP networks, URLs, or domains, kept in typed entry
//! collections and rendered as plaintext documents, one active entry per
//! line, with a memoized content digest of the rendered body.

pub mod entry;
pub mod errors;
pub mod feed;
pub mod render;
pub mod user;
pub mod value;
