//! Verified core of a blog-channel manager: each user owns at most one
//! channel inside a fixed category, the category's children stay sorted
//! alphabetically by display name, and a webhook URL can be fetched for a
//! channel. The decision logic (ownership lookup, sorted-insertion
//! planning, command routing, error translation) is verified here; the
//! chat platform itself is an external collaborator driven by the
//! surrounding application.

pub mod blog;
pub mod channel;
pub mod handler;
pub mod order;
pub mod planner;
