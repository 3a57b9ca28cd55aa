//! The verified core of a terminal chat client: skills, composer history,
//! parallel child queries, notifications and the sidebar.

pub mod commands;
pub mod composer_history;
pub mod duration;
pub mod json;
pub mod layout;
pub mod location;
pub mod notifications;
pub mod order;
pub mod rlm_query;
pub mod sidebar;
pub mod skills;
pub mod text;
