//! Verified core of the Slate board: the decisions, parsers, and state
//! machines behind the board canvas, its web portals and its clipboard.

pub mod enscape_host;
pub mod text;
pub mod chrome;
pub mod board_snap;
pub mod board_properties;
pub mod board_web;
pub mod board_web_win;
pub mod civil_date;
pub mod board_web_stills;
pub mod clipboard;
pub mod clipboard_bitmap;
pub mod board_trim;
pub mod web_consent;
pub mod dispatch;
pub mod board_video;
pub mod external_drop;
pub mod web_links;
pub mod web_pool;
pub mod web_pump;
