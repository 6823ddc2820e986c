//! Ingestion of daily point activity, its reconciliation against stored
//! history, and the rank that follows from a member's last 28 days.

pub mod config;
pub mod date;
pub mod degree;
pub mod error;
pub mod grade;
pub mod key;
pub mod level;
pub mod pgn_level;
pub mod pix;
pub mod record;
pub mod refresh;
pub mod refreshed_users;
pub mod sex;
pub mod store;
pub mod student;
pub mod table;
pub mod text;
pub mod usecase;
pub mod user;
pub mod user_profile;
