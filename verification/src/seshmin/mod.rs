//! seshmin: a session picker that lists the live and resurrectable Zellij sessions together
//! with the directories that zoxide ranks, and starts sessions in them.
pub mod config;
pub mod item;
pub mod manager;
pub mod search;
pub mod session;
pub mod state;
pub mod zoxide;
