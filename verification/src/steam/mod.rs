pub mod auth;
pub mod login;
pub mod session;
pub mod workshop;
