pub mod actions;
pub mod app;
pub mod detail;
pub mod display;
pub mod keys;
pub mod ldap;
pub mod locale;
pub mod model;
pub mod schema;
pub mod state;
pub mod sorted;
pub mod text;
pub mod tree;
