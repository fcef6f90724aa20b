pub mod auth;
pub mod config;
pub mod db;
pub mod gate;
pub mod gates;
pub mod jwt;
pub mod login;
pub mod logout;
pub mod mapper;
pub mod open;
pub mod order;
pub mod session;
pub mod structs;
pub mod token;
