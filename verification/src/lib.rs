//! The bridge between a browser front end and the yt-dlp downloader.
pub mod app;
pub mod clock;
pub mod command;
pub mod cookies;
pub mod downloads;
pub mod events;
pub mod json;
pub mod laws;
pub mod library;
pub mod order;
pub mod paths;
pub mod settings;
pub mod storage;
pub mod tasks;
pub mod text;
pub mod tools;
pub mod web;
