//! Verified core of SafeChat.
pub mod bundle;
pub mod bytes;
pub mod carrier;
pub mod chat;
pub mod command;
pub mod device;
pub mod device_keys;
pub mod device_ops;
pub mod history;
pub mod json;
pub mod localization;
pub mod preferences;
pub mod primitives;
pub mod profile;
pub mod protocol;
pub mod relay_client;
pub mod relay_contacts;
pub mod relay_enrollment;
pub mod relay_events;
pub mod relay_http;
pub mod relay_mailbox;
pub mod relay_signing;
pub mod relay_store;
pub mod rows;
pub mod signal;
pub mod smoke;
pub mod table;
pub mod terminal;
pub mod text;
pub mod timestamps;
pub mod transport;
pub mod ui_ports;
pub mod ui_service;
pub mod ui_state;
pub mod vault;
