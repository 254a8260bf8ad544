//! Room management for a peer-to-peer file sharing service: rooms with a host,
//! guests who join by one-time invites, and entities (files) that clients
//! announce and withdraw.

pub mod entries;
pub mod ext;
pub mod index_maps;
pub mod room;
pub mod ttl_invites;
pub mod types;
pub mod validator;
pub mod rpc;
pub mod laws;
pub mod inspect;
pub mod storage;
pub mod token;
pub mod ui;
pub mod input;
