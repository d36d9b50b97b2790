//! Peer address book and peer management for a Bitcoin node.

pub mod address_laws;
pub mod address_man;
pub mod admission_laws;
pub mod book;
pub mod book_laws;
pub mod buckets;
pub mod bytes;
pub mod chain_data;
pub mod clock;
pub mod disk;
pub mod disk_laws;
pub mod dns;
pub mod dns_proxy;
pub mod local_address;
pub mod net_addr;
pub mod node;
pub mod random;
pub mod reading_laws;
pub mod request_table;
pub mod saving_laws;
pub mod seed_laws;
pub mod selection;
pub mod selection_laws;
pub mod service_flags;
pub mod state_laws;
pub mod stats;
pub mod terms;
pub mod text;
pub mod text_laws;
