//! Verified core of the DSM client SDK: session state, inbox polling
//! decisions, receipt and route-commit codecs, quorum tallies, route-chain
//! write planning and the recovery key caches.

pub mod amm;
pub mod bytes;
pub mod error;
pub mod identity_presentation;
pub mod identity_publication;
pub mod inbox_poller;
pub mod kyber_identity;
pub mod leaf_cache;
pub mod native_reserve;
pub mod prefs;
pub mod producers;
pub mod quorum_bind_runner;
pub mod receipts;
pub mod recovery_evidence;
pub mod recovery_sdk;
pub mod recovery_store;
pub mod route_commit;
pub mod route_seats;
pub mod runtime_config;
pub mod session_manager;
pub mod settlement_bind;
pub mod settlement_receipt_codec;
pub mod settlement_resume;
pub mod settlement_slot;
pub mod signing_authority;
pub mod sofi_advance;
pub mod text_id;
pub mod wire_amount;
