//! Authenticated discovery, pairing and bilateral trust for OmarchySync.
pub mod attempts;
pub mod authentication;
pub mod bilateral;
pub mod capability;
pub mod certified;
pub mod codec;
pub mod conduct;
pub mod crypto;
pub mod discovery;
pub mod encounters;
pub mod error;
pub mod exchange;
pub mod frames;
pub mod grants;
pub mod holdings;
pub mod identity;
pub mod json;
pub mod judgement;
pub mod limits;
pub mod meeting;
pub mod noise;
pub mod notation;
pub mod pairing;
pub mod pairing_run;
pub mod peers;
pub mod prompt;
pub mod protocol_v3;
pub mod readback;
pub mod record;
pub mod recovery;
pub mod refusals;
pub mod runtime_v3;
pub mod series;
pub mod signing;
pub mod steps;
pub mod terms;
pub mod text;
pub mod trust;
