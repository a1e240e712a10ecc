//! Expiring-identifier scheme and in-memory expiration scheduling for an
//! upload service.
//!
//! An identifier encodes its own absolute expiration instant inside an
//! otherwise-random 128-bit value — no side table is needed to know when
//! an object expires — and a priority structure tracks the live
//! identifiers so a periodic sweep can collect the expired ones, soonest
//! first.  See [`expire_queue`] for the codec and the scheduler,
//! [`token`] for upload authorization, and [`upload`] for the data and
//! file-name rules of the upload paths.

pub mod expire_queue;
pub mod hex;
pub mod pqueue;
pub mod token;
pub mod upload;
