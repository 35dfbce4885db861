//! Anonymous-poll engine: a room of identified members runs surveys in which
//! every member contributes one answer that nobody, the room administrator
//! included, can link back to its author.
//!
//! The crate is organised leaves-first:
//! - [`bytes`] verified helpers on byte buffers and little-endian integers;
//! - [`ids`] fixed-width identifier newtypes and monotonic counters;
//! - [`group`] the prime-order group (Ristretto) behind trusted wrappers,
//!   with every element carried as its canonical 32-byte encoding;
//! - [`schnorr`] key pairs and Schnorr signatures;
//! - [`ring`] the linkable ring signature: sign, verify, link;
//! - [`errors`] the closed error taxonomy;
//! - [`identity`] room-scoped identities (room, user, mask, answer);
//! - [`roles`] the role lattice and grant rules;
//! - [`question`] questions and their priorities;
//! - [`answer`] sealed and clear answers;
//! - [`phase`] the five survey phases and their transitions;
//! - [`survey`] the survey state machine, undo records and transactions;
//! - [`room`] the room state machine;
//! - [`codec`] the byte-exact wire encoding of survey transactions.

pub mod answer;
pub mod bytes;
pub mod codec;
pub mod errors;
pub mod group;
pub mod identity;
pub mod ids;
pub mod phase;
pub mod question;
pub mod ring;
pub mod roles;
pub mod room;
pub mod schnorr;
pub mod survey;
