//! Preference-based seat allocation for events made of parallel slots.
//!
//! An [`event::Event`] owns ordered slots, each slot owns capacity-limited
//! sessions, and participants apply to sessions with a declared preference.
//! Ranking orders each session's pending applications best-first;
//! allocation then seats participants slot by slot with a greedy rule, and
//! [`lifecycle`] ties both to the life of the event. What a distribution
//! guarantees is proved in [`seating`] and [`laws`].
//!
//! Around the engine stand the requests that fill and read an event:
//! [`admin`] and [`admin_view`] for administrators, [`user`] and
//! [`user_view`] for invited participants, [`auth`] for signing in, all of
//! them working on a [`storage::Storage`].
//!
//! Every executable function carries a contract over the mathematical views
//! declared next to the types. Identifiers are 128-bit integers. The few
//! calls that leave the crate (fresh identifiers and their text form,
//! password hashing, trimming and splitting of text) are small functions
//! whose contracts are taken on trust; each says so where it stands.

pub mod ident;
pub mod text;
pub mod lookup;

pub mod priority;
pub mod application;
pub mod ordering;
pub mod session;
pub mod slot;
pub mod event;

pub mod ranking;
pub mod allocation;
pub mod seating;
pub mod laws;
pub mod lifecycle;
pub mod editing;

pub mod password;
pub mod storage;
pub mod request;
pub mod auth;
pub mod admin;
pub mod admin_view;
pub mod user;
pub mod user_view;
