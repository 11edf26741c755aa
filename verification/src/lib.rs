//! A verified persistence gateway for a desktop note-taking backend.
//!
//! Notes and folders are stored in a [`store::Store`] whose behaviour is
//! specified against a mathematical model: every operation's contract says
//! exactly which entities change, which stay, and when each error is
//! returned. Listings are sorted deterministically (notes by last update,
//! newest first; folders by name) by a verified stable insertion sort.

pub mod laws;
pub mod model;
pub mod order;
pub mod store;
mod clock;
