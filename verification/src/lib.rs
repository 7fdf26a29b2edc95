//! Client library for the Software-Challenge 2027 Blokus game: the game model
//! and rules, move generation, scoring, and the data of the XML protocol.
pub mod i_client_handler;
pub mod incoming;
pub mod internal;
pub mod messages;
pub mod moves;
pub mod neutral;
pub mod outgoing;
pub mod piece_shape;
pub mod rules;
pub mod scoring;
pub mod socha_com;
pub mod text;
