//! A flashcard study library: the deck of question/answer cards with its
//! navigation rules, and the greedy word wrap that lays a card's text out in
//! centred lines.

pub mod config;
pub mod deck;
pub mod draw;
pub mod question;
pub mod session;
