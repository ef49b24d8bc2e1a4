//! Core rules engine for a patience-style card game played on a 3x3 grid of
//! stacks: card model, board, selection, hand classification, move resolution,
//! the trash-charge economy, and the message-driven update function.
pub mod board;
pub mod card;
pub mod deck;
pub mod game;
pub mod hand;
pub mod newgame;
pub mod update;
