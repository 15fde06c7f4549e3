//! A one-turn combat simulator for a card game, with the bookkeeping that two
//! learners (a tabular tree search and a linear policy gradient) build on.
//!
//! The functions of this crate are verified: each contract is stated over the
//! mathematical view of the data that the function touches and proved against
//! its body. The one thing taken on trust is the random number generator,
//! of whose numbers nothing is assumed.

pub mod canonical;
pub mod card;
pub mod deck;
pub mod episode;
pub mod heuristic;
pub mod mcts;
pub mod policy;
pub mod seq_facts;
pub mod state;
