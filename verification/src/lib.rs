//! Solver core for a code-breaking game: a hidden sequence of colored pegs
//! must be found from positional/color feedback. The crate holds the
//! feedback evaluator, the candidate-space generator, the pruning store,
//! the minimax guess selector and the round bookkeeping; terminal
//! rendering and file handling live with the callers.

pub mod types;

pub mod gamelogic;

pub mod bot;

pub mod gamestate;

pub mod twoplayer;

pub mod prints;

pub mod gameconfig;

pub mod usersetup;

pub mod startup;

pub mod parse;

pub mod manualconfig;
