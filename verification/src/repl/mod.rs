//! The decisions and computations of the interactive shell: its state, the
//! colors of listings, the confirmation answers and the random data that
//! the shell writes into files.
pub mod cat;
pub mod command;
pub mod dir;
pub mod du;
pub mod entry;
pub mod ls;
pub mod misc;
pub mod outcome;
pub mod random;
pub mod rm;
pub mod state;
pub mod xfer;
pub mod user;
