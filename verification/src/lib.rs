//! Verified core of Haddock, a desktop front end for the Sherlock username
//! search tool: input validation, the command line handed to Sherlock and
//! Tor, and the decisions taken on each line those processes print.

pub mod models;
pub mod output;
pub mod search;
pub mod text;
pub mod tor;
pub mod validation;
