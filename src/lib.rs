//! Procedural layout of a tavern: rooms grown over a plot, the walls and doors
//! between them, the roofs above them and the furniture inside.
pub mod geom;
pub mod dir;
pub mod lottery;
pub mod random;
pub mod kind;
pub mod structure;
pub mod place;
pub mod fit;
pub mod growth;
pub mod partition;
pub mod roof;
pub mod detail;
pub mod tavern;
