//! Plate-appearance level simulation of a season of a bat-and-ball team sport:
//! the scoreboard and inning state machine, bullpen decisions, pitching credit,
//! statistics and the fixture list, each with a machine-checked contract.

pub mod chance;
pub mod data;
pub mod game;
pub mod league;
pub mod linescore;
pub mod player;
pub mod results;
pub mod schedule;
pub mod stat;
pub mod team;
