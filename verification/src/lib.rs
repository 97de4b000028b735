//! Simulation of discrete-time dynamical processes: a system-agnostic
//! trajectory engine for fixed-step state evolution, and a two-state
//! nearest-neighbor cellular automaton grid.

pub mod cellular_automata;
pub mod trajectory;
