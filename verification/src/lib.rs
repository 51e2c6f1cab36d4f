//! A deduction solver for a social-deduction card game played around a
//! circular table of seats.
//!
//! Given a deck of available roles, the composition quotas (how many
//! Villagers, Outcasts, Minions and Demons are in play) and per-seat
//! observations (a visible disguise, an optionally confirmed identity and an
//! optionally observed public statement), the solver enumerates every
//! assignment of true roles to seats that is consistent with the game's
//! rules.

pub mod corruption;
pub mod geometry;
pub mod roles;
pub mod semantics;
pub mod solver;
pub mod statements;
pub mod targets;
pub mod world;

pub use geometry::{
    closest_corrupt_distance, closest_evil_direction, closest_evil_distance, count_evil_pairs,
    neighbor_indexes,
};
pub use roles::{Alignment, Group, Role};
pub use statements::{
    AlchemistStatement, ArchitectStatement, BardStatement, BishopStatement, ConfessorStatement,
    DreamerStatement, DruidStatement, EmpressStatement, EnlightenedStatement,
    FortuneTellerStatement, GemcrafterStatement, HunterStatement, JesterStatement, JudgeStatement,
    KnitterStatement, LoverStatement, MediumStatement, OracleStatement, PlagueDoctorStatement,
    RoleStatement, ScoutStatement, SlayerStatement,
};
pub use semantics::can_produce_statement;
pub use solver::{brute_force_solve, confirmed_roles_ok, validate_candidate, ValidationError};
pub use targets::{to_bitvec, TargetIndexes};
pub use world::statements_match;
