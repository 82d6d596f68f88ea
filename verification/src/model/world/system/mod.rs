pub mod ability;
pub mod action_queue;
pub mod auto_attack;
pub mod base;
pub mod caster_minion;
pub mod collision;
pub mod icewiz;
pub mod projectile;
pub mod ranking;
pub mod status;
