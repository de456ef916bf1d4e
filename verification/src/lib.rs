pub mod bonus_die;
pub mod cauldron;
pub mod chip;
pub mod game;
pub mod player;
pub mod purchase;
pub mod rng;
pub mod rules;
pub mod strategy;
