pub mod table;
pub mod types;
pub mod deck;
pub mod hand;
pub mod perfect_strategy;
pub mod rules;
pub mod complex_strategy;
pub mod basic_strategy;
pub mod simulation;
pub mod strategy_comparison;
