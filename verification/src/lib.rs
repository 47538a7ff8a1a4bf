//! Reaction-graph profitability engine.
//!
//! The crate evaluates production chains ("reactions") that turn input
//! materials into an output good. Given the set of materials a user already
//! owns and a snapshot of market prices, it decides which reactions are worth
//! running, prices one run of each, and expands the winners into a full
//! sourcing plan (owned stock / purchase / nested reaction).

use vstd::prelude::*;

pub mod analysis;
pub mod laws;
pub mod ore_mappings;
pub mod prices;
pub mod reachability;
pub mod reaction_tree;
pub mod reactions;
pub mod state;
pub mod strutil;

pub use analysis::AnalysisError;
pub use analysis::analyze_reactions;
pub use ore_mappings::OreMappings;
pub use ore_mappings::is_moon_goo;
pub use prices::InputBreakdown;
pub use prices::PriceInfo;
pub use prices::PriceTable;
pub use prices::ReactionProfit;
pub use prices::calculate_reaction_profit;
pub use reachability::reaction_uses_user_materials;
pub use reachability::traces_to_moon_materials;
pub use reaction_tree::ReactionTreeNode;
pub use reaction_tree::SourceType;
pub use reaction_tree::build_full_reaction_tree;
pub use reaction_tree::build_reaction_tree;
pub use state::AppState;
pub use state::MaterialEntry;
pub use state::MoonComposition;
pub use state::StateError;

pub use reactions::Reaction;
pub use reactions::ReactionDatabase;
pub use reactions::ReactionItem;

verus! {

} // verus!
