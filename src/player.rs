use std::collections::{HashMap, HashSet};
use vstd::prelude::*;

verus! {

// The parts of the player-character data model whose fields hold no floating
// point numbers. Their layout is described in `catalog`.

#[allow(dead_code)]
pub enum ItemRarity {
    Common,
    Uncommon,
    Rare,
    Epic,
    Legendary,
}

#[allow(dead_code)]
pub struct Stats {
    strength: u16,
    dexterity: u16,
    intelligence: u16,
    health: u32,
    mana: u32,
}

#[allow(dead_code)]
pub enum ItemEffect {
    Damage(u32),
    Heal { amount: u32, duration: u16 },
    Status { effect_type: String, power: u16, duration: u32 },
    /// Named `None` in the schema.
    NoEffect,
}

#[allow(dead_code)]
pub struct Item {
    id: String,
    name: String,
    description: String,
    rarity: ItemRarity,
    level_requirement: u8,
    effects: Vec<ItemEffect>,
    stats: Option<Stats>,
    metadata: HashMap<String, String>,
}

#[allow(dead_code)]
pub struct Achievement {
    id: String,
    name: String,
    description: String,
    reward_points: u32,
    completed_at: Option<u64>,
    prerequisites: Vec<String>,
}

#[allow(dead_code)]
pub struct GuildMembership {
    guild_id: String,
    guild_name: String,
    joined_at: u64,
    rank: String,
    permissions: HashSet<String>,
}

#[allow(dead_code)]
pub struct Trade {
    id: String,
    from_player: String,
    to_player: String,
    items: Vec<Item>,
    gold_amount: u64,
    status: String,
    created_at: u64,
    completed_at: Option<u64>,
}

#[allow(dead_code)]
pub struct QuestProgress {
    quest_id: String,
    started_at: u64,
    steps_completed: Vec<u32>,
    current_step: u32,
    collected_items: HashMap<String, u32>,
}

} // verus!
