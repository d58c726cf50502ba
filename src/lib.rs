//! Schema descriptions of nested data types: a graph of named declarations
//! discovered by a depth-first walk from a root type, its canonical byte
//! encoding, and the decoding of those bytes.
mod builder;
mod catalog;
mod decoder;
mod encoder;
mod graph;
mod laws;
mod model;
mod player;

pub use builder::{
    build, built, closed, declares_reached, is_path, reachable, recorded, unique_names, walk,
    well_formed,
};
pub use catalog::{
    distinct_names, generate_schema, player_catalog, player_character_catalog,
    player_character_schema, player_entry, schema_bytes, tidy, walk_fails,
};
pub use decoder::decode;
pub use encoder::{enc_container, encode};
pub use graph::{
    check_refs_in_range, collision_free, declaration_of, describes, mentions, refs, refs_in_range,
    same_shape, shape_refs, shapes_agree,
};
pub use laws::{lemma_reordering_keeps_declared_names, lemma_schema_bytes_deterministic, same_up_to_order};
pub use model::{Declaration, Payload, SchemaContainer, SchemaError, Shape, TypeDescriptor};
pub use player::{
    Achievement, GuildMembership, Item, ItemEffect, ItemRarity, QuestProgress, Stats, Trade,
};
