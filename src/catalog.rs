use vstd::prelude::*;

use crate::builder::{build, built, declares_reached, entry_of, well_formed};
use crate::encoder::{enc_container, enc_items, enc_str, encode, Encode};
use crate::graph::{
    collision_free, describes, fields_named, same_payload, same_shape, payload_named, refs, refs_in_range, refs_named,
    shape_in_range, variant_refs,
};
use vstd::utf8::{encode_utf8, is_ascii_chars, is_ascii_chars_encode_utf8};
use crate::model::{Declaration, Payload, SchemaContainer, SchemaError, Shape, TypeDescriptor};

verus! {

/// A name of ASCII characters, at most 255 of them.
pub open spec fn short(s: Seq<char>) -> bool {
    is_ascii_chars(s) && s.len() <= 255
}

pub open spec fn short_fields<R>(fs: Seq<(String, R)>) -> bool {
    fs.len() <= 255 && forall|k: int| 0 <= k < fs.len() ==> short(#[trigger] fs[k].0@)
}

pub open spec fn short_payload<R>(p: Payload<R>) -> bool {
    match p {
        Payload::Unit => true,
        Payload::Tuple(rs) => rs.len() <= 255,
        Payload::Struct(fs) => short_fields(fs@),
    }
}

pub open spec fn short_shape<R>(s: Shape<R>) -> bool {
    match s {
        Shape::Struct(fs) => short_fields(fs@),
        Shape::Enum(vs) => vs.len() <= 255 && forall|k: int|
            0 <= k < vs.len() ==> short(#[trigger] vs@[k].0@) && short_payload(vs@[k].1),
        Shape::Tuple(rs) => rs.len() <= 255,
        _ => true,
    }
}

/// A catalog of at most 255 types whose names, and the names of whose
/// fields and variants, are short: every container built from it encodes.
pub open spec fn tidy(cat: Seq<TypeDescriptor>) -> bool {
    &&& cat.len() <= 255
    &&& forall|i: int| 0 <= i < cat.len() ==> short(#[trigger] cat[i].name@) && short_shape(cat[i].shape)
}

proof fn lemma_short_encodes(s: Seq<char>)
    requires
        short(s),
    ensures
        enc_str(s) is Some,
{
    is_ascii_chars_encode_utf8(s);
}

proof fn lemma_items_encode<T: Encode>(s: Seq<T>)
    requires
        forall|k: int| 0 <= k < s.len() ==> (#[trigger] s[k]).enc() is Some,
    ensures
        enc_items(s) is Some,
    decreases s.len(),
{
    if s.len() > 0 {
        lemma_items_encode(s.drop_last());
    }
}

proof fn lemma_fields_encode(cat: Seq<TypeDescriptor>, a: Seq<(String, usize)>, b: Seq<(String, String)>)
    requires
        tidy(cat),
        short_fields(a),
        fields_named(cat, a, b),
        forall|k: int| 0 <= k < a.len() ==> #[trigger] a[k].1 < cat.len(),
    ensures
        enc_items(b) is Some,
{
    assert forall|k: int| 0 <= k < b.len() implies (#[trigger] b[k]).enc() is Some by {
        lemma_short_encodes(b[k].0@);
        assert(short(cat[a[k].1 as int].name@));
        lemma_short_encodes(b[k].1@);
    }
    lemma_items_encode(b);
}

proof fn lemma_refs_encode(cat: Seq<TypeDescriptor>, a: Seq<usize>, b: Seq<String>)
    requires
        tidy(cat),
        refs_named(cat, a, b),
        forall|k: int| 0 <= k < a.len() ==> #[trigger] a[k] < cat.len(),
    ensures
        enc_items(b) is Some,
{
    assert forall|k: int| 0 <= k < b.len() implies (#[trigger] b[k]).enc() is Some by {
        assert(short(cat[a[k] as int].name@));
        lemma_short_encodes(b[k]@);
    }
    lemma_items_encode(b);
}

proof fn lemma_declaration_encodes(cat: Seq<TypeDescriptor>, i: int, d: Declaration)
    requires
        tidy(cat),
        refs_in_range(cat),
        0 <= i < cat.len(),
        describes(cat, cat[i].shape, d),
    ensures
        d.enc() is Some,
{
    let s = cat[i].shape;
    assert(short(cat[i].name@));
    assert(short_shape(s));
    assert forall|k: int| 0 <= k < refs(s).len() implies #[trigger] refs(s)[k] < cat.len() by {}
    match (s, d) {
        (Shape::Struct(a), Shape::Struct(b)) => {
            assert forall|k: int| 0 <= k < a@.len() implies #[trigger] a@[k].1 < cat.len() by {
                assert(refs(s)[k] == a@[k].1);
            }
            lemma_fields_encode(cat, a@, b@);
        },
        (Shape::Enum(a), Shape::Enum(b)) => {
            assert forall|k: int| 0 <= k < b@.len() implies (#[trigger] b@[k]).enc() is Some by {
                lemma_short_encodes(b@[k].0@);
                crate::graph::lemma_payload_in_range_pub(cat, s, a@, k);
                match (a@[k].1, b@[k].1) {
                    (Payload::Tuple(x), Payload::Tuple(y)) => {
                        assert forall|j: int| 0 <= j < x@.len() implies #[trigger] x@[j] < cat.len() by {
                            assert(crate::graph::payload_refs(a@[k].1)[j] == x@[j]);
                        }
                        lemma_refs_encode(cat, x@, y@);
                    },
                    (Payload::Struct(x), Payload::Struct(y)) => {
                        assert forall|j: int| 0 <= j < x@.len() implies #[trigger] x@[j].1 < cat.len() by {
                            assert(crate::graph::payload_refs(a@[k].1)[j] == x@[j].1);
                        }
                        lemma_fields_encode(cat, x@, y@);
                    },
                    _ => {},
                }
            }
            lemma_items_encode(b@);
        },
        (Shape::Tuple(a), Shape::Tuple(b)) => {
            assert forall|k: int| 0 <= k < a@.len() implies #[trigger] a@[k] < cat.len() by {
                assert(refs(s)[k] == a@[k]);
            }
            lemma_refs_encode(cat, a@, b@);
        },
        (Shape::Sequence(a), Shape::Sequence(b)) | (Shape::SetOf(a), Shape::SetOf(b)) | (
            Shape::Option(a),
            Shape::Option(b),
        ) => {
            assert(refs(s)[0] == a);
            lemma_short_encodes(b@);
        },
        (Shape::MapOf(a1, a2), Shape::MapOf(b1, b2)) => {
            assert(refs(s)[0] == a1 && refs(s)[1] == a2);
            lemma_short_encodes(b1@);
            lemma_short_encodes(b2@);
        },
        _ => {},
    }
}

/// A container built from a tidy catalog encodes.
proof fn lemma_built_encodes(cat: Seq<TypeDescriptor>, root: usize, c: SchemaContainer)
    requires
        tidy(cat),
        refs_in_range(cat),
        built(cat, root, c),
        c.entries.len() <= cat.len(),
    ensures
        enc_container(c) is Some,
{
    let o = crate::builder::walk(cat, seq![root], seq![])->Ok_0;
    lemma_short_encodes(c.root@);
    assert forall|k: int| 0 <= k < c.entries@.len() implies (#[trigger] c.entries@[k]).enc() is Some by {
        assert(entry_of(cat, o[k] as int, c.entries@[k]));
        lemma_short_encodes(c.entries@[k].0@);
        lemma_declaration_encodes(cat, o[k] as int, c.entries@[k].1);
    }
    lemma_items_encode(c.entries@);
}

/// The canonical bytes of the schema of the catalog's type at `root`: the
/// encoding of the container that [`build`] yields.
pub fn schema_bytes(cat: &Vec<TypeDescriptor>, root: usize) -> (r: Result<Vec<u8>, SchemaError>)
    ensures
        r matches Ok(b) ==> exists|c: SchemaContainer|
            built(cat@, root, c) && well_formed(c) && #[trigger] enc_container(c) == Some(b@),
        (r matches Err(SchemaError::IncompleteClosure)) <==> !(root < cat.len() && refs_in_range(cat@)),
        root < cat.len() && refs_in_range(cat@) ==> ((r matches Err(SchemaError::NameCollision(_))) <==> walk_fails(cat@, root)),
        r matches Err(SchemaError::NameCollision(n)) ==> crate::builder::walk(cat@, seq![root], seq![]) == Err::<Seq<usize>, Seq<char>>(n@),
        r matches Err(SchemaError::UnsupportedShape) ==> exists|c: SchemaContainer|
            built(cat@, root, c) && #[trigger] enc_container(c) is None,
        root < cat.len() && refs_in_range(cat@) && collision_free(cat@) && tidy(cat@) ==> r is Ok,
        r matches Ok(b) ==> (collision_free(cat@) ==> exists|c: SchemaContainer|
            built(cat@, root, c) && declares_reached(cat@, root, c) && #[trigger] enc_container(c) == Some(b@)),
{
    let c = build(cat, root)?;
    let r = encode(&c);
    proof {
        if root < cat.len() && refs_in_range(cat@) && tidy(cat@) {
            lemma_built_encodes(cat@, root, c);
        }
    }
    assert(r matches Ok(b) ==> enc_container(c) == Some(b@));
    assert(collision_free(cat@) ==> declares_reached(cat@, root, c));
    assert(r matches Err(_) ==> enc_container(c) is None);
    r
}

/// The walk from `root` ends in a collision.
pub open spec fn walk_fails(cat: Seq<TypeDescriptor>, root: usize) -> bool {
    crate::builder::walk(cat, seq![root], seq![]) is Err
}

/// A named field pointing at the catalog's type at `ty`.
fn field(name: &str, ty: usize) -> (r: (String, usize))
    ensures
        r.0@ == name@,
        r.1 == ty,
{
    (name.to_owned(), ty)
}

/// A variant with its payload.
fn variant(name: &str, p: Payload<usize>) -> (r: (String, Payload<usize>))
    ensures
        r.0@ == name@,
        r.1 == p,
{
    (name.to_owned(), p)
}

/// Appends a type to the catalog and returns its position.
fn register(cat: &mut Vec<TypeDescriptor>, name: &str, shape: Shape<usize>) -> (i: usize)
    requires
        refs_in_range(old(cat)@),
        shape_in_range(old(cat)@, shape),
        tidy(old(cat)@),
        distinct_names(old(cat)@),
        old(cat).len() < 255,
        short(name@),
        short_shape(shape),
        forall|k: int| 0 <= k < old(cat).len() ==> #[trigger] old(cat)@[k].name@ != name@,
    ensures
        i == old(cat).len(),
        final(cat)@ == old(cat)@.push(TypeDescriptor { name: final(cat)@[i as int].name, shape }),
        final(cat)@[i as int].name@ == name@,
        refs_in_range(final(cat)@),
        tidy(final(cat)@),
        distinct_names(final(cat)@),
{
    let i = cat.len();
    cat.push(TypeDescriptor { name: name.to_owned(), shape });
    assert forall|j: int| 0 <= j < cat.len() implies short(#[trigger] cat@[j].name@) && short_shape(cat@[j].shape) by {
        if j < i {
            assert(cat@[j] == old(cat)@[j]);
            assert(short(old(cat)@[j].name@));
        }
    }
    assert forall|a: int, b: int| 0 <= a < b < cat.len() implies #[trigger] cat@[a].name@ != #[trigger] cat@[b].name@ by {
        assert(cat@[a] == old(cat)@[a]);
        if b < i {
            assert(cat@[b] == old(cat)@[b]);
        } else {
            assert(old(cat)@[a].name@ != name@);
        }
    }
    assert forall|j: int, k: int|
        0 <= j < cat.len() && 0 <= k < refs(cat@[j].shape).len() implies #[trigger] refs(
            cat@[j].shape,
        )[k] < cat.len() by {
        if j < i {
            assert(cat@[j] == old(cat)@[j]);
        }
    }
    i
}

/// No two types of the catalog share a name.
pub open spec fn distinct_names(cat: Seq<TypeDescriptor>) -> bool {
    forall|a: int, b: int| 0 <= a < b < cat.len() ==> #[trigger] cat[a].name@ != #[trigger] cat[b].name@
}

proof fn lemma_same_shape_reflexive(cat: Seq<TypeDescriptor>, s: Shape<usize>)
    ensures
        same_shape(cat, s, s),
{
    match s {
        Shape::Enum(a) => {
            assert forall|k: int| 0 <= k < a.len() implies #[trigger] same_payload(cat, a@[k].1, a@[k].1) by {
                match a@[k].1 {
                    _ => {},
                }
            }
        },
        _ => {},
    }
}

proof fn lemma_distinct_collision_free(cat: Seq<TypeDescriptor>)
    requires
        distinct_names(cat),
    ensures
        collision_free(cat),
{
    assert forall|i: int, j: int|
        0 <= i < cat.len() && 0 <= j < cat.len() && #[trigger] cat[i].name@ == #[trigger] cat[j].name@ implies same_shape(
        cat,
        cat[i].shape,
        cat[j].shape,
    ) by {
        if i < j {
            assert(cat[i].name@ != cat[j].name@);
        } else if j < i {
            assert(cat[j].name@ != cat[i].name@);
        }
        lemma_same_shape_reflexive(cat, cat[i].shape);
    }
}

/// The type at position `i` of the player-character catalog: its name, and
/// its fields and variants in declared order, with references as positions.
#[verifier::opaque]
pub open spec fn player_entry(i: int, t: TypeDescriptor) -> bool {
    if i == 0 {
        t.name@ == "u8"@ && t.shape is Primitive
    }
    else if i == 1 {
        t.name@ == "u16"@ && t.shape is Primitive
    }
    else if i == 2 {
        t.name@ == "u32"@ && t.shape is Primitive
    }
    else if i == 3 {
        t.name@ == "u64"@ && t.shape is Primitive
    }
    else if i == 4 {
        t.name@ == "f32"@ && t.shape is Primitive
    }
    else if i == 5 {
        t.name@ == "f64"@ && t.shape is Primitive
    }
    else if i == 6 {
        t.name@ == "String"@ && t.shape is Primitive
    }
    else if i == 7 {
        t.name@ == "Option<u32>"@ && (t.shape matches Shape::Option(r) && r == 2)
    }
    else if i == 8 {
        t.name@ == "Location"@ && (t.shape matches Shape::Struct(fs) && fs@.len() == 3 && fs@[0].0@ == "lat"@ && fs@[0].1 == 5 && fs@[1].0@ == "lng"@ && fs@[1].1 == 5 && fs@[2].0@ == "altitude"@ && fs@[2].1 == 7)
    }
    else if i == 9 {
        t.name@ == "ItemRarity"@ && (t.shape matches Shape::Enum(vs) && vs@.len() == 5 && vs@[0].0@ == "Common"@ && vs@[0].1 is Unit && vs@[1].0@ == "Uncommon"@ && vs@[1].1 is Unit && vs@[2].0@ == "Rare"@ && vs@[2].1 is Unit && vs@[3].0@ == "Epic"@ && vs@[3].1 is Unit && vs@[4].0@ == "Legendary"@ && vs@[4].1 is Unit)
    }
    else if i == 10 {
        t.name@ == "ItemEffect"@ && (t.shape matches Shape::Enum(vs) && vs@.len() == 4 && vs@[0].0@ == "Damage"@ && (vs@[0].1 matches Payload::Tuple(rs) && rs@.len() == 1 && rs@[0] == 2) && vs@[1].0@ == "Heal"@ && (vs@[1].1 matches Payload::Struct(fs) && fs@.len() == 2 && fs@[0].0@ == "amount"@ && fs@[0].1 == 2 && fs@[1].0@ == "duration"@ && fs@[1].1 == 1) && vs@[2].0@ == "Status"@ && (vs@[2].1 matches Payload::Struct(fs) && fs@.len() == 3 && fs@[0].0@ == "effect_type"@ && fs@[0].1 == 6 && fs@[1].0@ == "power"@ && fs@[1].1 == 1 && fs@[2].0@ == "duration"@ && fs@[2].1 == 2) && vs@[3].0@ == "None"@ && vs@[3].1 is Unit)
    }
    else if i == 11 {
        t.name@ == "Vec<ItemEffect>"@ && (t.shape matches Shape::Sequence(r) && r == 10)
    }
    else if i == 12 {
        t.name@ == "Stats"@ && (t.shape matches Shape::Struct(fs) && fs@.len() == 5 && fs@[0].0@ == "strength"@ && fs@[0].1 == 1 && fs@[1].0@ == "dexterity"@ && fs@[1].1 == 1 && fs@[2].0@ == "intelligence"@ && fs@[2].1 == 1 && fs@[3].0@ == "health"@ && fs@[3].1 == 2 && fs@[4].0@ == "mana"@ && fs@[4].1 == 2)
    }
    else if i == 13 {
        t.name@ == "Option<Stats>"@ && (t.shape matches Shape::Option(r) && r == 12)
    }
    else if i == 14 {
        t.name@ == "HashMap<String, String>"@ && (t.shape matches Shape::MapOf(a, b) && a == 6 && b == 6)
    }
    else if i == 15 {
        t.name@ == "Item"@ && (t.shape matches Shape::Struct(fs) && fs@.len() == 8 && fs@[0].0@ == "id"@ && fs@[0].1 == 6 && fs@[1].0@ == "name"@ && fs@[1].1 == 6 && fs@[2].0@ == "description"@ && fs@[2].1 == 6 && fs@[3].0@ == "rarity"@ && fs@[3].1 == 9 && fs@[4].0@ == "level_requirement"@ && fs@[4].1 == 0 && fs@[5].0@ == "effects"@ && fs@[5].1 == 11 && fs@[6].0@ == "stats"@ && fs@[6].1 == 13 && fs@[7].0@ == "metadata"@ && fs@[7].1 == 14)
    }
    else if i == 16 {
        t.name@ == "Option<u64>"@ && (t.shape matches Shape::Option(r) && r == 3)
    }
    else if i == 17 {
        t.name@ == "Vec<String>"@ && (t.shape matches Shape::Sequence(r) && r == 6)
    }
    else if i == 18 {
        t.name@ == "Achievement"@ && (t.shape matches Shape::Struct(fs) && fs@.len() == 6 && fs@[0].0@ == "id"@ && fs@[0].1 == 6 && fs@[1].0@ == "name"@ && fs@[1].1 == 6 && fs@[2].0@ == "description"@ && fs@[2].1 == 6 && fs@[3].0@ == "reward_points"@ && fs@[3].1 == 2 && fs@[4].0@ == "completed_at"@ && fs@[4].1 == 16 && fs@[5].0@ == "prerequisites"@ && fs@[5].1 == 17)
    }
    else if i == 19 {
        t.name@ == "CharacterClass"@ && (t.shape matches Shape::Enum(vs) && vs@.len() == 3 && vs@[0].0@ == "Warrior"@ && (vs@[0].1 matches Payload::Tuple(rs) && rs@.len() == 1 && rs@[0] == 12) && vs@[1].0@ == "Mage"@ && (vs@[1].1 matches Payload::Struct(fs) && fs@.len() == 3 && fs@[0].0@ == "base_stats"@ && fs@[0].1 == 12 && fs@[1].0@ == "spells_known"@ && fs@[1].1 == 17 && fs@[2].0@ == "mana_regen"@ && fs@[2].1 == 4) && vs@[2].0@ == "Rogue"@ && (vs@[2].1 matches Payload::Struct(fs) && fs@.len() == 3 && fs@[0].0@ == "base_stats"@ && fs@[0].1 == 12 && fs@[1].0@ == "stealth_level"@ && fs@[1].1 == 0 && fs@[2].0@ == "critical_chance"@ && fs@[2].1 == 4))
    }
    else if i == 20 {
        t.name@ == "HashSet<String>"@ && (t.shape matches Shape::SetOf(r) && r == 6)
    }
    else if i == 21 {
        t.name@ == "GuildMembership"@ && (t.shape matches Shape::Struct(fs) && fs@.len() == 5 && fs@[0].0@ == "guild_id"@ && fs@[0].1 == 6 && fs@[1].0@ == "guild_name"@ && fs@[1].1 == 6 && fs@[2].0@ == "joined_at"@ && fs@[2].1 == 3 && fs@[3].0@ == "rank"@ && fs@[3].1 == 6 && fs@[4].0@ == "permissions"@ && fs@[4].1 == 20)
    }
    else if i == 22 {
        t.name@ == "Vec<Item>"@ && (t.shape matches Shape::Sequence(r) && r == 15)
    }
    else if i == 23 {
        t.name@ == "Trade"@ && (t.shape matches Shape::Struct(fs) && fs@.len() == 8 && fs@[0].0@ == "id"@ && fs@[0].1 == 6 && fs@[1].0@ == "from_player"@ && fs@[1].1 == 6 && fs@[2].0@ == "to_player"@ && fs@[2].1 == 6 && fs@[3].0@ == "items"@ && fs@[3].1 == 22 && fs@[4].0@ == "gold_amount"@ && fs@[4].1 == 3 && fs@[5].0@ == "status"@ && fs@[5].1 == 6 && fs@[6].0@ == "created_at"@ && fs@[6].1 == 3 && fs@[7].0@ == "completed_at"@ && fs@[7].1 == 16)
    }
    else if i == 24 {
        t.name@ == "Vec<u32>"@ && (t.shape matches Shape::Sequence(r) && r == 2)
    }
    else if i == 25 {
        t.name@ == "HashMap<String, u32>"@ && (t.shape matches Shape::MapOf(a, b) && a == 6 && b == 2)
    }
    else if i == 26 {
        t.name@ == "QuestProgress"@ && (t.shape matches Shape::Struct(fs) && fs@.len() == 5 && fs@[0].0@ == "quest_id"@ && fs@[0].1 == 6 && fs@[1].0@ == "started_at"@ && fs@[1].1 == 3 && fs@[2].0@ == "steps_completed"@ && fs@[2].1 == 24 && fs@[3].0@ == "current_step"@ && fs@[3].1 == 2 && fs@[4].0@ == "collected_items"@ && fs@[4].1 == 25)
    }
    else if i == 27 {
        t.name@ == "HashMap<String, Item>"@ && (t.shape matches Shape::MapOf(a, b) && a == 6 && b == 15)
    }
    else if i == 28 {
        t.name@ == "Vec<Achievement>"@ && (t.shape matches Shape::Sequence(r) && r == 18)
    }
    else if i == 29 {
        t.name@ == "Vec<QuestProgress>"@ && (t.shape matches Shape::Sequence(r) && r == 26)
    }
    else if i == 30 {
        t.name@ == "Option<GuildMembership>"@ && (t.shape matches Shape::Option(r) && r == 21)
    }
    else if i == 31 {
        t.name@ == "Vec<Trade>"@ && (t.shape matches Shape::Sequence(r) && r == 23)
    }
    else if i == 32 {
        t.name@ == "(u64, Location, String)"@ && (t.shape matches Shape::Tuple(rs) && rs@.len() == 3 && rs@[0] == 3 && rs@[1] == 8 && rs@[2] == 6)
    }
    else if i == 33 {
        t.name@ == "Vec<(u64, Location, String)>"@ && (t.shape matches Shape::Sequence(r) && r == 32)
    }
    else if i == 34 {
        t.name@ == "(u16, f32)"@ && (t.shape matches Shape::Tuple(rs) && rs@.len() == 2 && rs@[0] == 1 && rs@[1] == 4)
    }
    else if i == 35 {
        t.name@ == "HashMap<String, (u16, f32)>"@ && (t.shape matches Shape::MapOf(a, b) && a == 6 && b == 34)
    }
    else if i == 36 {
        t.name@ == "PlayerCharacter"@ && (t.shape matches Shape::Struct(fs) && fs@.len() == 20 && fs@[0].0@ == "id"@ && fs@[0].1 == 6 && fs@[1].0@ == "name"@ && fs@[1].1 == 6 && fs@[2].0@ == "created_at"@ && fs@[2].1 == 3 && fs@[3].0@ == "last_login"@ && fs@[3].1 == 3 && fs@[4].0@ == "character_class"@ && fs@[4].1 == 19 && fs@[5].0@ == "level"@ && fs@[5].1 == 2 && fs@[6].0@ == "experience"@ && fs@[6].1 == 3 && fs@[7].0@ == "location"@ && fs@[7].1 == 8 && fs@[8].0@ == "inventory"@ && fs@[8].1 == 22 && fs@[9].0@ == "equipped_items"@ && fs@[9].1 == 27 && fs@[10].0@ == "achievements"@ && fs@[10].1 == 28 && fs@[11].0@ == "completed_quests"@ && fs@[11].1 == 20 && fs@[12].0@ == "active_quests"@ && fs@[12].1 == 29 && fs@[13].0@ == "guild"@ && fs@[13].1 == 30 && fs@[14].0@ == "current_trades"@ && fs@[14].1 == 31 && fs@[15].0@ == "friends"@ && fs@[15].1 == 20 && fs@[16].0@ == "blocked_players"@ && fs@[16].1 == 20 && fs@[17].0@ == "settings"@ && fs@[17].1 == 14 && fs@[18].0@ == "last_deaths"@ && fs@[18].1 == 33 && fs@[19].0@ == "skill_levels"@ && fs@[19].1 == 35)
    } else {
        false
    }
}

/// The player-character catalog, type by type.
pub open spec fn player_catalog(cat: Seq<TypeDescriptor>) -> bool {
    &&& cat.len() == 37
    &&& forall|i: int| 0 <= i < cat.len() ==> player_entry(i, #[trigger] cat[i])
}

/// The catalog of the player-character data model and the position of its
/// root type, `PlayerCharacter`. Types are named as borsh names them.
#[verifier::spinoff_prover]
#[verifier::rlimit(100)]
pub fn player_character_catalog() -> (r: (Vec<TypeDescriptor>, usize))
    ensures
        player_catalog(r.0@),
        r.1 == 36,
        refs_in_range(r.0@),
        tidy(r.0@),
        collision_free(r.0@),
{
    reveal_with_fuel(variant_refs, 7);
    proof {
        reveal(player_entry);
        reveal_strlit("(u16, f32)");
        reveal_strlit("(u64, Location, String)");
        reveal_strlit("Achievement");
        reveal_strlit("CharacterClass");
        reveal_strlit("Common");
        reveal_strlit("Damage");
        reveal_strlit("Epic");
        reveal_strlit("GuildMembership");
        reveal_strlit("HashMap<String, (u16, f32)>");
        reveal_strlit("HashMap<String, Item>");
        reveal_strlit("HashMap<String, String>");
        reveal_strlit("HashMap<String, u32>");
        reveal_strlit("HashSet<String>");
        reveal_strlit("Heal");
        reveal_strlit("Item");
        reveal_strlit("ItemEffect");
        reveal_strlit("ItemRarity");
        reveal_strlit("Legendary");
        reveal_strlit("Location");
        reveal_strlit("Mage");
        reveal_strlit("None");
        reveal_strlit("Option<GuildMembership>");
        reveal_strlit("Option<Stats>");
        reveal_strlit("Option<u32>");
        reveal_strlit("Option<u64>");
        reveal_strlit("PlayerCharacter");
        reveal_strlit("QuestProgress");
        reveal_strlit("Rare");
        reveal_strlit("Rogue");
        reveal_strlit("Stats");
        reveal_strlit("Status");
        reveal_strlit("String");
        reveal_strlit("Trade");
        reveal_strlit("Uncommon");
        reveal_strlit("Vec<(u64, Location, String)>");
        reveal_strlit("Vec<Achievement>");
        reveal_strlit("Vec<Item>");
        reveal_strlit("Vec<ItemEffect>");
        reveal_strlit("Vec<QuestProgress>");
        reveal_strlit("Vec<String>");
        reveal_strlit("Vec<Trade>");
        reveal_strlit("Vec<u32>");
        reveal_strlit("Warrior");
        reveal_strlit("achievements");
        reveal_strlit("active_quests");
        reveal_strlit("altitude");
        reveal_strlit("amount");
        reveal_strlit("base_stats");
        reveal_strlit("blocked_players");
        reveal_strlit("character_class");
        reveal_strlit("collected_items");
        reveal_strlit("completed_at");
        reveal_strlit("completed_quests");
        reveal_strlit("created_at");
        reveal_strlit("critical_chance");
        reveal_strlit("current_step");
        reveal_strlit("current_trades");
        reveal_strlit("description");
        reveal_strlit("dexterity");
        reveal_strlit("duration");
        reveal_strlit("effect_type");
        reveal_strlit("effects");
        reveal_strlit("equipped_items");
        reveal_strlit("experience");
        reveal_strlit("f32");
        reveal_strlit("f64");
        reveal_strlit("friends");
        reveal_strlit("from_player");
        reveal_strlit("gold_amount");
        reveal_strlit("guild");
        reveal_strlit("guild_id");
        reveal_strlit("guild_name");
        reveal_strlit("health");
        reveal_strlit("id");
        reveal_strlit("intelligence");
        reveal_strlit("inventory");
        reveal_strlit("items");
        reveal_strlit("joined_at");
        reveal_strlit("last_deaths");
        reveal_strlit("last_login");
        reveal_strlit("lat");
        reveal_strlit("level");
        reveal_strlit("level_requirement");
        reveal_strlit("lng");
        reveal_strlit("location");
        reveal_strlit("mana");
        reveal_strlit("mana_regen");
        reveal_strlit("metadata");
        reveal_strlit("name");
        reveal_strlit("permissions");
        reveal_strlit("power");
        reveal_strlit("prerequisites");
        reveal_strlit("quest_id");
        reveal_strlit("rank");
        reveal_strlit("rarity");
        reveal_strlit("reward_points");
        reveal_strlit("settings");
        reveal_strlit("skill_levels");
        reveal_strlit("spells_known");
        reveal_strlit("started_at");
        reveal_strlit("stats");
        reveal_strlit("status");
        reveal_strlit("stealth_level");
        reveal_strlit("steps_completed");
        reveal_strlit("strength");
        reveal_strlit("to_player");
        reveal_strlit("u16");
        reveal_strlit("u32");
        reveal_strlit("u64");
        reveal_strlit("u8");
        assert("u8"@[0] == 'u');
        assert("u8"@[1] == '8');
        assert("u16"@[0] == 'u');
        assert("u16"@[1] == '1');
        assert("u16"@[2] == '6');
        assert("u32"@[0] == 'u');
        assert("u32"@[1] == '3');
        assert("u32"@[2] == '2');
        assert("u64"@[0] == 'u');
        assert("u64"@[1] == '6');
        assert("u64"@[2] == '4');
        assert("f32"@[0] == 'f');
        assert("f32"@[1] == '3');
        assert("f32"@[2] == '2');
        assert("f64"@[0] == 'f');
        assert("f64"@[1] == '6');
        assert("f64"@[2] == '4');
        assert("String"@[0] == 'S');
        assert("String"@[1] == 't');
        assert("String"@[2] == 'r');
        assert("String"@[3] == 'i');
        assert("String"@[4] == 'n');
        assert("String"@[5] == 'g');
        assert("Option<u32>"@[0] == 'O');
        assert("Option<u32>"@[1] == 'p');
        assert("Option<u32>"@[2] == 't');
        assert("Option<u32>"@[3] == 'i');
        assert("Option<u32>"@[4] == 'o');
        assert("Option<u32>"@[5] == 'n');
        assert("Option<u32>"@[6] == '<');
        assert("Option<u32>"@[7] == 'u');
        assert("Option<u32>"@[8] == '3');
        assert("Option<u32>"@[9] == '2');
        assert("Option<u32>"@[10] == '>');
        assert("Location"@[0] == 'L');
        assert("Location"@[1] == 'o');
        assert("Location"@[2] == 'c');
        assert("Location"@[3] == 'a');
        assert("Location"@[4] == 't');
        assert("Location"@[5] == 'i');
        assert("Location"@[6] == 'o');
        assert("Location"@[7] == 'n');
        assert("ItemRarity"@[0] == 'I');
        assert("ItemRarity"@[1] == 't');
        assert("ItemRarity"@[2] == 'e');
        assert("ItemRarity"@[3] == 'm');
        assert("ItemRarity"@[4] == 'R');
        assert("ItemRarity"@[5] == 'a');
        assert("ItemRarity"@[6] == 'r');
        assert("ItemRarity"@[7] == 'i');
        assert("ItemRarity"@[8] == 't');
        assert("ItemRarity"@[9] == 'y');
        assert("ItemEffect"@[0] == 'I');
        assert("ItemEffect"@[1] == 't');
        assert("ItemEffect"@[2] == 'e');
        assert("ItemEffect"@[3] == 'm');
        assert("ItemEffect"@[4] == 'E');
        assert("ItemEffect"@[5] == 'f');
        assert("ItemEffect"@[6] == 'f');
        assert("ItemEffect"@[7] == 'e');
        assert("ItemEffect"@[8] == 'c');
        assert("ItemEffect"@[9] == 't');
        assert("Vec<ItemEffect>"@[0] == 'V');
        assert("Vec<ItemEffect>"@[1] == 'e');
        assert("Vec<ItemEffect>"@[2] == 'c');
        assert("Vec<ItemEffect>"@[3] == '<');
        assert("Vec<ItemEffect>"@[4] == 'I');
        assert("Vec<ItemEffect>"@[5] == 't');
        assert("Vec<ItemEffect>"@[6] == 'e');
        assert("Vec<ItemEffect>"@[7] == 'm');
        assert("Vec<ItemEffect>"@[8] == 'E');
        assert("Vec<ItemEffect>"@[9] == 'f');
        assert("Vec<ItemEffect>"@[10] == 'f');
        assert("Vec<ItemEffect>"@[11] == 'e');
        assert("Vec<ItemEffect>"@[12] == 'c');
        assert("Vec<ItemEffect>"@[13] == 't');
        assert("Vec<ItemEffect>"@[14] == '>');
        assert("Stats"@[0] == 'S');
        assert("Stats"@[1] == 't');
        assert("Stats"@[2] == 'a');
        assert("Stats"@[3] == 't');
        assert("Stats"@[4] == 's');
        assert("Option<Stats>"@[0] == 'O');
        assert("Option<Stats>"@[1] == 'p');
        assert("Option<Stats>"@[2] == 't');
        assert("Option<Stats>"@[3] == 'i');
        assert("Option<Stats>"@[4] == 'o');
        assert("Option<Stats>"@[5] == 'n');
        assert("Option<Stats>"@[6] == '<');
        assert("Option<Stats>"@[7] == 'S');
        assert("Option<Stats>"@[8] == 't');
        assert("Option<Stats>"@[9] == 'a');
        assert("Option<Stats>"@[10] == 't');
        assert("Option<Stats>"@[11] == 's');
        assert("Option<Stats>"@[12] == '>');
        assert("HashMap<String, String>"@[0] == 'H');
        assert("HashMap<String, String>"@[1] == 'a');
        assert("HashMap<String, String>"@[2] == 's');
        assert("HashMap<String, String>"@[3] == 'h');
        assert("HashMap<String, String>"@[4] == 'M');
        assert("HashMap<String, String>"@[5] == 'a');
        assert("HashMap<String, String>"@[6] == 'p');
        assert("HashMap<String, String>"@[7] == '<');
        assert("HashMap<String, String>"@[8] == 'S');
        assert("HashMap<String, String>"@[9] == 't');
        assert("HashMap<String, String>"@[10] == 'r');
        assert("HashMap<String, String>"@[11] == 'i');
        assert("HashMap<String, String>"@[12] == 'n');
        assert("HashMap<String, String>"@[13] == 'g');
        assert("HashMap<String, String>"@[14] == ',');
        assert("HashMap<String, String>"@[15] == ' ');
        assert("HashMap<String, String>"@[16] == 'S');
        assert("HashMap<String, String>"@[17] == 't');
        assert("HashMap<String, String>"@[18] == 'r');
        assert("HashMap<String, String>"@[19] == 'i');
        assert("HashMap<String, String>"@[20] == 'n');
        assert("HashMap<String, String>"@[21] == 'g');
        assert("HashMap<String, String>"@[22] == '>');
        assert("Item"@[0] == 'I');
        assert("Item"@[1] == 't');
        assert("Item"@[2] == 'e');
        assert("Item"@[3] == 'm');
        assert("Option<u64>"@[0] == 'O');
        assert("Option<u64>"@[1] == 'p');
        assert("Option<u64>"@[2] == 't');
        assert("Option<u64>"@[3] == 'i');
        assert("Option<u64>"@[4] == 'o');
        assert("Option<u64>"@[5] == 'n');
        assert("Option<u64>"@[6] == '<');
        assert("Option<u64>"@[7] == 'u');
        assert("Option<u64>"@[8] == '6');
        assert("Option<u64>"@[9] == '4');
        assert("Option<u64>"@[10] == '>');
        assert("Vec<String>"@[0] == 'V');
        assert("Vec<String>"@[1] == 'e');
        assert("Vec<String>"@[2] == 'c');
        assert("Vec<String>"@[3] == '<');
        assert("Vec<String>"@[4] == 'S');
        assert("Vec<String>"@[5] == 't');
        assert("Vec<String>"@[6] == 'r');
        assert("Vec<String>"@[7] == 'i');
        assert("Vec<String>"@[8] == 'n');
        assert("Vec<String>"@[9] == 'g');
        assert("Vec<String>"@[10] == '>');
        assert("Achievement"@[0] == 'A');
        assert("Achievement"@[1] == 'c');
        assert("Achievement"@[2] == 'h');
        assert("Achievement"@[3] == 'i');
        assert("Achievement"@[4] == 'e');
        assert("Achievement"@[5] == 'v');
        assert("Achievement"@[6] == 'e');
        assert("Achievement"@[7] == 'm');
        assert("Achievement"@[8] == 'e');
        assert("Achievement"@[9] == 'n');
        assert("Achievement"@[10] == 't');
        assert("CharacterClass"@[0] == 'C');
        assert("CharacterClass"@[1] == 'h');
        assert("CharacterClass"@[2] == 'a');
        assert("CharacterClass"@[3] == 'r');
        assert("CharacterClass"@[4] == 'a');
        assert("CharacterClass"@[5] == 'c');
        assert("CharacterClass"@[6] == 't');
        assert("CharacterClass"@[7] == 'e');
        assert("CharacterClass"@[8] == 'r');
        assert("CharacterClass"@[9] == 'C');
        assert("CharacterClass"@[10] == 'l');
        assert("CharacterClass"@[11] == 'a');
        assert("CharacterClass"@[12] == 's');
        assert("CharacterClass"@[13] == 's');
        assert("HashSet<String>"@[0] == 'H');
        assert("HashSet<String>"@[1] == 'a');
        assert("HashSet<String>"@[2] == 's');
        assert("HashSet<String>"@[3] == 'h');
        assert("HashSet<String>"@[4] == 'S');
        assert("HashSet<String>"@[5] == 'e');
        assert("HashSet<String>"@[6] == 't');
        assert("HashSet<String>"@[7] == '<');
        assert("HashSet<String>"@[8] == 'S');
        assert("HashSet<String>"@[9] == 't');
        assert("HashSet<String>"@[10] == 'r');
        assert("HashSet<String>"@[11] == 'i');
        assert("HashSet<String>"@[12] == 'n');
        assert("HashSet<String>"@[13] == 'g');
        assert("HashSet<String>"@[14] == '>');
        assert("GuildMembership"@[0] == 'G');
        assert("GuildMembership"@[1] == 'u');
        assert("GuildMembership"@[2] == 'i');
        assert("GuildMembership"@[3] == 'l');
        assert("GuildMembership"@[4] == 'd');
        assert("GuildMembership"@[5] == 'M');
        assert("GuildMembership"@[6] == 'e');
        assert("GuildMembership"@[7] == 'm');
        assert("GuildMembership"@[8] == 'b');
        assert("GuildMembership"@[9] == 'e');
        assert("GuildMembership"@[10] == 'r');
        assert("GuildMembership"@[11] == 's');
        assert("GuildMembership"@[12] == 'h');
        assert("GuildMembership"@[13] == 'i');
        assert("GuildMembership"@[14] == 'p');
        assert("Vec<Item>"@[0] == 'V');
        assert("Vec<Item>"@[1] == 'e');
        assert("Vec<Item>"@[2] == 'c');
        assert("Vec<Item>"@[3] == '<');
        assert("Vec<Item>"@[4] == 'I');
        assert("Vec<Item>"@[5] == 't');
        assert("Vec<Item>"@[6] == 'e');
        assert("Vec<Item>"@[7] == 'm');
        assert("Vec<Item>"@[8] == '>');
        assert("Trade"@[0] == 'T');
        assert("Trade"@[1] == 'r');
        assert("Trade"@[2] == 'a');
        assert("Trade"@[3] == 'd');
        assert("Trade"@[4] == 'e');
        assert("Vec<u32>"@[0] == 'V');
        assert("Vec<u32>"@[1] == 'e');
        assert("Vec<u32>"@[2] == 'c');
        assert("Vec<u32>"@[3] == '<');
        assert("Vec<u32>"@[4] == 'u');
        assert("Vec<u32>"@[5] == '3');
        assert("Vec<u32>"@[6] == '2');
        assert("Vec<u32>"@[7] == '>');
        assert("HashMap<String, u32>"@[0] == 'H');
        assert("HashMap<String, u32>"@[1] == 'a');
        assert("HashMap<String, u32>"@[2] == 's');
        assert("HashMap<String, u32>"@[3] == 'h');
        assert("HashMap<String, u32>"@[4] == 'M');
        assert("HashMap<String, u32>"@[5] == 'a');
        assert("HashMap<String, u32>"@[6] == 'p');
        assert("HashMap<String, u32>"@[7] == '<');
        assert("HashMap<String, u32>"@[8] == 'S');
        assert("HashMap<String, u32>"@[9] == 't');
        assert("HashMap<String, u32>"@[10] == 'r');
        assert("HashMap<String, u32>"@[11] == 'i');
        assert("HashMap<String, u32>"@[12] == 'n');
        assert("HashMap<String, u32>"@[13] == 'g');
        assert("HashMap<String, u32>"@[14] == ',');
        assert("HashMap<String, u32>"@[15] == ' ');
        assert("HashMap<String, u32>"@[16] == 'u');
        assert("HashMap<String, u32>"@[17] == '3');
        assert("HashMap<String, u32>"@[18] == '2');
        assert("HashMap<String, u32>"@[19] == '>');
        assert("QuestProgress"@[0] == 'Q');
        assert("QuestProgress"@[1] == 'u');
        assert("QuestProgress"@[2] == 'e');
        assert("QuestProgress"@[3] == 's');
        assert("QuestProgress"@[4] == 't');
        assert("QuestProgress"@[5] == 'P');
        assert("QuestProgress"@[6] == 'r');
        assert("QuestProgress"@[7] == 'o');
        assert("QuestProgress"@[8] == 'g');
        assert("QuestProgress"@[9] == 'r');
        assert("QuestProgress"@[10] == 'e');
        assert("QuestProgress"@[11] == 's');
        assert("QuestProgress"@[12] == 's');
        assert("HashMap<String, Item>"@[0] == 'H');
        assert("HashMap<String, Item>"@[1] == 'a');
        assert("HashMap<String, Item>"@[2] == 's');
        assert("HashMap<String, Item>"@[3] == 'h');
        assert("HashMap<String, Item>"@[4] == 'M');
        assert("HashMap<String, Item>"@[5] == 'a');
        assert("HashMap<String, Item>"@[6] == 'p');
        assert("HashMap<String, Item>"@[7] == '<');
        assert("HashMap<String, Item>"@[8] == 'S');
        assert("HashMap<String, Item>"@[9] == 't');
        assert("HashMap<String, Item>"@[10] == 'r');
        assert("HashMap<String, Item>"@[11] == 'i');
        assert("HashMap<String, Item>"@[12] == 'n');
        assert("HashMap<String, Item>"@[13] == 'g');
        assert("HashMap<String, Item>"@[14] == ',');
        assert("HashMap<String, Item>"@[15] == ' ');
        assert("HashMap<String, Item>"@[16] == 'I');
        assert("HashMap<String, Item>"@[17] == 't');
        assert("HashMap<String, Item>"@[18] == 'e');
        assert("HashMap<String, Item>"@[19] == 'm');
        assert("HashMap<String, Item>"@[20] == '>');
        assert("Vec<Achievement>"@[0] == 'V');
        assert("Vec<Achievement>"@[1] == 'e');
        assert("Vec<Achievement>"@[2] == 'c');
        assert("Vec<Achievement>"@[3] == '<');
        assert("Vec<Achievement>"@[4] == 'A');
        assert("Vec<Achievement>"@[5] == 'c');
        assert("Vec<Achievement>"@[6] == 'h');
        assert("Vec<Achievement>"@[7] == 'i');
        assert("Vec<Achievement>"@[8] == 'e');
        assert("Vec<Achievement>"@[9] == 'v');
        assert("Vec<Achievement>"@[10] == 'e');
        assert("Vec<Achievement>"@[11] == 'm');
        assert("Vec<Achievement>"@[12] == 'e');
        assert("Vec<Achievement>"@[13] == 'n');
        assert("Vec<Achievement>"@[14] == 't');
        assert("Vec<Achievement>"@[15] == '>');
        assert("Vec<QuestProgress>"@[0] == 'V');
        assert("Vec<QuestProgress>"@[1] == 'e');
        assert("Vec<QuestProgress>"@[2] == 'c');
        assert("Vec<QuestProgress>"@[3] == '<');
        assert("Vec<QuestProgress>"@[4] == 'Q');
        assert("Vec<QuestProgress>"@[5] == 'u');
        assert("Vec<QuestProgress>"@[6] == 'e');
        assert("Vec<QuestProgress>"@[7] == 's');
        assert("Vec<QuestProgress>"@[8] == 't');
        assert("Vec<QuestProgress>"@[9] == 'P');
        assert("Vec<QuestProgress>"@[10] == 'r');
        assert("Vec<QuestProgress>"@[11] == 'o');
        assert("Vec<QuestProgress>"@[12] == 'g');
        assert("Vec<QuestProgress>"@[13] == 'r');
        assert("Vec<QuestProgress>"@[14] == 'e');
        assert("Vec<QuestProgress>"@[15] == 's');
        assert("Vec<QuestProgress>"@[16] == 's');
        assert("Vec<QuestProgress>"@[17] == '>');
        assert("Option<GuildMembership>"@[0] == 'O');
        assert("Option<GuildMembership>"@[1] == 'p');
        assert("Option<GuildMembership>"@[2] == 't');
        assert("Option<GuildMembership>"@[3] == 'i');
        assert("Option<GuildMembership>"@[4] == 'o');
        assert("Option<GuildMembership>"@[5] == 'n');
        assert("Option<GuildMembership>"@[6] == '<');
        assert("Option<GuildMembership>"@[7] == 'G');
        assert("Option<GuildMembership>"@[8] == 'u');
        assert("Option<GuildMembership>"@[9] == 'i');
        assert("Option<GuildMembership>"@[10] == 'l');
        assert("Option<GuildMembership>"@[11] == 'd');
        assert("Option<GuildMembership>"@[12] == 'M');
        assert("Option<GuildMembership>"@[13] == 'e');
        assert("Option<GuildMembership>"@[14] == 'm');
        assert("Option<GuildMembership>"@[15] == 'b');
        assert("Option<GuildMembership>"@[16] == 'e');
        assert("Option<GuildMembership>"@[17] == 'r');
        assert("Option<GuildMembership>"@[18] == 's');
        assert("Option<GuildMembership>"@[19] == 'h');
        assert("Option<GuildMembership>"@[20] == 'i');
        assert("Option<GuildMembership>"@[21] == 'p');
        assert("Option<GuildMembership>"@[22] == '>');
        assert("Vec<Trade>"@[0] == 'V');
        assert("Vec<Trade>"@[1] == 'e');
        assert("Vec<Trade>"@[2] == 'c');
        assert("Vec<Trade>"@[3] == '<');
        assert("Vec<Trade>"@[4] == 'T');
        assert("Vec<Trade>"@[5] == 'r');
        assert("Vec<Trade>"@[6] == 'a');
        assert("Vec<Trade>"@[7] == 'd');
        assert("Vec<Trade>"@[8] == 'e');
        assert("Vec<Trade>"@[9] == '>');
        assert("(u64, Location, String)"@[0] == '(');
        assert("(u64, Location, String)"@[1] == 'u');
        assert("(u64, Location, String)"@[2] == '6');
        assert("(u64, Location, String)"@[3] == '4');
        assert("(u64, Location, String)"@[4] == ',');
        assert("(u64, Location, String)"@[5] == ' ');
        assert("(u64, Location, String)"@[6] == 'L');
        assert("(u64, Location, String)"@[7] == 'o');
        assert("(u64, Location, String)"@[8] == 'c');
        assert("(u64, Location, String)"@[9] == 'a');
        assert("(u64, Location, String)"@[10] == 't');
        assert("(u64, Location, String)"@[11] == 'i');
        assert("(u64, Location, String)"@[12] == 'o');
        assert("(u64, Location, String)"@[13] == 'n');
        assert("(u64, Location, String)"@[14] == ',');
        assert("(u64, Location, String)"@[15] == ' ');
        assert("(u64, Location, String)"@[16] == 'S');
        assert("(u64, Location, String)"@[17] == 't');
        assert("(u64, Location, String)"@[18] == 'r');
        assert("(u64, Location, String)"@[19] == 'i');
        assert("(u64, Location, String)"@[20] == 'n');
        assert("(u64, Location, String)"@[21] == 'g');
        assert("(u64, Location, String)"@[22] == ')');
        assert("Vec<(u64, Location, String)>"@[0] == 'V');
        assert("Vec<(u64, Location, String)>"@[1] == 'e');
        assert("Vec<(u64, Location, String)>"@[2] == 'c');
        assert("Vec<(u64, Location, String)>"@[3] == '<');
        assert("Vec<(u64, Location, String)>"@[4] == '(');
        assert("Vec<(u64, Location, String)>"@[5] == 'u');
        assert("Vec<(u64, Location, String)>"@[6] == '6');
        assert("Vec<(u64, Location, String)>"@[7] == '4');
        assert("Vec<(u64, Location, String)>"@[8] == ',');
        assert("Vec<(u64, Location, String)>"@[9] == ' ');
        assert("Vec<(u64, Location, String)>"@[10] == 'L');
        assert("Vec<(u64, Location, String)>"@[11] == 'o');
        assert("Vec<(u64, Location, String)>"@[12] == 'c');
        assert("Vec<(u64, Location, String)>"@[13] == 'a');
        assert("Vec<(u64, Location, String)>"@[14] == 't');
        assert("Vec<(u64, Location, String)>"@[15] == 'i');
        assert("Vec<(u64, Location, String)>"@[16] == 'o');
        assert("Vec<(u64, Location, String)>"@[17] == 'n');
        assert("Vec<(u64, Location, String)>"@[18] == ',');
        assert("Vec<(u64, Location, String)>"@[19] == ' ');
        assert("Vec<(u64, Location, String)>"@[20] == 'S');
        assert("Vec<(u64, Location, String)>"@[21] == 't');
        assert("Vec<(u64, Location, String)>"@[22] == 'r');
        assert("Vec<(u64, Location, String)>"@[23] == 'i');
        assert("Vec<(u64, Location, String)>"@[24] == 'n');
        assert("Vec<(u64, Location, String)>"@[25] == 'g');
        assert("Vec<(u64, Location, String)>"@[26] == ')');
        assert("Vec<(u64, Location, String)>"@[27] == '>');
        assert("(u16, f32)"@[0] == '(');
        assert("(u16, f32)"@[1] == 'u');
        assert("(u16, f32)"@[2] == '1');
        assert("(u16, f32)"@[3] == '6');
        assert("(u16, f32)"@[4] == ',');
        assert("(u16, f32)"@[5] == ' ');
        assert("(u16, f32)"@[6] == 'f');
        assert("(u16, f32)"@[7] == '3');
        assert("(u16, f32)"@[8] == '2');
        assert("(u16, f32)"@[9] == ')');
        assert("HashMap<String, (u16, f32)>"@[0] == 'H');
        assert("HashMap<String, (u16, f32)>"@[1] == 'a');
        assert("HashMap<String, (u16, f32)>"@[2] == 's');
        assert("HashMap<String, (u16, f32)>"@[3] == 'h');
        assert("HashMap<String, (u16, f32)>"@[4] == 'M');
        assert("HashMap<String, (u16, f32)>"@[5] == 'a');
        assert("HashMap<String, (u16, f32)>"@[6] == 'p');
        assert("HashMap<String, (u16, f32)>"@[7] == '<');
        assert("HashMap<String, (u16, f32)>"@[8] == 'S');
        assert("HashMap<String, (u16, f32)>"@[9] == 't');
        assert("HashMap<String, (u16, f32)>"@[10] == 'r');
        assert("HashMap<String, (u16, f32)>"@[11] == 'i');
        assert("HashMap<String, (u16, f32)>"@[12] == 'n');
        assert("HashMap<String, (u16, f32)>"@[13] == 'g');
        assert("HashMap<String, (u16, f32)>"@[14] == ',');
        assert("HashMap<String, (u16, f32)>"@[15] == ' ');
        assert("HashMap<String, (u16, f32)>"@[16] == '(');
        assert("HashMap<String, (u16, f32)>"@[17] == 'u');
        assert("HashMap<String, (u16, f32)>"@[18] == '1');
        assert("HashMap<String, (u16, f32)>"@[19] == '6');
        assert("HashMap<String, (u16, f32)>"@[20] == ',');
        assert("HashMap<String, (u16, f32)>"@[21] == ' ');
        assert("HashMap<String, (u16, f32)>"@[22] == 'f');
        assert("HashMap<String, (u16, f32)>"@[23] == '3');
        assert("HashMap<String, (u16, f32)>"@[24] == '2');
        assert("HashMap<String, (u16, f32)>"@[25] == ')');
        assert("HashMap<String, (u16, f32)>"@[26] == '>');
        assert("PlayerCharacter"@[0] == 'P');
        assert("PlayerCharacter"@[1] == 'l');
        assert("PlayerCharacter"@[2] == 'a');
        assert("PlayerCharacter"@[3] == 'y');
        assert("PlayerCharacter"@[4] == 'e');
        assert("PlayerCharacter"@[5] == 'r');
        assert("PlayerCharacter"@[6] == 'C');
        assert("PlayerCharacter"@[7] == 'h');
        assert("PlayerCharacter"@[8] == 'a');
        assert("PlayerCharacter"@[9] == 'r');
        assert("PlayerCharacter"@[10] == 'a');
        assert("PlayerCharacter"@[11] == 'c');
        assert("PlayerCharacter"@[12] == 't');
        assert("PlayerCharacter"@[13] == 'e');
        assert("PlayerCharacter"@[14] == 'r');
    }
    let mut cat: Vec<TypeDescriptor> = Vec::new();
    let ghost prev = cat@;
    let u8_t = register(&mut cat, "u8", Shape::Primitive);
    proof {
        assert(player_entry(0, cat@[0]));
        assert forall|i: int| 0 <= i < cat.len() implies player_entry(i, #[trigger] cat@[i]) by {
            if i < 0 {
                assert(cat@[i] == prev[i]);
            }
        }
    }
    let ghost prev = cat@;
    let u16_t = register(&mut cat, "u16", Shape::Primitive);
    proof {
        assert(player_entry(1, cat@[1]));
        assert forall|i: int| 0 <= i < cat.len() implies player_entry(i, #[trigger] cat@[i]) by {
            if i < 1 {
                assert(cat@[i] == prev[i]);
            }
        }
    }
    let ghost prev = cat@;
    let u32_t = register(&mut cat, "u32", Shape::Primitive);
    proof {
        assert(player_entry(2, cat@[2]));
        assert forall|i: int| 0 <= i < cat.len() implies player_entry(i, #[trigger] cat@[i]) by {
            if i < 2 {
                assert(cat@[i] == prev[i]);
            }
        }
    }
    let ghost prev = cat@;
    let u64_t = register(&mut cat, "u64", Shape::Primitive);
    proof {
        assert(player_entry(3, cat@[3]));
        assert forall|i: int| 0 <= i < cat.len() implies player_entry(i, #[trigger] cat@[i]) by {
            if i < 3 {
                assert(cat@[i] == prev[i]);
            }
        }
    }
    let ghost prev = cat@;
    let f32_t = register(&mut cat, "f32", Shape::Primitive);
    proof {
        assert(player_entry(4, cat@[4]));
        assert forall|i: int| 0 <= i < cat.len() implies player_entry(i, #[trigger] cat@[i]) by {
            if i < 4 {
                assert(cat@[i] == prev[i]);
            }
        }
    }
    let ghost prev = cat@;
    let f64_t = register(&mut cat, "f64", Shape::Primitive);
    proof {
        assert(player_entry(5, cat@[5]));
        assert forall|i: int| 0 <= i < cat.len() implies player_entry(i, #[trigger] cat@[i]) by {
            if i < 5 {
                assert(cat@[i] == prev[i]);
            }
        }
    }
    let ghost prev = cat@;
    let string_t = register(&mut cat, "String", Shape::Primitive);
    proof {
        assert(player_entry(6, cat@[6]));
        assert forall|i: int| 0 <= i < cat.len() implies player_entry(i, #[trigger] cat@[i]) by {
            if i < 6 {
                assert(cat@[i] == prev[i]);
            }
        }
    }
    let ghost prev = cat@;
    let opt_u32 = register(&mut cat, "Option<u32>", Shape::Option(u32_t));
    proof {
        assert(player_entry(7, cat@[7]));
        assert forall|i: int| 0 <= i < cat.len() implies player_entry(i, #[trigger] cat@[i]) by {
            if i < 7 {
                assert(cat@[i] == prev[i]);
            }
        }
    }
    let ghost prev = cat@;
    let location = register(&mut cat, "Location", Shape::Struct(vec![field("lat", f64_t), field("lng", f64_t), field("altitude", opt_u32)]));
    proof {
        assert(player_entry(8, cat@[8]));
        assert forall|i: int| 0 <= i < cat.len() implies player_entry(i, #[trigger] cat@[i]) by {
            if i < 8 {
                assert(cat@[i] == prev[i]);
            }
        }
    }
    let ghost prev = cat@;
    let rarity = register(&mut cat, "ItemRarity", Shape::Enum(vec![variant("Common", Payload::Unit), variant("Uncommon", Payload::Unit), variant("Rare", Payload::Unit), variant("Epic", Payload::Unit), variant("Legendary", Payload::Unit)]));
    proof {
        assert(player_entry(9, cat@[9]));
        assert forall|i: int| 0 <= i < cat.len() implies player_entry(i, #[trigger] cat@[i]) by {
            if i < 9 {
                assert(cat@[i] == prev[i]);
            }
        }
    }
    let ghost prev = cat@;
    let effect = register(&mut cat, "ItemEffect", Shape::Enum(vec![variant("Damage", Payload::Tuple(vec![u32_t])), variant("Heal", Payload::Struct(vec![field("amount", u32_t), field("duration", u16_t)])), variant("Status", Payload::Struct(vec![field("effect_type", string_t), field("power", u16_t), field("duration", u32_t)])), variant("None", Payload::Unit)]));
    proof {
        assert(player_entry(10, cat@[10]));
        assert forall|i: int| 0 <= i < cat.len() implies player_entry(i, #[trigger] cat@[i]) by {
            if i < 10 {
                assert(cat@[i] == prev[i]);
            }
        }
    }
    let ghost prev = cat@;
    let vec_effect = register(&mut cat, "Vec<ItemEffect>", Shape::Sequence(effect));
    proof {
        assert(player_entry(11, cat@[11]));
        assert forall|i: int| 0 <= i < cat.len() implies player_entry(i, #[trigger] cat@[i]) by {
            if i < 11 {
                assert(cat@[i] == prev[i]);
            }
        }
    }
    let ghost prev = cat@;
    let stats = register(&mut cat, "Stats", Shape::Struct(vec![field("strength", u16_t), field("dexterity", u16_t), field("intelligence", u16_t), field("health", u32_t), field("mana", u32_t)]));
    proof {
        assert(player_entry(12, cat@[12]));
        assert forall|i: int| 0 <= i < cat.len() implies player_entry(i, #[trigger] cat@[i]) by {
            if i < 12 {
                assert(cat@[i] == prev[i]);
            }
        }
    }
    let ghost prev = cat@;
    let opt_stats = register(&mut cat, "Option<Stats>", Shape::Option(stats));
    proof {
        assert(player_entry(13, cat@[13]));
        assert forall|i: int| 0 <= i < cat.len() implies player_entry(i, #[trigger] cat@[i]) by {
            if i < 13 {
                assert(cat@[i] == prev[i]);
            }
        }
    }
    let ghost prev = cat@;
    let map_str_str = register(&mut cat, "HashMap<String, String>", Shape::MapOf(string_t, string_t));
    proof {
        assert(player_entry(14, cat@[14]));
        assert forall|i: int| 0 <= i < cat.len() implies player_entry(i, #[trigger] cat@[i]) by {
            if i < 14 {
                assert(cat@[i] == prev[i]);
            }
        }
    }
    let ghost prev = cat@;
    let item = register(&mut cat, "Item", Shape::Struct(vec![field("id", string_t), field("name", string_t), field("description", string_t), field("rarity", rarity), field("level_requirement", u8_t), field("effects", vec_effect), field("stats", opt_stats), field("metadata", map_str_str)]));
    proof {
        assert(player_entry(15, cat@[15]));
        assert forall|i: int| 0 <= i < cat.len() implies player_entry(i, #[trigger] cat@[i]) by {
            if i < 15 {
                assert(cat@[i] == prev[i]);
            }
        }
    }
    let ghost prev = cat@;
    let opt_u64 = register(&mut cat, "Option<u64>", Shape::Option(u64_t));
    proof {
        assert(player_entry(16, cat@[16]));
        assert forall|i: int| 0 <= i < cat.len() implies player_entry(i, #[trigger] cat@[i]) by {
            if i < 16 {
                assert(cat@[i] == prev[i]);
            }
        }
    }
    let ghost prev = cat@;
    let vec_string = register(&mut cat, "Vec<String>", Shape::Sequence(string_t));
    proof {
        assert(player_entry(17, cat@[17]));
        assert forall|i: int| 0 <= i < cat.len() implies player_entry(i, #[trigger] cat@[i]) by {
            if i < 17 {
                assert(cat@[i] == prev[i]);
            }
        }
    }
    let ghost prev = cat@;
    let achievement = register(&mut cat, "Achievement", Shape::Struct(vec![field("id", string_t), field("name", string_t), field("description", string_t), field("reward_points", u32_t), field("completed_at", opt_u64), field("prerequisites", vec_string)]));
    proof {
        assert(player_entry(18, cat@[18]));
        assert forall|i: int| 0 <= i < cat.len() implies player_entry(i, #[trigger] cat@[i]) by {
            if i < 18 {
                assert(cat@[i] == prev[i]);
            }
        }
    }
    let ghost prev = cat@;
    let class = register(&mut cat, "CharacterClass", Shape::Enum(vec![variant("Warrior", Payload::Tuple(vec![stats])), variant("Mage", Payload::Struct(vec![field("base_stats", stats), field("spells_known", vec_string), field("mana_regen", f32_t)])), variant("Rogue", Payload::Struct(vec![field("base_stats", stats), field("stealth_level", u8_t), field("critical_chance", f32_t)]))]));
    proof {
        assert(player_entry(19, cat@[19]));
        assert forall|i: int| 0 <= i < cat.len() implies player_entry(i, #[trigger] cat@[i]) by {
            if i < 19 {
                assert(cat@[i] == prev[i]);
            }
        }
    }
    let ghost prev = cat@;
    let set_string = register(&mut cat, "HashSet<String>", Shape::SetOf(string_t));
    proof {
        assert(player_entry(20, cat@[20]));
        assert forall|i: int| 0 <= i < cat.len() implies player_entry(i, #[trigger] cat@[i]) by {
            if i < 20 {
                assert(cat@[i] == prev[i]);
            }
        }
    }
    let ghost prev = cat@;
    let guild = register(&mut cat, "GuildMembership", Shape::Struct(vec![field("guild_id", string_t), field("guild_name", string_t), field("joined_at", u64_t), field("rank", string_t), field("permissions", set_string)]));
    proof {
        assert(player_entry(21, cat@[21]));
        assert forall|i: int| 0 <= i < cat.len() implies player_entry(i, #[trigger] cat@[i]) by {
            if i < 21 {
                assert(cat@[i] == prev[i]);
            }
        }
    }
    let ghost prev = cat@;
    let vec_item = register(&mut cat, "Vec<Item>", Shape::Sequence(item));
    proof {
        assert(player_entry(22, cat@[22]));
        assert forall|i: int| 0 <= i < cat.len() implies player_entry(i, #[trigger] cat@[i]) by {
            if i < 22 {
                assert(cat@[i] == prev[i]);
            }
        }
    }
    let ghost prev = cat@;
    let trade = register(&mut cat, "Trade", Shape::Struct(vec![field("id", string_t), field("from_player", string_t), field("to_player", string_t), field("items", vec_item), field("gold_amount", u64_t), field("status", string_t), field("created_at", u64_t), field("completed_at", opt_u64)]));
    proof {
        assert(player_entry(23, cat@[23]));
        assert forall|i: int| 0 <= i < cat.len() implies player_entry(i, #[trigger] cat@[i]) by {
            if i < 23 {
                assert(cat@[i] == prev[i]);
            }
        }
    }
    let ghost prev = cat@;
    let vec_u32 = register(&mut cat, "Vec<u32>", Shape::Sequence(u32_t));
    proof {
        assert(player_entry(24, cat@[24]));
        assert forall|i: int| 0 <= i < cat.len() implies player_entry(i, #[trigger] cat@[i]) by {
            if i < 24 {
                assert(cat@[i] == prev[i]);
            }
        }
    }
    let ghost prev = cat@;
    let map_str_u32 = register(&mut cat, "HashMap<String, u32>", Shape::MapOf(string_t, u32_t));
    proof {
        assert(player_entry(25, cat@[25]));
        assert forall|i: int| 0 <= i < cat.len() implies player_entry(i, #[trigger] cat@[i]) by {
            if i < 25 {
                assert(cat@[i] == prev[i]);
            }
        }
    }
    let ghost prev = cat@;
    let quest = register(&mut cat, "QuestProgress", Shape::Struct(vec![field("quest_id", string_t), field("started_at", u64_t), field("steps_completed", vec_u32), field("current_step", u32_t), field("collected_items", map_str_u32)]));
    proof {
        assert(player_entry(26, cat@[26]));
        assert forall|i: int| 0 <= i < cat.len() implies player_entry(i, #[trigger] cat@[i]) by {
            if i < 26 {
                assert(cat@[i] == prev[i]);
            }
        }
    }
    let ghost prev = cat@;
    let map_str_item = register(&mut cat, "HashMap<String, Item>", Shape::MapOf(string_t, item));
    proof {
        assert(player_entry(27, cat@[27]));
        assert forall|i: int| 0 <= i < cat.len() implies player_entry(i, #[trigger] cat@[i]) by {
            if i < 27 {
                assert(cat@[i] == prev[i]);
            }
        }
    }
    let ghost prev = cat@;
    let vec_achievement = register(&mut cat, "Vec<Achievement>", Shape::Sequence(achievement));
    proof {
        assert(player_entry(28, cat@[28]));
        assert forall|i: int| 0 <= i < cat.len() implies player_entry(i, #[trigger] cat@[i]) by {
            if i < 28 {
                assert(cat@[i] == prev[i]);
            }
        }
    }
    let ghost prev = cat@;
    let vec_quest = register(&mut cat, "Vec<QuestProgress>", Shape::Sequence(quest));
    proof {
        assert(player_entry(29, cat@[29]));
        assert forall|i: int| 0 <= i < cat.len() implies player_entry(i, #[trigger] cat@[i]) by {
            if i < 29 {
                assert(cat@[i] == prev[i]);
            }
        }
    }
    let ghost prev = cat@;
    let opt_guild = register(&mut cat, "Option<GuildMembership>", Shape::Option(guild));
    proof {
        assert(player_entry(30, cat@[30]));
        assert forall|i: int| 0 <= i < cat.len() implies player_entry(i, #[trigger] cat@[i]) by {
            if i < 30 {
                assert(cat@[i] == prev[i]);
            }
        }
    }
    let ghost prev = cat@;
    let vec_trade = register(&mut cat, "Vec<Trade>", Shape::Sequence(trade));
    proof {
        assert(player_entry(31, cat@[31]));
        assert forall|i: int| 0 <= i < cat.len() implies player_entry(i, #[trigger] cat@[i]) by {
            if i < 31 {
                assert(cat@[i] == prev[i]);
            }
        }
    }
    let ghost prev = cat@;
    let death = register(&mut cat, "(u64, Location, String)", Shape::Tuple(vec![u64_t, location, string_t]));
    proof {
        assert(player_entry(32, cat@[32]));
        assert forall|i: int| 0 <= i < cat.len() implies player_entry(i, #[trigger] cat@[i]) by {
            if i < 32 {
                assert(cat@[i] == prev[i]);
            }
        }
    }
    let ghost prev = cat@;
    let vec_death = register(&mut cat, "Vec<(u64, Location, String)>", Shape::Sequence(death));
    proof {
        assert(player_entry(33, cat@[33]));
        assert forall|i: int| 0 <= i < cat.len() implies player_entry(i, #[trigger] cat@[i]) by {
            if i < 33 {
                assert(cat@[i] == prev[i]);
            }
        }
    }
    let ghost prev = cat@;
    let skill = register(&mut cat, "(u16, f32)", Shape::Tuple(vec![u16_t, f32_t]));
    proof {
        assert(player_entry(34, cat@[34]));
        assert forall|i: int| 0 <= i < cat.len() implies player_entry(i, #[trigger] cat@[i]) by {
            if i < 34 {
                assert(cat@[i] == prev[i]);
            }
        }
    }
    let ghost prev = cat@;
    let map_skill = register(&mut cat, "HashMap<String, (u16, f32)>", Shape::MapOf(string_t, skill));
    proof {
        assert(player_entry(35, cat@[35]));
        assert forall|i: int| 0 <= i < cat.len() implies player_entry(i, #[trigger] cat@[i]) by {
            if i < 35 {
                assert(cat@[i] == prev[i]);
            }
        }
    }
    let ghost prev = cat@;
    let player = register(&mut cat, "PlayerCharacter", Shape::Struct(vec![field("id", string_t), field("name", string_t), field("created_at", u64_t), field("last_login", u64_t), field("character_class", class), field("level", u32_t), field("experience", u64_t), field("location", location), field("inventory", vec_item), field("equipped_items", map_str_item), field("achievements", vec_achievement), field("completed_quests", set_string), field("active_quests", vec_quest), field("guild", opt_guild), field("current_trades", vec_trade), field("friends", set_string), field("blocked_players", set_string), field("settings", map_str_str), field("last_deaths", vec_death), field("skill_levels", map_skill)]));
    proof {
        assert(player_entry(36, cat@[36]));
        assert forall|i: int| 0 <= i < cat.len() implies player_entry(i, #[trigger] cat@[i]) by {
            if i < 36 {
                assert(cat@[i] == prev[i]);
            }
        }
    }
    proof {
        lemma_distinct_collision_free(cat@);
    }
    (cat, player)
}

/// The schema container of `PlayerCharacter`: every type reachable from it,
/// declared once, in discovery order.
pub fn player_character_schema() -> (r: Result<SchemaContainer, SchemaError>)
    ensures
        r is Ok,
        r matches Ok(c) ==> exists|cat: Seq<TypeDescriptor>|
            #![trigger player_catalog(cat)]
            player_catalog(cat) && built(cat, 36, c) && declares_reached(cat, 36, c) && well_formed(c)
                && tidy(cat) && refs_in_range(cat) && c.entries.len() <= cat.len(),
{
    let (cat, root) = player_character_catalog();
    let r = build(&cat, root);
    assert(r matches Ok(c) ==> player_catalog(cat@) && built(cat@, 36, c) && declares_reached(cat@, 36, c));
    r
}

/// The canonical bytes of the schema of `PlayerCharacter`.
pub fn generate_schema() -> (r: Result<Vec<u8>, SchemaError>)
    ensures
        r is Ok,
        r matches Ok(b) ==> exists|cat: Seq<TypeDescriptor>, c: SchemaContainer|
            #![trigger player_catalog(cat), enc_container(c)]
            player_catalog(cat) && built(cat, 36, c) && declares_reached(cat, 36, c) && well_formed(c)
                && enc_container(c) == Some(b@),
{
    let c = match player_character_schema() {
        Ok(c) => c,
        Err(e) => return Err(e),
    };
    let ghost cat = choose|cat: Seq<TypeDescriptor>|
        #![trigger player_catalog(cat)]
        player_catalog(cat) && built(cat, 36, c) && declares_reached(cat, 36, c) && well_formed(c)
            && tidy(cat) && refs_in_range(cat) && c.entries.len() <= cat.len();
    proof {
        lemma_built_encodes(cat, 36, c);
    }
    let r = encode(&c);
    assert(r matches Ok(b) ==> enc_container(c) == Some(b@));
    r
}

} // verus!
