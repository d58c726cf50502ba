use schema_gen::{
    build, check_refs_in_range, declaration_of, decode, encode, generate_schema, shape_refs,
    schema_bytes, shapes_agree, player_character_catalog, player_character_schema,
    Declaration, Payload, SchemaContainer, SchemaError, Shape, TypeDescriptor,
};

fn ty(name: &str, shape: Shape<usize>) -> TypeDescriptor {
    TypeDescriptor { name: name.to_string(), shape }
}

fn names(c: &SchemaContainer) -> Vec<String> {
    c.entries.iter().map(|e| e.0.clone()).collect()
}

fn mentioned(d: &Declaration) -> Vec<String> {
    match d {
        Shape::Primitive => vec![],
        Shape::Struct(fs) => fs.iter().map(|f| f.1.clone()).collect(),
        Shape::Enum(vs) => {
            let mut out = vec![];
            for v in vs {
                match &v.1 {
                    Payload::Unit => {}
                    Payload::Tuple(rs) => out.extend(rs.iter().cloned()),
                    Payload::Struct(fs) => out.extend(fs.iter().map(|f| f.1.clone())),
                }
            }
            out
        }
        Shape::Sequence(r) | Shape::SetOf(r) | Shape::Option(r) => vec![r.clone()],
        Shape::MapOf(k, v) => vec![k.clone(), v.clone()],
        Shape::Tuple(rs) => rs.clone(),
    }
}

#[test]
fn test_generate_schema() {
    let data = generate_schema().unwrap();
    assert!(!data.is_empty());
    assert_eq!(&data[0..4], &[15, 0, 0, 0]);
    assert_eq!(&data[4..19], b"PlayerCharacter");
}

#[test]
fn generation_is_deterministic() {
    assert_eq!(generate_schema().unwrap(), generate_schema().unwrap());
}

#[test]
fn player_schema_declares_each_named_type_once() {
    let c = player_character_schema().unwrap();
    assert_eq!(c.root, "PlayerCharacter");
    let named: Vec<String> = c
        .entries
        .iter()
        .filter(|e| matches!(e.1, Shape::Struct(_) | Shape::Enum(_)))
        .map(|e| e.0.clone())
        .collect();
    assert_eq!(named.len(), 11);
    for n in [
        "Location",
        "ItemRarity",
        "Stats",
        "ItemEffect",
        "Item",
        "Achievement",
        "CharacterClass",
        "GuildMembership",
        "Trade",
        "QuestProgress",
        "PlayerCharacter",
    ] {
        assert_eq!(named.iter().filter(|m| m.as_str() == n).count(), 1, "{}", n);
    }
}

#[test]
fn player_schema_is_closed_and_unique() {
    let c = player_character_schema().unwrap();
    let ns = names(&c);
    for (i, a) in ns.iter().enumerate() {
        for b in &ns[i + 1..] {
            assert_ne!(a, b);
        }
    }
    for e in &c.entries {
        for r in mentioned(&e.1) {
            assert!(ns.contains(&r), "{}", r);
        }
    }
}

#[test]
fn player_schema_follows_discovery_order() {
    let c = player_character_schema().unwrap();
    let expected = [
        "PlayerCharacter",
        "String",
        "u64",
        "CharacterClass",
        "Stats",
        "u16",
        "u32",
        "Vec<String>",
        "f32",
        "u8",
        "Location",
        "f64",
        "Option<u32>",
        "Vec<Item>",
        "Item",
        "ItemRarity",
        "Vec<ItemEffect>",
        "ItemEffect",
        "Option<Stats>",
        "HashMap<String, String>",
        "HashMap<String, Item>",
        "Vec<Achievement>",
        "Achievement",
        "Option<u64>",
        "HashSet<String>",
        "Vec<QuestProgress>",
        "QuestProgress",
        "Vec<u32>",
        "HashMap<String, u32>",
        "Option<GuildMembership>",
        "GuildMembership",
        "Vec<Trade>",
        "Trade",
        "Vec<(u64, Location, String)>",
        "(u64, Location, String)",
        "HashMap<String, (u16, f32)>",
        "(u16, f32)",
    ];
    assert_eq!(names(&c), expected.iter().map(|s| s.to_string()).collect::<Vec<_>>());
    let (cat, root) = player_character_catalog();
    assert_eq!(cat[root].name, "PlayerCharacter");
}

#[test]
fn stats_declaration_keeps_field_order() {
    let c = player_character_schema().unwrap();
    let stats = c.entries.iter().find(|e| e.0 == "Stats").unwrap();
    match &stats.1 {
        Shape::Struct(fs) => {
            let got: Vec<(&str, &str)> = fs.iter().map(|f| (f.0.as_str(), f.1.as_str())).collect();
            assert_eq!(
                got,
                vec![
                    ("strength", "u16"),
                    ("dexterity", "u16"),
                    ("intelligence", "u16"),
                    ("health", "u32"),
                    ("mana", "u32"),
                ]
            );
        }
        _ => panic!("Stats is not a struct"),
    }
}

fn pair_catalog(first: &str, second: &str) -> Vec<TypeDescriptor> {
    vec![
        ty(
            "Pair",
            Shape::Struct(vec![(first.to_string(), 1), (second.to_string(), 2)]),
        ),
        ty("u8", Shape::Primitive),
        ty("String", Shape::Primitive),
    ]
}

#[test]
fn reordering_fields_keeps_the_declared_types() {
    let a = build(&pair_catalog("x", "y"), 0).unwrap();
    let mut swapped = pair_catalog("y", "x");
    if let Shape::Struct(fs) = &mut swapped[0].shape {
        fs.swap(0, 1);
    }
    let b = build(&swapped, 0).unwrap();
    let mut na = names(&a);
    let mut nb = names(&b);
    assert_eq!(na, vec!["Pair", "u8", "String"]);
    assert_eq!(nb, vec!["Pair", "String", "u8"]);
    na.sort();
    nb.sort();
    assert_eq!(na, nb);
}

#[test]
fn collision_is_reported() {
    let cat = vec![
        ty("Root", Shape::Struct(vec![("a".to_string(), 1), ("b".to_string(), 2)])),
        ty("Dup", Shape::Sequence(3)),
        ty("Dup", Shape::Option(3)),
        ty("u8", Shape::Primitive),
    ];
    assert_eq!(
        build(&cat, 0).err(),
        Some(SchemaError::NameCollision("Dup".to_string()))
    );
}

#[test]
fn equal_shapes_under_one_name_are_declared_once() {
    let cat = vec![
        ty("Root", Shape::Tuple(vec![1, 2])),
        ty("Vec<u8>", Shape::Sequence(3)),
        ty("Vec<u8>", Shape::Sequence(3)),
        ty("u8", Shape::Primitive),
    ];
    let c = build(&cat, 0).unwrap();
    assert_eq!(names(&c), vec!["Root", "Vec<u8>", "u8"]);
}

#[test]
fn self_reference_terminates() {
    let cat = vec![
        ty("Node", Shape::Struct(vec![("next".to_string(), 1), ("value".to_string(), 2)])),
        ty("Option<Node>", Shape::Option(0)),
        ty("u32", Shape::Primitive),
    ];
    let c = build(&cat, 0).unwrap();
    assert_eq!(names(&c), vec!["Node", "Option<Node>", "u32"]);
}

#[test]
fn dangling_reference_is_incomplete_closure() {
    let cat = vec![ty("Root", Shape::Sequence(5))];
    assert_eq!(build(&cat, 0).err(), Some(SchemaError::IncompleteClosure));
    let ok = vec![ty("u8", Shape::Primitive)];
    assert_eq!(build(&ok, 1).err(), Some(SchemaError::IncompleteClosure));
}

#[test]
fn enum_payloads_are_named() {
    let cat = vec![
        ty(
            "E",
            Shape::Enum(vec![
                ("A".to_string(), Payload::Unit),
                ("B".to_string(), Payload::Tuple(vec![1])),
                ("C".to_string(), Payload::Struct(vec![("f".to_string(), 2)])),
            ]),
        ),
        ty("u8", Shape::Primitive),
        ty("u16", Shape::Primitive),
    ];
    let c = build(&cat, 0).unwrap();
    assert_eq!(names(&c), vec!["E", "u8", "u16"]);
    match &c.entries[0].1 {
        Shape::Enum(vs) => {
            assert_eq!(vs.len(), 3);
            assert!(matches!(&vs[1].1, Payload::Tuple(rs) if rs == &vec!["u8".to_string()]));
            assert!(matches!(&vs[2].1, Payload::Struct(fs) if fs[0].0 == "f" && fs[0].1 == "u16"));
        }
        _ => panic!("not an enum"),
    }
}

#[test]
fn encoding_has_exact_bytes() {
    let c = SchemaContainer {
        root: "A".to_string(),
        entries: vec![
            ("A".to_string(), Shape::Struct(vec![("x".to_string(), "u8".to_string())])),
            ("u8".to_string(), Shape::Primitive),
        ],
    };
    let bytes = encode(&c).unwrap();
    let expected: Vec<u8> = vec![
        1, 0, 0, 0, b'A', // root name
        2, 0, 0, 0, // two declarations
        1, 0, 0, 0, b'A', 1, // "A": a struct
        1, 0, 0, 0, // one field
        1, 0, 0, 0, b'x', 2, 0, 0, 0, b'u', b'8', // x: u8
        2, 0, 0, 0, b'u', b'8', 0, // "u8": a primitive
    ];
    assert_eq!(bytes, expected);
}

#[test]
fn encoding_tags_every_shape() {
    let s = |x: &str| x.to_string();
    let c = SchemaContainer {
        root: s("R"),
        entries: vec![
            (s("a"), Shape::Sequence(s("b"))),
            (s("a"), Shape::SetOf(s("b"))),
            (s("a"), Shape::MapOf(s("b"), s("c"))),
            (s("a"), Shape::Option(s("b"))),
            (s("a"), Shape::Tuple(vec![s("b")])),
            (s("a"), Shape::Enum(vec![(s("v"), Payload::Unit)])),
        ],
    };
    let bytes = encode(&c).unwrap();
    let name = [1u8, 0, 0, 0, b'a'];
    let b = [1u8, 0, 0, 0, b'b'];
    let mut expected: Vec<u8> = vec![1, 0, 0, 0, b'R', 6, 0, 0, 0];
    expected.extend(name);
    expected.push(3);
    expected.extend(b);
    expected.extend(name);
    expected.push(4);
    expected.extend(b);
    expected.extend(name);
    expected.push(5);
    expected.extend(b);
    expected.extend([1, 0, 0, 0, b'c']);
    expected.extend(name);
    expected.push(6);
    expected.extend(b);
    expected.extend(name);
    expected.extend([7, 1, 0, 0, 0]);
    expected.extend(b);
    expected.extend(name);
    expected.extend([2, 1, 0, 0, 0, 1, 0, 0, 0, b'v', 0]);
    assert_eq!(bytes, expected);
}

#[test]
fn multibyte_names_are_length_prefixed_in_bytes() {
    let c = SchemaContainer { root: "\u{e9}".to_string(), entries: vec![] };
    assert_eq!(encode(&c).unwrap(), vec![2, 0, 0, 0, 0xC3, 0xA9, 0, 0, 0, 0]);
}

#[test]
fn decoding_then_encoding_gives_the_bytes_back() {
    let bytes = generate_schema().unwrap();
    let c = decode(&bytes).unwrap();
    assert_eq!(c.root, "PlayerCharacter");
    assert_eq!(c.entries.len(), 37);
    assert_eq!(encode(&c).unwrap(), bytes);
}

#[test]
fn decoding_rejects_damaged_bytes() {
    let bytes = generate_schema().unwrap();
    let mut longer = bytes.clone();
    longer.push(0);
    assert!(decode(&longer).is_none());
    assert!(decode(&bytes[..bytes.len() - 1]).is_none());
    assert!(decode(&[]).is_none());
    // one declaration named "a" with an unknown tag
    let unknown: Vec<u8> = vec![1, 0, 0, 0, b'R', 1, 0, 0, 0, 1, 0, 0, 0, b'a', 9];
    assert!(decode(&unknown).is_none());
    // a name that is not UTF-8
    let invalid: Vec<u8> = vec![1, 0, 0, 0, 0xFF, 0, 0, 0, 0];
    assert!(decode(&invalid).is_none());
}

#[test]
fn shape_helpers_follow_written_order() {
    let cat = vec![
        ty("u8", Shape::Primitive),
        ty("u16", Shape::Primitive),
        ty("u16", Shape::Primitive),
    ];
    let e: Shape<usize> = Shape::Enum(vec![
        ("A".to_string(), Payload::Struct(vec![("f".to_string(), 1), ("g".to_string(), 0)])),
        ("B".to_string(), Payload::Tuple(vec![0])),
    ]);
    assert_eq!(shape_refs(&e), vec![1, 0, 0]);
    let same: Shape<usize> = Shape::Enum(vec![
        ("A".to_string(), Payload::Struct(vec![("f".to_string(), 2), ("g".to_string(), 0)])),
        ("B".to_string(), Payload::Tuple(vec![0])),
    ]);
    assert!(shapes_agree(&cat, &e, &same));
    let renamed: Shape<usize> = Shape::Enum(vec![
        ("A".to_string(), Payload::Struct(vec![("f".to_string(), 1), ("h".to_string(), 0)])),
        ("B".to_string(), Payload::Tuple(vec![0])),
    ]);
    assert!(!shapes_agree(&cat, &e, &renamed));
    match declaration_of(&cat, &Shape::MapOf(0, 1)) {
        Shape::MapOf(k, v) => assert_eq!((k.as_str(), v.as_str()), ("u8", "u16")),
        _ => panic!("not a map"),
    }
    assert!(check_refs_in_range(&cat));
    assert!(!check_refs_in_range(&vec![ty("Vec<?>", Shape::Sequence(3))]));
}

#[test]
fn schema_bytes_matches_generate_schema() {
    let (cat, root) = player_character_catalog();
    assert_eq!(schema_bytes(&cat, root).unwrap(), generate_schema().unwrap());
    let dangling = vec![ty("Root", Shape::Option(4))];
    assert_eq!(schema_bytes(&dangling, 0).err(), Some(SchemaError::IncompleteClosure));
}
