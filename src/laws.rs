use vstd::prelude::*;

use crate::builder::{built, declares_reached, entry_of, is_path, reachable, recorded, walk};
use crate::encoder::{enc_container, enc_items, Encode};
use crate::graph::{describes, payload_named, refs};
use crate::model::{Declaration, Payload, SchemaContainer, Shape, TypeDescriptor};

verus! {

proof fn lemma_items_agree<T: Encode>(s: Seq<T>, t: Seq<T>)
    requires
        s.len() == t.len(),
        forall|k: int| 0 <= k < s.len() ==> (#[trigger] s[k]).enc() == t[k].enc(),
    ensures
        enc_items(s) == enc_items(t),
    decreases s.len(),
{
    if s.len() > 0 {
        lemma_items_agree(s.drop_last(), t.drop_last());
    }
}

proof fn lemma_payload_enc(cat: Seq<TypeDescriptor>, p: Payload<usize>, q1: Payload<String>, q2: Payload<String>)
    requires
        payload_named(cat, p, q1),
        payload_named(cat, p, q2),
    ensures
        q1.enc() == q2.enc(),
{
    match (q1, q2) {
        (Payload::Tuple(a), Payload::Tuple(b)) => {
            assert forall|k: int| 0 <= k < a@.len() implies (#[trigger] a@[k]).enc() == b@[k].enc() by {}
            lemma_items_agree(a@, b@);
        },
        (Payload::Struct(a), Payload::Struct(b)) => {
            assert forall|k: int| 0 <= k < a@.len() implies (#[trigger] a@[k]).enc() == b@[k].enc() by {}
            lemma_items_agree(a@, b@);
        },
        _ => {},
    }
}

proof fn lemma_declaration_enc(cat: Seq<TypeDescriptor>, s: Shape<usize>, d1: Declaration, d2: Declaration)
    requires
        describes(cat, s, d1),
        describes(cat, s, d2),
    ensures
        d1.enc() == d2.enc(),
{
    match (s, d1, d2) {
        (Shape::Struct(_), Shape::Struct(a), Shape::Struct(b)) => {
            assert forall|k: int| 0 <= k < a@.len() implies (#[trigger] a@[k]).enc() == b@[k].enc() by {}
            lemma_items_agree(a@, b@);
        },
        (Shape::Enum(v), Shape::Enum(a), Shape::Enum(b)) => {
            assert forall|k: int| 0 <= k < a@.len() implies (#[trigger] a@[k]).enc() == b@[k].enc() by {
                lemma_payload_enc(cat, v@[k].1, a@[k].1, b@[k].1);
            }
            lemma_items_agree(a@, b@);
        },
        (Shape::Tuple(_), Shape::Tuple(a), Shape::Tuple(b)) => {
            assert forall|k: int| 0 <= k < a@.len() implies (#[trigger] a@[k]).enc() == b@[k].enc() by {}
            lemma_items_agree(a@, b@);
        },
        _ => {},
    }
}

/// Building a schema twice from one catalog and root, and encoding each,
/// gives the same bytes.
pub proof fn lemma_schema_bytes_deterministic(
    cat: Seq<TypeDescriptor>,
    root: usize,
    c1: SchemaContainer,
    c2: SchemaContainer,
)
    requires
        built(cat, root, c1),
        built(cat, root, c2),
    ensures
        enc_container(c1) == enc_container(c2),
{
    let o = walk(cat, seq![root], seq![])->Ok_0;
    assert forall|k: int| 0 <= k < c1.entries@.len() implies (#[trigger] c1.entries@[k]).enc()
        == c2.entries@[k].enc() by {
        assert(entry_of(cat, o[k] as int, c1.entries@[k]));
        assert(entry_of(cat, o[k] as int, c2.entries@[k]));
        lemma_declaration_enc(cat, cat[o[k] as int].shape, c1.entries@[k].1, c2.entries@[k].1);
    }
    lemma_items_agree(c1.entries@, c2.entries@);
}

/// The catalogs agree in the name of each type and in the set of types each
/// points at; they may differ in the order of fields and variants.
pub open spec fn same_up_to_order(cat1: Seq<TypeDescriptor>, cat2: Seq<TypeDescriptor>) -> bool {
    &&& cat1.len() == cat2.len()
    &&& forall|i: int|
        0 <= i < cat1.len() ==> #[trigger] cat1[i].name@ == cat2[i].name@ && refs(cat1[i].shape).to_set()
            == refs(cat2[i].shape).to_set()
}

proof fn lemma_declared_in_other(
    cat1: Seq<TypeDescriptor>,
    cat2: Seq<TypeDescriptor>,
    root: usize,
    c1: SchemaContainer,
    c2: SchemaContainer,
    n: Seq<char>,
)
    requires
        same_up_to_order(cat1, cat2),
        declares_reached(cat1, root, c1),
        declares_reached(cat2, root, c2),
        recorded(c1.entries@, n),
    ensures
        recorded(c2.entries@, n),
{
    let m = choose|m: int| 0 <= m < c1.entries@.len() && #[trigger] c1.entries@[m].0@ == n;
    let i = choose|i: usize|
        #![trigger reachable(cat1, root, i)]
        i < cat1.len() && reachable(cat1, root, i) && c1.entries@[m].0@ == cat1[i as int].name@;
    let p = choose|p: Seq<usize>| #[trigger] is_path(cat1, p) && p[0] == root && p.last() == i;
    assert forall|t: int| 0 <= t < p.len() - 1 implies refs(cat2[p[t] as int].shape).contains(#[trigger] p[t + 1]) by {
        assert(p[t] < cat1.len());
        assert(cat1[p[t] as int].name@ == cat2[p[t] as int].name@);
        assert(refs(cat1[p[t] as int].shape).contains(p[t + 1]));
        assert(refs(cat1[p[t] as int].shape).to_set().contains(p[t + 1]));
    }
    assert(is_path(cat2, p));
    assert(reachable(cat2, root, i));
    assert(cat1[i as int].name@ == cat2[i as int].name@);
}

/// Reordering the fields or variants of the catalog's types, which keeps each
/// type's name and the set of types it points at, keeps the set of declared
/// names.
pub proof fn lemma_reordering_keeps_declared_names(
    cat1: Seq<TypeDescriptor>,
    cat2: Seq<TypeDescriptor>,
    root: usize,
    c1: SchemaContainer,
    c2: SchemaContainer,
)
    requires
        same_up_to_order(cat1, cat2),
        declares_reached(cat1, root, c1),
        declares_reached(cat2, root, c2),
    ensures
        forall|n: Seq<char>| recorded(c1.entries@, n) <==> recorded(c2.entries@, n),
{
    assert forall|n: Seq<char>| recorded(c1.entries@, n) <==> recorded(c2.entries@, n) by {
        if recorded(c1.entries@, n) {
            lemma_declared_in_other(cat1, cat2, root, c1, c2, n);
        }
        if recorded(c2.entries@, n) {
            assert forall|i: int| 0 <= i < cat2.len() implies #[trigger] cat2[i].name@ == cat1[i].name@ && refs(cat2[i].shape).to_set()
                == refs(cat1[i].shape).to_set() by {
                assert(cat1[i].name@ == cat2[i].name@);
            }
            lemma_declared_in_other(cat2, cat1, root, c2, c1, n);
        }
    }
}

} // verus!
