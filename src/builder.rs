use vstd::prelude::*;
use vstd::set_lib::{lemma_int_range, lemma_len_subset, set_int_range};

use crate::graph::{
    check_refs_in_range, collision_free, declaration_of, describes, lemma_variant_refs_hold,
    mentions, nm, payload_mentions, payload_named, payload_refs, refs, refs_in_range,
    same_payload, same_shape, shape_in_range, shape_refs, shapes_agree, variant_refs,
};
use crate::model::{Declaration, Payload, SchemaContainer, SchemaError, Shape, TypeDescriptor};

verus! {

/// Some entry is named `n`.
pub open spec fn recorded(es: Seq<(String, Declaration)>, n: Seq<char>) -> bool {
    exists|j: int| 0 <= j < es.len() && #[trigger] es[j].0@ == n
}

/// No two entries share a name.
pub open spec fn unique_names(es: Seq<(String, Declaration)>) -> bool {
    forall|a: int, b: int|
        #![trigger es[a], es[b]]
        0 <= a < b < es.len() ==> es[a].0@ != es[b].0@
}

/// Every type reference of every entry names an entry.
pub open spec fn closed(es: Seq<(String, Declaration)>) -> bool {
    forall|k: int, n: Seq<char>|
        0 <= k < es.len() && #[trigger] mentions(es[k].1, n) ==> recorded(es, n)
}

/// A container whose names are unique, whose references all resolve, and
/// whose first entry is its root.
pub open spec fn well_formed(c: SchemaContainer) -> bool {
    &&& unique_names(c.entries@)
    &&& closed(c.entries@)
    &&& c.entries.len() > 0
    &&& c.entries@[0].0@ == c.root@
}

/// The entry is the declaration of the catalog's type at position `i`.
pub open spec fn entry_of(cat: Seq<TypeDescriptor>, i: int, e: (String, Declaration)) -> bool {
    &&& 0 <= i < cat.len()
    &&& e.0@ == cat[i].name@
    &&& describes(cat, cat[i].shape, e.1)
}

/// `c` is what [`build`] yields for the catalog's type at `root`: the
/// declarations of the walk's types, in the walk's order.
pub open spec fn built(cat: Seq<TypeDescriptor>, root: usize, c: SchemaContainer) -> bool {
    &&& root < cat.len()
    &&& c.root@ == nm(cat, root)
    &&& walk(cat, seq![root], seq![]) matches Ok(o)
    &&& o.len() == c.entries.len()
    &&& forall|k: int| 0 <= k < o.len() ==> entry_of(cat, o[k] as int, #[trigger] c.entries@[k])
}

/// `p` is a path through the catalog: each type on it points at the next.
pub open spec fn is_path(cat: Seq<TypeDescriptor>, p: Seq<usize>) -> bool {
    &&& p.len() > 0
    &&& forall|t: int| 0 <= t < p.len() ==> #[trigger] p[t] < cat.len()
    &&& forall|t: int| 0 <= t < p.len() - 1 ==> refs(cat[p[t] as int].shape).contains(#[trigger] p[t + 1])
}

/// The catalog's type at `i` is reached from the one at `root`.
pub open spec fn reachable(cat: Seq<TypeDescriptor>, root: usize, i: usize) -> bool {
    exists|p: Seq<usize>| #[trigger] is_path(cat, p) && p[0] == root && p.last() == i
}

/// The names of a container's declarations are those of the types reached
/// from the root.
pub open spec fn declares_reached(cat: Seq<TypeDescriptor>, root: usize, c: SchemaContainer) -> bool {
    &&& forall|i: usize|
        i < cat.len() && #[trigger] reachable(cat, root, i) ==> recorded(c.entries@, cat[i as int].name@)
    &&& forall|k: int|
        #![trigger c.entries@[k]]
        0 <= k < c.entries.len() ==> exists|i: usize|
            #![trigger reachable(cat, root, i)]
            i < cat.len() && reachable(cat, root, i) && c.entries@[k].0@ == cat[i as int].name@
}

proof fn lemma_path_extends(cat: Seq<TypeDescriptor>, p: Seq<usize>, c: usize)
    requires
        is_path(cat, p),
        c < cat.len(),
        refs(cat[p.last() as int].shape).contains(c),
    ensures
        is_path(cat, p.push(c)),
        p.push(c)[0] == p[0],
        p.push(c).last() == c,
{
    let q = p.push(c);
    assert forall|t: int| 0 <= t < q.len() - 1 implies refs(cat[q[t] as int].shape).contains(#[trigger] q[t + 1]) by {
        if t < p.len() - 1 {
            assert(q[t] == p[t] && q[t + 1] == p[t + 1]);
        }
    }
}

proof fn lemma_in_variant_refs(vs: Seq<(String, Payload<usize>)>, c: usize)
    requires
        variant_refs(vs).contains(c),
    ensures
        exists|k: int, j: int|
            0 <= k < vs.len() && 0 <= j < payload_refs(vs[k].1).len() && #[trigger] payload_refs(vs[k].1)[j] == c,
    decreases vs.len(),
{
    let a = variant_refs(vs.drop_last());
    let b = payload_refs(vs.last().1);
    let p = choose|p: int| 0 <= p < (a + b).len() && (a + b)[p] == c;
    if p < a.len() {
        assert(a[p] == c);
        lemma_in_variant_refs(vs.drop_last(), c);
        let (k, j) = choose|k: int, j: int|
            0 <= k < vs.drop_last().len() && 0 <= j < payload_refs(vs.drop_last()[k].1).len() && #[trigger] payload_refs(vs.drop_last()[k].1)[j] == c;
        assert(vs.drop_last()[k] == vs[k]);
    } else {
        assert(b[p - a.len()] == c);
        assert(payload_refs(vs[vs.len() - 1].1)[p - a.len()] == c);
    }
}

/// Where `s` and `t` give the same declaration and `d` declares `s`, `d`
/// mentions the name of every type that `t` points at.
proof fn lemma_same_shape_mentions(cat: Seq<TypeDescriptor>, s: Shape<usize>, t: Shape<usize>, d: Declaration, c: usize)
    requires
        same_shape(cat, s, t),
        describes(cat, s, d),
        refs(t).contains(c),
    ensures
        mentions(d, nm(cat, c)),
{
    let p = choose|p: int| 0 <= p < refs(t).len() && refs(t)[p] == c;
    match (s, t, d) {
        (Shape::Struct(a), Shape::Struct(b), Shape::Struct(e)) => {
            assert(refs(t)[p] == b@[p].1);
            assert(e@[p].1@ == nm(cat, a@[p].1));
        },
        (Shape::Enum(a), Shape::Enum(b), Shape::Enum(e)) => {
            lemma_in_variant_refs(b@, c);
            let (k, j) = choose|k: int, j: int|
                0 <= k < b@.len() && 0 <= j < payload_refs(b@[k].1).len() && #[trigger] payload_refs(b@[k].1)[j] == c;
            assert(same_payload(cat, a@[k].1, b@[k].1));
            assert(payload_named(cat, a@[k].1, e@[k].1));
            match (a@[k].1, b@[k].1, e@[k].1) {
                (Payload::Tuple(x), Payload::Tuple(y), Payload::Tuple(z)) => {
                    assert(y@[j] == c);
                    assert(z@[j]@ == nm(cat, x@[j]));
                    assert(payload_mentions(e@[k].1, nm(cat, c)));
                },
                (Payload::Struct(x), Payload::Struct(y), Payload::Struct(z)) => {
                    assert(y@[j].1 == c);
                    assert(z@[j].1@ == nm(cat, x@[j].1));
                    assert(payload_mentions(e@[k].1, nm(cat, c)));
                },
                _ => {},
            }
        },
        (Shape::Tuple(a), Shape::Tuple(b), Shape::Tuple(e)) => {
            assert(refs(t)[p] == b@[p]);
            assert(e@[p]@ == nm(cat, a@[p]));
        },
        (Shape::MapOf(_, _), Shape::MapOf(b1, b2), _) => {
            assert(refs(t)[0] == b1 && refs(t)[1] == b2);
        },
        (_, Shape::Sequence(b), _) | (_, Shape::SetOf(b), _) | (_, Shape::Option(b), _) => {
            assert(refs(t)[0] == b);
        },
        _ => {},
    }
}

/// In a closed container of the catalog's declarations that declares the
/// root, every type on a path from the root is declared, where the catalog
/// has no collisions.
proof fn lemma_reached_declared(cat: Seq<TypeDescriptor>, root: usize, es: Seq<(String, Declaration)>, o: Seq<usize>, p: Seq<usize>)
    requires
        collision_free(cat),
        closed(es),
        o.len() == es.len(),
        forall|m: int| 0 <= m < o.len() ==> entry_of(cat, o[m] as int, #[trigger] es[m]),
        recorded(es, nm(cat, root)),
        is_path(cat, p),
        p[0] == root,
    ensures
        recorded(es, nm(cat, p.last())),
    decreases p.len(),
{
    if p.len() > 1 {
        let q = p.drop_last();
        assert(is_path(cat, q)) by {
            assert forall|t: int| 0 <= t < q.len() - 1 implies refs(cat[q[t] as int].shape).contains(#[trigger] q[t + 1]) by {
                assert(q[t] == p[t] && q[t + 1] == p[t + 1]);
            }
        }
        lemma_reached_declared(cat, root, es, o, q);
        let j = q.last();
        let i = p.last();
        assert(j == p[p.len() - 2]);
        assert(refs(cat[j as int].shape).contains(p[p.len() - 2 + 1]));
        let m = choose|m: int| 0 <= m < es.len() && #[trigger] es[m].0@ == nm(cat, j);
        assert(entry_of(cat, o[m] as int, es[m]));
        assert(cat[o[m] as int].name@ == cat[j as int].name@);
        assert(same_shape(cat, cat[o[m] as int].shape, cat[j as int].shape));
        lemma_same_shape_mentions(cat, cat[o[m] as int].shape, cat[j as int].shape, es[m].1, i);
    }
}

/// Some type on the stack is named `n`.
pub open spec fn pending(cat: Seq<TypeDescriptor>, st: Seq<usize>, n: Seq<char>) -> bool {
    exists|s: int| 0 <= s < st.len() && nm(cat, #[trigger] st[s]) == n
}

/// The depth-first walk over the catalog. `stack` holds the types still to
/// visit, the last one first; `seen` the types declared so far, in the order
/// in which they were first seen. A type whose name was seen before is not
/// walked again; one that brings a new shape under a seen name ends the walk
/// with that name. A type seen for the first time is declared, and the types
/// it points at are visited next, in written order. The walk yields the
/// declared types in order. (Its last branch, where more types were declared
/// than the catalog holds, is never taken from an empty `seen`.)
pub open spec fn walk(cat: Seq<TypeDescriptor>, stack: Seq<usize>, seen: Seq<usize>) -> Result<
    Seq<usize>,
    Seq<char>,
>
    decreases cat.len() - seen.len(), stack.len(),
{
    if stack.len() == 0 {
        Ok(seen)
    } else {
        let i = stack.last();
        let rest = stack.drop_last();
        if exists|m: int| 0 <= m < seen.len() && #[trigger] nm(cat, seen[m]) == nm(cat, i) {
            let m = choose|m: int| 0 <= m < seen.len() && #[trigger] nm(cat, seen[m]) == nm(cat, i);
            if same_shape(cat, cat[seen[m] as int].shape, cat[i as int].shape) {
                walk(cat, rest, seen)
            } else {
                Err(nm(cat, i))
            }
        } else if seen.len() < cat.len() {
            walk(cat, rest + refs(cat[i as int].shape).reverse(), seen.push(i))
        } else {
            Ok(seen)
        }
    }
}

proof fn lemma_mention_is_ref(cat: Seq<TypeDescriptor>, s: Shape<usize>, d: Declaration, n: Seq<char>)
    requires
        describes(cat, s, d),
        mentions(d, n),
    ensures
        exists|c: int| 0 <= c < refs(s).len() && nm(cat, #[trigger] refs(s)[c]) == n,
{
    match (s, d) {
        (Shape::Struct(a), Shape::Struct(b)) => {
            let k = choose|k: int| 0 <= k < b.len() && #[trigger] b@[k].1@ == n;
            assert(refs(s)[k] == a@[k].1);
        },
        (Shape::Enum(a), Shape::Enum(b)) => {
            let k = choose|k: int| 0 <= k < b.len() && payload_mentions(#[trigger] b@[k].1, n);
            let j: int = match (a@[k].1, b@[k].1) {
                (Payload::Tuple(x), Payload::Tuple(y)) => {
                    let j = choose|j: int| 0 <= j < y.len() && #[trigger] y@[j]@ == n;
                    assert(payload_refs(a@[k].1)[j] == x@[j]);
                    j
                },
                (Payload::Struct(x), Payload::Struct(y)) => {
                    let j = choose|j: int| 0 <= j < y.len() && #[trigger] y@[j].1@ == n;
                    assert(payload_refs(a@[k].1)[j] == x@[j].1);
                    j
                },
                _ => 0,
            };
            lemma_variant_refs_hold(a@, k, j);
            let c = choose|c: int| 0 <= c < refs(s).len() && refs(s)[c] == payload_refs(a@[k].1)[j];
            assert(nm(cat, refs(s)[c]) == n);
        },
        (Shape::Sequence(a), _) | (Shape::SetOf(a), _) | (Shape::Option(a), _) => {
            assert(refs(s)[0] == a);
        },
        (Shape::MapOf(a1, a2), _) => {
            assert(refs(s)[0] == a1 && refs(s)[1] == a2);
        },
        (Shape::Tuple(a), Shape::Tuple(b)) => {
            let k = choose|k: int| 0 <= k < b.len() && #[trigger] b@[k]@ == n;
            assert(refs(s)[k] == a@[k]);
        },
        _ => {},
    }
}

proof fn lemma_distinct_below(s: Seq<usize>, n: int)
    requires
        s.no_duplicates(),
        forall|k: int| 0 <= k < s.len() ==> s[k] < n,
        0 <= n,
    ensures
        s.len() <= n,
{
    let t = s.map_values(|x: usize| x as int);
    assert forall|a: int, b: int| 0 <= a < t.len() && 0 <= b < t.len() && a != b implies t[a] != t[b] by {
        assert(s[a] != s[b]);
    }
    assert(t.no_duplicates());
    t.unique_seq_to_set();
    lemma_int_range(0, n);
    assert(t.to_set().subset_of(set_int_range(0, n)));
    lemma_len_subset(t.to_set(), set_int_range(0, n));
}

fn find_name(es: &Vec<(String, Declaration)>, n: &String) -> (r: Option<usize>)
    ensures
        r matches Some(m) ==> m < es.len() && es@[m as int].0@ == n@,
        r is None ==> !recorded(es@, n@),
{
    let mut k: usize = 0;
    while k < es.len()
        invariant
            0 <= k <= es.len(),
            forall|j: int| 0 <= j < k ==> #[trigger] es@[j].0@ != n@,
        decreases es.len() - k,
    {
        if es[k].0 == *n {
            return Some(k);
        }
        k += 1;
    }
    None
}

/// Discovers every type reachable from the catalog's type at `root` by a
/// depth-first walk, and declares each distinct name once, when it is first
/// seen. A name met again with another shape is a collision.
pub fn build(cat: &Vec<TypeDescriptor>, root: usize) -> (r: Result<SchemaContainer, SchemaError>)
    ensures
        (r matches Err(SchemaError::IncompleteClosure)) <==> !(root < cat.len() && refs_in_range(
            cat@,
        )),
        !(r matches Err(SchemaError::UnsupportedShape)),
        r matches Err(SchemaError::NameCollision(n)) ==> exists|i: int, j: int|
            0 <= i < cat.len() && 0 <= j < cat.len() && #[trigger] cat@[i].name@ == n@
                && #[trigger] cat@[j].name@ == n@ && !same_shape(cat@, cat@[i].shape, cat@[j].shape),
        root < cat.len() && refs_in_range(cat@) && collision_free(cat@) ==> r is Ok,
        root < cat.len() && refs_in_range(cat@) ==> (r is Ok <==> walk(cat@, seq![root], seq![]) is Ok),
        r matches Err(SchemaError::NameCollision(n)) ==> walk(cat@, seq![root], seq![]) == Err::<Seq<usize>, Seq<char>>(n@),
        r matches Ok(c) ==> (collision_free(cat@) ==> declares_reached(cat@, root, c)),
        r matches Ok(c) ==> {
            &&& built(cat@, root, c)
            &&& well_formed(c)
            &&& c.entries.len() <= cat.len()
        },
{
    if root >= cat.len() || !check_refs_in_range(cat) {
        return Err(SchemaError::IncompleteClosure);
    }
    let mut stack: Vec<usize> = vec![root];
    let mut entries: Vec<(String, Declaration)> = Vec::new();
    let mut order: Vec<usize> = Vec::new();
    proof {
        let p = seq![root];
        assert(is_path(cat@, p));
        assert(reachable(cat@, root, stack@[0]));
    }
    while stack.len() > 0
        invariant
            root < cat.len(),
            refs_in_range(cat@),
            order.len() == entries.len(),
            forall|k: int| 0 <= k < order.len() ==> entry_of(cat@, order@[k] as int, #[trigger] entries@[k]),
            unique_names(entries@),
            forall|s: int| 0 <= s < stack.len() ==> #[trigger] stack@[s] < cat.len(),
            forall|k: int, n: Seq<char>|
                0 <= k < entries.len() && #[trigger] mentions(entries@[k].1, n) ==> recorded(entries@, n)
                    || pending(cat@, stack@, n),
            entries.len() == 0 ==> stack@ == seq![root],
            entries.len() > 0 ==> entries@[0].0@ == nm(cat@, root),
            walk(cat@, stack@, order@) == walk(cat@, seq![root], seq![]),
            forall|s: int| 0 <= s < stack.len() ==> reachable(cat@, root, #[trigger] stack@[s]),
            forall|k: int| 0 <= k < order.len() ==> reachable(cat@, root, #[trigger] order@[k]),
            entries.len() <= cat.len(),
        decreases cat.len() - entries.len(), stack.len(),
    {
        let ghost st0 = stack@;
        let ghost es0 = entries@;
        let ghost or0 = order@;
        let i = stack.pop().unwrap();
        assert(stack@ =~= st0.drop_last());
        assert(st0[st0.len() - 1] == i);
        assert(shape_in_range(cat@, cat@[i as int].shape));
        assert(reachable(cat@, root, st0[st0.len() - 1]));
        match find_name(&entries, &cat[i].name) {
            Some(m) => {
                let o = order[m];
                assert(entry_of(cat@, o as int, entries@[m as int]));
                assert(shape_in_range(cat@, cat@[o as int].shape));
                proof {
                    assert(nm(cat@, order@[m as int]) == nm(cat@, i));
                    let m2 = choose|m2: int|
                        0 <= m2 < order@.len() && #[trigger] nm(cat@, order@[m2]) == nm(cat@, i);
                    assert(entry_of(cat@, order@[m2] as int, entries@[m2]));
                    if m2 < m {
                        assert(entries@[m2].0@ != entries@[m as int].0@);
                    } else if m < m2 {
                        assert(entries@[m as int].0@ != entries@[m2].0@);
                    }
                }
                if !shapes_agree(cat, &cat[o].shape, &cat[i].shape) {
                    return Err(SchemaError::NameCollision(cat[i].name.clone()));
                }
                assert forall|k: int, n: Seq<char>|
                    0 <= k < entries.len() && #[trigger] mentions(entries@[k].1, n) implies recorded(entries@, n)
                        || pending(cat@, stack@, n) by {
                    if !recorded(entries@, n) {
                        let s = choose|s: int| 0 <= s < st0.len() && nm(cat@, #[trigger] st0[s]) == n;
                        assert(s != st0.len() - 1);
                        assert(stack@[s] == st0[s]);
                    }
                }
            },
            None => {
                let d = declaration_of(cat, &cat[i].shape);
                proof {
                    assert forall|m: int| 0 <= m < order@.len() implies #[trigger] nm(cat@, order@[m]) != nm(cat@, i) by {
                        assert(entry_of(cat@, order@[m] as int, entries@[m]));
                    }
                    let ord = order@.push(i);
                    assert forall|a: int, b: int| 0 <= a < ord.len() && 0 <= b < ord.len() && a != b implies ord[a] != ord[b] by {
                        if b == ord.len() - 1 {
                            assert(entry_of(cat@, order@[a] as int, entries@[a]));
                        } else if a == ord.len() - 1 {
                            assert(entry_of(cat@, order@[b] as int, entries@[b]));
                        } else {
                            assert(entry_of(cat@, order@[a] as int, entries@[a]));
                            assert(entry_of(cat@, order@[b] as int, entries@[b]));
                            if a < b {
                                assert(entries@[a].0@ != entries@[b].0@);
                            } else {
                                assert(entries@[b].0@ != entries@[a].0@);
                            }
                        }
                    }
                    assert forall|k: int| 0 <= k < ord.len() implies ord[k] < cat.len() by {
                        if k < order.len() {
                            assert(entry_of(cat@, order@[k] as int, entries@[k]));
                        }
                    }
                    lemma_distinct_below(ord, cat.len() as int);
                }
                entries.push((cat[i].name.clone(), d));
                order.push(i);
                let kids = shape_refs(&cat[i].shape);
                let ghost base = stack@;
                assert(base =~= st0.drop_last());
                let mut j: usize = kids.len();
                while j > 0
                    invariant
                        0 <= j <= kids.len(),
                        i < cat.len(),
                        kids@ == refs(cat@[i as int].shape),
                        shape_in_range(cat@, cat@[i as int].shape),
                        stack.len() >= base.len(),
                        forall|s: int| 0 <= s < base.len() ==> stack@[s] == base[s],
                        forall|s: int| 0 <= s < base.len() ==> #[trigger] base[s] < cat.len(),
                        forall|s: int| 0 <= s < stack.len() ==> #[trigger] stack@[s] < cat.len(),
                        forall|t: int| j <= t < kids.len() ==> stack@.contains(#[trigger] kids@[t]),
                        stack@ == base + kids@.subrange(j as int, kids.len() as int).reverse(),
                        reachable(cat@, root, i),
                        forall|s: int| 0 <= s < stack.len() ==> reachable(cat@, root, #[trigger] stack@[s]),
                    decreases j,
                {
                    j -= 1;
                    assert(kids@[j as int] < cat.len());
                    let ghost before = stack@;
                    proof {
                        let p = choose|p: Seq<usize>| #[trigger] is_path(cat@, p) && p[0] == root && p.last() == i;
                        assert(refs(cat@[i as int].shape).contains(kids@[j as int])) by {
                            assert(refs(cat@[i as int].shape)[j as int] == kids@[j as int]);
                        }
                        lemma_path_extends(cat@, p, kids@[j as int]);
                        assert(reachable(cat@, root, kids@[j as int]));
                    }
                    stack.push(kids[j]);
                    assert(stack@ =~= base + kids@.subrange(j as int, kids.len() as int).reverse());
                    assert forall|t: int| j <= t < kids.len() implies stack@.contains(#[trigger] kids@[t]) by {
                        if t == j {
                            assert(stack@[stack.len() - 1] == kids@[t]);
                        } else {
                            let s = choose|s: int| 0 <= s < before.len() && before[s] == kids@[t];
                            assert(stack@[s] == before[s]);
                        }
                    }
                }
                assert(kids@.subrange(0, kids.len() as int) =~= kids@);
                assert(order@ == or0.push(i));
                assert(or0.len() < cat.len());
                assert(st0.drop_last() == base);
                assert(stack@ == base + refs(cat@[i as int].shape).reverse());
                assert(!(exists|m: int| 0 <= m < or0.len() && #[trigger] nm(cat@, or0[m]) == nm(cat@, i)));
                assert(walk(cat@, st0, or0) == walk(cat@, stack@, order@));
                assert forall|k: int, n: Seq<char>|
                    0 <= k < entries.len() && #[trigger] mentions(entries@[k].1, n) implies recorded(entries@, n)
                        || pending(cat@, stack@, n) by {
                    if k == entries.len() - 1 {
                        lemma_mention_is_ref(cat@, cat@[i as int].shape, d, n);
                        let c = choose|c: int| 0 <= c < kids.len() && nm(cat@, #[trigger] kids@[c]) == n;
                        let s = choose|s: int| 0 <= s < stack.len() && stack@[s] == kids@[c];
                        assert(nm(cat@, stack@[s]) == n);
                    } else {
                        assert(entries@[k] == es0[k]);
                        if recorded(es0, n) {
                            let q = choose|q: int| 0 <= q < es0.len() && #[trigger] es0[q].0@ == n;
                            assert(entries@[q] == es0[q]);
                        } else {
                            let s = choose|s: int| 0 <= s < st0.len() && nm(cat@, #[trigger] st0[s]) == n;
                            if s == st0.len() - 1 {
                                assert(entries@[entries.len() - 1].0@ == n);
                            } else {
                                assert(base[s] == st0[s]);
                                assert(stack@[s] == st0[s]);
                            }
                        }
                    }
                }
            },
        }
    }
    let c = SchemaContainer { root: cat[root].name.clone(), entries };
    proof {
        assert forall|k: int, n: Seq<char>|
            0 <= k < c.entries.len() && #[trigger] mentions(c.entries@[k].1, n) implies recorded(c.entries@, n) by {
            if !recorded(c.entries@, n) {
                assert(pending(cat@, stack@, n));
                let s = choose|s: int| 0 <= s < stack.len() && nm(cat@, #[trigger] stack@[s]) == n;
            }
        }
        assert(closed(c.entries@));
        assert(walk(cat@, stack@, order@) == Ok::<Seq<usize>, Seq<char>>(order@));
        if collision_free(cat@) {
            assert forall|i: usize|
                i < cat.len() && #[trigger] reachable(cat@, root, i) implies recorded(c.entries@, cat@[i as int].name@) by {
                let p = choose|p: Seq<usize>| #[trigger] is_path(cat@, p) && p[0] == root && p.last() == i;
                assert(recorded(c.entries@, nm(cat@, root)));
                lemma_reached_declared(cat@, root, c.entries@, order@, p);
            }
            assert forall|k: int| #![trigger c.entries@[k]] 0 <= k < c.entries.len() implies exists|i: usize|
                #![trigger reachable(cat@, root, i)]
                i < cat.len() && reachable(cat@, root, i) && c.entries@[k].0@ == cat@[i as int].name@ by {
                assert(entry_of(cat@, order@[k] as int, c.entries@[k]));
                assert(reachable(cat@, root, order@[k]));
            }
        }
    }
    Ok(c)
}

} // verus!
