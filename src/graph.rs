use vstd::prelude::*;

use crate::model::{Declaration, Payload, SchemaContainer, SchemaError, Shape, TypeDescriptor};

verus! {

/// The name of the catalog's type at position `i`.
pub open spec fn nm(cat: Seq<TypeDescriptor>, i: usize) -> Seq<char> {
    cat[i as int].name@
}

pub open spec fn field_refs<R>(fs: Seq<(String, R)>) -> Seq<R> {
    fs.map_values(|f: (String, R)| f.1)
}

pub open spec fn payload_refs<R>(p: Payload<R>) -> Seq<R> {
    match p {
        Payload::Unit => Seq::empty(),
        Payload::Tuple(rs) => rs@,
        Payload::Struct(fs) => field_refs(fs@),
    }
}

pub open spec fn variant_refs<R>(vs: Seq<(String, Payload<R>)>) -> Seq<R>
    decreases vs.len(),
{
    if vs.len() == 0 {
        Seq::empty()
    } else {
        variant_refs(vs.drop_last()) + payload_refs(vs.last().1)
    }
}

/// Every type reference of a shape, in the order in which it is written.
pub open spec fn refs<R>(s: Shape<R>) -> Seq<R> {
    match s {
        Shape::Primitive => Seq::empty(),
        Shape::Struct(fs) => field_refs(fs@),
        Shape::Enum(vs) => variant_refs(vs@),
        Shape::Sequence(r) => seq![r],
        Shape::SetOf(r) => seq![r],
        Shape::MapOf(k, v) => seq![k, v],
        Shape::Option(r) => seq![r],
        Shape::Tuple(rs) => rs@,
    }
}

/// Every reference of every type of the catalog stays inside the catalog.
pub open spec fn refs_in_range(cat: Seq<TypeDescriptor>) -> bool {
    forall|i: int, k: int|
        0 <= i < cat.len() && 0 <= k < refs(cat[i].shape).len() ==> #[trigger] refs(
            cat[i].shape,
        )[k] < cat.len()
}

pub open spec fn fields_named(
    cat: Seq<TypeDescriptor>,
    a: Seq<(String, usize)>,
    b: Seq<(String, String)>,
) -> bool {
    &&& a.len() == b.len()
    &&& forall|k: int|
        #![trigger b[k]]
        0 <= k < a.len() ==> b[k].0@ == a[k].0@ && b[k].1@ == nm(cat, a[k].1)
}

pub open spec fn refs_named(cat: Seq<TypeDescriptor>, a: Seq<usize>, b: Seq<String>) -> bool {
    &&& a.len() == b.len()
    &&& forall|k: int| #![trigger b[k]] 0 <= k < a.len() ==> b[k]@ == nm(cat, a[k])
}

pub open spec fn payload_named(cat: Seq<TypeDescriptor>, p: Payload<usize>, q: Payload<String>) -> bool {
    match (p, q) {
        (Payload::Unit, Payload::Unit) => true,
        (Payload::Tuple(a), Payload::Tuple(b)) => refs_named(cat, a@, b@),
        (Payload::Struct(a), Payload::Struct(b)) => fields_named(cat, a@, b@),
        _ => false,
    }
}

/// `d` is the declaration of shape `s`: the same shape, with each reference
/// replaced by the name of the type it points at.
pub open spec fn describes(cat: Seq<TypeDescriptor>, s: Shape<usize>, d: Declaration) -> bool {
    match (s, d) {
        (Shape::Primitive, Shape::Primitive) => true,
        (Shape::Struct(a), Shape::Struct(b)) => fields_named(cat, a@, b@),
        (Shape::Enum(a), Shape::Enum(b)) => {
            &&& a.len() == b.len()
            &&& forall|k: int|
                #![trigger b@[k]]
                0 <= k < a.len() ==> b@[k].0@ == a@[k].0@ && payload_named(cat, a@[k].1, b@[k].1)
        },
        (Shape::Sequence(a), Shape::Sequence(b)) => b@ == nm(cat, a),
        (Shape::SetOf(a), Shape::SetOf(b)) => b@ == nm(cat, a),
        (Shape::MapOf(a1, a2), Shape::MapOf(b1, b2)) => b1@ == nm(cat, a1) && b2@ == nm(cat, a2),
        (Shape::Option(a), Shape::Option(b)) => b@ == nm(cat, a),
        (Shape::Tuple(a), Shape::Tuple(b)) => refs_named(cat, a@, b@),
        _ => false,
    }
}

pub open spec fn same_fields(cat: Seq<TypeDescriptor>, a: Seq<(String, usize)>, b: Seq<(String, usize)>) -> bool {
    &&& a.len() == b.len()
    &&& forall|k: int|
        #![trigger a[k], b[k]]
        0 <= k < a.len() ==> a[k].0@ == b[k].0@ && nm(cat, a[k].1) == nm(cat, b[k].1)
}

pub open spec fn same_refs(cat: Seq<TypeDescriptor>, a: Seq<usize>, b: Seq<usize>) -> bool {
    &&& a.len() == b.len()
    &&& forall|k: int| #![trigger a[k], b[k]] 0 <= k < a.len() ==> nm(cat, a[k]) == nm(cat, b[k])
}

pub open spec fn same_payload(cat: Seq<TypeDescriptor>, p: Payload<usize>, q: Payload<usize>) -> bool {
    match (p, q) {
        (Payload::Unit, Payload::Unit) => true,
        (Payload::Tuple(a), Payload::Tuple(b)) => same_refs(cat, a@, b@),
        (Payload::Struct(a), Payload::Struct(b)) => same_fields(cat, a@, b@),
        _ => false,
    }
}

/// Two shapes give the same declaration: they agree in kind, in field and
/// variant names, and in the names of the types they point at.
pub open spec fn same_shape(cat: Seq<TypeDescriptor>, s: Shape<usize>, t: Shape<usize>) -> bool {
    match (s, t) {
        (Shape::Primitive, Shape::Primitive) => true,
        (Shape::Struct(a), Shape::Struct(b)) => same_fields(cat, a@, b@),
        (Shape::Enum(a), Shape::Enum(b)) => {
            &&& a.len() == b.len()
            &&& forall|k: int|
                #![trigger a@[k], b@[k]]
                0 <= k < a.len() ==> a@[k].0@ == b@[k].0@ && same_payload(cat, a@[k].1, b@[k].1)
        },
        (Shape::Sequence(a), Shape::Sequence(b)) => nm(cat, a) == nm(cat, b),
        (Shape::SetOf(a), Shape::SetOf(b)) => nm(cat, a) == nm(cat, b),
        (Shape::MapOf(a1, a2), Shape::MapOf(b1, b2)) => nm(cat, a1) == nm(cat, b1) && nm(cat, a2)
            == nm(cat, b2),
        (Shape::Option(a), Shape::Option(b)) => nm(cat, a) == nm(cat, b),
        (Shape::Tuple(a), Shape::Tuple(b)) => same_refs(cat, a@, b@),
        _ => false,
    }
}

/// Types of the catalog that share a name have the same shape.
pub open spec fn collision_free(cat: Seq<TypeDescriptor>) -> bool {
    forall|i: int, j: int|
        0 <= i < cat.len() && 0 <= j < cat.len() && #[trigger] cat[i].name@ == #[trigger] cat[j].name@
            ==> same_shape(cat, cat[i].shape, cat[j].shape)
}

pub open spec fn payload_mentions(p: Payload<String>, n: Seq<char>) -> bool {
    match p {
        Payload::Unit => false,
        Payload::Tuple(rs) => exists|k: int| 0 <= k < rs.len() && #[trigger] rs@[k]@ == n,
        Payload::Struct(fs) => exists|k: int| 0 <= k < fs.len() && #[trigger] fs@[k].1@ == n,
    }
}

/// The declaration holds a type reference named `n`.
pub open spec fn mentions(d: Declaration, n: Seq<char>) -> bool {
    match d {
        Shape::Primitive => false,
        Shape::Struct(fs) => exists|k: int| 0 <= k < fs.len() && #[trigger] fs@[k].1@ == n,
        Shape::Enum(vs) => exists|k: int| 0 <= k < vs.len() && payload_mentions(#[trigger] vs@[k].1, n),
        Shape::Sequence(r) => r@ == n,
        Shape::SetOf(r) => r@ == n,
        Shape::MapOf(k, v) => k@ == n || v@ == n,
        Shape::Option(r) => r@ == n,
        Shape::Tuple(rs) => exists|k: int| 0 <= k < rs.len() && #[trigger] rs@[k]@ == n,
    }
}

fn push_payload_refs(out: &mut Vec<usize>, p: &Payload<usize>)
    ensures
        final(out)@ == old(out)@ + payload_refs(*p),
{
    match p {
        Payload::Unit => {
            assert(final(out)@ =~= old(out)@ + payload_refs(*p));
        },
        Payload::Tuple(rs) => {
            let mut k: usize = 0;
            while k < rs.len()
                invariant
                    0 <= k <= rs.len(),
                    out@ =~= old(out)@ + rs@.take(k as int),
                decreases rs.len() - k,
            {
                out.push(rs[k]);
                k += 1;
                assert(out@ =~= old(out)@ + rs@.take(k as int));
            }
            assert(rs@.take(rs.len() as int) =~= rs@);
        },
        Payload::Struct(fs) => {
            let mut k: usize = 0;
            while k < fs.len()
                invariant
                    0 <= k <= fs.len(),
                    out@ =~= old(out)@ + field_refs(fs@).take(k as int),
                decreases fs.len() - k,
            {
                out.push(fs[k].1);
                k += 1;
                assert(out@ =~= old(out)@ + field_refs(fs@).take(k as int));
            }
            assert(field_refs(fs@).take(fs.len() as int) =~= field_refs(fs@));
        },
    }
}

/// The positions of the types that a shape points at, in written order.
pub fn shape_refs(s: &Shape<usize>) -> (r: Vec<usize>)
    ensures
        r@ == refs(*s),
{
    let mut out: Vec<usize> = Vec::new();
    match s {
        Shape::Primitive => {},
        Shape::Struct(fs) => {
            let mut k: usize = 0;
            while k < fs.len()
                invariant
                    0 <= k <= fs.len(),
                    out@ =~= field_refs(fs@).take(k as int),
                decreases fs.len() - k,
            {
                out.push(fs[k].1);
                k += 1;
                assert(out@ =~= field_refs(fs@).take(k as int));
            }
        },
        Shape::Enum(vs) => {
            let mut k: usize = 0;
            while k < vs.len()
                invariant
                    0 <= k <= vs.len(),
                    out@ == variant_refs(vs@.take(k as int)),
                decreases vs.len() - k,
            {
                assert(vs@.take(k as int + 1).drop_last() =~= vs@.take(k as int));
                push_payload_refs(&mut out, &vs[k].1);
                k += 1;
            }
            assert(vs@.take(vs.len() as int) =~= vs@);
        },
        Shape::Sequence(r) => {
            out.push(*r);
        },
        Shape::SetOf(r) => {
            out.push(*r);
        },
        Shape::MapOf(a, b) => {
            out.push(*a);
            out.push(*b);
        },
        Shape::Option(r) => {
            out.push(*r);
        },
        Shape::Tuple(rs) => {
            let mut k: usize = 0;
            while k < rs.len()
                invariant
                    0 <= k <= rs.len(),
                    out@ =~= rs@.take(k as int),
                decreases rs.len() - k,
            {
                out.push(rs[k]);
                k += 1;
                assert(out@ =~= rs@.take(k as int));
            }
        },
    }
    assert(out@ =~= refs(*s));
    out
}

pub proof fn lemma_variant_refs_hold(vs: Seq<(String, Payload<usize>)>, k: int, j: int)
    requires
        0 <= k < vs.len(),
        0 <= j < payload_refs(vs[k].1).len(),
    ensures
        variant_refs(vs).contains(payload_refs(vs[k].1)[j]),
    decreases vs.len(),
{
    let a = variant_refs(vs.drop_last());
    let b = payload_refs(vs.last().1);
    if k == vs.len() - 1 {
        assert((a + b)[a.len() + j] == b[j]);
    } else {
        lemma_variant_refs_hold(vs.drop_last(), k, j);
        let i = choose|i: int| 0 <= i < a.len() && a[i] == payload_refs(vs[k].1)[j];
        assert((a + b)[i] == a[i]);
    }
}

fn name_refs(cat: &Vec<TypeDescriptor>, rs: &Vec<usize>) -> (r: Vec<String>)
    requires
        forall|k: int| 0 <= k < rs.len() ==> rs@[k] < cat.len(),
    ensures
        refs_named(cat@, rs@, r@),
{
    let mut out: Vec<String> = Vec::new();
    let mut k: usize = 0;
    while k < rs.len()
        invariant
            0 <= k <= rs.len(),
            forall|k: int| 0 <= k < rs.len() ==> rs@[k] < cat.len(),
            refs_named(cat@, rs@.take(k as int), out@),
        decreases rs.len() - k,
    {
        out.push(cat[rs[k]].name.clone());
        k += 1;
    }
    assert(rs@.take(rs.len() as int) =~= rs@);
    out
}

fn name_fields(cat: &Vec<TypeDescriptor>, fs: &Vec<(String, usize)>) -> (r: Vec<(String, String)>)
    requires
        forall|k: int| 0 <= k < fs.len() ==> fs@[k].1 < cat.len(),
    ensures
        fields_named(cat@, fs@, r@),
{
    let mut out: Vec<(String, String)> = Vec::new();
    let mut k: usize = 0;
    while k < fs.len()
        invariant
            0 <= k <= fs.len(),
            forall|k: int| 0 <= k < fs.len() ==> fs@[k].1 < cat.len(),
            fields_named(cat@, fs@.take(k as int), out@),
        decreases fs.len() - k,
    {
        out.push((fs[k].0.clone(), cat[fs[k].1].name.clone()));
        k += 1;
    }
    assert(fs@.take(fs.len() as int) =~= fs@);
    out
}

/// The declaration of a shape: each reference replaced by the referred type's name.
pub fn declaration_of(cat: &Vec<TypeDescriptor>, s: &Shape<usize>) -> (d: Declaration)
    requires
        forall|k: int| 0 <= k < refs(*s).len() ==> refs(*s)[k] < cat.len(),
    ensures
        describes(cat@, *s, d),
{
    match s {
        Shape::Primitive => Shape::Primitive,
        Shape::Struct(fs) => {
            assert forall|k: int| 0 <= k < fs.len() implies fs@[k].1 < cat.len() by {
                assert(refs(*s)[k] == fs@[k].1);
            }
            Shape::Struct(name_fields(cat, fs))
        },
        Shape::Enum(vs) => {
            let mut out: Vec<(String, Payload<String>)> = Vec::new();
            let mut k: usize = 0;
            while k < vs.len()
                invariant
                    0 <= k <= vs.len(),
                    *s == Shape::Enum(*vs),
                    forall|k: int| 0 <= k < refs(*s).len() ==> refs(*s)[k] < cat.len(),
                    out.len() == k,
                    forall|j: int|
                        #![trigger out@[j]]
                        0 <= j < k ==> out@[j].0@ == vs@[j].0@ && payload_named(
                            cat@,
                            vs@[j].1,
                            out@[j].1,
                        ),
                decreases vs.len() - k,
            {
                let p = match &vs[k].1 {
                    Payload::Unit => Payload::Unit,
                    Payload::Tuple(rs) => {
                        assert forall|j: int| 0 <= j < rs.len() implies rs@[j] < cat.len() by {
                            lemma_variant_refs_hold(vs@, k as int, j);
                            let i = choose|i: int|
                                0 <= i < refs(*s).len() && refs(*s)[i] == rs@[j];
                        }
                        Payload::Tuple(name_refs(cat, rs))
                    },
                    Payload::Struct(fs) => {
                        assert forall|j: int| 0 <= j < fs.len() implies fs@[j].1 < cat.len() by {
                            lemma_variant_refs_hold(vs@, k as int, j);
                            let i = choose|i: int|
                                0 <= i < refs(*s).len() && refs(*s)[i] == fs@[j].1;
                        }
                        Payload::Struct(name_fields(cat, fs))
                    },
                };
                out.push((vs[k].0.clone(), p));
                k += 1;
            }
            Shape::Enum(out)
        },
        Shape::Sequence(r) => {
            assert(refs(*s)[0] == *r);
            Shape::Sequence(cat[*r].name.clone())
        },
        Shape::SetOf(r) => {
            assert(refs(*s)[0] == *r);
            Shape::SetOf(cat[*r].name.clone())
        },
        Shape::MapOf(a, b) => {
            assert(refs(*s)[0] == *a && refs(*s)[1] == *b);
            Shape::MapOf(cat[*a].name.clone(), cat[*b].name.clone())
        },
        Shape::Option(r) => {
            assert(refs(*s)[0] == *r);
            Shape::Option(cat[*r].name.clone())
        },
        Shape::Tuple(rs) => {
            assert forall|k: int| 0 <= k < rs.len() implies rs@[k] < cat.len() by {
                assert(refs(*s)[k] == rs@[k]);
            }
            Shape::Tuple(name_refs(cat, rs))
        },
    }
}

fn agree_refs(cat: &Vec<TypeDescriptor>, a: &Vec<usize>, b: &Vec<usize>) -> (r: bool)
    requires
        forall|k: int| 0 <= k < a.len() ==> a@[k] < cat.len(),
        forall|k: int| 0 <= k < b.len() ==> b@[k] < cat.len(),
    ensures
        r == same_refs(cat@, a@, b@),
{
    if a.len() != b.len() {
        return false;
    }
    let mut k: usize = 0;
    while k < a.len()
        invariant
            a.len() == b.len(),
            0 <= k <= a.len(),
            forall|k: int| 0 <= k < a.len() ==> a@[k] < cat.len(),
            forall|k: int| 0 <= k < b.len() ==> b@[k] < cat.len(),
            forall|j: int| 0 <= j < k ==> nm(cat@, #[trigger] a@[j]) == nm(cat@, b@[j]),
        decreases a.len() - k,
    {
        if cat[a[k]].name != cat[b[k]].name {
            return false;
        }
        k += 1;
    }
    true
}

fn agree_fields(cat: &Vec<TypeDescriptor>, a: &Vec<(String, usize)>, b: &Vec<(String, usize)>) -> (r: bool)
    requires
        forall|k: int| 0 <= k < a.len() ==> a@[k].1 < cat.len(),
        forall|k: int| 0 <= k < b.len() ==> b@[k].1 < cat.len(),
    ensures
        r == same_fields(cat@, a@, b@),
{
    if a.len() != b.len() {
        return false;
    }
    let mut k: usize = 0;
    while k < a.len()
        invariant
            a.len() == b.len(),
            0 <= k <= a.len(),
            forall|k: int| 0 <= k < a.len() ==> a@[k].1 < cat.len(),
            forall|k: int| 0 <= k < b.len() ==> b@[k].1 < cat.len(),
            forall|j: int|
                #![trigger a@[j], b@[j]]
                0 <= j < k ==> a@[j].0@ == b@[j].0@ && nm(cat@, a@[j].1) == nm(cat@, b@[j].1),
        decreases a.len() - k,
    {
        if a[k].0 != b[k].0 || cat[a[k].1].name != cat[b[k].1].name {
            return false;
        }
        k += 1;
    }
    true
}

/// All references of the shape point inside the catalog.
pub open spec fn shape_in_range(cat: Seq<TypeDescriptor>, s: Shape<usize>) -> bool {
    forall|k: int| 0 <= k < refs(s).len() ==> #[trigger] refs(s)[k] < cat.len()
}

proof fn lemma_payload_in_range(cat: Seq<TypeDescriptor>, s: Shape<usize>, vs: Seq<(String, Payload<usize>)>, k: int)
    requires
        s matches Shape::Enum(v) && v@ == vs,
        shape_in_range(cat, s),
        0 <= k < vs.len(),
    ensures
        forall|j: int| 0 <= j < payload_refs(vs[k].1).len() ==> #[trigger] payload_refs(vs[k].1)[j] < cat.len(),
{
    assert forall|j: int| 0 <= j < payload_refs(vs[k].1).len() implies #[trigger] payload_refs(vs[k].1)[j] < cat.len() by {
        lemma_variant_refs_hold(vs, k, j);
        let i = choose|i: int| 0 <= i < variant_refs(vs).len() && variant_refs(vs)[i] == payload_refs(vs[k].1)[j];
        assert(refs(s)[i] == variant_refs(vs)[i]);
    }
}

pub proof fn lemma_payload_in_range_pub(cat: Seq<TypeDescriptor>, s: Shape<usize>, vs: Seq<(String, Payload<usize>)>, k: int)
    requires
        s matches Shape::Enum(v) && v@ == vs,
        shape_in_range(cat, s),
        0 <= k < vs.len(),
    ensures
        forall|j: int| 0 <= j < payload_refs(vs[k].1).len() ==> #[trigger] payload_refs(vs[k].1)[j] < cat.len(),
{
    lemma_payload_in_range(cat, s, vs, k);
}

/// Whether two shapes give the same declaration.
pub fn shapes_agree(cat: &Vec<TypeDescriptor>, s: &Shape<usize>, t: &Shape<usize>) -> (r: bool)
    requires
        shape_in_range(cat@, *s),
        shape_in_range(cat@, *t),
    ensures
        r == same_shape(cat@, *s, *t),
{
    match (s, t) {
        (Shape::Primitive, Shape::Primitive) => true,
        (Shape::Struct(a), Shape::Struct(b)) => {
            assert forall|k: int| 0 <= k < a.len() implies a@[k].1 < cat.len() by {
                assert(refs(*s)[k] == a@[k].1);
            }
            assert forall|k: int| 0 <= k < b.len() implies b@[k].1 < cat.len() by {
                assert(refs(*t)[k] == b@[k].1);
            }
            agree_fields(cat, a, b)
        },
        (Shape::Enum(a), Shape::Enum(b)) => {
            if a.len() != b.len() {
                return false;
            }
            let mut k: usize = 0;
            while k < a.len()
                invariant
                    a.len() == b.len(),
                    0 <= k <= a.len(),
                    *s == Shape::Enum(*a),
                    *t == Shape::Enum(*b),
                    shape_in_range(cat@, *s),
                    shape_in_range(cat@, *t),
                    forall|j: int|
                        #![trigger a@[j], b@[j]]
                        0 <= j < k ==> a@[j].0@ == b@[j].0@ && same_payload(cat@, a@[j].1, b@[j].1),
                decreases a.len() - k,
            {
                if a[k].0 != b[k].0 {
                    return false;
                }
                proof {
                    lemma_payload_in_range(cat@, *s, a@, k as int);
                    lemma_payload_in_range(cat@, *t, b@, k as int);
                }
                let same = match (&a[k].1, &b[k].1) {
                    (Payload::Unit, Payload::Unit) => true,
                    (Payload::Tuple(x), Payload::Tuple(y)) => {
                        assert forall|j: int| 0 <= j < x.len() implies x@[j] < cat.len() by {
                            assert(payload_refs(a@[k as int].1)[j] == x@[j]);
                        }
                        assert forall|j: int| 0 <= j < y.len() implies y@[j] < cat.len() by {
                            assert(payload_refs(b@[k as int].1)[j] == y@[j]);
                        }
                        agree_refs(cat, x, y)
                    },
                    (Payload::Struct(x), Payload::Struct(y)) => {
                        assert forall|j: int| 0 <= j < x.len() implies x@[j].1 < cat.len() by {
                            assert(payload_refs(a@[k as int].1)[j] == x@[j].1);
                        }
                        assert forall|j: int| 0 <= j < y.len() implies y@[j].1 < cat.len() by {
                            assert(payload_refs(b@[k as int].1)[j] == y@[j].1);
                        }
                        agree_fields(cat, x, y)
                    },
                    _ => false,
                };
                if !same {
                    return false;
                }
                k += 1;
            }
            true
        },
        (Shape::Sequence(a), Shape::Sequence(b)) | (Shape::SetOf(a), Shape::SetOf(b)) | (
            Shape::Option(a),
            Shape::Option(b),
        ) => {
            assert(refs(*s)[0] == *a && refs(*t)[0] == *b);
            cat[*a].name == cat[*b].name
        },
        (Shape::MapOf(a1, a2), Shape::MapOf(b1, b2)) => {
            assert(refs(*s)[0] == *a1 && refs(*t)[0] == *b1);
            assert(refs(*s)[1] == *a2 && refs(*t)[1] == *b2);
            cat[*a1].name == cat[*b1].name && cat[*a2].name == cat[*b2].name
        },
        (Shape::Tuple(a), Shape::Tuple(b)) => {
            assert forall|k: int| 0 <= k < a.len() implies a@[k] < cat.len() by {
                assert(refs(*s)[k] == a@[k]);
            }
            assert forall|k: int| 0 <= k < b.len() implies b@[k] < cat.len() by {
                assert(refs(*t)[k] == b@[k]);
            }
            agree_refs(cat, a, b)
        },
        _ => false,
    }
}

/// Whether every reference of every type of the catalog points inside it.
pub fn check_refs_in_range(cat: &Vec<TypeDescriptor>) -> (r: bool)
    ensures
        r == refs_in_range(cat@),
{
    let mut i: usize = 0;
    while i < cat.len()
        invariant
            0 <= i <= cat.len(),
            forall|j: int| 0 <= j < i ==> shape_in_range(cat@, #[trigger] cat@[j].shape),
        decreases cat.len() - i,
    {
        let rs = shape_refs(&cat[i].shape);
        let mut k: usize = 0;
        while k < rs.len()
            invariant
                0 <= i < cat.len(),
                0 <= k <= rs.len(),
                rs@ == refs(cat@[i as int].shape),
                forall|j: int| 0 <= j < k ==> rs@[j] < cat.len(),
            decreases rs.len() - k,
        {
            if rs[k] >= cat.len() {
                assert(!(refs(cat@[i as int].shape)[k as int] < cat.len()));
                return false;
            }
            k += 1;
        }
        assert(shape_in_range(cat@, cat@[i as int].shape));
        i += 1;
    }
    assert forall|j: int, k: int| 0 <= j < cat.len() && 0 <= k < refs(cat@[j].shape).len() implies #[trigger] refs(cat@[j].shape)[k] < cat.len() by {
        assert(shape_in_range(cat@, cat@[j].shape));
    }
    true
}

} // verus!
