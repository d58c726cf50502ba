use vstd::prelude::*;
use vstd::string::StringSliceAdditionalSpecFns;
use vstd::utf8::encode_utf8;

use crate::encoder::{enc_container, enc_items, enc_len, enc_list, enc_str, join, tag, u32_le, Encode};
use crate::model::{Declaration, Payload, SchemaContainer, Shape};

verus! {

/// `data` holds `b` from position `pos` on.
pub open spec fn starts_with(data: Seq<u8>, pos: int, b: Seq<u8>) -> bool {
    &&& 0 <= pos
    &&& pos + b.len() <= data.len()
    &&& data.subrange(pos, pos + b.len()) == b
}

/// Something that can be read back from its canonical encoding.
pub trait Decode: Encode {
    /// Reads one value from position `pos`; returns it with the position
    /// after it. What is read encodes to the bytes consumed, and where the
    /// bytes at `pos` begin with some value's encoding, a value with that
    /// encoding is read.
    fn read(data: &[u8], pos: usize) -> (r: Option<(Self, usize)>)
        requires
            pos <= data@.len(),
        ensures
            r matches Some((v, end)) ==> pos <= end <= data@.len() && v.enc() == Some(
                data@.subrange(pos as int, end as int),
            ),
            forall|v: Self|
                v.enc() is Some && #[trigger] starts_with(data@, pos as int, v.enc().unwrap()) ==> (
                r matches Some((w, end)) && w.enc() == v.enc()),
    ;
}

proof fn lemma_u32_le_injective(a: u32, b: u32)
    requires
        u32_le(a) == u32_le(b),
    ensures
        a == b,
{
    assert(u32_le(a)[0] == u32_le(b)[0]);
    assert(u32_le(a)[1] == u32_le(b)[1]);
    assert(u32_le(a)[2] == u32_le(b)[2]);
    assert(u32_le(a)[3] == u32_le(b)[3]);
    assert(a == b) by (bit_vector)
        requires
            a % 256 == b % 256,
            (a / 256) % 256 == (b / 256) % 256,
            (a / 65536) % 256 == (b / 65536) % 256,
            (a / 16777216) % 256 == (b / 16777216) % 256,
    ;
}

proof fn lemma_items_prefix<T: Encode>(s: Seq<T>, j: int)
    requires
        0 <= j <= s.len(),
        enc_items(s) is Some,
    ensures
        enc_items(s.take(j)) is Some,
        enc_items(s.take(j)).unwrap().len() <= enc_items(s).unwrap().len(),
        enc_items(s).unwrap().subrange(0, enc_items(s.take(j)).unwrap().len() as int) == enc_items(
            s.take(j),
        ).unwrap(),
    decreases s.len(),
{
    if j == s.len() {
        assert(s.take(j) =~= s);
        assert(enc_items(s).unwrap().subrange(0, enc_items(s).unwrap().len() as int) =~= enc_items(s).unwrap());
    } else {
        let d = s.drop_last();
        assert(d.take(j) =~= s.take(j));
        lemma_items_prefix(d, j);
        let a = enc_items(d).unwrap();
        let b = s.last().enc().unwrap();
        let p = enc_items(s.take(j)).unwrap();
        assert((a + b).subrange(0, p.len() as int) =~= a.subrange(0, p.len() as int));
    }
}

/// Where the bytes at `pos` begin with the encoding of some string, `r` is
/// that string.
pub open spec fn reads_any_str(data: Seq<u8>, pos: int, r: Option<String>) -> bool {
    forall|x: Seq<char>|
        enc_str(x) is Some && #[trigger] starts_with(data, pos, enc_str(x).unwrap()) ==> (r matches Some(
            s,
        ) && s@ == x)
}

/// Relies on borsh's decoding of a `u32` (`from_le_bytes` of the next four
/// bytes), which fails only where fewer than four bytes are left.
#[verifier::external_body]
fn borsh_read_u32(data: &[u8], pos: usize) -> (r: Option<u32>)
    requires
        pos <= data@.len(),
    ensures
        r is Some <==> pos + 4 <= data@.len(),
        r matches Some(n) ==> u32_le(n) == data@.subrange(pos as int, pos + 4),
{
    let mut rest = &data[pos..];
    <u32 as borsh::BorshDeserialize>::deserialize(&mut rest).ok()
}

/// Relies on borsh's decoding of a `String`: a little-endian `u32` byte
/// length, then that many bytes, kept as they are where they are valid UTF-8
/// (`String::from_utf8`), an error otherwise or where bytes are missing.
#[verifier::external_body]
fn borsh_read_str(data: &[u8], pos: usize) -> (r: Option<String>)
    requires
        pos <= data@.len(),
    ensures
        r matches Some(s) ==> enc_str(s@) is Some && starts_with(data@, pos as int, enc_str(s@).unwrap()),
        reads_any_str(data@, pos as int, r),
{
    let mut rest = &data[pos..];
    <String as borsh::BorshDeserialize>::deserialize(&mut rest).ok()
}

impl Decode for String {
    fn read(data: &[u8], pos: usize) -> (r: Option<(String, usize)>) {
        match borsh_read_str(data, pos) {
            Some(s) => {
                let _len = data.len();
                let t = s.as_str();
                let n = t.len();
                proof {
                    assert(t@ == s@);
                    assert(n == encode_utf8(s@).len());
                    assert(enc_str(s@).unwrap().len() == 4 + n);
                    assert(pos + 4 + n <= data@.len());
                }
                let end = pos + 4 + n;
                Some((s, end))
            },
            None => None,
        }
    }
}

fn read_items<T: Decode>(data: &[u8], pos: usize, n: usize) -> (r: Option<(Vec<T>, usize)>)
    requires
        pos <= data@.len(),
    ensures
        r matches Some((w, end)) ==> pos <= end <= data@.len() && w.len() == n && enc_items(w@)
            == Some(data@.subrange(pos as int, end as int)),
        forall|s: Seq<T>|
            s.len() == n && enc_items(s) is Some && #[trigger] starts_with(
                data@,
                pos as int,
                enc_items(s).unwrap(),
            ) ==> (r matches Some((w, end)) && enc_items(w@) == enc_items(s)),
{
    let mut items: Vec<T> = Vec::new();
    let mut cur = pos;
    let mut k: usize = 0;
    assert(data@.subrange(pos as int, pos as int) =~= Seq::<u8>::empty());
    while k < n
        invariant
            pos <= cur <= data@.len(),
            0 <= k <= n,
            items.len() == k,
            enc_items(items@) == Some(data@.subrange(pos as int, cur as int)),
            forall|s: Seq<T>|
                s.len() == n && enc_items(s) is Some && #[trigger] starts_with(
                    data@,
                    pos as int,
                    enc_items(s).unwrap(),
                ) ==> enc_items(s.take(k as int)) == enc_items(items@),
        decreases n - k,
    {
        let got = T::read(data, cur);
        match got {
            Some((v, end)) => {
                let ghost before = items@;
                items.push(v);
                proof {
                    assert(items@.drop_last() =~= before);
                    assert(data@.subrange(pos as int, end as int) =~= data@.subrange(pos as int, cur as int)
                        + data@.subrange(cur as int, end as int));
                    assert forall|s: Seq<T>|
                        s.len() == n && enc_items(s) is Some && #[trigger] starts_with(
                            data@,
                            pos as int,
                            enc_items(s).unwrap(),
                        ) implies enc_items(s.take(k + 1)) == enc_items(items@) by {
                        lemma_items_prefix(s, k + 1);
                        assert(s.take(k + 1).drop_last() =~= s.take(k as int));
                        assert(s.take(k + 1).last() == s[k as int]);
                        let p = enc_items(s.take(k as int)).unwrap();
                        let e = s[k as int].enc().unwrap();
                        let all = enc_items(s).unwrap();
                        assert(all.subrange(0, (p + e).len() as int) == p + e);
                        assert(p.len() == cur - pos);
                        assert(data@.subrange(cur as int, cur + e.len()) =~= all.subrange(p.len() as int, (p + e).len() as int));
                        assert(all.subrange(p.len() as int, (p + e).len() as int) =~= (p + e).subrange(p.len() as int, (p + e).len() as int));
                        assert((p + e).subrange(p.len() as int, (p + e).len() as int) =~= e);
                        assert(starts_with(data@, cur as int, s[k as int].enc().unwrap()));
                    }
                }
                cur = end;
                k += 1;
            },
            None => {
                proof {
                    assert forall|s: Seq<T>|
                        s.len() == n && enc_items(s) is Some && #[trigger] starts_with(
                            data@,
                            pos as int,
                            enc_items(s).unwrap(),
                        ) implies false by {
                        lemma_items_prefix(s, k + 1);
                        assert(s.take(k + 1).drop_last() =~= s.take(k as int));
                        let p = enc_items(s.take(k as int)).unwrap();
                        let e = s[k as int].enc().unwrap();
                        let all = enc_items(s).unwrap();
                        assert(all.subrange(0, (p + e).len() as int) == p + e);
                        assert(data@.subrange(cur as int, cur + e.len()) =~= all.subrange(p.len() as int, (p + e).len() as int));
                        assert(all.subrange(p.len() as int, (p + e).len() as int) =~= (p + e).subrange(p.len() as int, (p + e).len() as int));
                        assert((p + e).subrange(p.len() as int, (p + e).len() as int) =~= e);
                        assert(starts_with(data@, cur as int, s[k as int].enc().unwrap()));
                    }
                }
                return None;
            },
        }
    }
    proof {
        assert forall|s: Seq<T>|
            s.len() == n && enc_items(s) is Some && #[trigger] starts_with(
                data@,
                pos as int,
                enc_items(s).unwrap(),
            ) implies enc_items(s) == enc_items(items@) by {
            assert(s.take(n as int) =~= s);
        }
    }
    Some((items, cur))
}

proof fn lemma_split(data: Seq<u8>, pos: int, a: Seq<u8>, b: Seq<u8>)
    requires
        starts_with(data, pos, a + b),
    ensures
        starts_with(data, pos, a),
        starts_with(data, pos + a.len(), b),
{
    let ab = data.subrange(pos, pos + (a + b).len());
    assert forall|i: int| 0 <= i < a.len() implies data.subrange(pos, pos + a.len())[i] == a[i] by {
        assert(ab[i] == (a + b)[i]);
    }
    assert forall|i: int| 0 <= i < b.len() implies data.subrange(pos + a.len(), pos + a.len() + b.len())[i] == b[i] by {
        assert(ab[a.len() + i] == (a + b)[a.len() + i]);
    }
    assert(data.subrange(pos, pos + a.len()) =~= a);
    assert(data.subrange(pos + a.len(), pos + a.len() + b.len()) =~= b);
}

proof fn lemma_ranges(data: Seq<u8>, i: int, j: int, k: int)
    requires
        0 <= i <= j <= k <= data.len(),
    ensures
        data.subrange(i, j) + data.subrange(j, k) == data.subrange(i, k),
{
    assert(data.subrange(i, j) + data.subrange(j, k) =~= data.subrange(i, k));
}

fn read_list<T: Decode>(data: &[u8], pos: usize) -> (r: Option<(Vec<T>, usize)>)
    requires
        pos <= data@.len(),
    ensures
        r matches Some((w, end)) ==> pos <= end <= data@.len() && enc_list(w@) == Some(
            data@.subrange(pos as int, end as int),
        ),
        forall|s: Seq<T>|
            enc_list(s) is Some && #[trigger] starts_with(data@, pos as int, enc_list(s).unwrap()) ==> (
            r matches Some((w, end)) && enc_list(w@) == enc_list(s)),
{
    let _len = data.len();
    match borsh_read_u32(data, pos) {
        Some(n) => {
            let start = pos + 4;
            let got = read_items::<T>(data, start, n as usize);
            proof {
                assert forall|s: Seq<T>|
                    enc_list(s) is Some && #[trigger] starts_with(data@, pos as int, enc_list(s).unwrap()) implies (
                    got matches Some((w, end)) && enc_items(w@) == enc_items(s) && w.len() == s.len()) by {
                    let l = u32_le(s.len() as u32);
                    let b = enc_items(s).unwrap();
                    lemma_split(data@, pos as int, l, b);
                    lemma_u32_le_injective(n, s.len() as u32);
                    assert(starts_with(data@, start as int, enc_items(s).unwrap()));
                }
            }
            match got {
                Some((w, end)) => {
                    proof {
                        lemma_ranges(data@, pos as int, start as int, end as int);
                        assert(enc_len(w.len() as nat) == Some(u32_le(n)));
                    }
                    Some((w, end))
                },
                None => None,
            }
        },
        None => None,
    }
}

impl<A: Decode, B: Decode> Decode for (A, B) {
    fn read(data: &[u8], pos: usize) -> (r: Option<((A, B), usize)>) {
        match A::read(data, pos) {
            Some((a, mid)) => {
                let got = B::read(data, mid);
                proof {
                    assert forall|v: (A, B)|
                        v.enc() is Some && #[trigger] starts_with(data@, pos as int, v.enc().unwrap()) implies (
                        got matches Some((w, end)) && a.enc() == v.0.enc() && w.enc() == v.1.enc()) by {
                        lemma_split(data@, pos as int, v.0.enc().unwrap(), v.1.enc().unwrap());
                        assert(starts_with(data@, pos as int, v.0.enc().unwrap()));
                        assert(a.enc() == v.0.enc());
                        assert(mid == pos + v.0.enc().unwrap().len());
                        assert(starts_with(data@, mid as int, v.1.enc().unwrap()));
                    }
                }
                match got {
                    Some((b, end)) => {
                        proof {
                            lemma_ranges(data@, pos as int, mid as int, end as int);
                            assert forall|v: (A, B)|
                                v.enc() is Some && #[trigger] starts_with(data@, pos as int, v.enc().unwrap()) implies (a, b).enc() == v.enc() by {
                                assert(a.enc() == v.0.enc() && b.enc() == v.1.enc());
                            }
                        }
                        Some(((a, b), end))
                    },
                    None => None,
                }
            },
            None => {
                proof {
                    assert forall|v: (A, B)|
                        v.enc() is Some && #[trigger] starts_with(data@, pos as int, v.enc().unwrap()) implies false by {
                        lemma_split(data@, pos as int, v.0.enc().unwrap(), v.1.enc().unwrap());
                        assert(starts_with(data@, pos as int, v.0.enc().unwrap()));
                    }
                }
                None
            },
        }
    }
}

/// The tag that the encoding of a payload begins with.
pub open spec fn payload_tag(p: Payload<String>) -> u8 {
    match p {
        Payload::Unit => 0,
        Payload::Tuple(_) => 1,
        Payload::Struct(_) => 2,
    }
}

/// The encoding of a payload after its tag.
pub open spec fn payload_body(p: Payload<String>) -> Option<Seq<u8>> {
    match p {
        Payload::Unit => Some(Seq::empty()),
        Payload::Tuple(rs) => enc_list(rs@),
        Payload::Struct(fs) => enc_list(fs@),
    }
}

/// The tag that the encoding of a declaration begins with.
pub open spec fn decl_tag(d: Declaration) -> u8 {
    match d {
        Shape::Primitive => 0,
        Shape::Struct(_) => 1,
        Shape::Enum(_) => 2,
        Shape::Sequence(_) => 3,
        Shape::SetOf(_) => 4,
        Shape::MapOf(_, _) => 5,
        Shape::Option(_) => 6,
        Shape::Tuple(_) => 7,
    }
}

/// The encoding of a declaration after its tag.
pub open spec fn decl_body(d: Declaration) -> Option<Seq<u8>> {
    match d {
        Shape::Primitive => Some(Seq::empty()),
        Shape::Struct(fs) => enc_list(fs@),
        Shape::Enum(vs) => enc_list(vs@),
        Shape::Sequence(r) => enc_str(r@),
        Shape::SetOf(r) => enc_str(r@),
        Shape::MapOf(k, v) => join(enc_str(k@), enc_str(v@)),
        Shape::Option(r) => enc_str(r@),
        Shape::Tuple(rs) => enc_list(rs@),
    }
}

proof fn lemma_payload_head(v: Payload<String>, data: Seq<u8>, pos: int)
    ensures
        v.enc() == join(tag(payload_tag(v)), payload_body(v)),
        v.enc() is Some && starts_with(data, pos, v.enc().unwrap()) ==> pos < data.len() && data[pos]
            == payload_tag(v) && starts_with(data, pos + 1, payload_body(v).unwrap()),
{
    if let Payload::Unit = v {
        assert(seq![0u8] + Seq::<u8>::empty() =~= seq![0u8]);
    }
    if v.enc() is Some && starts_with(data, pos, v.enc().unwrap()) {
        lemma_split(data, pos, seq![payload_tag(v)], payload_body(v).unwrap());
        assert(data.subrange(pos, pos + 1)[0] == data[pos]);
    }
}

proof fn lemma_decl_head(v: Declaration, data: Seq<u8>, pos: int)
    ensures
        v.enc() == join(tag(decl_tag(v)), decl_body(v)),
        v.enc() is Some && starts_with(data, pos, v.enc().unwrap()) ==> pos < data.len() && data[pos]
            == decl_tag(v) && starts_with(data, pos + 1, decl_body(v).unwrap()),
{
    if let Shape::Primitive = v {
        assert(seq![0u8] + Seq::<u8>::empty() =~= seq![0u8]);
    }
    if v.enc() is Some && starts_with(data, pos, v.enc().unwrap()) {
        lemma_split(data, pos, seq![decl_tag(v)], decl_body(v).unwrap());
        assert(data.subrange(pos, pos + 1)[0] == data[pos]);
    }
}

fn read_payload_0(data: &[u8], pos: usize) -> (r: Option<(Payload<String>, usize)>)
    requires
        pos < data@.len(),
        data@[pos as int] == 0u8,
    ensures
        r matches Some((v, end)) ==> pos <= end <= data@.len() && v.enc() == Some(
            data@.subrange(pos as int, end as int),
        ),
        forall|v: Payload<String>|
            v.enc() is Some && #[trigger] starts_with(data@, pos as int, v.enc().unwrap()) ==> (
            r matches Some((w, end)) && w.enc() == v.enc()),
{
    let _len = data.len();
    let start = pos + 1;
    proof {
        assert forall|v: Payload<String>| v.enc() is Some && #[trigger] starts_with(data@, pos as int, v.enc().unwrap()) implies payload_tag(v) == 0u8
            && starts_with(data@, start as int, payload_body(v).unwrap()) by {
            lemma_payload_head(v, data@, pos as int);
        }
    }
    proof {
        assert(data@.subrange(pos as int, start as int) =~= seq![0u8]);
        assert forall|v: Payload<String>| v.enc() is Some && #[trigger] starts_with(data@, pos as int, v.enc().unwrap()) implies Payload::Unit.enc() == v.enc() by {
            lemma_payload_head(v, data@, pos as int);
            lemma_payload_head(Payload::Unit, data@, pos as int);
        }
    }
    Some((Payload::Unit, start))
}

fn read_payload_1(data: &[u8], pos: usize) -> (r: Option<(Payload<String>, usize)>)
    requires
        pos < data@.len(),
        data@[pos as int] == 1u8,
    ensures
        r matches Some((v, end)) ==> pos <= end <= data@.len() && v.enc() == Some(
            data@.subrange(pos as int, end as int),
        ),
        forall|v: Payload<String>|
            v.enc() is Some && #[trigger] starts_with(data@, pos as int, v.enc().unwrap()) ==> (
            r matches Some((w, end)) && w.enc() == v.enc()),
{
    let _len = data.len();
    let start = pos + 1;
    proof {
        assert forall|v: Payload<String>| v.enc() is Some && #[trigger] starts_with(data@, pos as int, v.enc().unwrap()) implies payload_tag(v) == 1u8
            && starts_with(data@, start as int, payload_body(v).unwrap()) by {
            lemma_payload_head(v, data@, pos as int);
        }
    }
    match read_list::<String>(data, start) {
        Some((w, end)) => {
            let d = Payload::Tuple(w);
            proof {
                lemma_ranges(data@, pos as int, start as int, end as int);
                assert(data@.subrange(pos as int, start as int) =~= seq![1u8]);
                lemma_payload_head(d, data@, pos as int);
                assert forall|v: Payload<String>| v.enc() is Some && #[trigger] starts_with(data@, pos as int, v.enc().unwrap()) implies d.enc() == v.enc() by {
                    lemma_payload_head(v, data@, pos as int);
                    if let Payload::Tuple(x) = v {
                    assert(starts_with(data@, start as int, enc_list(x@).unwrap()));
                }
                }
            }
            Some((d, end))
        },
        None => {
            proof {
                assert forall|v: Payload<String>| v.enc() is Some && #[trigger] starts_with(data@, pos as int, v.enc().unwrap()) implies false by {
                    lemma_payload_head(v, data@, pos as int);
                    if let Payload::Tuple(x) = v {
                    assert(starts_with(data@, start as int, enc_list(x@).unwrap()));
                }
                }
            }
            None
        },
    }
}

fn read_payload_2(data: &[u8], pos: usize) -> (r: Option<(Payload<String>, usize)>)
    requires
        pos < data@.len(),
        data@[pos as int] == 2u8,
    ensures
        r matches Some((v, end)) ==> pos <= end <= data@.len() && v.enc() == Some(
            data@.subrange(pos as int, end as int),
        ),
        forall|v: Payload<String>|
            v.enc() is Some && #[trigger] starts_with(data@, pos as int, v.enc().unwrap()) ==> (
            r matches Some((w, end)) && w.enc() == v.enc()),
{
    let _len = data.len();
    let start = pos + 1;
    proof {
        assert forall|v: Payload<String>| v.enc() is Some && #[trigger] starts_with(data@, pos as int, v.enc().unwrap()) implies payload_tag(v) == 2u8
            && starts_with(data@, start as int, payload_body(v).unwrap()) by {
            lemma_payload_head(v, data@, pos as int);
        }
    }
    match read_list::<(String, String)>(data, start) {
        Some((w, end)) => {
            let d = Payload::Struct(w);
            proof {
                lemma_ranges(data@, pos as int, start as int, end as int);
                assert(data@.subrange(pos as int, start as int) =~= seq![2u8]);
                lemma_payload_head(d, data@, pos as int);
                assert forall|v: Payload<String>| v.enc() is Some && #[trigger] starts_with(data@, pos as int, v.enc().unwrap()) implies d.enc() == v.enc() by {
                    lemma_payload_head(v, data@, pos as int);
                    if let Payload::Struct(x) = v {
                    assert(starts_with(data@, start as int, enc_list(x@).unwrap()));
                }
                }
            }
            Some((d, end))
        },
        None => {
            proof {
                assert forall|v: Payload<String>| v.enc() is Some && #[trigger] starts_with(data@, pos as int, v.enc().unwrap()) implies false by {
                    lemma_payload_head(v, data@, pos as int);
                    if let Payload::Struct(x) = v {
                    assert(starts_with(data@, start as int, enc_list(x@).unwrap()));
                }
                }
            }
            None
        },
    }
}

impl Decode for Payload<String> {
    fn read(data: &[u8], pos: usize) -> (r: Option<(Payload<String>, usize)>) {
        if pos >= data.len() {
            proof {
                assert forall|v: Payload<String>| v.enc() is Some && #[trigger] starts_with(data@, pos as int, v.enc().unwrap()) implies false by {
                    lemma_payload_head(v, data@, pos as int);
                }
            }
            return None;
        }
        let t = data[pos];
        if t == 0 {
            read_payload_0(data, pos)
        } else if t == 1 {
            read_payload_1(data, pos)
        } else if t == 2 {
            read_payload_2(data, pos)
        } else {
            proof {
                assert forall|v: Payload<String>| v.enc() is Some && #[trigger] starts_with(data@, pos as int, v.enc().unwrap()) implies false by {
                    lemma_payload_head(v, data@, pos as int);
                }
            }
            None
        }
    }
}

fn read_decl_0(data: &[u8], pos: usize) -> (r: Option<(Declaration, usize)>)
    requires
        pos < data@.len(),
        data@[pos as int] == 0u8,
    ensures
        r matches Some((v, end)) ==> pos <= end <= data@.len() && v.enc() == Some(
            data@.subrange(pos as int, end as int),
        ),
        forall|v: Declaration|
            v.enc() is Some && #[trigger] starts_with(data@, pos as int, v.enc().unwrap()) ==> (
            r matches Some((w, end)) && w.enc() == v.enc()),
{
    let _len = data.len();
    let start = pos + 1;
    proof {
        assert forall|v: Declaration| v.enc() is Some && #[trigger] starts_with(data@, pos as int, v.enc().unwrap()) implies decl_tag(v) == 0u8
            && starts_with(data@, start as int, decl_body(v).unwrap()) by {
            lemma_decl_head(v, data@, pos as int);
        }
    }
    proof {
        assert(data@.subrange(pos as int, start as int) =~= seq![0u8]);
        assert forall|v: Declaration| v.enc() is Some && #[trigger] starts_with(data@, pos as int, v.enc().unwrap()) implies Shape::Primitive.enc() == v.enc() by {
            lemma_decl_head(v, data@, pos as int);
            lemma_decl_head(Shape::Primitive, data@, pos as int);
        }
    }
    Some((Shape::Primitive, start))
}

fn read_decl_1(data: &[u8], pos: usize) -> (r: Option<(Declaration, usize)>)
    requires
        pos < data@.len(),
        data@[pos as int] == 1u8,
    ensures
        r matches Some((v, end)) ==> pos <= end <= data@.len() && v.enc() == Some(
            data@.subrange(pos as int, end as int),
        ),
        forall|v: Declaration|
            v.enc() is Some && #[trigger] starts_with(data@, pos as int, v.enc().unwrap()) ==> (
            r matches Some((w, end)) && w.enc() == v.enc()),
{
    let _len = data.len();
    let start = pos + 1;
    proof {
        assert forall|v: Declaration| v.enc() is Some && #[trigger] starts_with(data@, pos as int, v.enc().unwrap()) implies decl_tag(v) == 1u8
            && starts_with(data@, start as int, decl_body(v).unwrap()) by {
            lemma_decl_head(v, data@, pos as int);
        }
    }
    match read_list::<(String, String)>(data, start) {
        Some((w, end)) => {
            let d = Shape::Struct(w);
            proof {
                lemma_ranges(data@, pos as int, start as int, end as int);
                assert(data@.subrange(pos as int, start as int) =~= seq![1u8]);
                lemma_decl_head(d, data@, pos as int);
                assert forall|v: Declaration| v.enc() is Some && #[trigger] starts_with(data@, pos as int, v.enc().unwrap()) implies d.enc() == v.enc() by {
                    lemma_decl_head(v, data@, pos as int);
                    if let Shape::Struct(x) = v {
                    assert(starts_with(data@, start as int, enc_list(x@).unwrap()));
                }
                }
            }
            Some((d, end))
        },
        None => {
            proof {
                assert forall|v: Declaration| v.enc() is Some && #[trigger] starts_with(data@, pos as int, v.enc().unwrap()) implies false by {
                    lemma_decl_head(v, data@, pos as int);
                    if let Shape::Struct(x) = v {
                    assert(starts_with(data@, start as int, enc_list(x@).unwrap()));
                }
                }
            }
            None
        },
    }
}

fn read_decl_2(data: &[u8], pos: usize) -> (r: Option<(Declaration, usize)>)
    requires
        pos < data@.len(),
        data@[pos as int] == 2u8,
    ensures
        r matches Some((v, end)) ==> pos <= end <= data@.len() && v.enc() == Some(
            data@.subrange(pos as int, end as int),
        ),
        forall|v: Declaration|
            v.enc() is Some && #[trigger] starts_with(data@, pos as int, v.enc().unwrap()) ==> (
            r matches Some((w, end)) && w.enc() == v.enc()),
{
    let _len = data.len();
    let start = pos + 1;
    proof {
        assert forall|v: Declaration| v.enc() is Some && #[trigger] starts_with(data@, pos as int, v.enc().unwrap()) implies decl_tag(v) == 2u8
            && starts_with(data@, start as int, decl_body(v).unwrap()) by {
            lemma_decl_head(v, data@, pos as int);
        }
    }
    match read_list::<(String, Payload<String>)>(data, start) {
        Some((w, end)) => {
            let d = Shape::Enum(w);
            proof {
                lemma_ranges(data@, pos as int, start as int, end as int);
                assert(data@.subrange(pos as int, start as int) =~= seq![2u8]);
                lemma_decl_head(d, data@, pos as int);
                assert forall|v: Declaration| v.enc() is Some && #[trigger] starts_with(data@, pos as int, v.enc().unwrap()) implies d.enc() == v.enc() by {
                    lemma_decl_head(v, data@, pos as int);
                    if let Shape::Enum(x) = v {
                    assert(starts_with(data@, start as int, enc_list(x@).unwrap()));
                }
                }
            }
            Some((d, end))
        },
        None => {
            proof {
                assert forall|v: Declaration| v.enc() is Some && #[trigger] starts_with(data@, pos as int, v.enc().unwrap()) implies false by {
                    lemma_decl_head(v, data@, pos as int);
                    if let Shape::Enum(x) = v {
                    assert(starts_with(data@, start as int, enc_list(x@).unwrap()));
                }
                }
            }
            None
        },
    }
}

fn read_decl_3(data: &[u8], pos: usize) -> (r: Option<(Declaration, usize)>)
    requires
        pos < data@.len(),
        data@[pos as int] == 3u8,
    ensures
        r matches Some((v, end)) ==> pos <= end <= data@.len() && v.enc() == Some(
            data@.subrange(pos as int, end as int),
        ),
        forall|v: Declaration|
            v.enc() is Some && #[trigger] starts_with(data@, pos as int, v.enc().unwrap()) ==> (
            r matches Some((w, end)) && w.enc() == v.enc()),
{
    let _len = data.len();
    let start = pos + 1;
    proof {
        assert forall|v: Declaration| v.enc() is Some && #[trigger] starts_with(data@, pos as int, v.enc().unwrap()) implies decl_tag(v) == 3u8
            && starts_with(data@, start as int, decl_body(v).unwrap()) by {
            lemma_decl_head(v, data@, pos as int);
        }
    }
    match <String as Decode>::read(data, start) {
        Some((w, end)) => {
            let d = Shape::Sequence(w);
            proof {
                lemma_ranges(data@, pos as int, start as int, end as int);
                assert(data@.subrange(pos as int, start as int) =~= seq![3u8]);
                lemma_decl_head(d, data@, pos as int);
                assert forall|v: Declaration| v.enc() is Some && #[trigger] starts_with(data@, pos as int, v.enc().unwrap()) implies d.enc() == v.enc() by {
                    lemma_decl_head(v, data@, pos as int);
                    if let Shape::Sequence(x) = v {
                    assert(starts_with(data@, start as int, x.enc().unwrap()));
                }
                }
            }
            Some((d, end))
        },
        None => {
            proof {
                assert forall|v: Declaration| v.enc() is Some && #[trigger] starts_with(data@, pos as int, v.enc().unwrap()) implies false by {
                    lemma_decl_head(v, data@, pos as int);
                    if let Shape::Sequence(x) = v {
                    assert(starts_with(data@, start as int, x.enc().unwrap()));
                }
                }
            }
            None
        },
    }
}

fn read_decl_4(data: &[u8], pos: usize) -> (r: Option<(Declaration, usize)>)
    requires
        pos < data@.len(),
        data@[pos as int] == 4u8,
    ensures
        r matches Some((v, end)) ==> pos <= end <= data@.len() && v.enc() == Some(
            data@.subrange(pos as int, end as int),
        ),
        forall|v: Declaration|
            v.enc() is Some && #[trigger] starts_with(data@, pos as int, v.enc().unwrap()) ==> (
            r matches Some((w, end)) && w.enc() == v.enc()),
{
    let _len = data.len();
    let start = pos + 1;
    proof {
        assert forall|v: Declaration| v.enc() is Some && #[trigger] starts_with(data@, pos as int, v.enc().unwrap()) implies decl_tag(v) == 4u8
            && starts_with(data@, start as int, decl_body(v).unwrap()) by {
            lemma_decl_head(v, data@, pos as int);
        }
    }
    match <String as Decode>::read(data, start) {
        Some((w, end)) => {
            let d = Shape::SetOf(w);
            proof {
                lemma_ranges(data@, pos as int, start as int, end as int);
                assert(data@.subrange(pos as int, start as int) =~= seq![4u8]);
                lemma_decl_head(d, data@, pos as int);
                assert forall|v: Declaration| v.enc() is Some && #[trigger] starts_with(data@, pos as int, v.enc().unwrap()) implies d.enc() == v.enc() by {
                    lemma_decl_head(v, data@, pos as int);
                    if let Shape::SetOf(x) = v {
                    assert(starts_with(data@, start as int, x.enc().unwrap()));
                }
                }
            }
            Some((d, end))
        },
        None => {
            proof {
                assert forall|v: Declaration| v.enc() is Some && #[trigger] starts_with(data@, pos as int, v.enc().unwrap()) implies false by {
                    lemma_decl_head(v, data@, pos as int);
                    if let Shape::SetOf(x) = v {
                    assert(starts_with(data@, start as int, x.enc().unwrap()));
                }
                }
            }
            None
        },
    }
}

fn read_decl_5(data: &[u8], pos: usize) -> (r: Option<(Declaration, usize)>)
    requires
        pos < data@.len(),
        data@[pos as int] == 5u8,
    ensures
        r matches Some((v, end)) ==> pos <= end <= data@.len() && v.enc() == Some(
            data@.subrange(pos as int, end as int),
        ),
        forall|v: Declaration|
            v.enc() is Some && #[trigger] starts_with(data@, pos as int, v.enc().unwrap()) ==> (
            r matches Some((w, end)) && w.enc() == v.enc()),
{
    let _len = data.len();
    let start = pos + 1;
    proof {
        assert forall|v: Declaration| v.enc() is Some && #[trigger] starts_with(data@, pos as int, v.enc().unwrap()) implies decl_tag(v) == 5u8
            && starts_with(data@, start as int, decl_body(v).unwrap()) by {
            lemma_decl_head(v, data@, pos as int);
        }
    }
    match <(String, String) as Decode>::read(data, start) {
        Some((w, end)) => {
            let d = Shape::MapOf(w.0, w.1);
            proof {
                lemma_ranges(data@, pos as int, start as int, end as int);
                assert(data@.subrange(pos as int, start as int) =~= seq![5u8]);
                lemma_decl_head(d, data@, pos as int);
                assert forall|v: Declaration| v.enc() is Some && #[trigger] starts_with(data@, pos as int, v.enc().unwrap()) implies d.enc() == v.enc() by {
                    lemma_decl_head(v, data@, pos as int);
                    if let Shape::MapOf(k, x) = v {
                    assert((k, x).enc() == decl_body(v));
                    assert(starts_with(data@, start as int, (k, x).enc().unwrap()));
                }
                }
            }
            Some((d, end))
        },
        None => {
            proof {
                assert forall|v: Declaration| v.enc() is Some && #[trigger] starts_with(data@, pos as int, v.enc().unwrap()) implies false by {
                    lemma_decl_head(v, data@, pos as int);
                    if let Shape::MapOf(k, x) = v {
                    assert((k, x).enc() == decl_body(v));
                    assert(starts_with(data@, start as int, (k, x).enc().unwrap()));
                }
                }
            }
            None
        },
    }
}

fn read_decl_6(data: &[u8], pos: usize) -> (r: Option<(Declaration, usize)>)
    requires
        pos < data@.len(),
        data@[pos as int] == 6u8,
    ensures
        r matches Some((v, end)) ==> pos <= end <= data@.len() && v.enc() == Some(
            data@.subrange(pos as int, end as int),
        ),
        forall|v: Declaration|
            v.enc() is Some && #[trigger] starts_with(data@, pos as int, v.enc().unwrap()) ==> (
            r matches Some((w, end)) && w.enc() == v.enc()),
{
    let _len = data.len();
    let start = pos + 1;
    proof {
        assert forall|v: Declaration| v.enc() is Some && #[trigger] starts_with(data@, pos as int, v.enc().unwrap()) implies decl_tag(v) == 6u8
            && starts_with(data@, start as int, decl_body(v).unwrap()) by {
            lemma_decl_head(v, data@, pos as int);
        }
    }
    match <String as Decode>::read(data, start) {
        Some((w, end)) => {
            let d = Shape::Option(w);
            proof {
                lemma_ranges(data@, pos as int, start as int, end as int);
                assert(data@.subrange(pos as int, start as int) =~= seq![6u8]);
                lemma_decl_head(d, data@, pos as int);
                assert forall|v: Declaration| v.enc() is Some && #[trigger] starts_with(data@, pos as int, v.enc().unwrap()) implies d.enc() == v.enc() by {
                    lemma_decl_head(v, data@, pos as int);
                    if let Shape::Option(x) = v {
                    assert(starts_with(data@, start as int, x.enc().unwrap()));
                }
                }
            }
            Some((d, end))
        },
        None => {
            proof {
                assert forall|v: Declaration| v.enc() is Some && #[trigger] starts_with(data@, pos as int, v.enc().unwrap()) implies false by {
                    lemma_decl_head(v, data@, pos as int);
                    if let Shape::Option(x) = v {
                    assert(starts_with(data@, start as int, x.enc().unwrap()));
                }
                }
            }
            None
        },
    }
}

fn read_decl_7(data: &[u8], pos: usize) -> (r: Option<(Declaration, usize)>)
    requires
        pos < data@.len(),
        data@[pos as int] == 7u8,
    ensures
        r matches Some((v, end)) ==> pos <= end <= data@.len() && v.enc() == Some(
            data@.subrange(pos as int, end as int),
        ),
        forall|v: Declaration|
            v.enc() is Some && #[trigger] starts_with(data@, pos as int, v.enc().unwrap()) ==> (
            r matches Some((w, end)) && w.enc() == v.enc()),
{
    let _len = data.len();
    let start = pos + 1;
    proof {
        assert forall|v: Declaration| v.enc() is Some && #[trigger] starts_with(data@, pos as int, v.enc().unwrap()) implies decl_tag(v) == 7u8
            && starts_with(data@, start as int, decl_body(v).unwrap()) by {
            lemma_decl_head(v, data@, pos as int);
        }
    }
    match read_list::<String>(data, start) {
        Some((w, end)) => {
            let d = Shape::Tuple(w);
            proof {
                lemma_ranges(data@, pos as int, start as int, end as int);
                assert(data@.subrange(pos as int, start as int) =~= seq![7u8]);
                lemma_decl_head(d, data@, pos as int);
                assert forall|v: Declaration| v.enc() is Some && #[trigger] starts_with(data@, pos as int, v.enc().unwrap()) implies d.enc() == v.enc() by {
                    lemma_decl_head(v, data@, pos as int);
                    if let Shape::Tuple(x) = v {
                    assert(starts_with(data@, start as int, enc_list(x@).unwrap()));
                }
                }
            }
            Some((d, end))
        },
        None => {
            proof {
                assert forall|v: Declaration| v.enc() is Some && #[trigger] starts_with(data@, pos as int, v.enc().unwrap()) implies false by {
                    lemma_decl_head(v, data@, pos as int);
                    if let Shape::Tuple(x) = v {
                    assert(starts_with(data@, start as int, enc_list(x@).unwrap()));
                }
                }
            }
            None
        },
    }
}

impl Decode for Declaration {
    fn read(data: &[u8], pos: usize) -> (r: Option<(Declaration, usize)>) {
        if pos >= data.len() {
            proof {
                assert forall|v: Declaration| v.enc() is Some && #[trigger] starts_with(data@, pos as int, v.enc().unwrap()) implies false by {
                    lemma_decl_head(v, data@, pos as int);
                }
            }
            return None;
        }
        let t = data[pos];
        if t == 0 {
            read_decl_0(data, pos)
        } else if t == 1 {
            read_decl_1(data, pos)
        } else if t == 2 {
            read_decl_2(data, pos)
        } else if t == 3 {
            read_decl_3(data, pos)
        } else if t == 4 {
            read_decl_4(data, pos)
        } else if t == 5 {
            read_decl_5(data, pos)
        } else if t == 6 {
            read_decl_6(data, pos)
        } else if t == 7 {
            read_decl_7(data, pos)
        } else {
            proof {
                assert forall|v: Declaration| v.enc() is Some && #[trigger] starts_with(data@, pos as int, v.enc().unwrap()) implies false by {
                    lemma_decl_head(v, data@, pos as int);
                }
            }
            None
        }
    }
}

/// Reads a container back from its canonical encoding. A container that is
/// read encodes to exactly `data`, and where `data` is the encoding of some
/// container, one is read: decoding encoded bytes and encoding again gives
/// those bytes back.
#[verifier::rlimit(50)]
pub fn decode(data: &[u8]) -> (r: Option<SchemaContainer>)
    ensures
        r matches Some(c) ==> enc_container(c) == Some(data@),
        forall|c: SchemaContainer| #[trigger] enc_container(c) == Some(data@) ==> r is Some,
{
    let _len = data.len();
    let (root, mid) = match <String as Decode>::read(data, 0) {
        Some(x) => x,
        None => {
            proof {
                assert forall|c: SchemaContainer| #[trigger] enc_container(c) == Some(data@) implies false by {
                    assert(data@.subrange(0, data@.len() as int) =~= data@);
                    lemma_split(data@, 0, c.root.enc().unwrap(), enc_list(c.entries@).unwrap());
                }
            }
            return None;
        },
    };
    let got = read_list::<(String, Declaration)>(data, mid);
    proof {
        assert forall|c: SchemaContainer| #[trigger] enc_container(c) == Some(data@) implies (got matches Some((w, end)) && enc_list(w@) == enc_list(c.entries@) && end == data.len() && root.enc() == c.root.enc()) by {
            assert(data@.subrange(0, data@.len() as int) =~= data@);
            lemma_split(data@, 0, c.root.enc().unwrap(), enc_list(c.entries@).unwrap());
            assert(root.enc() == c.root.enc());
            assert(starts_with(data@, mid as int, enc_list(c.entries@).unwrap()));
        }
    }
    match got {
        Some((entries, end)) => {
            if end != data.len() {
                return None;
            }
            proof {
                lemma_ranges(data@, 0, mid as int, end as int);
                assert(data@.subrange(0, data@.len() as int) =~= data@);
            }
            Some(SchemaContainer { root, entries })
        },
        None => None,
    }
}

} // verus!
