use vstd::prelude::*;
use vstd::string::StringSliceAdditionalSpecFns;
use vstd::utf8::encode_utf8;

use crate::model::{Declaration, Payload, SchemaContainer, SchemaError, Shape};

verus! {

/// The four little-endian bytes of `n`.
pub open spec fn u32_le(n: u32) -> Seq<u8> {
    seq![
        (n % 256) as u8,
        ((n / 256) % 256) as u8,
        ((n / 65536) % 256) as u8,
        ((n / 16777216) % 256) as u8,
    ]
}

/// Both parts, one after the other, where both exist.
pub open spec fn join(a: Option<Seq<u8>>, b: Option<Seq<u8>>) -> Option<Seq<u8>> {
    match (a, b) {
        (Some(x), Some(y)) => Some(x + y),
        _ => None,
    }
}

/// A length prefix; none where the length does not fit in 32 bits.
pub open spec fn enc_len(n: nat) -> Option<Seq<u8>> {
    if n <= u32::MAX {
        Some(u32_le(n as u32))
    } else {
        None
    }
}

/// A string: its UTF-8 byte length, then its UTF-8 bytes.
pub open spec fn enc_str(s: Seq<char>) -> Option<Seq<u8>> {
    join(enc_len(encode_utf8(s).len()), Some(encode_utf8(s)))
}

pub open spec fn tag(t: u8) -> Option<Seq<u8>> {
    Some(seq![t])
}

/// Something that has a canonical encoding, and can write it.
pub trait Encode: Sized {
    spec fn enc(&self) -> Option<Seq<u8>>;

    fn write(&self, out: &mut Vec<u8>) -> (ok: bool)
        ensures
            ok == self.enc() is Some,
            ok ==> final(out)@ == old(out)@ + self.enc().unwrap(),
    ;
}

/// The encodings of the items, one after another.
pub open spec fn enc_items<T: Encode>(s: Seq<T>) -> Option<Seq<u8>>
    decreases s.len(),
{
    if s.len() == 0 {
        Some(Seq::empty())
    } else {
        join(enc_items(s.drop_last()), s.last().enc())
    }
}

/// A list: its length, then its items.
pub open spec fn enc_list<T: Encode>(s: Seq<T>) -> Option<Seq<u8>> {
    join(enc_len(s.len()), enc_items(s))
}

proof fn lemma_items_prefix_fails<T: Encode>(s: Seq<T>, i: int)
    requires
        0 <= i <= s.len(),
        enc_items(s.take(i)) is None,
    ensures
        enc_items(s) is None,
    decreases s.len() - i,
{
    if i < s.len() {
        assert(s.take(i + 1).drop_last() =~= s.take(i));
        lemma_items_prefix_fails(s, i + 1);
    } else {
        assert(s.take(i) =~= s);
    }
}

fn push_tag(out: &mut Vec<u8>, t: u8)
    ensures
        final(out)@ == old(out)@ + tag(t).unwrap(),
{
    out.push(t);
    assert(final(out)@ =~= old(out)@ + seq![t]);
}

/// Relies on borsh's encoding of a `u32` (`to_le_bytes`): its four
/// little-endian bytes. Writing into a `Vec` does not fail.
#[verifier::external_body]
fn borsh_u32(n: u32) -> (r: Vec<u8>)
    ensures
        r@ == u32_le(n),
{
    borsh::to_vec(&n).unwrap_or_default()
}

/// Relies on borsh's encoding of a `str`: the byte length as a little-endian
/// `u32`, then the UTF-8 bytes; an error where the length does not fit in a
/// `u32`, the only error when writing into a `Vec`.
#[verifier::external_body]
fn borsh_str(s: &str) -> (r: Option<Vec<u8>>)
    ensures
        r is Some <==> s.spec_bytes().len() <= u32::MAX,
        r matches Some(v) ==> v@ == u32_le(s.spec_bytes().len() as u32) + s.spec_bytes(),
{
    borsh::to_vec(s).ok()
}

fn write_len(out: &mut Vec<u8>, n: usize) -> (ok: bool)
    ensures
        ok == enc_len(n as nat) is Some,
        ok ==> final(out)@ == old(out)@ + enc_len(n as nat).unwrap(),
{
    if n > u32::MAX as usize {
        return false;
    }
    let mut b = borsh_u32(n as u32);
    out.append(&mut b);
    true
}

fn write_str(out: &mut Vec<u8>, s: &String) -> (ok: bool)
    ensures
        ok == enc_str(s@) is Some,
        ok ==> final(out)@ == old(out)@ + enc_str(s@).unwrap(),
{
    match borsh_str(s.as_str()) {
        Some(mut b) => {
            out.append(&mut b);
            assert(final(out)@ =~= old(out)@ + enc_str(s@).unwrap());
            true
        },
        None => false,
    }
}

fn write_items<T: Encode>(out: &mut Vec<u8>, items: &Vec<T>) -> (ok: bool)
    ensures
        ok == enc_items(items@) is Some,
        ok ==> final(out)@ == old(out)@ + enc_items(items@).unwrap(),
{
    let n = items.len();
    let mut i: usize = 0;
    assert(items@.take(0) =~= Seq::<T>::empty());
    while i < n
        invariant
            n == items@.len(),
            0 <= i <= n,
            enc_items(items@.take(i as int)) is Some,
            out@ == old(out)@ + enc_items(items@.take(i as int)).unwrap(),
        decreases n - i,
    {
        assert(items@.take(i as int + 1).drop_last() =~= items@.take(i as int));
        assert(items@.take(i as int + 1).last() == items@[i as int]);
        let ghost before = out@;
        if !items[i].write(out) {
            proof {
                lemma_items_prefix_fails(items@, i as int + 1);
            }
            return false;
        }
        i += 1;
        assert(out@ =~= old(out)@ + enc_items(items@.take(i as int)).unwrap());
    }
    assert(items@.take(n as int) =~= items@);
    true
}

fn write_list<T: Encode>(out: &mut Vec<u8>, items: &Vec<T>) -> (ok: bool)
    ensures
        ok == enc_list(items@) is Some,
        ok ==> final(out)@ == old(out)@ + enc_list(items@).unwrap(),
{
    if !write_len(out, items.len()) {
        return false;
    }
    let ghost mid = out@;
    let ok = write_items(out, items);
    assert(ok ==> out@ =~= old(out)@ + enc_list(items@).unwrap());
    ok
}

impl Encode for String {
    open spec fn enc(&self) -> Option<Seq<u8>> {
        enc_str(self@)
    }

    fn write(&self, out: &mut Vec<u8>) -> (ok: bool) {
        write_str(out, self)
    }
}

impl<A: Encode, B: Encode> Encode for (A, B) {
    open spec fn enc(&self) -> Option<Seq<u8>> {
        join(self.0.enc(), self.1.enc())
    }

    fn write(&self, out: &mut Vec<u8>) -> (ok: bool) {
        if !self.0.write(out) {
            return false;
        }
        let ok = self.1.write(out);
        assert(ok ==> out@ =~= old(out)@ + self.enc().unwrap());
        ok
    }
}

impl Encode for Payload<String> {
    /// Tag 0 for a unit variant, 1 for a tuple, 2 for named fields.
    open spec fn enc(&self) -> Option<Seq<u8>> {
        match self {
            Payload::Unit => tag(0),
            Payload::Tuple(rs) => join(tag(1), enc_list(rs@)),
            Payload::Struct(fs) => join(tag(2), enc_list(fs@)),
        }
    }

    fn write(&self, out: &mut Vec<u8>) -> (ok: bool) {
        match self {
            Payload::Unit => {
                push_tag(out, 0);
                true
            },
            Payload::Tuple(rs) => {
                push_tag(out, 1);
                let ok = write_list(out, rs);
                assert(ok ==> out@ =~= old(out)@ + self.enc().unwrap());
                ok
            },
            Payload::Struct(fs) => {
                push_tag(out, 2);
                let ok = write_list(out, fs);
                assert(ok ==> out@ =~= old(out)@ + self.enc().unwrap());
                ok
            },
        }
    }
}

impl Encode for Declaration {
    /// A tag for the kind of shape, then its parts in their declared order.
    open spec fn enc(&self) -> Option<Seq<u8>> {
        match self {
            Shape::Primitive => tag(0),
            Shape::Struct(fs) => join(tag(1), enc_list(fs@)),
            Shape::Enum(vs) => join(tag(2), enc_list(vs@)),
            Shape::Sequence(r) => join(tag(3), enc_str(r@)),
            Shape::SetOf(r) => join(tag(4), enc_str(r@)),
            Shape::MapOf(k, v) => join(tag(5), join(enc_str(k@), enc_str(v@))),
            Shape::Option(r) => join(tag(6), enc_str(r@)),
            Shape::Tuple(rs) => join(tag(7), enc_list(rs@)),
        }
    }

    fn write(&self, out: &mut Vec<u8>) -> (ok: bool) {
        let ok = match self {
            Shape::Primitive => {
                push_tag(out, 0);
                true
            },
            Shape::Struct(fs) => {
                push_tag(out, 1);
                write_list(out, fs)
            },
            Shape::Enum(vs) => {
                push_tag(out, 2);
                write_list(out, vs)
            },
            Shape::Sequence(r) => {
                push_tag(out, 3);
                write_str(out, r)
            },
            Shape::SetOf(r) => {
                push_tag(out, 4);
                write_str(out, r)
            },
            Shape::MapOf(k, v) => {
                push_tag(out, 5);
                write_str(out, k) && write_str(out, v)
            },
            Shape::Option(r) => {
                push_tag(out, 6);
                write_str(out, r)
            },
            Shape::Tuple(rs) => {
                push_tag(out, 7);
                write_list(out, rs)
            },
        };
        assert(ok ==> out@ =~= old(out)@ + self.enc().unwrap());
        ok
    }
}

/// The canonical encoding of a container: the root's name, then the number
/// of declarations, then each declaration's name and shape in discovery order.
pub open spec fn enc_container(c: SchemaContainer) -> Option<Seq<u8>> {
    join(enc_str(c.root@), enc_list(c.entries@))
}

/// Encodes a container. Fails only where a name or a list is too long for its
/// 32-bit length prefix.
pub fn encode(c: &SchemaContainer) -> (r: Result<Vec<u8>, SchemaError>)
    ensures
        r is Ok <==> enc_container(*c) is Some,
        r matches Ok(b) ==> b@ == enc_container(*c).unwrap(),
        r matches Err(e) ==> e == SchemaError::UnsupportedShape,
{
    let mut out: Vec<u8> = Vec::new();
    if !write_str(&mut out, &c.root) {
        return Err(SchemaError::UnsupportedShape);
    }
    if !write_list(&mut out, &c.entries) {
        return Err(SchemaError::UnsupportedShape);
    }
    assert(out@ =~= enc_container(*c).unwrap());
    Ok(out)
}

} // verus!
