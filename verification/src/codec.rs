//! Byte-level encoding primitives for the record codec.
//!
//! Every record field is laid down as one of a handful of shapes: a
//! little-endian `u64`, a single tag byte, or a length-prefixed run of
//! bytes. Each shape has a spec-level encoder, an executable writer that
//! appends to a buffer, and an executable reader that consumes from an
//! offset. The readers' contracts state both soundness (whatever comes
//! back stood in the buffer as an encoding) and completeness (an encoding
//! present in the buffer is read back exactly), which together make the
//! codec's round trip provable.

use vstd::prelude::*;
use vstd::bytes::*;
use vstd::slice::slice_subrange;
use vstd::string::StringSliceAdditionalSpecFns;
use vstd::utf8::{encode_utf8, decode_utf8, valid_utf8};
use vstd::utf8::{encode_utf8_valid_utf8, encode_utf8_decode_utf8, decode_utf8_encode_utf8};

verus! {

/// The bytes `e` stand at offset `pos` of buffer `b`.
pub open spec fn enc_at(b: Seq<u8>, pos: int, e: Seq<u8>) -> bool {
    &&& 0 <= pos
    &&& pos + e.len() <= b.len()
    &&& b.subrange(pos, pos + e.len()) == e
}

/// Two encodings laid down one after the other can be addressed separately.
pub proof fn lemma_enc_at_split(b: Seq<u8>, pos: int, x: Seq<u8>, y: Seq<u8>)
    requires
        enc_at(b, pos, x + y),
    ensures
        enc_at(b, pos, x),
        enc_at(b, pos + x.len(), y),
{
    let xy = b.subrange(pos, pos + (x + y).len());
    assert(b.subrange(pos, pos + x.len()) =~= x) by {
        assert forall|i: int| 0 <= i < x.len() implies b.subrange(pos, pos + x.len())[i] == x[i] by {
            assert(xy[i] == x[i]);
            assert(b[pos + i] == xy[i]);
        }
    }
    assert(b.subrange(pos + x.len(), pos + x.len() + y.len()) =~= y) by {
        assert forall|i: int| 0 <= i < y.len() implies b.subrange(
            pos + x.len(),
            pos + x.len() + y.len(),
        )[i] == y[i] by {
            assert(xy[x.len() + i] == y[i]);
            assert(b[pos + x.len() + i] == xy[x.len() + i]);
        }
    }
}

/// Two adjacent encodings can be addressed as one.
pub proof fn lemma_enc_at_join(b: Seq<u8>, pos: int, x: Seq<u8>, y: Seq<u8>)
    requires
        enc_at(b, pos, x),
        enc_at(b, pos + x.len(), y),
    ensures
        enc_at(b, pos, x + y),
{
    assert(b.subrange(pos, pos + (x + y).len()) =~= x + y);
}

// ---------------------------------------------------------------------------
// u64, little endian, fixed width
// ---------------------------------------------------------------------------

/// A `u64` as its eight little-endian bytes.
pub open spec fn enc_u64(x: u64) -> Seq<u8> {
    spec_u64_to_le_bytes(x)
}

pub proof fn lemma_enc_u64(x: u64)
    ensures
        enc_u64(x).len() == 8,
        spec_u64_from_le_bytes(enc_u64(x)) == x,
{
    lemma_auto_spec_u64_to_from_le_bytes();
}

/// Only one `u64` can stand encoded at a given offset.
pub proof fn lemma_enc_u64_det(b: Seq<u8>, pos: int, x: u64, y: u64)
    requires
        enc_at(b, pos, enc_u64(x)),
        enc_at(b, pos, enc_u64(y)),
    ensures
        x == y,
{
    lemma_auto_spec_u64_to_from_le_bytes();
    assert(b.subrange(pos, pos + 8) == enc_u64(x));
    assert(b.subrange(pos, pos + 8) == enc_u64(y));
}

pub fn write_u64(out: &mut Vec<u8>, x: u64)
    ensures
        final(out)@ == old(out)@ + enc_u64(x),
{
    let mut bytes = u64_to_le_bytes(x);
    out.append(&mut bytes);
}

pub fn read_u64(buf: &Vec<u8>, pos: usize) -> (r: Option<(u64, usize)>)
    ensures
        r matches Some(p) ==> p.1 == pos + 8 && enc_at(buf@, pos as int, enc_u64(p.0)),
        pos + 8 <= buf@.len() ==> r is Some,
{
    proof {
        lemma_auto_spec_u64_to_from_le_bytes();
    }
    if pos <= buf.len() && buf.len() - pos >= 8 {
        let s = slice_subrange(buf.as_slice(), pos, pos + 8);
        let x = u64_from_le_bytes(s);
        proof {
            assert(buf@.subrange(pos as int, pos + 8) == s@);
            assert(spec_u64_to_le_bytes(spec_u64_from_le_bytes(s@)) == s@);
        }
        Some((x, pos + 8))
    } else {
        None
    }
}

// ---------------------------------------------------------------------------
// single tag byte
// ---------------------------------------------------------------------------

/// A `bool` as one byte, 1 for true and 0 for false.
pub open spec fn enc_bool(v: bool) -> Seq<u8> {
    seq![if v { 1u8 } else { 0u8 }]
}

pub fn write_bool(out: &mut Vec<u8>, v: bool)
    ensures
        final(out)@ == old(out)@ + enc_bool(v),
{
    out.push(if v { 1u8 } else { 0u8 });
    proof {
        assert(final(out)@ =~= old(out)@ + enc_bool(v));
    }
}

pub fn read_bool(buf: &Vec<u8>, pos: usize) -> (r: Option<(bool, usize)>)
    ensures
        r matches Some(p) ==> p.1 == pos + 1 && enc_at(buf@, pos as int, enc_bool(p.0)),
        (forall|v: bool| enc_at(buf@, pos as int, enc_bool(v)) ==> r is Some),
{
    if pos < buf.len() {
        let byte = buf[pos];
        if byte == 1u8 {
            proof {
                assert(buf@.subrange(pos as int, pos + 1) =~= enc_bool(true));
            }
            Some((true, pos + 1))
        } else if byte == 0u8 {
            proof {
                assert(buf@.subrange(pos as int, pos + 1) =~= enc_bool(false));
            }
            Some((false, pos + 1))
        } else {
            proof {
                assert forall|v: bool| !enc_at(buf@, pos as int, enc_bool(v)) by {
                    if enc_at(buf@, pos as int, enc_bool(v)) {
                        assert(buf@.subrange(pos as int, pos + 1)[0] == buf@[pos as int]);
                    }
                }
            }
            None
        }
    } else {
        None
    }
}

// ---------------------------------------------------------------------------
// length-prefixed byte runs
// ---------------------------------------------------------------------------

/// A run of bytes, prefixed by its length as a `u64`.
pub open spec fn enc_bytes(s: Seq<u8>) -> Seq<u8> {
    enc_u64(s.len() as u64) + s
}

/// Only one byte run can stand encoded at a given offset of a buffer
/// short enough that its length prefix is faithful.
pub proof fn lemma_enc_bytes_det(b: Seq<u8>, pos: int, s1: Seq<u8>, s2: Seq<u8>)
    requires
        b.len() < 0x1_0000_0000_0000_0000,
        enc_at(b, pos, enc_bytes(s1)),
        enc_at(b, pos, enc_bytes(s2)),
    ensures
        s1 == s2,
{
    lemma_enc_u64(s1.len() as u64);
    lemma_enc_u64(s2.len() as u64);
    lemma_enc_at_split(b, pos, enc_u64(s1.len() as u64), s1);
    lemma_enc_at_split(b, pos, enc_u64(s2.len() as u64), s2);
    lemma_enc_u64_det(b, pos, s1.len() as u64, s2.len() as u64);
    assert(s1.len() == s2.len());
    assert(s1 =~= s2) by {
        assert(b.subrange(pos + 8, pos + 8 + s1.len()) == s1);
        assert(b.subrange(pos + 8, pos + 8 + s2.len()) == s2);
    }
}

pub fn write_bytes(out: &mut Vec<u8>, data: &[u8])
    ensures
        final(out)@ == old(out)@ + enc_bytes(data@),
{
    write_u64(out, data.len() as u64);
    out.extend_from_slice(data);
    proof {
        assert(final(out)@ =~= old(out)@ + enc_bytes(data@));
    }
}

pub fn read_bytes(buf: &Vec<u8>, pos: usize) -> (r: Option<(Vec<u8>, usize)>)
    ensures
        r matches Some(p) ==> p.1 == pos + enc_bytes(p.0@).len()
            && enc_at(buf@, pos as int, enc_bytes(p.0@)),
        forall|s: Seq<u8>| enc_at(buf@, pos as int, enc_bytes(s))
            ==> (r matches Some(p) && p.0@ == s && p.1 == pos + enc_bytes(s).len()),
{
    let blen = buf.len();
    proof {
        assert forall|s: Seq<u8>| enc_at(buf@, pos as int, enc_bytes(s))
            implies pos + 8 <= buf@.len() && s.len() < 0x1_0000_0000_0000_0000
                && enc_at(buf@, pos as int, enc_u64(s.len() as u64))
                && enc_at(buf@, pos + 8, s) by {
            lemma_enc_u64(s.len() as u64);
            assert(s.len() <= blen);
            lemma_enc_at_split(buf@, pos as int, enc_u64(s.len() as u64), s);
        }
    }
    match read_u64(buf, pos) {
        None => None,
        Some((n, mid)) => {
            proof {
                lemma_enc_u64(n);
            }
            let remaining = blen - mid;
            if n <= remaining as u64 {
                let len = n as usize;
                let data = slice_subrange(buf.as_slice(), mid, mid + len);
                let v = vstd::slice::slice_to_vec(data);
                proof {
                    lemma_enc_u64(n);
                    assert(enc_at(buf@, pos + 8, v@));
                    assert(v@.len() as u64 == n);
                    lemma_enc_at_join(buf@, pos as int, enc_u64(n), v@);
                    assert forall|s: Seq<u8>| enc_at(buf@, pos as int, enc_bytes(s))
                        implies s == v@ by {
                        lemma_enc_u64_det(buf@, pos as int, s.len() as u64, n);
                        assert(s.len() == len);
                        assert(s =~= v@) by {
                            assert(buf@.subrange(pos + 8, pos + 8 + s.len()) == s);
                        }
                    }
                }
                Some((v, mid + len))
            } else {
                proof {
                    assert forall|s: Seq<u8>| !enc_at(buf@, pos as int, enc_bytes(s)) by {
                        if enc_at(buf@, pos as int, enc_bytes(s)) {
                            lemma_enc_u64_det(buf@, pos as int, s.len() as u64, n);
                        }
                    }
                }
                None
            }
        },
    }
}

// ---------------------------------------------------------------------------
// strings: a length-prefixed run of UTF-8 bytes
// ---------------------------------------------------------------------------

/// A string as the length-prefixed run of its UTF-8 bytes.
pub open spec fn enc_str(s: Seq<char>) -> Seq<u8> {
    enc_bytes(encode_utf8(s))
}

/// Only one string can stand encoded at a given offset.
pub proof fn lemma_enc_str_det(b: Seq<u8>, pos: int, s1: Seq<char>, s2: Seq<char>)
    requires
        b.len() < 0x1_0000_0000_0000_0000,
        enc_at(b, pos, enc_str(s1)),
        enc_at(b, pos, enc_str(s2)),
    ensures
        s1 == s2,
{
    lemma_enc_bytes_det(b, pos, encode_utf8(s1), encode_utf8(s2));
    encode_utf8_decode_utf8(s1);
    encode_utf8_decode_utf8(s2);
}

/// Relies on `String::from_utf8`: it accepts exactly the byte runs that are
/// valid UTF-8, and the string it returns holds the scalar values that those
/// bytes encode (the inverse of the encoding that `str::as_bytes` yields).
#[verifier::external_body]
fn string_from_utf8(bytes: Vec<u8>) -> (r: Option<String>)
    ensures
        r matches Some(s) ==> valid_utf8(bytes@) && s@ == decode_utf8(bytes@),
        r is None ==> !valid_utf8(bytes@),
{
    String::from_utf8(bytes).ok()
}

pub fn write_str(out: &mut Vec<u8>, s: &str)
    ensures
        final(out)@ == old(out)@ + enc_str(s@),
{
    write_bytes(out, s.as_bytes());
}

pub fn read_str(buf: &Vec<u8>, pos: usize) -> (r: Option<(String, usize)>)
    ensures
        r matches Some(p) ==> p.1 == pos + enc_str(p.0@).len()
            && enc_at(buf@, pos as int, enc_str(p.0@)),
        forall|s: Seq<char>| enc_at(buf@, pos as int, enc_str(s))
            ==> (r matches Some(p) && p.0@ == s && p.1 == pos + enc_str(s).len()),
{
    broadcast use encode_utf8_valid_utf8;

    match read_bytes(buf, pos) {
        None => None,
        Some((bytes, next)) => {
            let ghost bseq = bytes@;
            match string_from_utf8(bytes) {
                None => {
                    proof {
                        assert forall|s: Seq<char>| !enc_at(buf@, pos as int, enc_str(s)) by {
                            if enc_at(buf@, pos as int, enc_str(s)) {
                                assert(bseq == encode_utf8(s));
                            }
                        }
                    }
                    None
                },
                Some(text) => {
                    proof {
                        decode_utf8_encode_utf8(bseq);
                        assert(encode_utf8(text@) == bseq);
                        assert forall|s: Seq<char>| enc_at(buf@, pos as int, enc_str(s))
                            implies text@ == s && next == pos + enc_str(s).len() by {
                            assert(bseq == encode_utf8(s));
                            encode_utf8_decode_utf8(s);
                        }
                    }
                    Some((text, next))
                },
            }
        },
    }
}

// ---------------------------------------------------------------------------
// optional u64: a tag byte, then the value if present
// ---------------------------------------------------------------------------

/// An optional `u64`: a tag byte, then the value when the tag is 1.
pub open spec fn enc_opt_u64(o: Option<u64>) -> Seq<u8> {
    match o {
        Option::None => enc_bool(false),
        Option::Some(x) => enc_bool(true) + enc_u64(x),
    }
}

/// Only one tag byte can stand at a given offset.
pub proof fn lemma_enc_bool_det(b: Seq<u8>, pos: int, x: bool, y: bool)
    requires
        enc_at(b, pos, enc_bool(x)),
        enc_at(b, pos, enc_bool(y)),
    ensures
        x == y,
{
    assert(b.subrange(pos, pos + 1)[0] == b[pos]);
}

/// Only one optional `u64` can stand encoded at a given offset.
pub proof fn lemma_enc_opt_u64_det(b: Seq<u8>, pos: int, o1: Option<u64>, o2: Option<u64>)
    requires
        enc_at(b, pos, enc_opt_u64(o1)),
        enc_at(b, pos, enc_opt_u64(o2)),
    ensures
        o1 == o2,
{
    if o1 is Some {
        lemma_enc_at_split(b, pos, enc_bool(true), enc_u64(o1->0));
    }
    if o2 is Some {
        lemma_enc_at_split(b, pos, enc_bool(true), enc_u64(o2->0));
    }
    match (o1, o2) {
        (Some(x1), Some(x2)) => {
            lemma_enc_u64_det(b, pos + 1, x1, x2);
        },
        (Some(_), None) => {
            lemma_enc_bool_det(b, pos, true, false);
        },
        (None, Some(_)) => {
            lemma_enc_bool_det(b, pos, false, true);
        },
        (None, None) => {},
    }
}

pub fn write_opt_u64(out: &mut Vec<u8>, o: &Option<u64>)
    ensures
        final(out)@ == old(out)@ + enc_opt_u64(*o),
{
    match o {
        None => {
            write_bool(out, false);
        },
        Some(x) => {
            write_bool(out, true);
            write_u64(out, *x);
            proof {
                assert(final(out)@ =~= old(out)@ + enc_opt_u64(*o));
            }
        },
    }
}

pub fn read_opt_u64(buf: &Vec<u8>, pos: usize) -> (r: Option<(Option<u64>, usize)>)
    ensures
        r matches Some(p) ==> p.1 == pos + enc_opt_u64(p.0).len()
            && enc_at(buf@, pos as int, enc_opt_u64(p.0)),
        forall|o: Option<u64>| enc_at(buf@, pos as int, enc_opt_u64(o))
            ==> (r matches Some(p) && p.0 == o && p.1 == pos + enc_opt_u64(o).len()),
{
    proof {
        assert forall|o: Option<u64>| enc_at(buf@, pos as int, enc_opt_u64(o))
            implies enc_at(buf@, pos as int, enc_bool(o is Some)) by {
            if o is Some {
                lemma_enc_at_split(buf@, pos as int, enc_bool(true), enc_u64(o->0));
            }
        }
    }
    match read_bool(buf, pos) {
        None => None,
        Some((tag, mid)) => {
            if !tag {
                proof {
                    assert forall|o: Option<u64>| enc_at(buf@, pos as int, enc_opt_u64(o))
                        implies o is None by {
                        lemma_enc_bool_det(buf@, pos as int, o is Some, false);
                    }
                }
                Some((None, mid))
            } else {
                match read_u64(buf, mid) {
                    None => {
                        proof {
                            assert forall|o: Option<u64>| !enc_at(
                                buf@,
                                pos as int,
                                enc_opt_u64(o),
                            ) by {
                                if enc_at(buf@, pos as int, enc_opt_u64(o)) {
                                    lemma_enc_bool_det(buf@, pos as int, o is Some, true);
                                    lemma_enc_at_split(buf@, pos as int, enc_bool(true), enc_u64(o->0));
                                    lemma_enc_u64(o->0);
                                }
                            }
                        }
                        None
                    },
                    Some((x, next)) => {
                        proof {
                            lemma_enc_at_join(buf@, pos as int, enc_bool(true), enc_u64(x));
                            lemma_enc_u64(x);
                            assert(enc_bool(true) + enc_u64(x) == enc_opt_u64(Some(x)));
                            assert forall|o: Option<u64>| enc_at(buf@, pos as int, enc_opt_u64(o))
                                implies o == Some(x) && next == pos + enc_opt_u64(o).len() by {
                                lemma_enc_opt_u64_det(buf@, pos as int, o, Some(x));
                            }
                        }
                        Some((Some(x), next))
                    },
                }
            }
        },
    }
}

// ---------------------------------------------------------------------------
// lists of u64: a count, then the elements one after the other
// ---------------------------------------------------------------------------

/// The elements of a `u64` sequence, one encoding after the other.
pub open spec fn flat_u64s(s: Seq<u64>) -> Seq<u8>
    decreases s.len(),
{
    if s.len() == 0 {
        Seq::empty()
    } else {
        enc_u64(s[0]) + flat_u64s(s.drop_first())
    }
}

/// A `u64` sequence: its length as a `u64`, then its elements.
pub open spec fn enc_u64_list(s: Seq<u64>) -> Seq<u8> {
    enc_u64(s.len() as u64) + flat_u64s(s)
}

pub proof fn lemma_flat_u64s_len(s: Seq<u64>)
    ensures
        flat_u64s(s).len() == 8 * s.len(),
    decreases s.len(),
{
    if s.len() == 0 {
    } else {
        lemma_enc_u64(s[0]);
        lemma_flat_u64s_len(s.drop_first());
    }
}

pub proof fn lemma_flat_u64s_push(s: Seq<u64>, x: u64)
    ensures
        flat_u64s(s.push(x)) == flat_u64s(s) + enc_u64(x),
    decreases s.len(),
{
    lemma_enc_u64(x);
    if s.len() == 0 {
        assert(s.push(x)[0] == x);
        assert(s.push(x).len() == 1);
        assert(s.push(x).drop_first() =~= Seq::<u64>::empty());
        assert(flat_u64s(s.push(x)) == enc_u64(x) + flat_u64s(Seq::<u64>::empty()));
        assert(flat_u64s(Seq::<u64>::empty()) == Seq::<u8>::empty());
        assert(enc_u64(x) + Seq::<u8>::empty() =~= enc_u64(x));
        assert(flat_u64s(s) == Seq::<u8>::empty());
        assert(Seq::<u8>::empty() + enc_u64(x) =~= enc_u64(x));
    } else {
        assert(s.push(x)[0] == s[0]);
        lemma_enc_u64(s[0]);
        assert(s.push(x).drop_first() =~= s.drop_first().push(x));
        lemma_flat_u64s_push(s.drop_first(), x);
        assert(enc_u64(s[0]) + (flat_u64s(s.drop_first()) + enc_u64(x)) =~= (enc_u64(s[0])
            + flat_u64s(s.drop_first())) + enc_u64(x));
    }
}

pub proof fn lemma_flat_u64s_split(s: Seq<u64>, i: int)
    requires
        0 <= i <= s.len(),
    ensures
        flat_u64s(s) == flat_u64s(s.take(i)) + flat_u64s(s.skip(i)),
    decreases i,
{
    if i == 0 {
        assert(s.take(0) =~= Seq::<u64>::empty());
        assert(s.skip(0) =~= s);
        assert(flat_u64s(s) =~= flat_u64s(s.take(0)) + flat_u64s(s.skip(0)));
    } else {
        lemma_flat_u64s_split(s, i - 1);
        lemma_flat_u64s_push(s.take(i - 1), s[i - 1]);
        assert(s.take(i) =~= s.take(i - 1).push(s[i - 1]));
        assert(s.skip(i - 1).drop_first() =~= s.skip(i));
        assert(flat_u64s(s.skip(i - 1)) == enc_u64(s[i - 1]) + flat_u64s(s.skip(i)));
        assert((flat_u64s(s.take(i - 1)) + enc_u64(s[i - 1])) + flat_u64s(s.skip(i)) =~= flat_u64s(
            s.take(i - 1),
        ) + (enc_u64(s[i - 1]) + flat_u64s(s.skip(i))));
    }
}

pub fn write_u64_list(out: &mut Vec<u8>, v: &Vec<u64>)
    ensures
        final(out)@ == old(out)@ + enc_u64_list(v@),
{
    let ghost base = old(out)@;
    let n = v.len();
    write_u64(out, n as u64);
    let mut i: usize = 0;
    proof {
        assert(v@.take(0) =~= Seq::<u64>::empty());
        assert(out@ =~= base + enc_u64(v@.len() as u64) + flat_u64s(v@.take(0)));
    }
    while i < n
        invariant
            i <= n,
            n == v@.len(),
            out@ == base + enc_u64(v@.len() as u64) + flat_u64s(v@.take(i as int)),
        decreases n - i,
    {
        let ghost pre = out@;
        write_u64(out, v[i]);
        proof {
            lemma_flat_u64s_push(v@.take(i as int), v@[i as int]);
            assert(v@.take(i + 1) =~= v@.take(i as int).push(v@[i as int]));
            assert(out@ =~= base + enc_u64(v@.len() as u64) + flat_u64s(v@.take(i + 1)));
        }
        i += 1;
    }
    proof {
        assert(v@.take(n as int) =~= v@);
        assert(out@ =~= base + enc_u64_list(v@));
    }
}

pub fn read_u64_list(buf: &Vec<u8>, pos: usize) -> (r: Option<(Vec<u64>, usize)>)
    ensures
        r matches Some(p) ==> p.1 == pos + enc_u64_list(p.0@).len()
            && enc_at(buf@, pos as int, enc_u64_list(p.0@)),
        forall|s: Seq<u64>| enc_at(buf@, pos as int, enc_u64_list(s))
            ==> (r matches Some(p) && p.0@ == s && p.1 == pos + enc_u64_list(s).len()),
{
    let blen = buf.len();
    proof {
        assert forall|s: Seq<u64>| enc_at(buf@, pos as int, enc_u64_list(s))
            implies s.len() < 0x1_0000_0000_0000_0000 && enc_at(
            buf@,
            pos as int,
            enc_u64(s.len() as u64),
        ) && enc_at(buf@, pos + 8, flat_u64s(s)) by {
            lemma_flat_u64s_len(s);
            lemma_enc_u64(s.len() as u64);
            lemma_enc_at_split(buf@, pos as int, enc_u64(s.len() as u64), flat_u64s(s));
        }
    }
    match read_u64(buf, pos) {
        None => None,
        Some((n, mid)) => {
            proof {
                lemma_enc_u64(n);
                assert forall|s: Seq<u64>| enc_at(buf@, pos as int, enc_u64_list(s))
                    implies s.len() == n by {
                    lemma_enc_u64_det(buf@, pos as int, s.len() as u64, n);
                }
            }
            let mut acc: Vec<u64> = Vec::new();
            let mut cur = mid;
            let mut i: u64 = 0;
            proof {
                assert(flat_u64s(acc@) =~= Seq::<u8>::empty());
                assert(enc_at(buf@, pos + 8, flat_u64s(acc@))) by {
                    assert(buf@.subrange(pos + 8, pos + 8) =~= Seq::<u8>::empty());
                }
            }
            while i < n
                invariant
                    i <= n,
                    acc@.len() == i,
                    blen == buf@.len(),
                    pos + 8 <= blen,
                    cur == pos + 8 + flat_u64s(acc@).len(),
                    cur <= blen,
                    enc_at(buf@, pos as int, enc_u64(n)),
                    enc_at(buf@, pos + 8, flat_u64s(acc@)),
                    forall|s: Seq<u64>| enc_at(buf@, pos as int, enc_u64_list(s)) ==> s.len() == n
                        && acc@ == s.take(i as int),
                decreases n - i,
            {
                proof {
                    lemma_flat_u64s_len(acc@);
                    assert forall|s: Seq<u64>| enc_at(buf@, pos as int, enc_u64_list(s))
                        implies enc_at(buf@, cur as int, enc_u64(s[i as int])) by {
                        lemma_enc_u64(s.len() as u64);
                        lemma_enc_at_split(buf@, pos as int, enc_u64(s.len() as u64), flat_u64s(s));
                        lemma_flat_u64s_split(s, i as int);
                        lemma_enc_at_split(
                            buf@,
                            pos + 8,
                            flat_u64s(s.take(i as int)),
                            flat_u64s(s.skip(i as int)),
                        );
                        assert(flat_u64s(s.take(i as int)) == flat_u64s(acc@));
                        assert(s.skip(i as int)[0] == s[i as int]);
                        assert(s.skip(i as int).drop_first() =~= s.skip(i as int + 1));
                        assert(flat_u64s(s.skip(i as int)) == enc_u64(s[i as int]) + flat_u64s(
                            s.skip(i as int + 1),
                        ));
                        lemma_enc_at_split(
                            buf@,
                            cur as int,
                            enc_u64(s[i as int]),
                            flat_u64s(s.skip(i as int + 1)),
                        );
                    }
                }
                match read_u64(buf, cur) {
                    None => {
                        proof {
                            assert forall|s: Seq<u64>| !enc_at(buf@, pos as int, enc_u64_list(s))
                                by {
                                if enc_at(buf@, pos as int, enc_u64_list(s)) {
                                    lemma_enc_u64(s[i as int]);
                                }
                            }
                        }
                        return None;
                    },
                    Some((x, nxt)) => {
                        proof {
                            lemma_enc_u64(x);
                            lemma_flat_u64s_push(acc@, x);
                            lemma_enc_at_join(buf@, pos + 8, flat_u64s(acc@), enc_u64(x));
                            assert forall|s: Seq<u64>| enc_at(buf@, pos as int, enc_u64_list(s))
                                implies s.take(i as int + 1) == acc@.push(x) by {
                                lemma_enc_u64_det(buf@, cur as int, x, s[i as int]);
                                assert(s.take(i as int + 1) =~= s.take(i as int).push(s[i as int]));
                            }
                        }
                        acc.push(x);
                        cur = nxt;
                        i = i + 1;
                    },
                }
            }
            proof {
                assert(acc@.len() as u64 == n);
                lemma_enc_at_join(buf@, pos as int, enc_u64(n), flat_u64s(acc@));
                lemma_enc_u64(n);
                assert(enc_at(buf@, pos as int, enc_u64_list(acc@)));
                assert forall|s: Seq<u64>| enc_at(buf@, pos as int, enc_u64_list(s))
                    implies acc@ == s && cur == pos + enc_u64_list(s).len() by {
                    assert(s.take(i as int) =~= s);
                }
            }
            Some((acc, cur))
        },
    }
}

// ---------------------------------------------------------------------------
// lists of strings
// ---------------------------------------------------------------------------

/// The views of a run of strings.
pub open spec fn str_views(s: Seq<String>) -> Seq<Seq<char>> {
    s.map_values(|x: String| x@)
}

/// The elements of a string sequence, one encoding after the other.
pub open spec fn flat_strs(s: Seq<Seq<char>>) -> Seq<u8>
    decreases s.len(),
{
    if s.len() == 0 {
        Seq::empty()
    } else {
        enc_str(s[0]) + flat_strs(s.drop_first())
    }
}

/// A string sequence: its length as a `u64`, then its elements.
pub open spec fn enc_str_list(s: Seq<Seq<char>>) -> Seq<u8> {
    enc_u64(s.len() as u64) + flat_strs(s)
}

pub proof fn lemma_enc_str_len(x: Seq<char>)
    ensures
        enc_str(x).len() == 8 + encode_utf8(x).len(),
{
    lemma_enc_u64(encode_utf8(x).len() as u64);
}

pub proof fn lemma_flat_strs_len_lower(s: Seq<Seq<char>>)
    ensures
        flat_strs(s).len() >= 8 * s.len(),
    decreases s.len(),
{
    if s.len() == 0 {
    } else {
        lemma_enc_str_len(s[0]);
        lemma_flat_strs_len_lower(s.drop_first());
    }
}

pub proof fn lemma_flat_strs_push(s: Seq<Seq<char>>, x: Seq<char>)
    ensures
        flat_strs(s.push(x)) == flat_strs(s) + enc_str(x),
    decreases s.len(),
{
    lemma_enc_str_len(x);
    if s.len() == 0 {
        assert(s.push(x)[0] == x);
        assert(s.push(x).len() == 1);
        assert(s.push(x).drop_first() =~= Seq::<Seq<char>>::empty());
        assert(flat_strs(s.push(x)) == enc_str(x) + flat_strs(Seq::<Seq<char>>::empty()));
        assert(flat_strs(Seq::<Seq<char>>::empty()) == Seq::<u8>::empty());
        assert(enc_str(x) + Seq::<u8>::empty() =~= enc_str(x));
        assert(flat_strs(s) == Seq::<u8>::empty());
        assert(Seq::<u8>::empty() + enc_str(x) =~= enc_str(x));
    } else {
        assert(s.push(x)[0] == s[0]);
        assert(s.push(x).drop_first() =~= s.drop_first().push(x));
        lemma_flat_strs_push(s.drop_first(), x);
        assert(enc_str(s[0]) + (flat_strs(s.drop_first()) + enc_str(x)) =~= (enc_str(s[0])
            + flat_strs(s.drop_first())) + enc_str(x));
    }
}

pub proof fn lemma_flat_strs_split(s: Seq<Seq<char>>, i: int)
    requires
        0 <= i <= s.len(),
    ensures
        flat_strs(s) == flat_strs(s.take(i)) + flat_strs(s.skip(i)),
    decreases i,
{
    if i == 0 {
        assert(s.take(0) =~= Seq::<Seq<char>>::empty());
        assert(s.skip(0) =~= s);
        assert(flat_strs(s) =~= flat_strs(s.take(0)) + flat_strs(s.skip(0)));
    } else {
        lemma_flat_strs_split(s, i - 1);
        lemma_flat_strs_push(s.take(i - 1), s[i - 1]);
        assert(s.take(i) =~= s.take(i - 1).push(s[i - 1]));
        assert(s.skip(i - 1).drop_first() =~= s.skip(i));
        assert(s.skip(i - 1)[0] == s[i - 1]);
        assert(flat_strs(s.skip(i - 1)) == enc_str(s[i - 1]) + flat_strs(s.skip(i)));
        assert((flat_strs(s.take(i - 1)) + enc_str(s[i - 1])) + flat_strs(s.skip(i)) =~= flat_strs(
            s.take(i - 1),
        ) + (enc_str(s[i - 1]) + flat_strs(s.skip(i))));
    }
}

pub fn write_str_list(out: &mut Vec<u8>, v: &Vec<String>)
    ensures
        final(out)@ == old(out)@ + enc_str_list(str_views(v@)),
{
    let ghost base = old(out)@;
    let ghost vs = str_views(v@);
    let n = v.len();
    write_u64(out, n as u64);
    let mut i: usize = 0;
    proof {
        assert(vs.take(0) =~= Seq::<Seq<char>>::empty());
        assert(out@ =~= base + enc_u64(vs.len() as u64) + flat_strs(vs.take(0)));
    }
    while i < n
        invariant
            i <= n,
            n == v@.len(),
            vs == str_views(v@),
            vs.len() == n,
            out@ == base + enc_u64(vs.len() as u64) + flat_strs(vs.take(i as int)),
        decreases n - i,
    {
        write_str(out, v[i].as_str());
        proof {
            assert(vs[i as int] == v@[i as int]@);
            lemma_flat_strs_push(vs.take(i as int), vs[i as int]);
            assert(vs.take(i + 1) =~= vs.take(i as int).push(vs[i as int]));
            assert(out@ =~= base + enc_u64(vs.len() as u64) + flat_strs(vs.take(i + 1)));
        }
        i += 1;
    }
    proof {
        assert(vs.take(n as int) =~= vs);
        assert(out@ =~= base + enc_str_list(vs));
    }
}

pub fn read_str_list(buf: &Vec<u8>, pos: usize) -> (r: Option<(Vec<String>, usize)>)
    ensures
        r matches Some(p) ==> p.1 == pos + enc_str_list(str_views(p.0@)).len()
            && enc_at(buf@, pos as int, enc_str_list(str_views(p.0@))),
        forall|s: Seq<Seq<char>>| enc_at(buf@, pos as int, enc_str_list(s))
            ==> (r matches Some(p) && str_views(p.0@) == s && p.1 == pos + enc_str_list(s).len()),
{
    let blen = buf.len();
    proof {
        assert forall|s: Seq<Seq<char>>| enc_at(buf@, pos as int, enc_str_list(s))
            implies s.len() < 0x1_0000_0000_0000_0000 && enc_at(
            buf@,
            pos as int,
            enc_u64(s.len() as u64),
        ) && enc_at(buf@, pos + 8, flat_strs(s)) by {
            lemma_flat_strs_len_lower(s);
            lemma_enc_u64(s.len() as u64);
            lemma_enc_at_split(buf@, pos as int, enc_u64(s.len() as u64), flat_strs(s));
        }
    }
    match read_u64(buf, pos) {
        None => None,
        Some((n, mid)) => {
            proof {
                lemma_enc_u64(n);
                assert forall|s: Seq<Seq<char>>| enc_at(buf@, pos as int, enc_str_list(s))
                    implies s.len() == n by {
                    lemma_enc_u64_det(buf@, pos as int, s.len() as u64, n);
                }
            }
            let mut acc: Vec<String> = Vec::new();
            let mut cur = mid;
            let mut i: u64 = 0;
            proof {
                assert(str_views(acc@) =~= Seq::<Seq<char>>::empty());
                assert(flat_strs(str_views(acc@)) =~= Seq::<u8>::empty());
                assert(enc_at(buf@, pos + 8, flat_strs(str_views(acc@)))) by {
                    assert(buf@.subrange(pos + 8, pos + 8) =~= Seq::<u8>::empty());
                }
            }
            while i < n
                invariant
                    i <= n,
                    acc@.len() == i,
                    blen == buf@.len(),
                    pos + 8 <= blen,
                    cur == pos + 8 + flat_strs(str_views(acc@)).len(),
                    cur <= blen,
                    enc_at(buf@, pos as int, enc_u64(n)),
                    enc_at(buf@, pos + 8, flat_strs(str_views(acc@))),
                    forall|s: Seq<Seq<char>>| enc_at(buf@, pos as int, enc_str_list(s)) ==> s.len()
                        == n && str_views(acc@) == s.take(i as int),
                decreases n - i,
            {
                proof {
                    assert forall|s: Seq<Seq<char>>| enc_at(buf@, pos as int, enc_str_list(s))
                        implies enc_at(buf@, cur as int, enc_str(s[i as int])) by {
                        lemma_enc_u64(s.len() as u64);
                        lemma_enc_at_split(buf@, pos as int, enc_u64(s.len() as u64), flat_strs(s));
                        lemma_flat_strs_split(s, i as int);
                        lemma_enc_at_split(
                            buf@,
                            pos + 8,
                            flat_strs(s.take(i as int)),
                            flat_strs(s.skip(i as int)),
                        );
                        assert(flat_strs(s.take(i as int)) == flat_strs(str_views(acc@)));
                        assert(s.skip(i as int)[0] == s[i as int]);
                        assert(s.skip(i as int).drop_first() =~= s.skip(i as int + 1));
                        assert(flat_strs(s.skip(i as int)) == enc_str(s[i as int]) + flat_strs(
                            s.skip(i as int + 1),
                        ));
                        lemma_enc_at_split(
                            buf@,
                            cur as int,
                            enc_str(s[i as int]),
                            flat_strs(s.skip(i as int + 1)),
                        );
                    }
                }
                match read_str(buf, cur) {
                    None => {
                        return None;
                    },
                    Some((text, nxt)) => {
                        proof {
                            lemma_enc_str_len(text@);
                            lemma_flat_strs_push(str_views(acc@), text@);
                            lemma_enc_at_join(
                                buf@,
                                pos + 8,
                                flat_strs(str_views(acc@)),
                                enc_str(text@),
                            );
                            assert(str_views(acc@.push(text)) =~= str_views(acc@).push(text@));
                            assert forall|s: Seq<Seq<char>>| enc_at(
                                buf@,
                                pos as int,
                                enc_str_list(s),
                            ) implies s.take(i as int + 1) == str_views(acc@).push(text@) by {
                                assert(s.take(i as int + 1) =~= s.take(i as int).push(s[i as int]));
                            }
                        }
                        acc.push(text);
                        cur = nxt;
                        i = i + 1;
                    },
                }
            }
            proof {
                assert(str_views(acc@).len() as u64 == n);
                lemma_enc_at_join(buf@, pos as int, enc_u64(n), flat_strs(str_views(acc@)));
                lemma_enc_u64(n);
                assert(enc_at(buf@, pos as int, enc_str_list(str_views(acc@))));
                assert forall|s: Seq<Seq<char>>| enc_at(buf@, pos as int, enc_str_list(s))
                    implies str_views(acc@) == s && cur == pos + enc_str_list(s).len() by {
                    assert(s.take(i as int) =~= s);
                }
            }
            Some((acc, cur))
        },
    }
}

// ---------------------------------------------------------------------------
// lists of (string, u64) pairs
// ---------------------------------------------------------------------------

/// The views of a run of string/number pairs.
pub open spec fn pair_views(s: Seq<(String, u64)>) -> Seq<(Seq<char>, u64)> {
    s.map_values(|p: (String, u64)| (p.0@, p.1))
}

/// A string/number pair: the string, then the number.
pub open spec fn enc_pair(p: (Seq<char>, u64)) -> Seq<u8> {
    enc_str(p.0) + enc_u64(p.1)
}

pub proof fn lemma_enc_pair_len(p: (Seq<char>, u64))
    ensures
        enc_pair(p).len() == 16 + encode_utf8(p.0).len(),
{
    lemma_enc_str_len(p.0);
    lemma_enc_u64(p.1);
}

fn write_pair(out: &mut Vec<u8>, name: &str, count: u64)
    ensures
        final(out)@ == old(out)@ + enc_pair((name@, count)),
{
    write_str(out, name);
    write_u64(out, count);
    proof {
        assert(final(out)@ =~= old(out)@ + enc_pair((name@, count)));
    }
}

fn read_pair(buf: &Vec<u8>, pos: usize) -> (r: Option<((String, u64), usize)>)
    ensures
        r matches Some(p) ==> p.1 == pos + enc_pair((p.0.0@, p.0.1)).len()
            && enc_at(buf@, pos as int, enc_pair((p.0.0@, p.0.1))),
        forall|e: (Seq<char>, u64)| enc_at(buf@, pos as int, enc_pair(e))
            ==> (r matches Some(p) && p.0.0@ == e.0 && p.0.1 == e.1 && p.1 == pos + enc_pair(
            e,
        ).len()),
{
    proof {
        assert forall|e: (Seq<char>, u64)| enc_at(buf@, pos as int, enc_pair(e))
            implies enc_at(buf@, pos as int, enc_str(e.0)) && enc_at(
            buf@,
            pos + enc_str(e.0).len(),
            enc_u64(e.1),
        ) by {
            lemma_enc_at_split(buf@, pos as int, enc_str(e.0), enc_u64(e.1));
        }
    }
    match read_str(buf, pos) {
        None => None,
        Some((name, mid)) => {
            proof {
                assert forall|e: (Seq<char>, u64)| enc_at(buf@, pos as int, enc_pair(e))
                    implies name@ == e.0 && mid == pos + enc_str(e.0).len() && enc_at(
                    buf@,
                    mid as int,
                    enc_u64(e.1),
                ) by {
                    lemma_enc_u64(e.1);
                }
            }
            match read_u64(buf, mid) {
                None => {
                    proof {
                        assert forall|e: (Seq<char>, u64)| !enc_at(buf@, pos as int, enc_pair(e))
                            by {
                            if enc_at(buf@, pos as int, enc_pair(e)) {
                                lemma_enc_u64(e.1);
                            }
                        }
                    }
                    None
                },
                Some((count, nxt)) => {
                    proof {
                        lemma_enc_u64(count);
                        lemma_enc_at_join(buf@, pos as int, enc_str(name@), enc_u64(count));
                        assert forall|e: (Seq<char>, u64)| enc_at(buf@, pos as int, enc_pair(e))
                            implies count == e.1 && nxt == pos + enc_pair(e).len() by {
                            lemma_enc_u64_det(buf@, mid as int, count, e.1);
                        }
                    }
                    Some(((name, count), nxt))
                },
            }
        },
    }
}

/// The elements of a pair sequence, one encoding after the other.
pub open spec fn flat_pairs(s: Seq<(Seq<char>, u64)>) -> Seq<u8>
    decreases s.len(),
{
    if s.len() == 0 {
        Seq::empty()
    } else {
        enc_pair(s[0]) + flat_pairs(s.drop_first())
    }
}

/// A pair sequence: its length as a `u64`, then its elements.
pub open spec fn enc_pair_list(s: Seq<(Seq<char>, u64)>) -> Seq<u8> {
    enc_u64(s.len() as u64) + flat_pairs(s)
}

pub proof fn lemma_flat_pairs_len_lower(s: Seq<(Seq<char>, u64)>)
    ensures
        flat_pairs(s).len() >= 8 * s.len(),
    decreases s.len(),
{
    if s.len() == 0 {
    } else {
        lemma_enc_pair_len(s[0]);
        lemma_flat_pairs_len_lower(s.drop_first());
    }
}

pub proof fn lemma_flat_pairs_push(s: Seq<(Seq<char>, u64)>, x: (Seq<char>, u64))
    ensures
        flat_pairs(s.push(x)) == flat_pairs(s) + enc_pair(x),
    decreases s.len(),
{
    lemma_enc_pair_len(x);
    if s.len() == 0 {
        assert(s.push(x)[0] == x);
        assert(s.push(x).len() == 1);
        assert(s.push(x).drop_first() =~= Seq::<(Seq<char>, u64)>::empty());
        assert(flat_pairs(s.push(x)) == enc_pair(x) + flat_pairs(Seq::<(Seq<char>, u64)>::empty()));
        assert(flat_pairs(Seq::<(Seq<char>, u64)>::empty()) == Seq::<u8>::empty());
        assert(enc_pair(x) + Seq::<u8>::empty() =~= enc_pair(x));
        assert(flat_pairs(s) == Seq::<u8>::empty());
        assert(Seq::<u8>::empty() + enc_pair(x) =~= enc_pair(x));
    } else {
        assert(s.push(x)[0] == s[0]);
        assert(s.push(x).drop_first() =~= s.drop_first().push(x));
        lemma_flat_pairs_push(s.drop_first(), x);
        assert(enc_pair(s[0]) + (flat_pairs(s.drop_first()) + enc_pair(x)) =~= (enc_pair(s[0])
            + flat_pairs(s.drop_first())) + enc_pair(x));
    }
}

pub proof fn lemma_flat_pairs_split(s: Seq<(Seq<char>, u64)>, i: int)
    requires
        0 <= i <= s.len(),
    ensures
        flat_pairs(s) == flat_pairs(s.take(i)) + flat_pairs(s.skip(i)),
    decreases i,
{
    if i == 0 {
        assert(s.take(0) =~= Seq::<(Seq<char>, u64)>::empty());
        assert(s.skip(0) =~= s);
        assert(flat_pairs(s) =~= flat_pairs(s.take(0)) + flat_pairs(s.skip(0)));
    } else {
        lemma_flat_pairs_split(s, i - 1);
        lemma_flat_pairs_push(s.take(i - 1), s[i - 1]);
        assert(s.take(i) =~= s.take(i - 1).push(s[i - 1]));
        assert(s.skip(i - 1).drop_first() =~= s.skip(i));
        assert(s.skip(i - 1)[0] == s[i - 1]);
        assert(flat_pairs(s.skip(i - 1)) == enc_pair(s[i - 1]) + flat_pairs(s.skip(i)));
        assert((flat_pairs(s.take(i - 1)) + enc_pair(s[i - 1])) + flat_pairs(s.skip(i))
            =~= flat_pairs(s.take(i - 1)) + (enc_pair(s[i - 1]) + flat_pairs(s.skip(i))));
    }
}

pub fn write_pair_list(out: &mut Vec<u8>, v: &Vec<(String, u64)>)
    ensures
        final(out)@ == old(out)@ + enc_pair_list(pair_views(v@)),
{
    let ghost base = old(out)@;
    let ghost vs = pair_views(v@);
    let n = v.len();
    write_u64(out, n as u64);
    let mut i: usize = 0;
    proof {
        assert(vs.take(0) =~= Seq::<(Seq<char>, u64)>::empty());
        assert(out@ =~= base + enc_u64(vs.len() as u64) + flat_pairs(vs.take(0)));
    }
    while i < n
        invariant
            i <= n,
            n == v@.len(),
            vs == pair_views(v@),
            vs.len() == n,
            out@ == base + enc_u64(vs.len() as u64) + flat_pairs(vs.take(i as int)),
        decreases n - i,
    {
        write_pair(out, v[i].0.as_str(), v[i].1);
        proof {
            assert(vs[i as int] == (v@[i as int].0@, v@[i as int].1));
            lemma_flat_pairs_push(vs.take(i as int), vs[i as int]);
            assert(vs.take(i + 1) =~= vs.take(i as int).push(vs[i as int]));
            assert(out@ =~= base + enc_u64(vs.len() as u64) + flat_pairs(vs.take(i + 1)));
        }
        i += 1;
    }
    proof {
        assert(vs.take(n as int) =~= vs);
        assert(out@ =~= base + enc_pair_list(vs));
    }
}

pub fn read_pair_list(buf: &Vec<u8>, pos: usize) -> (r: Option<(Vec<(String, u64)>, usize)>)
    ensures
        r matches Some(p) ==> p.1 == pos + enc_pair_list(pair_views(p.0@)).len()
            && enc_at(buf@, pos as int, enc_pair_list(pair_views(p.0@))),
        forall|s: Seq<(Seq<char>, u64)>| enc_at(buf@, pos as int, enc_pair_list(s))
            ==> (r matches Some(p) && pair_views(p.0@) == s && p.1 == pos + enc_pair_list(s).len()),
{
    let blen = buf.len();
    proof {
        assert forall|s: Seq<(Seq<char>, u64)>| enc_at(buf@, pos as int, enc_pair_list(s))
            implies s.len() < 0x1_0000_0000_0000_0000 && enc_at(
            buf@,
            pos as int,
            enc_u64(s.len() as u64),
        ) && enc_at(buf@, pos + 8, flat_pairs(s)) by {
            lemma_flat_pairs_len_lower(s);
            lemma_enc_u64(s.len() as u64);
            lemma_enc_at_split(buf@, pos as int, enc_u64(s.len() as u64), flat_pairs(s));
        }
    }
    match read_u64(buf, pos) {
        None => None,
        Some((n, mid)) => {
            proof {
                lemma_enc_u64(n);
                assert forall|s: Seq<(Seq<char>, u64)>| enc_at(buf@, pos as int, enc_pair_list(s))
                    implies s.len() == n by {
                    lemma_enc_u64_det(buf@, pos as int, s.len() as u64, n);
                }
            }
            let mut acc: Vec<(String, u64)> = Vec::new();
            let mut cur = mid;
            let mut i: u64 = 0;
            proof {
                assert(pair_views(acc@) =~= Seq::<(Seq<char>, u64)>::empty());
                assert(flat_pairs(pair_views(acc@)) =~= Seq::<u8>::empty());
                assert(enc_at(buf@, pos + 8, flat_pairs(pair_views(acc@)))) by {
                    assert(buf@.subrange(pos + 8, pos + 8) =~= Seq::<u8>::empty());
                }
            }
            while i < n
                invariant
                    i <= n,
                    acc@.len() == i,
                    blen == buf@.len(),
                    pos + 8 <= blen,
                    cur == pos + 8 + flat_pairs(pair_views(acc@)).len(),
                    cur <= blen,
                    enc_at(buf@, pos as int, enc_u64(n)),
                    enc_at(buf@, pos + 8, flat_pairs(pair_views(acc@))),
                    forall|s: Seq<(Seq<char>, u64)>| enc_at(buf@, pos as int, enc_pair_list(s))
                        ==> s.len() == n && pair_views(acc@) == s.take(i as int),
                decreases n - i,
            {
                proof {
                    assert forall|s: Seq<(Seq<char>, u64)>| enc_at(
                        buf@,
                        pos as int,
                        enc_pair_list(s),
                    ) implies enc_at(buf@, cur as int, enc_pair(s[i as int])) by {
                        lemma_enc_u64(s.len() as u64);
                        lemma_enc_at_split(
                            buf@,
                            pos as int,
                            enc_u64(s.len() as u64),
                            flat_pairs(s),
                        );
                        lemma_flat_pairs_split(s, i as int);
                        lemma_enc_at_split(
                            buf@,
                            pos + 8,
                            flat_pairs(s.take(i as int)),
                            flat_pairs(s.skip(i as int)),
                        );
                        assert(flat_pairs(s.take(i as int)) == flat_pairs(pair_views(acc@)));
                        assert(s.skip(i as int)[0] == s[i as int]);
                        assert(s.skip(i as int).drop_first() =~= s.skip(i as int + 1));
                        assert(flat_pairs(s.skip(i as int)) == enc_pair(s[i as int]) + flat_pairs(
                            s.skip(i as int + 1),
                        ));
                        lemma_enc_at_split(
                            buf@,
                            cur as int,
                            enc_pair(s[i as int]),
                            flat_pairs(s.skip(i as int + 1)),
                        );
                    }
                }
                match read_pair(buf, cur) {
                    None => {
                        return None;
                    },
                    Some((entry, nxt)) => {
                        proof {
                            lemma_enc_pair_len((entry.0@, entry.1));
                            lemma_flat_pairs_push(pair_views(acc@), (entry.0@, entry.1));
                            lemma_enc_at_join(
                                buf@,
                                pos + 8,
                                flat_pairs(pair_views(acc@)),
                                enc_pair((entry.0@, entry.1)),
                            );
                            assert(pair_views(acc@.push(entry)) =~= pair_views(acc@).push(
                                (entry.0@, entry.1),
                            ));
                            assert forall|s: Seq<(Seq<char>, u64)>| enc_at(
                                buf@,
                                pos as int,
                                enc_pair_list(s),
                            ) implies s.take(i as int + 1) == pair_views(acc@).push(
                                (entry.0@, entry.1),
                            ) by {
                                assert(s.take(i as int + 1) =~= s.take(i as int).push(s[i as int]));
                                assert(s[i as int] == (s[i as int].0, s[i as int].1));
                            }
                        }
                        acc.push(entry);
                        cur = nxt;
                        i = i + 1;
                    },
                }
            }
            proof {
                assert(pair_views(acc@).len() as u64 == n);
                lemma_enc_at_join(buf@, pos as int, enc_u64(n), flat_pairs(pair_views(acc@)));
                lemma_enc_u64(n);
                assert(enc_at(buf@, pos as int, enc_pair_list(pair_views(acc@))));
                assert forall|s: Seq<(Seq<char>, u64)>| enc_at(buf@, pos as int, enc_pair_list(s))
                    implies pair_views(acc@) == s && cur == pos + enc_pair_list(s).len() by {
                    assert(s.take(i as int) =~= s);
                }
            }
            Some((acc, cur))
        },
    }
}

// ---------------------------------------------------------------------------
// determinism of the list encodings
// ---------------------------------------------------------------------------

pub proof fn lemma_flat_u64s_det(b: Seq<u8>, pos: int, s1: Seq<u64>, s2: Seq<u64>)
    requires
        s1.len() == s2.len(),
        enc_at(b, pos, flat_u64s(s1)),
        enc_at(b, pos, flat_u64s(s2)),
    ensures
        s1 == s2,
    decreases s1.len(),
{
    if s1.len() == 0 {
        assert(s1 =~= s2);
    } else {
        lemma_enc_u64(s1[0]);
        lemma_enc_u64(s2[0]);
        lemma_enc_at_split(b, pos, enc_u64(s1[0]), flat_u64s(s1.drop_first()));
        lemma_enc_at_split(b, pos, enc_u64(s2[0]), flat_u64s(s2.drop_first()));
        lemma_enc_u64_det(b, pos, s1[0], s2[0]);
        lemma_flat_u64s_det(b, pos + 8, s1.drop_first(), s2.drop_first());
        assert forall|i: int| 0 <= i < s1.len() implies s1[i] == s2[i] by {
            if i > 0 {
                assert(s1.drop_first()[i - 1] == s2.drop_first()[i - 1]);
            }
        }
        assert(s1 =~= s2);
    }
}

/// Only one `u64` list can stand encoded at a given offset.
pub proof fn lemma_enc_u64_list_det(b: Seq<u8>, pos: int, s1: Seq<u64>, s2: Seq<u64>)
    requires
        b.len() < 0x1_0000_0000_0000_0000,
        enc_at(b, pos, enc_u64_list(s1)),
        enc_at(b, pos, enc_u64_list(s2)),
    ensures
        s1 == s2,
{
    lemma_flat_u64s_len(s1);
    lemma_flat_u64s_len(s2);
    lemma_enc_u64(s1.len() as u64);
    lemma_enc_u64(s2.len() as u64);
    lemma_enc_at_split(b, pos, enc_u64(s1.len() as u64), flat_u64s(s1));
    lemma_enc_at_split(b, pos, enc_u64(s2.len() as u64), flat_u64s(s2));
    lemma_enc_u64_det(b, pos, s1.len() as u64, s2.len() as u64);
    lemma_flat_u64s_det(b, pos + 8, s1, s2);
}

pub proof fn lemma_flat_strs_det(b: Seq<u8>, pos: int, s1: Seq<Seq<char>>, s2: Seq<Seq<char>>)
    requires
        b.len() < 0x1_0000_0000_0000_0000,
        s1.len() == s2.len(),
        enc_at(b, pos, flat_strs(s1)),
        enc_at(b, pos, flat_strs(s2)),
    ensures
        s1 == s2,
    decreases s1.len(),
{
    if s1.len() == 0 {
        assert(s1 =~= s2);
    } else {
        lemma_enc_str_len(s1[0]);
        lemma_enc_str_len(s2[0]);
        lemma_enc_at_split(b, pos, enc_str(s1[0]), flat_strs(s1.drop_first()));
        lemma_enc_at_split(b, pos, enc_str(s2[0]), flat_strs(s2.drop_first()));
        lemma_enc_str_det(b, pos, s1[0], s2[0]);
        lemma_flat_strs_det(
            b,
            pos + enc_str(s1[0]).len(),
            s1.drop_first(),
            s2.drop_first(),
        );
        assert forall|i: int| 0 <= i < s1.len() implies s1[i] == s2[i] by {
            if i > 0 {
                assert(s1.drop_first()[i - 1] == s2.drop_first()[i - 1]);
            }
        }
        assert(s1 =~= s2);
    }
}

/// Only one string list can stand encoded at a given offset.
pub proof fn lemma_enc_str_list_det(b: Seq<u8>, pos: int, s1: Seq<Seq<char>>, s2: Seq<Seq<char>>)
    requires
        b.len() < 0x1_0000_0000_0000_0000,
        enc_at(b, pos, enc_str_list(s1)),
        enc_at(b, pos, enc_str_list(s2)),
    ensures
        s1 == s2,
{
    lemma_flat_strs_len_lower(s1);
    lemma_flat_strs_len_lower(s2);
    lemma_enc_u64(s1.len() as u64);
    lemma_enc_u64(s2.len() as u64);
    lemma_enc_at_split(b, pos, enc_u64(s1.len() as u64), flat_strs(s1));
    lemma_enc_at_split(b, pos, enc_u64(s2.len() as u64), flat_strs(s2));
    lemma_enc_u64_det(b, pos, s1.len() as u64, s2.len() as u64);
    lemma_flat_strs_det(b, pos + 8, s1, s2);
}

/// Only one string/number pair can stand encoded at a given offset.
pub proof fn lemma_enc_pair_det(b: Seq<u8>, pos: int, p1: (Seq<char>, u64), p2: (Seq<char>, u64))
    requires
        b.len() < 0x1_0000_0000_0000_0000,
        enc_at(b, pos, enc_pair(p1)),
        enc_at(b, pos, enc_pair(p2)),
    ensures
        p1 == p2,
{
    lemma_enc_u64(p1.1);
    lemma_enc_u64(p2.1);
    lemma_enc_at_split(b, pos, enc_str(p1.0), enc_u64(p1.1));
    lemma_enc_at_split(b, pos, enc_str(p2.0), enc_u64(p2.1));
    lemma_enc_str_det(b, pos, p1.0, p2.0);
    lemma_enc_u64_det(b, pos + enc_str(p1.0).len(), p1.1, p2.1);
}

pub proof fn lemma_flat_pairs_det(
    b: Seq<u8>,
    pos: int,
    s1: Seq<(Seq<char>, u64)>,
    s2: Seq<(Seq<char>, u64)>,
)
    requires
        b.len() < 0x1_0000_0000_0000_0000,
        s1.len() == s2.len(),
        enc_at(b, pos, flat_pairs(s1)),
        enc_at(b, pos, flat_pairs(s2)),
    ensures
        s1 == s2,
    decreases s1.len(),
{
    if s1.len() == 0 {
        assert(s1 =~= s2);
    } else {
        lemma_enc_pair_len(s1[0]);
        lemma_enc_pair_len(s2[0]);
        lemma_enc_at_split(b, pos, enc_pair(s1[0]), flat_pairs(s1.drop_first()));
        lemma_enc_at_split(b, pos, enc_pair(s2[0]), flat_pairs(s2.drop_first()));
        lemma_enc_pair_det(b, pos, s1[0], s2[0]);
        lemma_flat_pairs_det(
            b,
            pos + enc_pair(s1[0]).len(),
            s1.drop_first(),
            s2.drop_first(),
        );
        assert forall|i: int| 0 <= i < s1.len() implies s1[i] == s2[i] by {
            if i > 0 {
                assert(s1.drop_first()[i - 1] == s2.drop_first()[i - 1]);
            }
        }
        assert(s1 =~= s2);
    }
}

/// Only one pair list can stand encoded at a given offset.
pub proof fn lemma_enc_pair_list_det(
    b: Seq<u8>,
    pos: int,
    s1: Seq<(Seq<char>, u64)>,
    s2: Seq<(Seq<char>, u64)>,
)
    requires
        b.len() < 0x1_0000_0000_0000_0000,
        enc_at(b, pos, enc_pair_list(s1)),
        enc_at(b, pos, enc_pair_list(s2)),
    ensures
        s1 == s2,
{
    lemma_flat_pairs_len_lower(s1);
    lemma_flat_pairs_len_lower(s2);
    lemma_enc_u64(s1.len() as u64);
    lemma_enc_u64(s2.len() as u64);
    lemma_enc_at_split(b, pos, enc_u64(s1.len() as u64), flat_pairs(s1));
    lemma_enc_at_split(b, pos, enc_u64(s2.len() as u64), flat_pairs(s2));
    lemma_enc_u64_det(b, pos, s1.len() as u64, s2.len() as u64);
    lemma_flat_pairs_det(b, pos + 8, s1, s2);
}

} // verus!
