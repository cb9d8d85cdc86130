//! Byte-level encoding of record fields.
//!
//! Every record is persisted as a flat byte string: unsigned fields become
//! eight little-endian bytes, signed fields go through their two's-complement
//! bit pattern, strings become an eight-byte length followed by their UTF-8
//! bytes, and optional strings sit behind a one-byte presence tag.

use vstd::prelude::*;

verus! {

use vstd::bytes::{
    spec_u64_to_le_bytes, spec_u64_from_le_bytes, u64_to_le_bytes, u64_from_le_bytes,
    lemma_auto_spec_u64_to_from_le_bytes,
};
use vstd::utf8::{encode_utf8, decode_utf8, valid_utf8, encode_utf8_valid_utf8,
    encode_utf8_decode_utf8, decode_utf8_encode_utf8};
use vstd::string::StrSliceExecFns;
use vstd::slice::{slice_subrange, slice_to_vec};

/// Encoding of an unsigned field: eight little-endian bytes.
pub open spec fn enc_u64(x: u64) -> Seq<u8> {
    spec_u64_to_le_bytes(x)
}

/// The two's-complement bit pattern of a signed value.
pub open spec fn i64_bits(x: i64) -> u64 {
    if x >= 0 {
        x as u64
    } else {
        (x + 0x1_0000_0000_0000_0000) as u64
    }
}

/// Encoding of a signed field: the bit pattern, little-endian.
pub open spec fn enc_i64(x: i64) -> Seq<u8> {
    spec_u64_to_le_bytes(i64_bits(x))
}

/// Whether a string's UTF-8 form fits the eight-byte length prefix.
pub open spec fn str_fits(s: Seq<char>) -> bool {
    encode_utf8(s).len() < 0x1_0000_0000_0000_0000
}

/// The length prefix written for a string field.
pub open spec fn str_len64(s: Seq<char>) -> u64 {
    (encode_utf8(s).len() as int % 0x1_0000_0000_0000_0000) as u64
}

/// Encoding of a string field: length prefix, then UTF-8 bytes.
pub open spec fn enc_str(s: Seq<char>) -> Seq<u8> {
    spec_u64_to_le_bytes(str_len64(s)) + encode_utf8(s)
}

/// The character sequence held by an optional string.
pub open spec fn opt_view(o: Option<String>) -> Option<Seq<char>> {
    match o {
        Option::None => Option::None,
        Option::Some(s) => Option::Some(s@),
    }
}

/// Whether an optional string fits its length prefix.
pub open spec fn opt_str_fits(o: Option<Seq<char>>) -> bool {
    match o {
        Option::None => true,
        Option::Some(s) => str_fits(s),
    }
}

/// Encoding of an optional string: a presence tag, then the string if any.
pub open spec fn enc_opt_str(o: Option<Seq<char>>) -> Seq<u8> {
    match o {
        Option::None => seq![0u8],
        Option::Some(s) => seq![1u8] + enc_str(s),
    }
}

/// `p` is an initial segment of `b`.
pub open spec fn starts_with(b: Seq<u8>, p: Seq<u8>) -> bool {
    p.len() <= b.len() && b.subrange(0, p.len() as int) == p
}

/// Splitting a concatenation that ends before the end of the buffer.
pub proof fn lemma_parts_at(b: Seq<u8>, off: int, end: int, p: Seq<u8>, rest: Seq<u8>)
    requires
        0 <= off <= end <= b.len(),
        b.subrange(off, end) == p + rest,
    ensures
        off + p.len() + rest.len() == end,
        b.subrange(off, off + p.len() as int) == p,
        b.subrange(off + p.len() as int, end) == rest,
{
    let seg = b.subrange(off, end);
    assert(seg.len() == (p + rest).len());
    assert(b.subrange(off, off + p.len() as int) =~= p) by {
        assert forall|i: int| 0 <= i < p.len() implies b.subrange(
            off,
            off + p.len() as int,
        )[i] == p[i] by {
            assert(b.subrange(off, off + p.len() as int)[i] == b[off + i]);
            assert(seg[i] == b[off + i]);
            assert(seg[i] == (p + rest)[i]);
            assert((p + rest)[i] == p[i]);
        }
    }
    assert(b.subrange(off + p.len() as int, end) =~= rest) by {
        assert forall|i: int| 0 <= i < rest.len() implies b.subrange(
            off + p.len() as int,
            end,
        )[i] == rest[i] by {
            assert(b.subrange(off + p.len() as int, end)[i] == b[off + p.len() + i]);
            assert(seg[p.len() + i] == b[off + p.len() + i]);
            assert(seg[p.len() + i] == (p + rest)[p.len() + i]);
            assert((p + rest)[p.len() + i] == rest[i]);
        }
    }
}

/// Two adjacent segments join into one concatenation.
pub proof fn lemma_join(b: Seq<u8>, mid: int, end: int, pre: Seq<u8>, seg: Seq<u8>)
    requires
        0 <= mid <= end <= b.len(),
        b.subrange(0, mid) == pre,
        b.subrange(mid, end) == seg,
    ensures
        b.subrange(0, end) == pre + seg,
{
    assert(b.subrange(0, end) =~= pre + seg) by {
        assert forall|i: int| 0 <= i < end implies b.subrange(0, end)[i] == (pre + seg)[i] by {
            assert(b.subrange(0, end)[i] == b[i]);
            if i < mid {
                assert(b.subrange(0, mid)[i] == b[i]);
                assert((pre + seg)[i] == pre[i]);
            } else {
                assert(b.subrange(mid, end)[i - mid] == b[i]);
                assert((pre + seg)[i] == seg[i - mid]);
            }
        }
    }
}

/// A segment equality makes the segment an initial part of the tail.
pub proof fn lemma_segment_starts(b: Seq<u8>, off: int, p: Seq<u8>)
    requires
        0 <= off,
        off + p.len() <= b.len(),
        b.subrange(off, off + p.len() as int) == p,
    ensures
        starts_with(b.subrange(off, b.len() as int), p),
{
    assert(b.subrange(off, b.len() as int).subrange(0, p.len() as int) =~= p) by {
        assert forall|i: int| 0 <= i < p.len() implies b.subrange(off, b.len() as int).subrange(
            0,
            p.len() as int,
        )[i] == p[i] by {
            assert(b.subrange(off, b.len() as int).subrange(0, p.len() as int)[i] == b.subrange(
                off,
                b.len() as int,
            )[i]);
            assert(b.subrange(off, b.len() as int)[i] == b[off + i]);
            assert(b.subrange(off, off + p.len() as int)[i] == b[off + i]);
        }
    }
}

/// Appends the encoding of an unsigned field.
pub fn push_u64(out: &mut Vec<u8>, x: u64)
    ensures
        final(out)@ == old(out)@ + enc_u64(x),
{
    let mut b = u64_to_le_bytes(x);
    out.append(&mut b);
}

/// Appends the encoding of a signed field.
pub fn push_i64(out: &mut Vec<u8>, x: i64)
    ensures
        final(out)@ == old(out)@ + enc_i64(x),
{
    let bits: u64 = if x >= 0 {
        x as u64
    } else {
        u64::MAX - ((-(x + 1)) as u64)
    };
    proof {
        assert(bits == i64_bits(x));
    }
    push_u64(out, bits);
}

/// Appends the encoding of a string field.
pub fn push_str_field(out: &mut Vec<u8>, s: &str)
    ensures
        final(out)@ == old(out)@ + enc_str(s@),
        str_fits(s@),
{
    let mut bytes = s.as_bytes_vec();
    let n: u64 = bytes.len() as u64;
    proof {
        assert(encode_utf8(s@).len() < 0x1_0000_0000_0000_0000);
        assert(str_len64(s@) == n);
    }
    push_u64(out, n);
    out.append(&mut bytes);
    proof {
        assert(out@ =~= old(out)@ + enc_str(s@));
    }
}

/// Appends the encoding of an optional string field.
pub fn push_opt_str(out: &mut Vec<u8>, s: &Option<String>)
    ensures
        final(out)@ == old(out)@ + enc_opt_str(opt_view(*s)),
        opt_str_fits(opt_view(*s)),
{
    match s {
        Option::None => {
            out.push(0u8);
            proof {
                assert(out@ =~= old(out)@ + enc_opt_str(Option::None));
            }
        },
        Option::Some(st) => {
            out.push(1u8);
            push_str_field(out, st.as_str());
            proof {
                assert(out@ =~= old(out)@ + enc_opt_str(Option::Some(st@)));
            }
        },
    }
}

/// Reads an unsigned field at the given offset.
pub fn read_u64(b: &[u8], off: usize) -> (r: Option<(u64, usize)>)
    ensures
        off + 8 <= b@.len() ==> (r matches Some(p) && p.0 == spec_u64_from_le_bytes(
            b@.subrange(off as int, off as int + 8),
        ) && p.1 == off + 8),
        off + 8 > b@.len() ==> r is None,
        r matches Some(p) ==> off + 8 <= b@.len() && p.1 == off + 8 && b@.subrange(
            off as int,
            off as int + 8,
        ) == enc_u64(p.0),
{
    if b.len() < 8 || off > b.len() - 8 {
        None
    } else {
        let w = slice_subrange(b, off, off + 8);
        let x = u64_from_le_bytes(w);
        proof {
            lemma_auto_spec_u64_to_from_le_bytes();
            assert(enc_u64(x) == b@.subrange(off as int, off as int + 8));
        }
        Some((x, off + 8))
    }
}

/// Reads a signed field at the given offset.
pub fn read_i64(b: &[u8], off: usize) -> (r: Option<(i64, usize)>)
    ensures
        off + 8 > b@.len() ==> r is None,
        forall|x: i64|
            off + 8 <= b@.len() && b@.subrange(off as int, off as int + 8) == enc_i64(x)
                ==> r == Some((x, (off + 8) as usize)),
        r matches Some(p) ==> off + 8 <= b@.len() && p.1 == off + 8 && b@.subrange(
            off as int,
            off as int + 8,
        ) == enc_i64(p.0),
{
    match read_u64(b, off) {
        None => None,
        Some((bits, off2)) => {
            let x: i64 = if bits <= i64::MAX as u64 {
                bits as i64
            } else {
                -((u64::MAX - bits) as i64) - 1
            };
            proof {
                lemma_auto_spec_u64_to_from_le_bytes();
                assert(i64_bits(x) == bits);
                assert(enc_i64(x) == b@.subrange(off as int, off as int + 8));
                assert forall|v: i64|
                    b@.subrange(off as int, off as int + 8) == enc_i64(v) implies x == v by {
                    assert(bits == i64_bits(v));
                }
            }
            Some((x, off2))
        },
    }
}

/// Relies on `String::from_utf8`: it succeeds exactly on valid UTF-8 input and
/// decodes it, matching vstd's UTF-8 model.
#[verifier::external_body]
fn bytes_to_string(b: Vec<u8>) -> (r: Option<String>)
    ensures
        r matches Some(s) ==> valid_utf8(b@) && s@ == decode_utf8(b@),
        r is None ==> !valid_utf8(b@),
{
    match String::from_utf8(b) {
        Ok(s) => Some(s),
        Err(_) => None,
    }
}

/// Reads a string field at the given offset.
pub fn read_str(b: &[u8], off: usize) -> (r: Option<(String, usize)>)
    ensures
        forall|s: Seq<char>|
            off <= b@.len() && #[trigger] starts_with(
                b@.subrange(off as int, b@.len() as int),
                enc_str(s),
            ) ==> (r matches Some(p) && p.0@ == s && p.1 == off + enc_str(s).len()),
        r matches Some(p) ==> off + enc_str(p.0@).len() == p.1 && p.1 <= b@.len()
            && b@.subrange(off as int, p.1 as int) == enc_str(p.0@),
{
    let total = b.len();
    proof {
        assert(b@.len() < 0x1_0000_0000_0000_0000);
    }
    match read_u64(b, off) {
        None => {
            proof {
                assert forall|s: Seq<char>|
                    off <= b@.len() && starts_with(
                        b@.subrange(off as int, b@.len() as int),
                        enc_str(s),
                    ) implies false by {
                    lemma_read_str_prefix(b@, off as int, s);
                }
            }
            None
        },
        Some((n, off2)) => {
            if n > (total - off2) as u64 {
                proof {
                    lemma_auto_spec_u64_to_from_le_bytes();
                    assert forall|s: Seq<char>|
                        off <= b@.len() && starts_with(
                            b@.subrange(off as int, b@.len() as int),
                            enc_str(s),
                        ) implies false by {
                        lemma_read_str_prefix(b@, off as int, s);
                    }
                }
                None
            } else {
                let nn = n as usize;
                let data = slice_subrange(b, off2, off2 + nn);
                match bytes_to_string(slice_to_vec(data)) {
                    None => {
                        proof {
                            lemma_auto_spec_u64_to_from_le_bytes();
                            assert forall|s: Seq<char>|
                                off <= b@.len() && starts_with(
                                    b@.subrange(off as int, b@.len() as int),
                                    enc_str(s),
                                ) implies false by {
                                lemma_read_str_prefix(b@, off as int, s);
                                encode_utf8_valid_utf8(s);
                            }
                        }
                        None
                    },
                    Some(st) => {
                        proof {
                            lemma_auto_spec_u64_to_from_le_bytes();
                            assert forall|s: Seq<char>|
                                off <= b@.len() && starts_with(
                                    b@.subrange(off as int, b@.len() as int),
                                    enc_str(s),
                                ) implies st@ == s && off2 + nn == off + enc_str(s).len() by {
                                lemma_read_str_prefix(b@, off as int, s);
                                encode_utf8_valid_utf8(s);
                                encode_utf8_decode_utf8(s);
                            }
                            // What was read is itself an exact string field.
                            decode_utf8_encode_utf8(data@);
                            assert(encode_utf8(st@) == data@);
                            assert(str_fits(st@));
                            assert((nn as int) % 0x1_0000_0000_0000_0000 == nn as int);
                            assert(str_len64(st@) == n);
                            assert(b@.subrange(off as int, off as int + 8) == spec_u64_to_le_bytes(
                                str_len64(st@),
                            ));
                            assert(b@.subrange(off as int, (off2 + nn) as int) =~= enc_str(
                                st@,
                            )) by {
                                assert forall|i: int| 0 <= i < 8 + nn implies b@.subrange(
                                    off as int,
                                    (off2 + nn) as int,
                                )[i] == enc_str(st@)[i] by {
                                    assert(b@.subrange(off as int, (off2 + nn) as int)[i] == b@[off
                                        + i]);
                                    if i < 8 {
                                        assert(b@.subrange(off as int, off as int + 8)[i] == b@[off
                                            + i]);
                                        assert(enc_str(st@)[i] == spec_u64_to_le_bytes(
                                            str_len64(st@),
                                        )[i]);
                                    } else {
                                        assert(b@.subrange(
                                            off2 as int,
                                            off2 as int + nn as int,
                                        )[i - 8] == b@[off + i]);
                                        assert(data@[i - 8] == encode_utf8(st@)[i - 8]);
                                        assert(enc_str(st@)[i] == encode_utf8(st@)[i - 8]);
                                    }
                                }
                            }
                        }
                        Some((st, off2 + nn))
                    },
                }
            }
        },
    }
}

/// What the length prefix and payload of a well-formed string field look like.
proof fn lemma_read_str_prefix(b: Seq<u8>, off: int, s: Seq<char>)
    requires
        0 <= off <= b.len(),
        b.len() < 0x1_0000_0000_0000_0000,
        starts_with(b.subrange(off, b.len() as int), enc_str(s)),
    ensures
        str_fits(s),
        str_len64(s) as int == encode_utf8(s).len(),
        off + 8 <= b.len(),
        b.subrange(off, off + 8) == spec_u64_to_le_bytes(str_len64(s)),
        off + 8 + encode_utf8(s).len() <= b.len(),
        b.subrange(off + 8, off + 8 + encode_utf8(s).len() as int) == encode_utf8(s),
        enc_str(s).len() == 8 + encode_utf8(s).len(),
{
    lemma_auto_spec_u64_to_from_le_bytes();
    let suffix = b.subrange(off, b.len() as int);
    let pre = spec_u64_to_le_bytes(str_len64(s));
    let pay = encode_utf8(s);
    let l = enc_str(s).len() as int;
    assert(pre.len() == 8);
    assert(suffix.subrange(0, l) == enc_str(s));
    assert(pay.len() < 0x1_0000_0000_0000_0000);
    assert(encode_utf8(s).len() as int % 0x1_0000_0000_0000_0000 == encode_utf8(s).len() as int);
    assert(str_len64(s) as int == pay.len());
    assert(b.subrange(off, off + 8) =~= pre) by {
        assert forall|i: int| 0 <= i < 8 implies b.subrange(off, off + 8)[i] == pre[i] by {
            assert(b.subrange(off, off + 8)[i] == b[off + i]);
            assert(suffix[i] == b[off + i]);
            assert(suffix.subrange(0, l)[i] == suffix[i]);
            assert(enc_str(s)[i] == (pre + pay)[i]);
            assert((pre + pay)[i] == pre[i]);
        }
    }
    assert(b.subrange(off + 8, off + 8 + pay.len() as int) =~= pay) by {
        assert forall|i: int| 0 <= i < pay.len() implies b.subrange(
            off + 8,
            off + 8 + pay.len() as int,
        )[i] == pay[i] by {
            assert(b.subrange(off + 8, off + 8 + pay.len() as int)[i] == b[off + 8 + i]);
            assert(suffix[8 + i] == b[off + 8 + i]);
            assert(suffix.subrange(0, l)[8 + i] == suffix[8 + i]);
            assert(enc_str(s)[8 + i] == (pre + pay)[8 + i]);
            assert((pre + pay)[8 + i] == pay[i]);
        }
    }
}

/// Reads an optional string field at the given offset.
pub fn read_opt_str(b: &[u8], off: usize) -> (r: Option<(Option<String>, usize)>)
    ensures
        forall|o: Option<Seq<char>>|
            off <= b@.len() && #[trigger] starts_with(
                b@.subrange(off as int, b@.len() as int),
                enc_opt_str(o),
            ) ==> (r matches Some(p) && opt_view(p.0) == o && p.1 == off + enc_opt_str(o).len()),
        r matches Some(p) ==> off + enc_opt_str(opt_view(p.0)).len() == p.1 && p.1 <= b@.len()
            && b@.subrange(off as int, p.1 as int) == enc_opt_str(opt_view(p.0)),
{
    match b.get(off) {
        None => {
            proof {
                assert forall|o: Option<Seq<char>>|
                    off <= b@.len() && starts_with(
                        b@.subrange(off as int, b@.len() as int),
                        enc_opt_str(o),
                    ) implies false by {
                    assert(enc_opt_str(o).len() >= 1);
                }
            }
            None
        },
        Some(tag) => {
            let t = *tag;
            if t == 0u8 {
                proof {
                    assert forall|o: Option<Seq<char>>|
                        starts_with(b@.subrange(off as int, b@.len() as int), enc_opt_str(o))
                            implies o is None by {
                        assert(b@.subrange(off as int, b@.len() as int)[0] == b@[off as int]);
                        assert(enc_opt_str(o)[0] == b@[off as int]);
                        if o is Some {
                            assert(enc_opt_str(o)[0] == 1u8);
                        }
                    }
                }
                proof {
                    assert(b@.subrange(off as int, off as int + 1) =~= enc_opt_str(
                        Option::<Seq<char>>::None,
                    )) by {
                        assert(b@.subrange(off as int, off as int + 1)[0] == b@[off as int]);
                    }
                }
                Some((None, off + 1))
            } else if t == 1u8 {
                match read_str(b, off + 1) {
                    None => {
                        proof {
                            assert forall|o: Option<Seq<char>>|
                                starts_with(
                                    b@.subrange(off as int, b@.len() as int),
                                    enc_opt_str(o),
                                ) implies false by {
                                lemma_opt_some_peel(b@, off as int, o);
                            }
                        }
                        None
                    },
                    Some((st, off2)) => {
                        proof {
                            assert forall|o: Option<Seq<char>>|
                                starts_with(
                                    b@.subrange(off as int, b@.len() as int),
                                    enc_opt_str(o),
                                ) implies (o matches Some(s) && st@ == s && off2 == off
                                + enc_opt_str(o).len()) by {
                                lemma_opt_some_peel(b@, off as int, o);
                            }
                            assert(b@.subrange(off as int, off2 as int) =~= enc_opt_str(
                                Option::Some(st@),
                            )) by {
                                assert forall|i: int|
                                    0 <= i < 1 + enc_str(st@).len() implies b@.subrange(
                                    off as int,
                                    off2 as int,
                                )[i] == enc_opt_str(Option::Some(st@))[i] by {
                                    assert(b@.subrange(off as int, off2 as int)[i] == b@[off + i]);
                                    if i == 0 {
                                        assert(enc_opt_str(Option::Some(st@))[0] == 1u8);
                                    } else {
                                        assert(b@.subrange(off as int + 1, off2 as int)[i - 1]
                                            == b@[off + i]);
                                        assert(enc_opt_str(Option::Some(st@))[i] == enc_str(
                                            st@,
                                        )[i - 1]);
                                    }
                                }
                            }
                        }
                        Some((Some(st), off2))
                    },
                }
            } else {
                proof {
                    assert forall|o: Option<Seq<char>>|
                        starts_with(b@.subrange(off as int, b@.len() as int), enc_opt_str(o))
                            implies false by {
                        assert(b@.subrange(off as int, b@.len() as int)[0] == b@[off as int]);
                        assert(enc_opt_str(o)[0] == b@[off as int]);
                    }
                }
                None
            }
        },
    }
}

/// Behind a present tag sits an ordinary string field.
proof fn lemma_opt_some_peel(b: Seq<u8>, off: int, o: Option<Seq<char>>)
    requires
        0 <= off < b.len(),
        b[off] == 1u8,
        starts_with(b.subrange(off, b.len() as int), enc_opt_str(o)),
    ensures
        o matches Some(s) && starts_with(b.subrange(off + 1, b.len() as int), enc_str(s))
            && enc_opt_str(o).len() == 1 + enc_str(s).len(),
{
    assert(b.subrange(off, b.len() as int)[0] == b[off]);
    assert(enc_opt_str(o)[0] == b[off]);
    if o is None {
        assert(enc_opt_str(o)[0] == 0u8);
    }
    let s = o->Some_0;
    let suffix = b.subrange(off, b.len() as int);
    assert(suffix.subrange(0, enc_opt_str(o).len() as int) == enc_opt_str(o));
    assert(b.subrange(off + 1, b.len() as int).subrange(0, enc_str(s).len() as int) =~= enc_str(
        s,
    )) by {
        assert forall|i: int| 0 <= i < enc_str(s).len() implies b.subrange(
            off + 1,
            b.len() as int,
        )[i] == enc_str(s)[i] by {
            assert(suffix.subrange(0, enc_opt_str(o).len() as int)[i + 1] == enc_opt_str(o)[i + 1]);
            assert(enc_opt_str(o)[i + 1] == enc_str(s)[i]);
            assert(suffix[i + 1] == b[off + 1 + i]);
        }
    }
}

} // verus!
