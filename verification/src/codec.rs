//! Canonical binary framing for the workload envelope.
//!
//! The envelope travels as a compact self-describing binary object (CBOR
//! semantics): a two-entry map with fixed text keys, a text value carrying
//! the human-readable label and an array of small unsigned integers carrying
//! the payload bytes. Headers use shortest-form lengths and the keys come in
//! a fixed order, so each envelope has exactly one encoding; the decoder
//! accepts precisely that form and reports everything else as a typed
//! rejection with a fixed diagnostic.

use vstd::prelude::*;
use vstd::arithmetic::div_mod::{lemma_div_denominator, lemma_small_mod};
use vstd::arithmetic::mul::lemma_mul_inequality;
use vstd::arithmetic::mul::lemma_mul_strict_inequality;
use crate::envelope::Rejection;
use crate::envelope::Workload;

verus! {

/// 256 to the power `width`: the number of values `width` bytes can carry.
pub open spec fn pow256(width: nat) -> nat
    decreases width,
{
    if width == 0 {
        1
    } else {
        256 * pow256((width - 1) as nat)
    }
}

/// The big-endian byte string of `n`, exactly `width` bytes long
/// (most significant byte first; high bits beyond `width` bytes are lost).
pub open spec fn be_bytes(n: nat, width: nat) -> Seq<u8>
    decreases width,
{
    if width == 0 {
        Seq::empty()
    } else {
        be_bytes(n / 256, (width - 1) as nat) + seq![(n % 256) as u8]
    }
}

/// The unsigned value of a big-endian byte string.
pub open spec fn be_val(s: Seq<u8>) -> nat
    decreases s.len(),
{
    if s.len() == 0 {
        0
    } else {
        be_val(s.drop_last()) * 256 + s.last() as nat
    }
}

proof fn lemma_be_bytes_len(n: nat, width: nat)
    ensures
        be_bytes(n, width).len() == width,
    decreases width,
{
    if width > 0 {
        lemma_be_bytes_len(n / 256, (width - 1) as nat);
    }
}

/// Reading back the big-endian bytes of `n` yields `n`, provided `n` fits.
proof fn lemma_be_val_of_be_bytes(n: nat, width: nat)
    requires
        n < pow256(width),
    ensures
        be_val(be_bytes(n, width)) == n,
    decreases width,
{
    if width > 0 {
        let s = be_bytes(n, width);
        lemma_be_bytes_len(n / 256, (width - 1) as nat);
        assert(s.drop_last() =~= be_bytes(n / 256, (width - 1) as nat));
        assert(n / 256 < pow256((width - 1) as nat)) by {
            if n / 256 >= pow256((width - 1) as nat) {
                lemma_mul_strict_inequality(
                    pow256((width - 1) as nat) as int - 1,
                    n as int / 256,
                    256,
                );
            }
        };
        lemma_be_val_of_be_bytes(n / 256, (width - 1) as nat);
        assert(s.last() == (n % 256) as u8);
        assert((n / 256) * 256 + n % 256 == n) by {
            vstd::arithmetic::div_mod::lemma_fundamental_div_mod(n as int, 256);
        };
    }
}

/// The powers of 256 the framing's length fields can need.
proof fn lemma_pow256_values()
    ensures
        pow256(0) == 1,
        pow256(1) == 256,
        pow256(2) == 65536,
        pow256(4) == 0x1_0000_0000,
        pow256(8) == 0x1_0000_0000_0000_0000,
{
    assert(pow256(0) == 1);
    assert(pow256(1) == 256);
    assert(pow256(2) == 65536);
    assert(pow256(3) == 0x100_0000);
    assert(pow256(4) == 0x1_0000_0000);
    assert(pow256(5) == 0x100_0000_0000);
    assert(pow256(6) == 0x1_0000_0000_0000);
    assert(pow256(7) == 0x100_0000_0000_0000);
    assert(pow256(8) == 0x1_0000_0000_0000_0000);
}

/// The shortest-form item header of the framing: the major type in the top
/// three bits of the initial byte, the value (a small immediate, or a
/// big-endian length of 1, 2, 4 or 8 bytes) in the rest.
pub open spec fn hdr(major: u8, n: nat) -> Seq<u8> {
    if n < 24 {
        seq![(major * 32 + n) as u8]
    } else if n < 256 {
        seq![(major * 32 + 24) as u8] + be_bytes(n, 1)
    } else if n < 65536 {
        seq![(major * 32 + 25) as u8] + be_bytes(n, 2)
    } else if n < 0x1_0000_0000 {
        seq![(major * 32 + 26) as u8] + be_bytes(n, 4)
    } else {
        seq![(major * 32 + 27) as u8] + be_bytes(n, 8)
    }
}

/// Parse one item header at `pos`: the major type, the value, and the
/// position just past the header. `None` on truncation, on a reserved
/// additional-information code, or on a value not in shortest form.
pub open spec fn parse_hdr(bytes: Seq<u8>, pos: int) -> Option<(u8, nat, int)> {
    if pos < 0 || pos >= bytes.len() {
        None
    } else {
        let ib = bytes[pos];
        let major = ib / 32;
        let ai = ib % 32;
        if ai < 24 {
            Some((major, ai as nat, pos + 1))
        } else if ai == 24 && pos + 2 <= bytes.len() && bytes[pos + 1] >= 24 {
            Some((major, bytes[pos + 1] as nat, pos + 2))
        } else if ai == 25 && pos + 3 <= bytes.len() && be_val(
            bytes.subrange(pos + 1, pos + 3),
        ) >= 256 {
            Some((major, be_val(bytes.subrange(pos + 1, pos + 3)), pos + 3))
        } else if ai == 26 && pos + 5 <= bytes.len() && be_val(
            bytes.subrange(pos + 1, pos + 5),
        ) >= 65536 {
            Some((major, be_val(bytes.subrange(pos + 1, pos + 5)), pos + 5))
        } else if ai == 27 && pos + 9 <= bytes.len() && be_val(
            bytes.subrange(pos + 1, pos + 9),
        ) >= 0x1_0000_0000 {
            Some((major, be_val(bytes.subrange(pos + 1, pos + 9)), pos + 9))
        } else {
            None
        }
    }
}

proof fn lemma_hdr_len(major: u8, n: nat)
    ensures
        1 <= hdr(major, n).len() <= 9,
        n < 24 ==> hdr(major, n).len() == 1,
{
    lemma_be_bytes_len(n, 1);
    lemma_be_bytes_len(n, 2);
    lemma_be_bytes_len(n, 4);
    lemma_be_bytes_len(n, 8);
}

/// A shortest-form header embedded in a longer byte string parses back to
/// exactly the major type and value it was built from.
proof fn lemma_parse_hdr_embed(bytes: Seq<u8>, pos: int, major: u8, n: nat)
    requires
        major < 6,
        n < 0x1_0000_0000_0000_0000,
        0 <= pos,
        pos + hdr(major, n).len() <= bytes.len(),
        bytes.subrange(pos, pos + hdr(major, n).len()) == hdr(major, n),
    ensures
        parse_hdr(bytes, pos) == Some((major, n, pos + hdr(major, n).len())),
{
    let h = hdr(major, n);
    lemma_hdr_len(major, n);
    assert(bytes[pos] == h[0]);
    let ai: u8 = if n < 24 {
        n as u8
    } else if n < 256 {
        24
    } else if n < 65536 {
        25
    } else if n < 0x1_0000_0000 {
        26
    } else {
        27
    };
    assert(h[0] == (major * 32 + ai) as u8);
    assert(major * 32 + ai < 256);
    assert(h[0] / 32 == major && h[0] % 32 == ai) by {
        assert((major * 32 + ai) / 32 == major && (major * 32 + ai) % 32 == ai) by (nonlinear_arith)
            requires
                major < 6,
                ai < 32,
        ;
    };
    if n < 24 {
    } else {
        let width: nat = if n < 256 {
            1
        } else if n < 65536 {
            2
        } else if n < 0x1_0000_0000 {
            4
        } else {
            8
        };
        lemma_pow256_values();
        assert(n < pow256(width));
        lemma_be_bytes_len(n, width);
        assert(bytes.subrange(pos + 1, pos + 1 + width) =~= be_bytes(n, width)) by {
            assert(forall|i: int|
                0 <= i < width ==> #[trigger] bytes.subrange(pos + 1, pos + 1 + width)[i] == h[i
                    + 1]);
        };
        lemma_be_val_of_be_bytes(n, width);
        if width == 1 {
            assert(bytes[pos + 1] == be_bytes(n, 1)[0]);
            assert(be_val(be_bytes(n, 1)) == be_bytes(n, 1)[0] as nat) by {
                assert(be_bytes(n, 1).drop_last() =~= Seq::<u8>::empty());
            };
        }
    }
}

/// Each byte of a big-endian byte string, as a quotient of the value.
proof fn lemma_be_bytes_index(n: nat, width: nat, i: int)
    requires
        0 <= i < width,
    ensures
        be_bytes(n, width)[i] == ((n / pow256((width - 1 - i) as nat)) % 256) as u8,
    decreases width,
{
    lemma_be_bytes_len(n, width);
    lemma_be_bytes_len(n / 256, (width - 1) as nat);
    if i == width - 1 {
        assert(be_bytes(n, width)[i] == (n % 256) as u8);
        lemma_small_mod(0, 1);
        assert(pow256(0) == 1);
        assert(n / 1 == n);
    } else {
        assert(be_bytes(n, width)[i] == be_bytes(n / 256, (width - 1) as nat)[i]);
        lemma_be_bytes_index(n / 256, (width - 1) as nat, i);
        let k = (width - 2 - i) as nat;
        assert(pow256((k + 1) as nat) == 256 * pow256(k));
        lemma_pow256_pos(k);
        lemma_div_denominator(n as int, 256, pow256(k) as int);
        assert((n as int / 256) / pow256(k) as int == n as int / (256 * pow256(k)) as int);
    }
}

fn pow256_u64(k: usize) -> (r: u64)
    requires
        k <= 7,
    ensures
        r == pow256(k as nat),
        r >= 1,
{
    proof {
        lemma_pow256_values();
        assert(pow256(3) == 0x100_0000);
        assert(pow256(5) == 0x100_0000_0000);
        assert(pow256(6) == 0x1_0000_0000_0000);
        assert(pow256(7) == 0x100_0000_0000_0000);
    }
    if k == 0 {
        1
    } else if k == 1 {
        0x100
    } else if k == 2 {
        0x1_0000
    } else if k == 3 {
        0x100_0000
    } else if k == 4 {
        0x1_0000_0000
    } else if k == 5 {
        0x100_0000_0000
    } else if k == 6 {
        0x1_0000_0000_0000
    } else {
        0x100_0000_0000_0000
    }
}

/// Read `width` big-endian bytes at `pos` as an unsigned value.
fn read_be(v: &Vec<u8>, pos: usize, width: usize) -> (r: u64)
    requires
        pos + width <= v@.len(),
        width <= 8,
    ensures
        r == be_val(v@.subrange(pos as int, pos + width)),
{
    let mut val: u64 = 0;
    let mut i: usize = 0;
    let l: usize = v.len();
    proof {
        assert(v@.subrange(pos as int, pos as int) =~= Seq::<u8>::empty());
    }
    while i < width
        invariant
            pos + width <= v@.len(),
            v@.len() == l,
            width <= 8,
            i <= width,
            val == be_val(v@.subrange(pos as int, pos + i)),
            val < pow256(i as nat),
        decreases width - i,
    {
        proof {
            lemma_pow256_values();
            assert(pow256((i + 1) as nat) == 256 * pow256(i as nat));
            assert(pow256(i as nat) <= pow256(7)) by {
                lemma_pow256_increases(i as nat, 7);
            };
            assert(val * 256 + 255 < pow256((i + 1) as nat)) by {
                if val + 1 <= pow256(i as nat) {
                    lemma_mul_inequality((val + 1) as int, pow256(i as nat) as int, 256);
                }
            };
            lemma_pow256_increases((i + 1) as nat, 8);
            assert(v@.subrange(pos as int, pos + i + 1).drop_last() =~= v@.subrange(
                pos as int,
                pos + i,
            ));
            assert(v@.subrange(pos as int, pos + i + 1).last() == v@[pos + i]);
        }
        val = val * 256 + (v[pos + i] as u64);
        i = i + 1;
    }
    val
}

/// Read one item header at `pos`, following `parse_hdr` exactly.
fn read_hdr(v: &Vec<u8>, pos: usize) -> (r: Option<(u8, u64, usize)>)
    ensures
        match r {
            Some((major, val, newpos)) => {
                &&& parse_hdr(v@, pos as int) == Some((major, val as nat, newpos as int))
                &&& pos < newpos <= v@.len()
            },
            None => parse_hdr(v@, pos as int) is None,
        },
{
    let l: usize = v.len();
    if pos >= l {
        return None;
    }
    let ib: u8 = v[pos];
    let major: u8 = ib / 32;
    let ai: u8 = ib % 32;
    if ai < 24 {
        Some((major, ai as u64, pos + 1))
    } else if ai == 24 {
        if l - pos < 2 {
            return None;
        }
        let b: u8 = v[pos + 1];
        if b < 24 {
            return None;
        }
        Some((major, b as u64, pos + 2))
    } else if ai == 25 {
        if l - pos < 3 {
            return None;
        }
        let val = read_be(v, pos + 1, 2);
        if val < 256 {
            return None;
        }
        Some((major, val, pos + 3))
    } else if ai == 26 {
        if l - pos < 5 {
            return None;
        }
        let val = read_be(v, pos + 1, 4);
        if val < 65536 {
            return None;
        }
        Some((major, val, pos + 5))
    } else if ai == 27 {
        if l - pos < 9 {
            return None;
        }
        let val = read_be(v, pos + 1, 8);
        if val < 0x1_0000_0000 {
            return None;
        }
        Some((major, val, pos + 9))
    } else {
        None
    }
}

/// Append the big-endian bytes of `n`, `width` bytes long.
fn push_be(out: &mut Vec<u8>, n: u64, width: usize)
    requires
        width <= 8,
        n < pow256(width as nat),
    ensures
        final(out)@ == old(out)@ + be_bytes(n as nat, width as nat),
{
    let ghost prefix = out@;
    proof {
        lemma_be_bytes_len(n as nat, width as nat);
        assert(out@ =~= prefix + be_bytes(n as nat, width as nat).subrange(0, 0));
    }
    let mut i: usize = 0;
    while i < width
        invariant
            width <= 8,
            i <= width,
            n < pow256(width as nat),
            out@ == prefix + be_bytes(n as nat, width as nat).subrange(0, i as int),
        decreases width - i,
    {
        let p: u64 = pow256_u64(width - 1 - i);
        proof {
            lemma_be_bytes_len(n as nat, width as nat);
            lemma_be_bytes_index(n as nat, width as nat, i as int);
            assert(be_bytes(n as nat, width as nat).subrange(0, i + 1) =~= be_bytes(
                n as nat,
                width as nat,
            ).subrange(0, i as int) + seq![be_bytes(n as nat, width as nat)[i as int]]);
        }
        out.push(((n / p) % 256) as u8);
        i = i + 1;
    }
    proof {
        assert(be_bytes(n as nat, width as nat).subrange(0, width as int) =~= be_bytes(
            n as nat,
            width as nat,
        ));
    }
}

/// Append the shortest-form header for major type `major` and value `n`.
fn push_hdr(out: &mut Vec<u8>, major: u8, n: u64)
    requires
        major < 6,
    ensures
        final(out)@ == old(out)@ + hdr(major, n as nat),
{
    proof {
        lemma_pow256_values();
    }
    if n < 24 {
        out.push(major * 32 + n as u8);
        proof {
            assert(hdr(major, n as nat) =~= seq![(major * 32 + n as nat) as u8]);
        }
    } else if n < 256 {
        out.push(major * 32 + 24);
        push_be(out, n, 1);
    } else if n < 65536 {
        out.push(major * 32 + 25);
        push_be(out, n, 2);
    } else if n < 0x1_0000_0000 {
        out.push(major * 32 + 26);
        push_be(out, n, 4);
    } else {
        out.push(major * 32 + 27);
        push_be(out, n, 8);
    }
}

/// Powers of 256 grow with the exponent.
proof fn lemma_pow256_increases(a: nat, b: nat)
    requires
        a <= b,
    ensures
        pow256(a) <= pow256(b),
    decreases b,
{
    if a < b {
        lemma_pow256_increases(a, (b - 1) as nat);
        assert(pow256(b) == 256 * pow256((b - 1) as nat));
        assert(pow256((b - 1) as nat) >= 1) by {
            lemma_pow256_pos((b - 1) as nat);
        };
    }
}

proof fn lemma_pow256_pos(a: nat)
    ensures
        pow256(a) >= 1,
    decreases a,
{
    if a > 0 {
        lemma_pow256_pos((a - 1) as nat);
    }
}

/// The encoded items of the payload array: one unsigned-integer item per
/// payload byte, each in shortest form.
pub open spec fn items_bytes(bin: Seq<u8>) -> Seq<u8>
    decreases bin.len(),
{
    if bin.len() == 0 {
        Seq::empty()
    } else {
        hdr(0, bin[0] as nat) + items_bytes(bin.drop_first())
    }
}

/// Parse `count` unsigned-integer items at `pos`, each a byte value below
/// 256: the bytes read and the position just past them.
pub open spec fn parse_items(bytes: Seq<u8>, pos: int, count: nat) -> Option<(Seq<u8>, int)>
    decreases count,
{
    if count == 0 {
        Some((Seq::empty(), pos))
    } else {
        match parse_hdr(bytes, pos) {
            Some((major, val, p2)) => if major == 0 && val < 256 {
                match parse_items(bytes, p2, (count - 1) as nat) {
                    Some((rest, end)) => Some((seq![val as u8] + rest, end)),
                    None => None,
                }
            } else {
                None
            },
            None => None,
        }
    }
}

proof fn lemma_items_bytes_len(bin: Seq<u8>)
    ensures
        bin.len() <= items_bytes(bin).len() <= 2 * bin.len(),
    decreases bin.len(),
{
    if bin.len() > 0 {
        lemma_hdr_len(0, bin[0] as nat);
        lemma_be_bytes_len(bin[0] as nat, 1);
        lemma_items_bytes_len(bin.drop_first());
    }
}

/// An encoded payload array body embedded in a longer byte string parses
/// back to exactly the payload it was built from.
proof fn lemma_parse_items_embed(bytes: Seq<u8>, pos: int, bin: Seq<u8>)
    requires
        0 <= pos,
        pos + items_bytes(bin).len() <= bytes.len(),
        bytes.subrange(pos, pos + items_bytes(bin).len()) == items_bytes(bin),
    ensures
        parse_items(bytes, pos, bin.len()) == Some((bin, pos + items_bytes(bin).len())),
    decreases bin.len(),
{
    if bin.len() == 0 {
    } else {
        let h = hdr(0, bin[0] as nat);
        let tail = items_bytes(bin.drop_first());
        lemma_hdr_len(0, bin[0] as nat);
        lemma_items_bytes_len(bin.drop_first());
        assert(items_bytes(bin) == h + tail);
        assert forall|i: int| 0 <= i < h.len() implies #[trigger] bytes.subrange(
            pos,
            pos + h.len(),
        )[i] == h[i] by {
            assert(bytes.subrange(pos, pos + items_bytes(bin).len())[i] == (h + tail)[i]);
            assert(bytes.subrange(pos, pos + h.len())[i] == bytes[pos + i]);
            assert(bytes.subrange(pos, pos + items_bytes(bin).len())[i] == bytes[pos + i]);
        };
        assert(bytes.subrange(pos, pos + h.len()) =~= h);
        lemma_parse_hdr_embed(bytes, pos, 0, bin[0] as nat);
        assert(parse_hdr(bytes, pos) == Some((0u8, bin[0] as nat, pos + h.len())));
        assert forall|i: int| 0 <= i < tail.len() implies #[trigger] bytes.subrange(
            pos + h.len(),
            pos + h.len() + tail.len(),
        )[i] == tail[i] by {
            let j = h.len() + i;
            assert(bytes.subrange(pos, pos + items_bytes(bin).len())[j] == (h + tail)[j]);
            assert(bytes.subrange(pos + h.len(), pos + h.len() + tail.len())[i] == bytes[pos + j]);
            assert(bytes.subrange(pos, pos + items_bytes(bin).len())[j] == bytes[pos + j]);
            assert((h + tail)[j] == tail[i]);
        };
        assert(bytes.subrange(pos + h.len(), pos + h.len() + tail.len()) =~= tail);
        lemma_parse_items_embed(bytes, pos + h.len(), bin.drop_first());
        assert(seq![bin[0]] + bin.drop_first() =~= bin);
    }
}

/// The bytes of the fixed first map key, the label field's name.
pub open spec fn key_info_bytes() -> Seq<u8> {
    seq![
        0x68u8, 0x75u8, 0x6du8, 0x61u8, 0x6eu8, 0x5fu8, 0x72u8, 0x65u8, 0x61u8, 0x64u8, 0x61u8,
        0x62u8, 0x6cu8, 0x65u8, 0x5fu8, 0x69u8, 0x6eu8, 0x66u8, 0x6fu8,
    ]
}

/// The bytes of the fixed second map key, the payload field's name.
pub open spec fn key_binary_bytes() -> Seq<u8> {
    seq![0x77u8, 0x61u8, 0x73u8, 0x6du8, 0x5fu8, 0x62u8, 0x69u8, 0x6eu8, 0x61u8, 0x72u8, 0x79u8]
}

/// The one byte string that encodes an envelope with label `info` and
/// payload `bin`: a two-entry map, each key a fixed text item, the label a
/// text item and the payload an array of unsigned-integer items.
pub open spec fn spec_encode(info: Seq<char>, bin: Seq<u8>) -> Seq<u8> {
    let info_bytes = vstd::utf8::encode_utf8(info);
    hdr(5, 2) + hdr(3, 19) + key_info_bytes() + hdr(3, info_bytes.len()) + info_bytes + hdr(3, 11)
        + key_binary_bytes() + hdr(4, bin.len()) + items_bytes(bin)
}

/// Parse an envelope: `Some` exactly on byte strings `spec_encode` produces
/// (for label and payload sizes a machine can hold), with nothing left over.
pub open spec fn spec_decode(bytes: Seq<u8>) -> Option<(Seq<char>, Seq<u8>)> {
    match parse_hdr(bytes, 0) {
        Some((m0, n0, p0)) => if m0 == 5 && n0 == 2 {
            match parse_hdr(bytes, p0) {
                Some((m1, n1, p1)) => if m1 == 3 && n1 == 19 && p1 + 19 <= bytes.len()
                    && bytes.subrange(p1, p1 + 19) == key_info_bytes() {
                    match parse_hdr(bytes, p1 + 19) {
                        Some((m2, n2, p2)) => if m2 == 3 && p2 + n2 <= bytes.len()
                            && vstd::utf8::valid_utf8(bytes.subrange(p2, p2 + n2 as int)) {
                            let info = vstd::utf8::decode_utf8(bytes.subrange(p2, p2 + n2 as int));
                            match parse_hdr(bytes, p2 + n2 as int) {
                                Some((m3, n3, p3)) => if m3 == 3 && n3 == 11 && p3 + 11
                                    <= bytes.len() && bytes.subrange(p3, p3 + 11)
                                    == key_binary_bytes() {
                                    match parse_hdr(bytes, p3 + 11) {
                                        Some((m4, n4, p4)) => if m4 == 4 {
                                            match parse_items(bytes, p4, n4) {
                                                Some((bin, end)) => if end == bytes.len() {
                                                    Some((info, bin))
                                                } else {
                                                    None
                                                },
                                                None => None,
                                            }
                                        } else {
                                            None
                                        },
                                        None => None,
                                    }
                                } else {
                                    None
                                },
                                None => None,
                            }
                        } else {
                            None
                        },
                        None => None,
                    }
                } else {
                    None
                },
                None => None,
            }
        } else {
            None
        },
        None => None,
    }
}

/// Splitting a suffix of `b` into a head segment and the rest.
proof fn lemma_peel(b: Seq<u8>, o: int, s: Seq<u8>, t: Seq<u8>)
    requires
        0 <= o <= b.len(),
        b.subrange(o, b.len() as int) == s + t,
    ensures
        o + s.len() + t.len() == b.len(),
        b.subrange(o, o + s.len() as int) == s,
        b.subrange(o + s.len() as int, b.len() as int) == t,
{
    assert(b.subrange(o, b.len() as int).len() == b.len() - o);
    assert forall|i: int| 0 <= i < s.len() implies #[trigger] b.subrange(
        o,
        o + s.len() as int,
    )[i] == s[i] by {
        assert(b.subrange(o, b.len() as int)[i] == (s + t)[i]);
        assert(b.subrange(o, o + s.len() as int)[i] == b[o + i]);
        assert(b.subrange(o, b.len() as int)[i] == b[o + i]);
    };
    assert(b.subrange(o, o + s.len() as int) =~= s);
    assert forall|i: int| 0 <= i < t.len() implies #[trigger] b.subrange(
        o + s.len() as int,
        b.len() as int,
    )[i] == t[i] by {
        let j = s.len() + i;
        assert(b.subrange(o, b.len() as int)[j] == (s + t)[j]);
        assert(b.subrange(o + s.len() as int, b.len() as int)[i] == b[o + j]);
        assert(b.subrange(o, b.len() as int)[j] == b[o + j]);
    };
    assert(b.subrange(o + s.len() as int, b.len() as int) =~= t);
}

/// Decoding inverts encoding: the envelope's round trip, for any label and
/// payload whose encoded sizes a machine could hold.
#[verifier::rlimit(100)]
pub proof fn lemma_decode_encode(info: Seq<char>, bin: Seq<u8>)
    requires
        vstd::utf8::encode_utf8(info).len() < 0x1_0000_0000_0000_0000,
        bin.len() < 0x1_0000_0000_0000_0000,
    ensures
        spec_decode(spec_encode(info, bin)) == Some((info, bin)),
{
    let ib = vstd::utf8::encode_utf8(info);
    let il = ib.len();
    let bl = bin.len();
    let s0 = hdr(5, 2);
    let s1 = hdr(3, 19);
    let s2 = key_info_bytes();
    let s3 = hdr(3, il);
    let s4 = ib;
    let s5 = hdr(3, 11);
    let s6 = key_binary_bytes();
    let s7 = hdr(4, bl);
    let s8 = items_bytes(bin);
    let b = spec_encode(info, bin);
    assert(b == s0 + s1 + s2 + s3 + s4 + s5 + s6 + s7 + s8);
    lemma_hdr_len(5, 2);
    lemma_hdr_len(3, 19);
    lemma_hdr_len(3, il);
    lemma_hdr_len(3, 11);
    lemma_hdr_len(4, bl);
    lemma_items_bytes_len(bin);
    assert(s0.len() == 1 && s1.len() == 1 && s5.len() == 1);
    let o1 = 1int;
    let o2 = o1 + 1;
    let o3 = o2 + 19;
    let o4 = o3 + s3.len() as int;
    let o5 = o4 + il as int;
    let o6 = o5 + 1;
    let o7 = o6 + 11;
    let o8 = o7 + s7.len() as int;
    let o9 = o8 + s8.len() as int;
    assert(b.len() == o9);
    // peel the encoding into its segments, head first
    let t8 = s8;
    let t7 = s7 + t8;
    let t6 = s6 + t7;
    let t5 = s5 + t6;
    let t4 = s4 + t5;
    let t3 = s3 + t4;
    let t2 = s2 + t3;
    let t1 = s1 + t2;
    let t0 = s0 + t1;
    assert(b =~= t0);
    assert(b.subrange(0, b.len() as int) =~= b);
    lemma_peel(b, 0, s0, t1);
    lemma_peel(b, o1, s1, t2);
    lemma_peel(b, o2, s2, t3);
    lemma_peel(b, o3, s3, t4);
    lemma_peel(b, o4, s4, t5);
    lemma_peel(b, o5, s5, t6);
    lemma_peel(b, o6, s6, t7);
    lemma_peel(b, o7, s7, t8);
    assert(b.subrange(o8, b.len() as int) == s8);
    lemma_parse_hdr_embed(b, 0, 5, 2);
    lemma_parse_hdr_embed(b, o1, 3, 19);
    assert(b.subrange(o2, o2 + 19) == key_info_bytes());
    lemma_parse_hdr_embed(b, o3, 3, il);
    assert(b.subrange(o4, o4 + il as int) == ib);
    lemma_parse_hdr_embed(b, o5, 3, 11);
    assert(b.subrange(o6, o6 + 11) == key_binary_bytes());
    lemma_parse_hdr_embed(b, o7, 4, bl);
    lemma_parse_items_embed(b, o8, bin);
    // the label's bytes decode back to the label
    broadcast use vstd::utf8::encode_utf8_valid_utf8;
    broadcast use vstd::utf8::encode_utf8_decode_utf8;

    assert(vstd::utf8::valid_utf8(ib));
    assert(vstd::utf8::decode_utf8(ib) == info);
    assert(spec_decode(b) == Some((info, bin)));
}

/// A big-endian byte string's value fits the values its width can carry.
proof fn lemma_be_val_bound(s: Seq<u8>)
    ensures
        be_val(s) < pow256(s.len()),
    decreases s.len(),
{
    if s.len() > 0 {
        lemma_be_val_bound(s.drop_last());
        assert(pow256(s.len()) == 256 * pow256((s.len() - 1) as nat));
        lemma_mul_inequality(
            be_val(s.drop_last()) as int + 1,
            pow256((s.len() - 1) as nat) as int,
            256,
        );
    }
}

/// Writing a big-endian byte string's value back out yields the string.
proof fn lemma_be_bytes_of_be_val(s: Seq<u8>)
    ensures
        be_bytes(be_val(s), s.len()) == s,
    decreases s.len(),
{
    if s.len() > 0 {
        let v = be_val(s);
        assert(v == be_val(s.drop_last()) * 256 + s.last());
        assert(v / 256 == be_val(s.drop_last()) && v % 256 == s.last()) by (nonlinear_arith)
            requires
                v == be_val(s.drop_last()) * 256 + s.last(),
                s.last() < 256,
        ;
        lemma_be_bytes_of_be_val(s.drop_last());
        assert(be_bytes(v, s.len()) =~= s);
    }
}

/// A stretch of a byte string splits at any midpoint.
proof fn lemma_join(b: Seq<u8>, a: int, m: int, c: int)
    requires
        0 <= a <= m <= c <= b.len(),
    ensures
        b.subrange(a, c) == b.subrange(a, m) + b.subrange(m, c),
{
    assert(b.subrange(a, c) =~= b.subrange(a, m) + b.subrange(m, c));
}

/// A header that parses is the shortest-form header of what it parsed to:
/// the framing admits no second spelling of a header.
proof fn lemma_parse_hdr_canonical(bytes: Seq<u8>, pos: int)
    requires
        parse_hdr(bytes, pos) is Some,
    ensures
        ({
            let (m, v, p) = parse_hdr(bytes, pos)->0;
            &&& pos + hdr(m, v).len() == p <= bytes.len()
            &&& 0 <= pos
            &&& bytes.subrange(pos, p) == hdr(m, v)
        }),
{
    let (m, v, p) = parse_hdr(bytes, pos)->0;
    let ib = bytes[pos];
    let ai = ib % 32;
    assert(ib == m * 32 + ai) by {
        vstd::arithmetic::div_mod::lemma_fundamental_div_mod(ib as int, 32);
    };
    lemma_pow256_values();
    if ai < 24 {
        assert(bytes.subrange(pos, p) =~= hdr(m, v));
    } else if ai == 24 {
        assert(v == bytes[pos + 1] && 24 <= v < 256);
        assert(be_bytes(v, 1) =~= seq![bytes[pos + 1]]) by {
            lemma_small_mod(v, 256);
            assert(be_bytes(v / 256, 0) =~= Seq::<u8>::empty());
            assert(be_bytes(v, 1) == be_bytes(v / 256, 0) + seq![(v % 256) as u8]);
        };
        assert(bytes.subrange(pos, p) =~= hdr(m, v));
    } else {
        let width: int = if ai == 25 {
            2
        } else if ai == 26 {
            4
        } else {
            8
        };
        let s = bytes.subrange(pos + 1, pos + 1 + width);
        assert(v == be_val(s));
        lemma_be_val_bound(s);
        lemma_be_bytes_of_be_val(s);
        assert(hdr(m, v) == seq![ib] + be_bytes(v, width as nat));
        assert(bytes.subrange(pos, p) =~= seq![ib] + s);
    }
}

/// An item array that parses is the encoding of what it parsed to.
proof fn lemma_parse_items_canonical(bytes: Seq<u8>, pos: int, count: nat)
    requires
        parse_items(bytes, pos, count) is Some,
        0 <= pos <= bytes.len(),
    ensures
        ({
            let (bin, end) = parse_items(bytes, pos, count)->0;
            &&& bin.len() == count
            &&& pos <= end <= bytes.len()
            &&& bytes.subrange(pos, end) == items_bytes(bin)
        }),
    decreases count,
{
    if count == 0 {
        assert(bytes.subrange(pos, pos) =~= items_bytes(Seq::<u8>::empty()));
    } else {
        let (m0, v0, p2) = parse_hdr(bytes, pos)->0;
        lemma_parse_hdr_canonical(bytes, pos);
        lemma_parse_items_canonical(bytes, p2, (count - 1) as nat);
        let (rest, end) = parse_items(bytes, p2, (count - 1) as nat)->0;
        let (bin, _end) = parse_items(bytes, pos, count)->0;
        assert(bin == seq![v0 as u8] + rest);
        assert(bin[0] == v0 as u8 && bin.drop_first() =~= rest);
        assert(v0 < 256);
        assert(hdr(0, bin[0] as nat) == hdr(m0, v0));
        lemma_join(bytes, pos, p2, end);
        assert(items_bytes(bin) == hdr(0, bin[0] as nat) + items_bytes(rest));
    }
}

/// Encoding inverts decoding: a byte string the decoder accepts is the one
/// canonical encoding of the envelope it decodes to — the framing admits no
/// second encoding of any envelope.
#[verifier::rlimit(100)]
pub proof fn lemma_encode_decode(bytes: Seq<u8>)
    requires
        spec_decode(bytes) is Some,
    ensures
        ({
            let (info, bin) = spec_decode(bytes)->0;
            bytes == spec_encode(info, bin)
        }),
{
    let (info, bin) = spec_decode(bytes)->0;
    let (m0, n0, p0) = parse_hdr(bytes, 0)->0;
    lemma_parse_hdr_canonical(bytes, 0);
    lemma_hdr_len(5, 2);
    assert(p0 == 1);
    let (m1, n1, p1) = parse_hdr(bytes, p0)->0;
    lemma_parse_hdr_canonical(bytes, p0);
    lemma_hdr_len(3, 19);
    assert(p1 == 2);
    let o2 = p1 + 19;
    let (m2, n2, p2) = parse_hdr(bytes, o2)->0;
    lemma_parse_hdr_canonical(bytes, o2);
    let tb = bytes.subrange(p2, p2 + n2 as int);
    let o4 = p2 + n2 as int;
    let (m3, n3, p3) = parse_hdr(bytes, o4)->0;
    lemma_parse_hdr_canonical(bytes, o4);
    lemma_hdr_len(3, 11);
    let o6 = p3 + 11;
    let (m4, n4, p4) = parse_hdr(bytes, o6)->0;
    lemma_parse_hdr_canonical(bytes, o6);
    lemma_parse_items_canonical(bytes, p4, n4);
    let (bin0, end) = parse_items(bytes, p4, n4)->0;
    assert(bin0 == bin && end == bytes.len());
    // the label's characters encode back to the label's bytes
    broadcast use vstd::utf8::decode_utf8_encode_utf8;

    assert(vstd::utf8::encode_utf8(info) == tb);
    assert(tb.len() == n2);
    // reassemble the byte string from its parsed stretches, tail first
    let e = bytes.len() as int;
    let t8 = items_bytes(bin);
    assert(bytes.subrange(p4, e) == t8);
    let t7 = hdr(4, n4) + t8;
    lemma_join(bytes, o6, p4, e);
    assert(bytes.subrange(o6, e) == t7);
    let t6 = key_binary_bytes() + t7;
    lemma_join(bytes, p3, o6, e);
    assert(bytes.subrange(p3, e) == t6);
    let t5 = hdr(3, 11) + t6;
    lemma_join(bytes, o4, p3, e);
    assert(bytes.subrange(o4, e) == t5);
    let t4 = tb + t5;
    lemma_join(bytes, p2, o4, e);
    assert(bytes.subrange(p2, e) == t4);
    let t3 = hdr(3, n2) + t4;
    lemma_join(bytes, o2, p2, e);
    assert(bytes.subrange(o2, e) == t3);
    let t2 = key_info_bytes() + t3;
    lemma_join(bytes, p1, o2, e);
    assert(bytes.subrange(p1, e) == t2);
    let t1 = hdr(3, 19) + t2;
    lemma_join(bytes, p0, p1, e);
    assert(bytes.subrange(p0, e) == t1);
    let t0 = hdr(5, 2) + t1;
    lemma_join(bytes, 0, p0, e);
    assert(bytes.subrange(0, e) == t0);
    assert(bytes.subrange(0, e) =~= bytes);
    assert(spec_encode(info, bin) =~= t0);
}

/// Relies on String::from_utf8: it succeeds exactly on valid UTF-8 input
/// and yields the string of the decoded characters.
#[verifier::external_body]
fn string_from_utf8(bytes: Vec<u8>) -> (r: Option<String>)
    ensures
        r is Some <==> vstd::utf8::valid_utf8(bytes@),
        r matches Some(s) ==> s@ == vstd::utf8::decode_utf8(bytes@),
{
    String::from_utf8(bytes).ok()
}

/// Appending one byte to a payload appends its item to the encoded array.
proof fn lemma_items_bytes_snoc(x: Seq<u8>, b: u8)
    ensures
        items_bytes(x + seq![b]) == items_bytes(x) + hdr(0, b as nat),
    decreases x.len(),
{
    if x.len() == 0 {
        assert(x + seq![b] =~= seq![b]);
        assert(seq![b].drop_first() =~= Seq::<u8>::empty());
        assert(items_bytes(x) + hdr(0, b as nat) =~= hdr(0, b as nat));
        assert(items_bytes(seq![b]) == hdr(0, b as nat) + items_bytes(Seq::<u8>::empty()));
        assert(hdr(0, b as nat) + Seq::<u8>::empty() =~= hdr(0, b as nat));
    } else {
        assert((x + seq![b]).drop_first() =~= x.drop_first() + seq![b]);
        lemma_items_bytes_snoc(x.drop_first(), b);
        assert((x + seq![b])[0] == x[0]);
        assert(hdr(0, x[0] as nat) + (items_bytes(x.drop_first()) + hdr(0, b as nat)) =~= (hdr(
            0,
            x[0] as nat,
        ) + items_bytes(x.drop_first())) + hdr(0, b as nat));
    }
}

/// Append all of `s` to `out`.
fn push_slice(out: &mut Vec<u8>, s: &[u8])
    ensures
        final(out)@ == old(out)@ + s@,
{
    let ghost prefix = out@;
    let mut i: usize = 0;
    proof {
        assert(out@ =~= prefix + s@.subrange(0, 0));
    }
    while i < s.len()
        invariant
            i <= s@.len(),
            out@ == prefix + s@.subrange(0, i as int),
        decreases s@.len() - i,
    {
        proof {
            assert(s@.subrange(0, i + 1) =~= s@.subrange(0, i as int) + seq![s@[i as int]]);
        }
        out.push(s[i]);
        i = i + 1;
    }
    proof {
        assert(s@.subrange(0, s@.len() as int) =~= s@);
    }
}

/// The bytes of the fixed first map key.
fn key_info_vec() -> (r: Vec<u8>)
    ensures
        r@ == key_info_bytes(),
{
    let r: Vec<u8> = vec![
        0x68u8, 0x75u8, 0x6du8, 0x61u8, 0x6eu8, 0x5fu8, 0x72u8, 0x65u8, 0x61u8, 0x64u8, 0x61u8,
        0x62u8, 0x6cu8, 0x65u8, 0x5fu8, 0x69u8, 0x6eu8, 0x66u8, 0x6fu8,
    ];
    proof {
        assert(r@ =~= key_info_bytes());
    }
    r
}

/// The bytes of the fixed second map key.
fn key_binary_vec() -> (r: Vec<u8>)
    ensures
        r@ == key_binary_bytes(),
{
    let r: Vec<u8> = vec![
        0x77u8, 0x61u8, 0x73u8, 0x6du8, 0x5fu8, 0x62u8, 0x69u8, 0x6eu8, 0x61u8, 0x72u8, 0x79u8,
    ];
    proof {
        assert(r@ =~= key_binary_bytes());
    }
    r
}

/// Encode a workload envelope into its one canonical byte string.
pub fn encode(w: &Workload) -> (r: Vec<u8>)
    ensures
        r@ == spec_encode(w.human_readable_info@, w.wasm_binary@),
{
    let mut out: Vec<u8> = Vec::new();
    push_hdr(&mut out, 5, 2);
    push_hdr(&mut out, 3, 19);
    let key1 = key_info_vec();
    push_slice(&mut out, key1.as_slice());
    let info_bytes: &[u8] = w.human_readable_info.as_str().as_bytes();
    push_hdr(&mut out, 3, info_bytes.len() as u64);
    push_slice(&mut out, info_bytes);
    push_hdr(&mut out, 3, 11);
    let key2 = key_binary_vec();
    push_slice(&mut out, key2.as_slice());
    push_hdr(&mut out, 4, w.wasm_binary.len() as u64);
    let ghost before_items = out@;
    let mut i: usize = 0;
    proof {
        assert(out@ =~= before_items + items_bytes(w.wasm_binary@.subrange(0, 0)));
    }
    while i < w.wasm_binary.len()
        invariant
            i <= w.wasm_binary@.len(),
            out@ == before_items + items_bytes(w.wasm_binary@.subrange(0, i as int)),
        decreases w.wasm_binary@.len() - i,
    {
        proof {
            lemma_items_bytes_snoc(w.wasm_binary@.subrange(0, i as int), w.wasm_binary@[i as int]);
            assert(w.wasm_binary@.subrange(0, i + 1) =~= w.wasm_binary@.subrange(0, i as int)
                + seq![w.wasm_binary@[i as int]]);
        }
        let b: u8 = w.wasm_binary[i];
        push_hdr(&mut out, 0, b as u64);
        i = i + 1;
    }
    proof {
        assert(w.wasm_binary@.subrange(0, w.wasm_binary@.len() as int) =~= w.wasm_binary@);
        assert(out@ =~= spec_encode(w.human_readable_info@, w.wasm_binary@));
    }
    out
}

/// Copy `v[start..end]` out into a fresh vector.
fn copy_range(v: &Vec<u8>, start: usize, end: usize) -> (r: Vec<u8>)
    requires
        start <= end <= v@.len(),
    ensures
        r@ == v@.subrange(start as int, end as int),
{
    let mut r: Vec<u8> = Vec::new();
    let mut i: usize = start;
    proof {
        assert(r@ =~= v@.subrange(start as int, start as int));
    }
    while i < end
        invariant
            start <= i <= end <= v@.len(),
            r@ == v@.subrange(start as int, i as int),
        decreases end - i,
    {
        proof {
            assert(v@.subrange(start as int, i + 1) =~= v@.subrange(start as int, i as int)
                + seq![v@[i as int]]);
        }
        r.push(v[i]);
        i = i + 1;
    }
    r
}

/// Whether `v[pos..pos+expected.len()]` exists and equals `expected`.
fn range_matches(v: &Vec<u8>, pos: usize, expected: &Vec<u8>) -> (r: bool)
    requires
        pos <= v@.len(),
    ensures
        r <==> (pos + expected@.len() <= v@.len() && v@.subrange(
            pos as int,
            pos + expected@.len(),
        ) == expected@),
{
    let n = expected.len();
    let l = v.len();
    if l - pos < n {
        return false;
    }
    let mut i: usize = 0;
    while i < n
        invariant
            pos + n <= v@.len(),
            v@.len() == l,
            n == expected@.len(),
            i <= n,
            forall|j: int| 0 <= j < i ==> v@[pos + j] == expected@[j],
        decreases n - i,
    {
        if v[pos + i] != expected[i] {
            proof {
                assert(v@.subrange(pos as int, pos + expected@.len())[i as int] == v@[pos + i]);
            }
            return false;
        }
        i = i + 1;
    }
    proof {
        assert(v@.subrange(pos as int, pos + expected@.len()) =~= expected@);
    }
    true
}

/// The fixed diagnostic for malformed input.
fn parse_problem() -> (r: Rejection)
    ensures
        r.details@ == "payload parsing problem"@,
{
    Rejection::new("payload parsing problem")
}

/// Decode a request body into a workload envelope, following `spec_decode`
/// exactly: the one canonical encoding is accepted; any structural or type
/// mismatch yields a rejection carrying the fixed diagnostic, never a
/// partially populated envelope.
#[verifier::loop_isolation(false)]
pub fn decode(bytes: &Vec<u8>) -> (r: Result<Workload, Rejection>)
    ensures
        match spec_decode(bytes@) {
            Some((info, bin)) => r matches Ok(w) && w.human_readable_info@ == info
                && w.wasm_binary@ == bin,
            None => r matches Err(e) && e.details@ == "payload parsing problem"@,
        },
{
    let l = bytes.len();
    let r0 = read_hdr(bytes, 0);
    let (m0, n0, p0) = match r0 {
        Some(t) => t,
        None => {
            return Err(parse_problem());
        },
    };
    if !(m0 == 5 && n0 == 2) {
        return Err(parse_problem());
    }
    let r1 = read_hdr(bytes, p0);
    let (m1, n1, p1) = match r1 {
        Some(t) => t,
        None => {
            return Err(parse_problem());
        },
    };
    let key1 = key_info_vec();
    if !(m1 == 3 && n1 == 19 && range_matches(bytes, p1, &key1)) {
        return Err(parse_problem());
    }
    let p1k = p1 + 19;
    let r2 = read_hdr(bytes, p1k);
    let (m2, n2, p2) = match r2 {
        Some(t) => t,
        None => {
            return Err(parse_problem());
        },
    };
    if !(m2 == 3 && n2 <= (l - p2) as u64) {
        return Err(parse_problem());
    }
    let text_end = p2 + n2 as usize;
    let text_bytes = copy_range(bytes, p2, text_end);
    let info = match string_from_utf8(text_bytes) {
        Some(s) => s,
        None => {
            return Err(parse_problem());
        },
    };
    let r3 = read_hdr(bytes, text_end);
    let (m3, n3, p3) = match r3 {
        Some(t) => t,
        None => {
            return Err(parse_problem());
        },
    };
    let key2 = key_binary_vec();
    if !(m3 == 3 && n3 == 11 && range_matches(bytes, p3, &key2)) {
        return Err(parse_problem());
    }
    let p3k = p3 + 11;
    let r4 = read_hdr(bytes, p3k);
    let (m4, n4, p4) = match r4 {
        Some(t) => t,
        None => {
            return Err(parse_problem());
        },
    };
    if m4 != 4 {
        return Err(parse_problem());
    }
    let mut bin: Vec<u8> = Vec::new();
    let mut pos: usize = p4;
    let mut k: u64 = 0;
    while k < n4
        invariant
            pos <= bytes@.len(),
            k <= n4,
            bin@.len() == k,
            match parse_items(bytes@, pos as int, (n4 - k) as nat) {
                Some((rest, end)) => parse_items(bytes@, p4 as int, n4 as nat) == Some(
                    (bin@ + rest, end),
                ),
                None => parse_items(bytes@, p4 as int, n4 as nat) is None,
            },
        decreases n4 - k,
    {
        let ri = read_hdr(bytes, pos);
        let (mi, vi, pi) = match ri {
            Some(t) => t,
            None => {
                return Err(parse_problem());
            },
        };
        if !(mi == 0 && vi < 256) {
            return Err(parse_problem());
        }
        proof {
            let tail = parse_items(bytes@, pi as int, ((n4 - k) - 1) as nat);
            if tail is Some {
                let (rest2, end) = tail->0;
                assert(parse_items(bytes@, pos as int, (n4 - k) as nat) == Some(
                    (seq![vi as u8] + rest2, end),
                ));
                assert(bin@ + (seq![vi as u8] + rest2) =~= (bin@ + seq![vi as u8]) + rest2);
            } else {
                assert(parse_items(bytes@, pos as int, (n4 - k) as nat) is None);
            }
        }
        bin.push(vi as u8);
        pos = pi;
        k = k + 1;
    }
    proof {
        assert(bin@ + Seq::<u8>::empty() =~= bin@);
    }
    if pos != l {
        return Err(parse_problem());
    }
    Ok(Workload { human_readable_info: info, wasm_binary: bin })
}

} // verus!
