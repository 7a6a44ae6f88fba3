//! The byte order of OSC numbers: every 32-bit and 64-bit number of the wire
//! format, read or written, is big-endian (most significant byte first).
use vstd::prelude::*;
use crate::osc_lemmas::lemma_args_data_single;
use crate::osc_types::{ArgView, OscTimeTag};
use crate::osc_wire::{args_data, be_u32_at, be_u64_at, read_arg_spec, read_u32_spec, u32_be, u64_be};

verus! {

/// The number that `b` spells in base 256, most significant byte first.
pub open spec fn big_endian(b: Seq<u8>) -> int
    decreases b.len(),
{
    if b.len() == 0 {
        0
    } else {
        big_endian(b.drop_last()) * 256 + b.last() as int
    }
}

/// `256` to the power `n`.
pub open spec fn pow256(n: nat) -> int
    decreases n,
{
    if n == 0 {
        1
    } else {
        256 * pow256((n - 1) as nat)
    }
}

/// Reading `a` then `c` in base 256 shifts `a` past the digits of `c`.
proof fn lemma_big_endian_concat(a: Seq<u8>, c: Seq<u8>)
    ensures
        big_endian(a + c) == big_endian(a) * pow256(c.len()) + big_endian(c),
    decreases c.len(),
{
    if c.len() == 0 {
        assert(a + c =~= a);
    } else {
        let c1 = c.drop_last();
        assert((a + c).drop_last() =~= a + c1);
        assert((a + c).last() == c.last());
        lemma_big_endian_concat(a, c1);
        let x = big_endian(a);
        let p = pow256(c1.len());
        let y = big_endian(c1);
        assert(pow256(c.len()) == 256 * p);
        assert((x * p + y) * 256 + c.last() as int == x * (256 * p) + (y * 256 + c.last() as int))
            by (nonlinear_arith);
    }
}

/// The value of four bytes in base 256.
proof fn lemma_big_endian_4(b: Seq<u8>)
    requires
        b.len() == 4,
    ensures
        big_endian(b) == b[0] as int * 0x1000000 + b[1] as int * 0x10000 + b[2] as int * 0x100
            + b[3] as int,
{
    let b3 = b.drop_last();
    let b2 = b3.drop_last();
    let b1 = b2.drop_last();
    let b0 = b1.drop_last();
    assert(b0.len() == 0);
    assert(big_endian(b0) == 0);
    assert(big_endian(b1) == b[0] as int);
    assert(big_endian(b2) == b[0] as int * 256 + b[1] as int);
    assert(big_endian(b3) == (b[0] as int * 256 + b[1] as int) * 256 + b[2] as int);
}

/// A big-endian 32-bit field of the data is the base-256 value of its four bytes.
proof fn lemma_be_u32_value(d: Seq<u8>, i: int)
    requires
        0 <= i,
        i + 4 <= d.len(),
    ensures
        be_u32_at(d, i) as int == big_endian(d.subrange(i, i + 4)),
{
    let s = d.subrange(i, i + 4);
    lemma_big_endian_4(s);
    let (b0, b1, b2, b3) = (d[i], d[i + 1], d[i + 2], d[i + 3]);
    assert(s[0] == b0 && s[1] == b1 && s[2] == b2 && s[3] == b3);
    assert(((b0 as u32) << 24u32) | ((b1 as u32) << 16u32) | ((b2 as u32) << 8u32) | (b3 as u32)
        == b0 as int * 0x1000000 + b1 as int * 0x10000 + b2 as int * 0x100 + b3 as int)
        by (bit_vector);
}

/// A big-endian 64-bit field of the data is the base-256 value of its eight bytes.
proof fn lemma_be_u64_value(d: Seq<u8>, i: int)
    requires
        0 <= i,
        i + 8 <= d.len(),
    ensures
        be_u64_at(d, i) as int == big_endian(d.subrange(i, i + 8)),
{
    lemma_be_u32_value(d, i);
    lemma_be_u32_value(d, i + 4);
    let hi = be_u32_at(d, i);
    let lo = be_u32_at(d, i + 4);
    assert(((hi as u64) << 32u64) | (lo as u64) == hi as int * 0x100000000 + lo as int)
        by (bit_vector);
    assert(d.subrange(i, i + 8) =~= d.subrange(i, i + 4) + d.subrange(i + 4, i + 8));
    lemma_big_endian_concat(d.subrange(i, i + 4), d.subrange(i + 4, i + 8));
    assert(pow256(4) == 0x100000000) by {
        reveal_with_fuel(pow256, 5);
    }
}

/// The four bytes written for a 32-bit number spell it in base 256.
proof fn lemma_u32_be_value(x: u32)
    ensures
        u32_be(x).len() == 4,
        big_endian(u32_be(x)) == x as int,
{
    let s = u32_be(x);
    lemma_big_endian_4(s);
    assert((x >> 24u32) as u8 as int * 0x1000000 + (x >> 16u32) as u8 as int * 0x10000 + (x
        >> 8u32) as u8 as int * 0x100 + x as u8 as int == x as int) by (bit_vector);
}

/// The eight bytes written for a 64-bit number spell it in base 256.
proof fn lemma_u64_be_value(x: u64)
    ensures
        u64_be(x).len() == 8,
        big_endian(u64_be(x)) == x as int,
{
    let hi = (x >> 32u64) as u32;
    let lo = x as u32;
    lemma_u32_be_value(hi);
    lemma_u32_be_value(lo);
    lemma_big_endian_concat(u32_be(hi), u32_be(lo));
    assert(pow256(4) == 0x100000000) by {
        reveal_with_fuel(pow256, 5);
    }
    assert(hi as int * 0x100000000 + lo as int == x as int) by (bit_vector)
        requires
            hi == (x >> 32u64) as u32,
            lo == x as u32,
    ;
}

/// Decoding reads every 32-bit and 64-bit argument, and each half of a time
/// tag, as the big-endian value of its bytes (most significant byte first),
/// and moves past exactly those bytes.
pub proof fn law_decoded_numbers_are_big_endian(d: Seq<u8>, pos: int)
    requires
        0 <= pos,
        pos + 8 <= d.len(),
    ensures
        read_arg_spec(d, pos, 'i') matches Ok((ArgView::Int(v), p)) && p == pos + 4 && (v as u32)
            as int == big_endian(d.subrange(pos, pos + 4)),
        read_arg_spec(d, pos, 'f') matches Ok((ArgView::Float(v), p)) && p == pos + 4 && v as int
            == big_endian(d.subrange(pos, pos + 4)),
        read_arg_spec(d, pos, 'h') matches Ok((ArgView::Long(v), p)) && p == pos + 8 && (v as u64)
            as int == big_endian(d.subrange(pos, pos + 8)),
        read_arg_spec(d, pos, 'd') matches Ok((ArgView::Double(v), p)) && p == pos + 8 && v as int
            == big_endian(d.subrange(pos, pos + 8)),
        read_arg_spec(d, pos, 't') matches Ok((ArgView::TimeTag(t), p)) && p == pos + 8
            && t.seconds as int == big_endian(d.subrange(pos, pos + 4)) && t.fractional as int
            == big_endian(d.subrange(pos + 4, pos + 8)),
        read_arg_spec(d, pos, 'c') matches Ok((ArgView::Char(c), _)) ==> c as int == big_endian(
            d.subrange(pos, pos + 4),
        ),
        read_u32_spec(d, pos) matches Ok((v, p)) && p == pos + 4 && v as int == big_endian(
            d.subrange(pos, pos + 4),
        ),
{
    lemma_be_u32_value(d, pos);
    lemma_be_u32_value(d, pos + 4);
    lemma_be_u64_value(d, pos);
    let u = be_u32_at(d, pos);
    let w = be_u64_at(d, pos);
    assert((u as i32) as u32 == u) by (bit_vector);
    assert((w as i64) as u64 == w) by (bit_vector);
    if let Ok((ArgView::Char(c), _)) = read_arg_spec(d, pos, 'c') {
        assert(c == u as char);
        vstd::utf8::char_u32_cast(c, u);
    }
}

/// Encoding writes every 32-bit and 64-bit argument, and each half of a time
/// tag, as exactly its big-endian bytes (most significant byte first).
pub proof fn law_encoded_numbers_are_big_endian(
    i: i32,
    f: u32,
    l: i64,
    x: u64,
    t: OscTimeTag,
    c: char,
)
    ensures
        args_data(seq![ArgView::Int(i)]).len() == 4,
        big_endian(args_data(seq![ArgView::Int(i)])) == (i as u32) as int,
        args_data(seq![ArgView::Float(f)]).len() == 4,
        big_endian(args_data(seq![ArgView::Float(f)])) == f as int,
        args_data(seq![ArgView::Long(l)]).len() == 8,
        big_endian(args_data(seq![ArgView::Long(l)])) == (l as u64) as int,
        args_data(seq![ArgView::Double(x)]).len() == 8,
        big_endian(args_data(seq![ArgView::Double(x)])) == x as int,
        args_data(seq![ArgView::TimeTag(t)]).len() == 8,
        big_endian(args_data(seq![ArgView::TimeTag(t)]).subrange(0, 4)) == t.seconds as int,
        big_endian(args_data(seq![ArgView::TimeTag(t)]).subrange(4, 8)) == t.fractional as int,
        args_data(seq![ArgView::Char(c)]).len() == 4,
        big_endian(args_data(seq![ArgView::Char(c)])) == c as int,
{
    lemma_args_data_single(ArgView::Int(i));
    lemma_args_data_single(ArgView::Float(f));
    lemma_args_data_single(ArgView::Long(l));
    lemma_args_data_single(ArgView::Double(x));
    lemma_args_data_single(ArgView::TimeTag(t));
    lemma_args_data_single(ArgView::Char(c));
    lemma_u32_be_value(i as u32);
    lemma_u32_be_value(f);
    lemma_u64_be_value(l as u64);
    lemma_u64_be_value(x);
    lemma_u32_be_value(t.seconds);
    lemma_u32_be_value(t.fractional);
    lemma_u32_be_value(c as u32);
    let tt = args_data(seq![ArgView::TimeTag(t)]);
    assert(tt.subrange(0, 4) =~= u32_be(t.seconds));
    assert(tt.subrange(4, 8) =~= u32_be(t.fractional));
}

} // verus!
