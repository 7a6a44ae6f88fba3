//! The round-trip law of the OSC wire format: decoding what a well-formed
//! packet encodes to gives that packet back.
use vstd::prelude::*;
use vstd::utf8::{
    char_is_scalar, char_u32_cast, decode_utf8, encode_scalar, encode_utf8,
    encode_utf8_decode_utf8, encode_utf8_valid_utf8, has_width_1_encoding, has_width_2_encoding,
    has_width_3_encoding, is_ascii_chars, is_ascii_chars_encode_utf8, is_scalar, valid_utf8,
};
use crate::osc_lemmas::{
    is_tag_char, lemma_tag_chars_charset, lemma_args_data_concat, lemma_args_data_single, lemma_tag_chars_concat, lemma_tag_chars_single,
};
use crate::osc_types::{ArgView, OscError, OscTimeTag, PacketView};
use crate::osc_wire::{
    align4, args_data, args_encodable, be_u32_at, be_u64_at, bundle_elements_spec, bundle_header,
    decode_message_spec, decode_spec, elements_data, elements_encodable, encodable,
    encode_message_spec, encode_spec, nul_index, nul_padded, osc_string, padded, push_top,
    read_arg_spec, read_args_spec, read_blob_spec, read_exact_spec, read_str_spec,
    read_timetag_spec, read_u32_spec, read_u64_spec, starts_with_bundle_header, tag_chars,
    tags_after_comma, u32_be, u64_be, zeros,
};

verus! {

// ─── what round-trips ────────────────────────────────────────────────────────

/// True when `s` holds no NUL character (the OSC string terminator).
pub open spec fn nul_free(s: Seq<char>) -> bool {
    forall|i: int| 0 <= i < s.len() ==> s[i] != '\0'
}

/// True when the arguments survive encoding: strings hold no NUL and blob
/// lengths fit the 32-bit prefix (nested arrays included).
pub open spec fn args_well_formed(args: Seq<ArgView>) -> bool
    decreases args,
{
    if args.len() == 0 {
        true
    } else {
        let first_ok = match args[0] {
            ArgView::Str(s) => nul_free(s),
            ArgView::Blob(b) => b.len() <= u32::MAX,
            ArgView::Array(inner) => args_well_formed(inner),
            _ => true,
        };
        first_ok && args_well_formed(args.subrange(1, args.len() as int))
    }
}

/// True when a packet survives encoding: message addresses start with `'/'`
/// and hold no NUL, arguments are well formed, and each bundle element is
/// well formed with an encoding whose size fits a `u32`.
pub open spec fn packet_well_formed(p: PacketView) -> bool
    decreases p,
{
    match p {
        PacketView::Message(address, args) => {
            &&& address.len() > 0
            &&& address[0] == '/'
            &&& nul_free(address)
            &&& args_well_formed(args)
        },
        PacketView::Bundle(_, elements) => elements_well_formed(elements),
    }
}

/// True when every bundle element is well formed and its encoding's size fits a `u32`.
pub open spec fn elements_well_formed(elements: Seq<PacketView>) -> bool
    decreases elements,
{
    if elements.len() == 0 {
        true
    } else {
        &&& packet_well_formed(elements[0])
        &&& encode_spec(elements[0]).len() <= u32::MAX
        &&& elements_well_formed(elements.subrange(1, elements.len() as int))
    }
}

// ─── numbers ─────────────────────────────────────────────────────────────────

proof fn lemma_u32_be(d: Seq<u8>, i: int, x: u32)
    requires
        0 <= i,
        i + 4 <= d.len(),
        d.subrange(i, i + 4) == u32_be(x),
    ensures
        be_u32_at(d, i) == x,
{
    assert(d[i] == d.subrange(i, i + 4)[0]);
    assert(d[i + 1] == d.subrange(i, i + 4)[1]);
    assert(d[i + 2] == d.subrange(i, i + 4)[2]);
    assert(d[i + 3] == d.subrange(i, i + 4)[3]);
    assert(((((x >> 24u32) as u8) as u32) << 24u32) | ((((x >> 16u32) as u8) as u32) << 16u32) | ((
    ((x >> 8u32) as u8) as u32) << 8u32) | ((x as u8) as u32) == x) by (bit_vector);
}

proof fn lemma_u64_be(d: Seq<u8>, i: int, x: u64)
    requires
        0 <= i,
        i + 8 <= d.len(),
        d.subrange(i, i + 8) == u64_be(x),
    ensures
        be_u64_at(d, i) == x,
{
    let hi = (x >> 32u64) as u32;
    let lo = x as u32;
    assert(d.subrange(i, i + 4) =~= d.subrange(i, i + 8).subrange(0, 4));
    assert(d.subrange(i + 4, i + 8) =~= d.subrange(i, i + 8).subrange(4, 8));
    assert(u64_be(x).subrange(0, 4) =~= u32_be(hi));
    assert(u64_be(x).subrange(4, 8) =~= u32_be(lo));
    lemma_u32_be(d, i, hi);
    lemma_u32_be(d, i + 4, lo);
    assert(((hi as u64) << 32u64) | (lo as u64) == x) by (bit_vector)
        requires
            hi == (x >> 32u64) as u32,
            lo == x as u32,
    ;
}

proof fn lemma_i32_roundtrip(v: i32)
    ensures
        (v as u32) as i32 == v,
{
    assert((v as u32) as i32 == v) by (bit_vector);
}

proof fn lemma_i64_roundtrip(v: i64)
    ensures
        (v as u64) as i64 == v,
{
    assert((v as u64) as i64 == v) by (bit_vector);
}

proof fn lemma_align4_shift(pos: int, n: int)
    requires
        pos % 4 == 0,
        0 <= pos,
        0 <= n,
    ensures
        align4(pos + n) == pos + align4(n),
        align4(n) >= n,
        align4(n) < n + 4,
        align4(n) % 4 == 0,
{
    assert(pos == (pos / 4) * 4);
    assert((pos + n + 3) / 4 == pos / 4 + (n + 3) / 4);
}

// ─── strings ─────────────────────────────────────────────────────────────────

/// No byte of the UTF-8 encoding of a scalar other than U+0000 is zero.
proof fn lemma_encode_scalar_nonzero(c: u32)
    requires
        is_scalar(c),
        c != 0,
    ensures
        forall|k: int| 0 <= k < encode_scalar(c).len() ==> encode_scalar(c)[k] != 0,
{
    if has_width_1_encoding(c) {
        assert((c & 0x7Fu32) as u8 != 0) by (bit_vector)
            requires
                1 <= c <= 0x7F,
        ;
    } else {
        assert(forall|x: u8| #![trigger (0xC0u8 | x)] (0xC0u8 | x) != 0u8) by (bit_vector);
        assert(forall|x: u8| #![trigger (0x80u8 | x)] (0x80u8 | x) != 0u8) by (bit_vector);
        assert(forall|x: u8| #![trigger (0xE0u8 | x)] (0xE0u8 | x) != 0u8) by (bit_vector);
        assert(forall|x: u8| #![trigger (0xF0u8 | x)] (0xF0u8 | x) != 0u8) by (bit_vector);
    }
}

/// The UTF-8 encoding of a NUL-free string holds no zero byte.
proof fn lemma_encode_utf8_nonzero(s: Seq<char>)
    requires
        nul_free(s),
    ensures
        forall|k: int| 0 <= k < encode_utf8(s).len() ==> encode_utf8(s)[k] != 0,
    decreases s.len(),
{
    if s.len() > 0 {
        let c = s[0] as u32;
        char_is_scalar(s[0]);
        assert(c != 0) by {
            if c == 0 {
                char_u32_cast(s[0], c);
                assert(s[0] == '\0');
            }
        }
        lemma_encode_scalar_nonzero(c);
        let rest = s.drop_first();
        assert(nul_free(rest)) by {
            assert forall|i: int| 0 <= i < rest.len() implies rest[i] != '\0' by {
                assert(rest[i] == s[i + 1]);
            }
        }
        lemma_encode_utf8_nonzero(rest);
        let e = encode_utf8(s);
        let h = encode_scalar(c);
        assert(e == h + encode_utf8(rest));
        assert forall|k: int| 0 <= k < e.len() implies e[k] != 0 by {
            if k < h.len() {
                assert(e[k] == h[k]);
            } else {
                assert(e[k] == encode_utf8(rest)[k - h.len()]);
            }
        }
    }
}

/// The first zero byte at or after `i` is at `j` when `d[i..j]` has none and `d[j]` is zero.
proof fn lemma_nul_index(d: Seq<u8>, i: int, j: int)
    requires
        0 <= i <= j < d.len(),
        d[j] == 0,
        forall|k: int| i <= k < j ==> d[k] != 0,
    ensures
        nul_index(d, i) == Some(j),
    decreases j - i,
{
    if i < j {
        lemma_nul_index(d, i + 1, j);
    }
}

/// Reading an encoded NUL-free string at an aligned position gives it back.
proof fn lemma_read_str(d: Seq<u8>, pos: int, s: Seq<char>)
    requires
        0 <= pos,
        pos % 4 == 0,
        nul_free(s),
        pos + osc_string(s).len() <= d.len(),
        d.subrange(pos, pos + osc_string(s).len()) == osc_string(s),
    ensures
        read_str_spec(d, pos) == Ok::<(Seq<char>, int), OscError>((s, pos + osc_string(s).len())),
        osc_string(s).len() % 4 == 0,
{
    let b = encode_utf8(s);
    let n = b.len() as int;
    let enc = osc_string(s);
    lemma_align4_shift(pos, n + 1);
    assert(enc.len() == align4(n + 1));
    lemma_encode_utf8_nonzero(s);
    assert forall|k: int| pos <= k < pos + n implies d[k] != 0 by {
        assert(d[k] == enc[k - pos]);
        assert(enc[k - pos] == b[k - pos]);
    }
    assert(d[pos + n] == enc[n]);
    assert(enc[n] == zeros(align4(n + 1) - n)[0]);
    lemma_nul_index(d, pos, pos + n);
    assert(d.subrange(pos, pos + n) =~= b);
    encode_utf8_valid_utf8(s);
    encode_utf8_decode_utf8(s);
}

/// Reading an encoded blob at an aligned position gives it back.
proof fn lemma_read_blob(d: Seq<u8>, pos: int, b: Seq<u8>)
    requires
        0 <= pos,
        pos % 4 == 0,
        b.len() <= u32::MAX,
        d.len() <= usize::MAX,
        pos + 4 + padded(b).len() <= d.len(),
        d.subrange(pos, pos + 4 + padded(b).len()) == u32_be(b.len() as u32) + padded(b),
    ensures
        read_blob_spec(d, pos) == Ok::<(Seq<u8>, int), OscError>(
            (b, pos + 4 + padded(b).len()),
        ),
        padded(b).len() % 4 == 0,
{
    let enc = u32_be(b.len() as u32) + padded(b);
    assert(d.subrange(pos, pos + 4) =~= d.subrange(pos, pos + 4 + padded(b).len()).subrange(0, 4));
    assert(enc.subrange(0, 4) =~= u32_be(b.len() as u32));
    lemma_u32_be(d, pos, b.len() as u32);
    lemma_align4_shift(pos + 4, b.len() as int);
    assert(d.subrange(pos + 4, pos + 4 + b.len()) =~= b) by {
        assert forall|k: int| 0 <= k < b.len() implies d.subrange(pos + 4, pos + 4 + b.len())[k]
            == b[k] by {
            assert(d[pos + 4 + k] == enc[4 + k]);
        }
    }
}


// ─── arguments ───────────────────────────────────────────────────────────────

/// Reading a non-array argument at an aligned position, under its own type
/// tag, gives it back and moves past exactly its data bytes.
proof fn lemma_read_arg(d: Seq<u8>, pos: int, a: ArgView)
    requires
        0 <= pos,
        pos % 4 == 0,
        d.len() <= usize::MAX,
        !(a is Array),
        args_well_formed(seq![a]),
        pos + args_data(seq![a]).len() <= d.len(),
        d.subrange(pos, pos + args_data(seq![a]).len()) == args_data(seq![a]),
    ensures
        tag_chars(seq![a]).len() == 1,
        read_arg_spec(d, pos, tag_chars(seq![a])[0]) == Ok::<(ArgView, int), OscError>(
            (a, pos + args_data(seq![a]).len()),
        ),
        args_data(seq![a]).len() % 4 == 0,
{
    lemma_tag_chars_single(a);
    lemma_args_data_single(a);
    let data = args_data(seq![a]);
    let n = data.len() as int;
    let sub = d.subrange(pos, pos + n);
    assert(seq![a].subrange(1, 1) =~= Seq::<ArgView>::empty());
    match a {
        ArgView::Int(v) => {
            lemma_u32_be(d, pos, v as u32);
            lemma_i32_roundtrip(v);
        },
        ArgView::Float(v) => {
            lemma_u32_be(d, pos, v);
        },
        ArgView::Str(s) => {
            lemma_read_str(d, pos, s);
        },
        ArgView::Blob(b) => {
            lemma_read_blob(d, pos, b);
        },
        ArgView::Long(v) => {
            lemma_u64_be(d, pos, v as u64);
            lemma_i64_roundtrip(v);
        },
        ArgView::Double(v) => {
            lemma_u64_be(d, pos, v);
        },
        ArgView::TimeTag(t) => {
            assert(d.subrange(pos, pos + 4) =~= sub.subrange(0, 4));
            assert(d.subrange(pos + 4, pos + 8) =~= sub.subrange(4, 8));
            assert(data.subrange(0, 4) =~= u32_be(t.seconds));
            assert(data.subrange(4, 8) =~= u32_be(t.fractional));
            lemma_u32_be(d, pos, t.seconds);
            lemma_u32_be(d, pos + 4, t.fractional);
        },
        ArgView::Char(c) => {
            lemma_u32_be(d, pos, c as u32);
            char_is_scalar(c);
            char_u32_cast(c, c as u32);
        },
        ArgView::Color(r, g, b, x) => {
            assert(d[pos] == sub[0] && d[pos + 1] == sub[1] && d[pos + 2] == sub[2] && d[pos + 3]
                == sub[3]);
        },
        ArgView::Midi(w, x, y, z) => {
            assert(d[pos] == sub[0] && d[pos + 1] == sub[1] && d[pos + 2] == sub[2] && d[pos + 3]
                == sub[3]);
        },
        _ => {},
    }
}


/// A window of `s` holding `a + b` splits into a window holding `a` and one holding `b`.
proof fn lemma_window_split<A>(s: Seq<A>, i: int, a: Seq<A>, b: Seq<A>)
    requires
        0 <= i,
        i + a.len() + b.len() <= s.len(),
        s.subrange(i, i + a.len() + b.len()) == a + b,
    ensures
        s.subrange(i, i + a.len()) == a,
        s.subrange(i + a.len(), i + a.len() + b.len()) == b,
{
    let w = s.subrange(i, i + a.len() + b.len());
    assert forall|k: int| 0 <= k < a.len() implies s.subrange(i, i + a.len())[k] == a[k] by {
        assert(s[i + k] == w[k]);
    }
    assert forall|k: int| 0 <= k < b.len() implies s.subrange(
        i + a.len(),
        i + a.len() + b.len(),
    )[k] == b[k] by {
        assert(s[i + a.len() + k] == w[a.len() + k]);
    }
    assert(s.subrange(i, i + a.len()) =~= a);
    assert(s.subrange(i + a.len(), i + a.len() + b.len()) =~= b);
}

/// Unfolding the well-formedness of a non-empty argument list.
proof fn lemma_args_well_formed_split(args: Seq<ArgView>)
    requires
        args.len() > 0,
        args_well_formed(args),
    ensures
        args_well_formed(seq![args[0]]),
        args_well_formed(args.subrange(1, args.len() as int)),
        args[0] matches ArgView::Array(inner) ==> args_well_formed(inner),
{
    let s = seq![args[0]];
    assert(s[0] == args[0]);
    assert(s.subrange(1, s.len() as int) =~= Seq::<ArgView>::empty());
    assert(args_well_formed(Seq::<ArgView>::empty()));
}

/// Reading the arguments of an encoded argument list, with the type tags in
/// place, appends the list to the top of the stack and moves past exactly its
/// tags and data bytes.
#[verifier::spinoff_prover]
proof fn lemma_read_args(
    d: Seq<u8>,
    tags: Seq<char>,
    i: int,
    pos: int,
    stack: Seq<Seq<ArgView>>,
    args: Seq<ArgView>,
)
    requires
        0 <= i,
        0 <= pos,
        pos % 4 == 0,
        d.len() <= usize::MAX,
        stack.len() >= 1,
        args_well_formed(args),
        i + tag_chars(args).len() <= tags.len(),
        tags.subrange(i, i + tag_chars(args).len()) == tag_chars(args),
        pos + args_data(args).len() <= d.len(),
        d.subrange(pos, pos + args_data(args).len()) == args_data(args),
    ensures
        read_args_spec(d, tags, i, pos, stack) == read_args_spec(
            d,
            tags,
            i + tag_chars(args).len(),
            pos + args_data(args).len(),
            stack.update(stack.len() - 1, stack.last() + args),
        ),
        args_data(args).len() % 4 == 0,
    decreases args, 0int,
{
    if args.len() == 0 {
        assert(stack.update(stack.len() - 1, stack.last() + args) =~= stack);
    } else {
        let a = args[0];
        let rest = args.subrange(1, args.len() as int);
        assert(args =~= seq![a] + rest);
        lemma_tag_chars_concat(seq![a], rest);
        lemma_args_data_concat(seq![a], rest);
        lemma_tag_chars_single(a);
        lemma_args_data_single(a);
        lemma_args_well_formed_split(args);
        let ta = tag_chars(seq![a]);
        let da = args_data(seq![a]);
        lemma_window_split(tags, i, ta, tag_chars(rest));
        lemma_window_split(d, pos, da, args_data(rest));
        assert(stack.last().push(a) + rest =~= stack.last() + args);
        match a {
            ArgView::Array(inner) => {
                lemma_read_array(d, tags, i, pos, stack, inner);
                let st3 = push_top(stack, ArgView::Array(inner));
                lemma_read_args(d, tags, i + ta.len(), pos + da.len(), st3, rest);
                assert(st3.update(st3.len() - 1, st3.last() + rest) =~= stack.update(
                    stack.len() - 1,
                    stack.last() + args,
                ));
            },
            _ => {
                lemma_read_arg(d, pos, a);
                assert(tags[i] == ta[0]) by {
                    assert(tags[i] == tags.subrange(i, i + ta.len())[0]);
                }
                let st1 = push_top(stack, a);
                lemma_read_args(d, tags, i + 1, pos + da.len(), st1, rest);
                assert(st1.update(st1.len() - 1, st1.last() + rest) =~= stack.update(
                    stack.len() - 1,
                    stack.last() + args,
                ));
            },
        }
    }
}

/// Reading an encoded array argument (`'['`, its elements, `']'`) appends
/// the array to the top of the stack.
#[verifier::spinoff_prover]
proof fn lemma_read_array(
    d: Seq<u8>,
    tags: Seq<char>,
    i: int,
    pos: int,
    stack: Seq<Seq<ArgView>>,
    inner: Seq<ArgView>,
)
    requires
        0 <= i,
        0 <= pos,
        pos % 4 == 0,
        d.len() <= usize::MAX,
        stack.len() >= 1,
        args_well_formed(inner),
        i + tag_chars(inner).len() + 2 <= tags.len(),
        tags.subrange(i, i + tag_chars(inner).len() + 2) == seq!['['] + tag_chars(inner) + seq![
            ']',
        ],
        pos + args_data(inner).len() <= d.len(),
        d.subrange(pos, pos + args_data(inner).len()) == args_data(inner),
    ensures
        read_args_spec(d, tags, i, pos, stack) == read_args_spec(
            d,
            tags,
            i + tag_chars(inner).len() + 2,
            pos + args_data(inner).len(),
            push_top(stack, ArgView::Array(inner)),
        ),
        args_data(inner).len() % 4 == 0,
    decreases inner, 1int,
{
    let ti = tag_chars(inner);
    let w = tags.subrange(i, i + ti.len() + 2);
    assert(tags[i] == '[') by {
        assert(tags[i] == w[0]);
    }
    assert(tags.subrange(i + 1, i + 1 + ti.len()) =~= ti) by {
        assert forall|k: int| 0 <= k < ti.len() implies tags.subrange(i + 1, i + 1 + ti.len())[k]
            == ti[k] by {
            assert(tags[i + 1 + k] == w[1 + k]);
        }
    }
    assert(tags[i + 1 + ti.len()] == ']') by {
        assert(tags[i + 1 + ti.len()] == w[1int + ti.len()]);
    }
    let st1 = stack.push(Seq::<ArgView>::empty());
    lemma_read_args(d, tags, i + 1, pos, st1, inner);
    let st2 = st1.update(st1.len() - 1, st1.last() + inner);
    assert(st1.last() + inner =~= inner);
    assert(st2 =~= stack.push(inner));
    assert(st2.drop_last() =~= stack);
}


// ─── messages and packets ────────────────────────────────────────────────────

/// The first byte of the encoding of a string that starts with an ASCII character.
proof fn lemma_first_byte(s: Seq<char>)
    requires
        s.len() > 0,
        (s[0] as u32) <= 0x7f,
    ensures
        encode_utf8(s).len() > 0,
        encode_utf8(s)[0] == (s[0] as u32) as u8,
{
    let c = s[0] as u32;
    assert(encode_utf8(s) == encode_scalar(c) + encode_utf8(s.drop_first()));
    assert((c & 0x7Fu32) as u8 == c as u8) by (bit_vector)
        requires
            c <= 0x7F,
    ;
}

/// Decoding the encoding of a well-formed message gives it back.
proof fn lemma_decode_message(address: Seq<char>, args: Seq<ArgView>)
    requires
        address.len() > 0,
        nul_free(address),
        args_well_formed(args),
        encode_message_spec(address, args).len() <= usize::MAX,
    ensures
        decode_message_spec(encode_message_spec(address, args)) == Ok::<PacketView, OscError>(
            PacketView::Message(address, args),
        ),
        encode_message_spec(address, args).len() % 4 == 0,
{
    let d = encode_message_spec(address, args);
    let tags = tag_chars(args);
    let tag_str = seq![','] + tags;
    let oa = osc_string(address);
    let ot = osc_string(tag_str);
    let data = args_data(args);
    assert(d.subrange(0, d.len() as int) =~= oa + (ot + data));
    lemma_window_split(d, 0, oa, ot + data);
    assert(d.subrange(oa.len() as int, d.len() as int) == ot + data);
    lemma_window_split(d, oa.len() as int, ot, data);
    lemma_read_str(d, 0, address);
    let p1 = oa.len() as int;
    lemma_tag_chars_charset(args);
    assert(nul_free(tag_str)) by {
        assert forall|i: int| 0 <= i < tag_str.len() implies tag_str[i] != '\0' by {
            if i > 0 {
                assert(tag_str[i] == tags[i - 1]);
                assert(is_tag_char(tags[i - 1]));
            }
        }
    }
    lemma_first_byte(tag_str);
    assert(d[p1] == 0x2cu8) by {
        assert(d[p1] == ot[0]);
        assert(ot[0] == encode_utf8(tag_str)[0]);
    }
    lemma_read_str(d, p1, tag_str);
    let p2 = p1 + ot.len();
    assert(tags_after_comma(tag_str) =~= tags);
    assert(tags.subrange(0, tags.len() as int) =~= tags);
    lemma_read_args(d, tags, 0, p2, seq![Seq::<ArgView>::empty()], args);
    let st: Seq<Seq<ArgView>> = seq![Seq::<ArgView>::empty()];
    assert(st.update(0, st.last() + args) =~= seq![args]);
}

/// Reading the size-prefixed encodings of well-formed bundle elements that
/// fill the rest of the data appends them to the elements read so far.
proof fn lemma_bundle_elements(d: Seq<u8>, pos: int, acc: Seq<PacketView>, elements: Seq<PacketView>)
    requires
        0 <= pos <= d.len(),
        d.len() <= usize::MAX,
        elements_well_formed(elements),
        d.subrange(pos, d.len() as int) == elements_data(elements),
    ensures
        bundle_elements_spec(d, pos, acc) == Ok::<Seq<PacketView>, OscError>(acc + elements),
        elements_data(elements).len() % 4 == 0,
    decreases elements,
{
    if elements.len() == 0 {
        assert(elements_data(elements).len() == 0);
        assert(pos == d.len());
        assert(acc + elements =~= acc);
    } else {
        let e0 = elements[0];
        let rest = elements.subrange(1, elements.len() as int);
        let enc = encode_spec(e0);
        let size = enc.len() as int;
        assert(packet_well_formed(e0) && size <= u32::MAX && elements_well_formed(rest));
        assert(elements_data(elements) == u32_be(size as u32) + enc + elements_data(rest));
        assert(d.subrange(pos, d.len() as int) =~= u32_be(size as u32) + (enc + elements_data(rest)));
        lemma_window_split(d, pos, u32_be(size as u32), enc + elements_data(rest));
        lemma_window_split(d, pos + 4, enc, elements_data(rest));
        lemma_u32_be(d, pos, size as u32);
        lemma_decode_encode(e0);
        assert(d.subrange(pos + 4 + size, d.len() as int) =~= elements_data(rest));
        lemma_bundle_elements(d, pos + 4 + size, acc.push(e0), rest);
        assert(read_u32_spec(d, pos) == Ok::<(u32, int), OscError>((size as u32, pos + 4)));
        assert(d.subrange(pos + 4, pos + 4 + size) == enc);
        assert(decode_spec(d.subrange(pos + 4, pos + 4 + size)) == Ok::<PacketView, OscError>(e0));
        assert(acc.push(e0) + rest =~= acc + elements);
        let n = elements_data(elements).len() as int;
        let r = elements_data(rest).len() as int;
        assert(n == 4 + size + r);
        assert(n % 4 == 0) by (nonlinear_arith)
            requires
                n == 4 + size + r,
                size % 4 == 0,
                r % 4 == 0,
        ;
    }
}

/// Decoding the encoding of a well-formed packet gives the packet back.
proof fn lemma_decode_encode(p: PacketView)
    requires
        packet_well_formed(p),
        encode_spec(p).len() <= usize::MAX,
    ensures
        decode_spec(encode_spec(p)) == Ok::<PacketView, OscError>(p),
        encode_spec(p).len() % 4 == 0,
    decreases p,
{
    let d = encode_spec(p);
    match p {
        PacketView::Message(address, args) => {
            lemma_first_byte(address);
            assert(d[0] == osc_string(address)[0]);
            assert(d[0] == 0x2fu8);
            if d.len() >= 8 {
                assert(d.subrange(0, 8)[0] != bundle_header()[0]);
            }
            lemma_decode_message(address, args);
        },
        PacketView::Bundle(time, elements) => {
            let head = bundle_header() + u32_be(time.seconds) + u32_be(time.fractional);
            assert(d =~= head + elements_data(elements));
            assert(d.subrange(0, 8) =~= bundle_header());
            assert(d.subrange(8, 12) =~= u32_be(time.seconds));
            assert(d.subrange(12, 16) =~= u32_be(time.fractional));
            lemma_u32_be(d, 8, time.seconds);
            lemma_u32_be(d, 12, time.fractional);
            assert(d.subrange(16, d.len() as int) =~= elements_data(elements));
            lemma_bundle_elements(d, 16, Seq::empty(), elements);
            assert(Seq::<PacketView>::empty() + elements =~= elements);
        },
    }
}


/// Well-formed arguments can be encoded.
proof fn lemma_args_well_formed_encodable(args: Seq<ArgView>)
    requires
        args_well_formed(args),
    ensures
        args_encodable(args),
    decreases args,
{
    if args.len() > 0 {
        lemma_args_well_formed_split(args);
        lemma_args_well_formed_encodable(args.subrange(1, args.len() as int));
        if let ArgView::Array(inner) = args[0] {
            lemma_args_well_formed_encodable(inner);
        }
    }
}

/// A well-formed packet can be encoded.
proof fn lemma_well_formed_encodable(p: PacketView)
    requires
        packet_well_formed(p),
    ensures
        encodable(p),
    decreases p,
{
    match p {
        PacketView::Message(_, args) => lemma_args_well_formed_encodable(args),
        PacketView::Bundle(_, elements) => lemma_elements_well_formed_encodable(elements),
    }
}

/// Well-formed bundle elements can be encoded.
proof fn lemma_elements_well_formed_encodable(elements: Seq<PacketView>)
    requires
        elements_well_formed(elements),
    ensures
        elements_encodable(elements),
    decreases elements,
{
    if elements.len() > 0 {
        lemma_well_formed_encodable(elements[0]);
        lemma_elements_well_formed_encodable(elements.subrange(1, elements.len() as int));
    }
}

/// Decoding the bytes that a well-formed packet encodes to gives that packet
/// back; and every well-formed packet can be encoded. Well formed: message
/// addresses start with `'/'`, no string holds a NUL, blob lengths and bundle
/// element sizes fit their 32-bit prefixes, and the encoding fits in memory.
pub proof fn law_decode_encode(p: PacketView)
    requires
        packet_well_formed(p),
        encode_spec(p).len() <= usize::MAX,
    ensures
        encodable(p),
        decode_spec(encode_spec(p)) == Ok::<PacketView, OscError>(p),
{
    lemma_well_formed_encodable(p);
    lemma_decode_encode(p);
}

} // verus!
