//! OSC packet encoding: converts an `OscPacket` into its bytes.
use vstd::prelude::*;
use vstd::utf8::{encode_utf8, is_ascii_chars, is_ascii_chars_encode_utf8};
use crate::osc_lemmas::{
    lemma_tag_chars_charset, lemma_args_data_concat, lemma_args_data_single, lemma_tag_chars_single, lemma_args_encodable_index, lemma_ascii_bytes_concat,
    lemma_elements_data_concat, lemma_elements_encodable_index, lemma_tag_chars_concat,
};
use crate::osc_types::{
    args_view, lemma_array_view, lemma_bundle_view, packets_view, ArgView, OscArg, OscMessage,
    OscPacket, PacketView,
};
use crate::osc_wire::{
    args_data, args_encodable, ascii_bytes, bundle_header, elements_data, encodable,
    encode_message_spec, encode_spec, nul_padded, osc_string, padded, tag_chars, u32_be, u64_be,
    zeros,
};

verus! {

/// Appends the big-endian bytes of `x`.
fn push_u32(out: &mut Vec<u8>, x: u32)
    ensures
        final(out)@ == old(out)@ + u32_be(x),
{
    out.push((x >> 24u32) as u8);
    out.push((x >> 16u32) as u8);
    out.push((x >> 8u32) as u8);
    out.push(x as u8);
    assert(out@ =~= old(out)@ + u32_be(x));
}

/// Appends the big-endian bytes of `x`.
fn push_u64(out: &mut Vec<u8>, x: u64)
    ensures
        final(out)@ == old(out)@ + u64_be(x),
{
    push_u32(out, (x >> 32u64) as u32);
    push_u32(out, x as u32);
    assert(out@ =~= old(out)@ + u64_be(x));
}

/// Appends `bytes`.
fn push_bytes(out: &mut Vec<u8>, bytes: &[u8])
    ensures
        final(out)@ == old(out)@ + bytes@,
{
    let ghost start = out@;
    for i in 0..bytes.len()
        invariant
            out@ == start + bytes@.subrange(0, i as int),
    {
        out.push(bytes[i]);
        assert(bytes@.subrange(0, i + 1) =~= bytes@.subrange(0, i as int).push(bytes@[i as int]));
    }
    assert(bytes@.subrange(0, bytes@.len() as int) =~= bytes@);
}

/// Appends `n` zero bytes.
fn push_zeros(out: &mut Vec<u8>, n: usize)
    ensures
        final(out)@ == old(out)@ + zeros(n as int),
{
    let ghost start = out@;
    for i in 0..n
        invariant
            out@ == start + zeros(i as int),
    {
        out.push(0u8);
        assert(zeros(i + 1) =~= zeros(i as int).push(0u8));
    }
}

/// Appends `bytes`, a NUL terminator and zero padding to a multiple of four.
fn push_nul_padded(out: &mut Vec<u8>, bytes: &[u8])
    ensures
        final(out)@ == old(out)@ + nul_padded(bytes@),
{
    push_bytes(out, bytes);
    let n = bytes.len();
    let pad = 4 - n % 4;
    assert(crate::osc_wire::align4(n + 1) - n == pad) by {
        assert(n == (n / 4) * 4 + n % 4);
        assert((n + 1 + 3) / 4 == n / 4 + 1);
    }
    push_zeros(out, pad);
    assert(out@ =~= old(out)@ + nul_padded(bytes@));
}

/// Appends the OSC encoding of the string `s`.
fn push_osc_str(out: &mut Vec<u8>, s: &str)
    ensures
        final(out)@ == old(out)@ + osc_string(s@),
{
    let bytes = s.as_bytes();
    push_nul_padded(out, bytes);
}

/// Appends the OSC encoding of a blob: length, bytes, zero padding.
fn push_blob(out: &mut Vec<u8>, blob: &Vec<u8>)
    requires
        blob@.len() <= u32::MAX,
    ensures
        final(out)@ == old(out)@ + u32_be(blob@.len() as u32) + padded(blob@),
{
    let n = blob.len();
    push_u32(out, n as u32);
    push_bytes(out, blob.as_slice());
    let pad = (4 - n % 4) % 4;
    assert(crate::osc_wire::align4(n as int) - n == pad) by {
        assert(n == (n / 4) * 4 + n % 4);
        if n % 4 == 0 {
            assert((n + 3) / 4 == n / 4);
        } else {
            assert((n + 3) / 4 == n / 4 + 1);
        }
    }
    push_zeros(out, pad);
    assert(out@ =~= old(out)@ + u32_be(blob@.len() as u32) + padded(blob@));
}

/// The views of the first `i + 1` arguments are those of the first `i`, then the `i`-th.
proof fn lemma_args_view_prefix(args: Seq<OscArg>, i: int)
    requires
        0 <= i < args.len(),
    ensures
        args_view(args).subrange(0, i + 1) == args_view(args).subrange(0, i) + seq![args[i]@],
{
    assert(args_view(args).subrange(0, i + 1) =~= args_view(args).subrange(0, i) + seq![
        args[i]@,
    ]);
}

/// Appends the type-tag characters of `args` (as ASCII bytes).
fn write_tags(out: &mut Vec<u8>, args: &Vec<OscArg>)
    ensures
        final(out)@ == old(out)@ + ascii_bytes(tag_chars(args_view(args@))),
    decreases args@,
{
    let ghost start = out@;
    let ghost view = args_view(args@);
    assert(view.subrange(0, 0) =~= Seq::<ArgView>::empty());
    assert(ascii_bytes(tag_chars(Seq::<ArgView>::empty())) =~= Seq::<u8>::empty());
    let mut i: usize = 0;
    while i < args.len()
        invariant
            i <= args@.len(),
            view == args_view(args@),
            out@ == start + ascii_bytes(tag_chars(view.subrange(0, i as int))),
        decreases args@.len() - i,
    {
        let ghost before = out@;
        let a = &args[i];
        proof {
            lemma_args_view_prefix(args@, i as int);
            lemma_tag_chars_concat(view.subrange(0, i as int), seq![a@]);
            lemma_tag_chars_single(a@);
            lemma_ascii_bytes_concat(tag_chars(view.subrange(0, i as int)), tag_chars(seq![a@]));
        }
        match a {
            OscArg::Array(inner) => {
                proof {
                    lemma_array_view(*inner);
                    lemma_ascii_bytes_concat(seq!['['], tag_chars(args_view(inner@)));
                    lemma_ascii_bytes_concat(
                        seq!['['] + tag_chars(args_view(inner@)),
                        seq![']'],
                    );
                    assert(ascii_bytes(seq!['[']) =~= seq![0x5bu8]);
                    assert(ascii_bytes(seq![']']) =~= seq![0x5du8]);
                }
                out.push(0x5bu8);
                write_tags(out, inner);
                out.push(0x5du8);
            },
            OscArg::Int(_) => {
                out.push(0x69u8);
            },
            OscArg::Float(_) => {
                out.push(0x66u8);
            },
            OscArg::String(_) => {
                out.push(0x73u8);
            },
            OscArg::Blob(_) => {
                out.push(0x62u8);
            },
            OscArg::Long(_) => {
                out.push(0x68u8);
            },
            OscArg::Double(_) => {
                out.push(0x64u8);
            },
            OscArg::TimeTag(_) => {
                out.push(0x74u8);
            },
            OscArg::Char(_) => {
                out.push(0x63u8);
            },
            OscArg::Color(..) => {
                out.push(0x72u8);
            },
            OscArg::Midi(_) => {
                out.push(0x6du8);
            },
            OscArg::Bool(b) => {
                if *b {
                    out.push(0x54u8);
                } else {
                    out.push(0x46u8);
                }
            },
            OscArg::Nil => {
                out.push(0x4eu8);
            },
            OscArg::Impulse => {
                out.push(0x49u8);
            },
        }
        assert(out@ =~= start + ascii_bytes(tag_chars(view.subrange(0, i + 1))));
        i = i + 1;
    }
    assert(view.subrange(0, args@.len() as int) =~= view);
}


/// Appends the data bytes of `args`, in tag order.
fn write_data(out: &mut Vec<u8>, args: &Vec<OscArg>)
    requires
        args_encodable(args_view(args@)),
    ensures
        final(out)@ == old(out)@ + args_data(args_view(args@)),
    decreases args@,
{
    let ghost start = out@;
    let ghost view = args_view(args@);
    assert(view.subrange(0, 0) =~= Seq::<ArgView>::empty());
    assert(args_data(Seq::<ArgView>::empty()) =~= Seq::<u8>::empty());
    let mut i: usize = 0;
    while i < args.len()
        invariant
            i <= args@.len(),
            view == args_view(args@),
            args_encodable(view),
            out@ == start + args_data(view.subrange(0, i as int)),
        decreases args@.len() - i,
    {
        let a = &args[i];
        proof {
            lemma_args_view_prefix(args@, i as int);
            lemma_args_data_concat(view.subrange(0, i as int), seq![a@]);
            lemma_args_data_single(a@);
            lemma_args_encodable_index(view, i as int);
        }
        match a {
            OscArg::Array(inner) => {
                proof {
                    lemma_array_view(*inner);
                }
                write_data(out, inner);
            },
            OscArg::Int(v) => push_u32(out, *v as u32),
            OscArg::Float(bits) => push_u32(out, *bits),
            OscArg::String(s) => push_osc_str(out, s.as_str()),
            OscArg::Blob(b) => push_blob(out, b),
            OscArg::Long(v) => push_u64(out, *v as u64),
            OscArg::Double(bits) => push_u64(out, *bits),
            OscArg::TimeTag(t) => {
                push_u32(out, t.seconds);
                push_u32(out, t.fractional);
            },
            OscArg::Char(c) => push_u32(out, *c as u32),
            OscArg::Color(r, g, b, x) => {
                out.push(*r);
                out.push(*g);
                out.push(*b);
                out.push(*x);
            },
            OscArg::Midi(m) => {
                out.push(m[0]);
                out.push(m[1]);
                out.push(m[2]);
                out.push(m[3]);
            },
            OscArg::Bool(_) => {},
            OscArg::Nil => {},
            OscArg::Impulse => {},
        }
        assert(out@ =~= start + args_data(view.subrange(0, i + 1)));
        i = i + 1;
    }
    assert(view.subrange(0, args@.len() as int) =~= view);
}

/// Appends the OSC encoding of a message.
fn encode_message_into(out: &mut Vec<u8>, message: &OscMessage)
    requires
        args_encodable(args_view(message.args@)),
    ensures
        final(out)@ == old(out)@ + encode_message_spec(message.address@, args_view(message.args@)),
{
    let ghost args = args_view(message.args@);
    push_osc_str(out, message.address.as_str());
    let mut tags: Vec<u8> = Vec::new();
    tags.push(0x2cu8);
    write_tags(&mut tags, &message.args);
    proof {
        let chars = seq![','] + tag_chars(args);
        lemma_tag_chars_charset(args);
        assert(is_ascii_chars(chars));
        is_ascii_chars_encode_utf8(chars);
        lemma_ascii_bytes_concat(seq![','], tag_chars(args));
        assert(ascii_bytes(seq![',']) =~= seq![0x2cu8]);
        assert(encode_utf8(chars) =~= ascii_bytes(chars));
        assert(tags@ == encode_utf8(chars));
    }
    push_nul_padded(out, tags.as_slice());
    write_data(out, &message.args);
    assert(out@ =~= old(out)@ + encode_message_spec(message.address@, args));
}

/// Appends the OSC encoding of a packet.
fn encode_into(out: &mut Vec<u8>, packet: &OscPacket)
    requires
        encodable(packet@),
    ensures
        final(out)@ == old(out)@ + encode_spec(packet@),
    decreases packet, 0int,
{
    match packet {
        OscPacket::Message(m) => {
            encode_message_into(out, m);
        },
        OscPacket::Bundle(b) => {
            proof {
                lemma_bundle_view(*b);
            }
            let ghost start = out@;
            let ghost elements = packets_view(b.elements@);
            let header: [u8; 8] = [0x23, 0x62, 0x75, 0x6e, 0x64, 0x6c, 0x65, 0x00];
            push_bytes(out, header.as_slice());
            push_u32(out, b.time.seconds);
            push_u32(out, b.time.fractional);
            let ghost prefix = out@;
            assert(prefix == start + bundle_header() + u32_be(b.time.seconds) + u32_be(
                b.time.fractional,
            ));
            assert(elements.subrange(0, 0) =~= Seq::<PacketView>::empty());
            assert(elements_data(Seq::<PacketView>::empty()) =~= Seq::<u8>::empty());
            let mut i: usize = 0;
            while i < b.elements.len()
                invariant
                    i <= b.elements@.len(),
                    *packet == OscPacket::Bundle(*b),
                    elements == packets_view(b.elements@),
                    crate::osc_wire::elements_encodable(elements),
                    out@ == prefix + elements_data(elements.subrange(0, i as int)),
                decreases b.elements@.len() - i,
            {
                let element = &b.elements[i];
                proof {
                    lemma_elements_encodable_index(elements, i as int);
                    assert(decreases_to!(*packet => packet->Bundle_0));
                    assert(decreases_to!(packet->Bundle_0 => packet->Bundle_0.elements));
                    assert(decreases_to!(b.elements => b.elements@));
                    assert(decreases_to!(b.elements@ => b.elements@[i as int]));
                    assert(decreases_to!(*packet => *element));
                }
                let bytes = encode(element);
                push_u32(out, bytes.len() as u32);
                push_bytes(out, bytes.as_slice());
                proof {
                    let s = seq![element@];
                    assert(elements.subrange(0, i + 1) =~= elements.subrange(0, i as int) + s);
                    lemma_elements_data_concat(elements.subrange(0, i as int), s);
                    assert(s.subrange(1, 1) =~= Seq::<PacketView>::empty());
                    assert(elements_data(s.subrange(1, 1)) =~= Seq::<u8>::empty());
                    assert(elements_data(s) == u32_be(encode_spec(s[0]).len() as u32) + encode_spec(
                        s[0],
                    ) + elements_data(s.subrange(1, 1)));
                    assert(elements_data(s) =~= u32_be(bytes@.len() as u32) + bytes@);
                }
                assert(out@ =~= prefix + elements_data(elements.subrange(0, i + 1)));
                i = i + 1;
            }
            assert(elements.subrange(0, b.elements@.len() as int) =~= elements);
            assert(out@ =~= start + encode_spec(packet@));
        },
    }
}

/// Encodes an OSC packet into its bytes.
pub fn encode(packet: &OscPacket) -> (bytes: Vec<u8>)
    requires
        encodable(packet@),
    ensures
        bytes@ == encode_spec(packet@),
    decreases packet, 1int,
{
    let mut out: Vec<u8> = Vec::new();
    encode_into(&mut out, packet);
    assert(out@ =~= encode_spec(packet@));
    out
}

} // verus!
