//! The OSC 1.0 wire format, stated as spec functions over byte sequences:
//! what decoding a byte sequence gives, and what bytes a packet encodes to.
use vstd::prelude::*;
use vstd::utf8::{decode_utf8, encode_utf8, is_scalar, valid_utf8};
use crate::osc_types::{ArgView, OscError, OscTimeTag, PacketView};

verus! {

// ─── numbers and alignment ───────────────────────────────────────────────────

/// `n` rounded up to the next multiple of four.
pub open spec fn align4(n: int) -> int {
    ((n + 3) / 4) * 4
}

/// The big-endian `u32` in `d[i..i + 4]`.
pub open spec fn be_u32_at(d: Seq<u8>, i: int) -> u32 {
    ((d[i] as u32) << 24u32) | ((d[i + 1] as u32) << 16u32) | ((d[i + 2] as u32) << 8u32) | (
    d[i + 3] as u32)
}

/// The big-endian `u64` in `d[i..i + 8]`.
pub open spec fn be_u64_at(d: Seq<u8>, i: int) -> u64 {
    ((be_u32_at(d, i) as u64) << 32u64) | (be_u32_at(d, i + 4) as u64)
}

/// The four big-endian bytes of `x`.
pub open spec fn u32_be(x: u32) -> Seq<u8> {
    seq![(x >> 24u32) as u8, (x >> 16u32) as u8, (x >> 8u32) as u8, x as u8]
}

/// The eight big-endian bytes of `x`.
pub open spec fn u64_be(x: u64) -> Seq<u8> {
    u32_be((x >> 32u64) as u32) + u32_be(x as u32)
}

/// `n` zero bytes.
pub open spec fn zeros(n: int) -> Seq<u8> {
    Seq::new(n as nat, |i: int| 0u8)
}

/// The bytes of the bundle header `"#bundle\0"`.
pub open spec fn bundle_header() -> Seq<u8> {
    seq![0x23u8, 0x62u8, 0x75u8, 0x6eu8, 0x64u8, 0x6cu8, 0x65u8, 0x00u8]
}

/// True when `d` starts with the bundle header.
pub open spec fn starts_with_bundle_header(d: Seq<u8>) -> bool {
    d.len() >= 8 && d.subrange(0, 8) == bundle_header()
}

// ─── decoding: low-level readers ─────────────────────────────────────────────

/// Reading `n` bytes at `pos`: the position after them, or the truncation error.
pub open spec fn read_exact_spec(d: Seq<u8>, pos: int, n: int) -> Result<int, OscError> {
    if pos + n > d.len() {
        Err(OscError::Truncated { need: n as usize, offset: pos as usize, have: d.len() as usize })
    } else {
        Ok(pos + n)
    }
}

/// Reading a big-endian `u32` at `pos`.
pub open spec fn read_u32_spec(d: Seq<u8>, pos: int) -> Result<(u32, int), OscError> {
    match read_exact_spec(d, pos, 4) {
        Ok(p) => Ok((be_u32_at(d, pos), p)),
        Err(e) => Err(e),
    }
}

/// Reading a big-endian `u64` at `pos`.
pub open spec fn read_u64_spec(d: Seq<u8>, pos: int) -> Result<(u64, int), OscError> {
    match read_exact_spec(d, pos, 8) {
        Ok(p) => Ok((be_u64_at(d, pos), p)),
        Err(e) => Err(e),
    }
}

/// Reading a time tag (seconds, then fraction) at `pos`.
pub open spec fn read_timetag_spec(d: Seq<u8>, pos: int) -> Result<(OscTimeTag, int), OscError> {
    match read_u32_spec(d, pos) {
        Err(e) => Err(e),
        Ok((seconds, p)) => match read_u32_spec(d, p) {
            Err(e) => Err(e),
            Ok((fractional, p2)) => Ok((OscTimeTag { seconds, fractional }, p2)),
        },
    }
}

/// The index of the first zero byte of `d` at or after `i`.
pub open spec fn nul_index(d: Seq<u8>, i: int) -> Option<int>
    decreases d.len() - i,
{
    if i < 0 || i >= d.len() {
        None
    } else if d[i] == 0 {
        Some(i)
    } else {
        nul_index(d, i + 1)
    }
}

/// Reading a NUL-terminated, 4-byte aligned UTF-8 string at `start`.
pub open spec fn read_str_spec(d: Seq<u8>, start: int) -> Result<(Seq<char>, int), OscError> {
    match nul_index(d, start) {
        None => Err(OscError::UnterminatedString),
        Some(j) => {
            let bytes = d.subrange(start, j);
            if valid_utf8(bytes) {
                Ok((decode_utf8(bytes), align4(j + 1)))
            } else {
                Err(OscError::InvalidUtf8)
            }
        },
    }
}

/// Reading a blob (big-endian length, bytes, padding) at `pos`.
pub open spec fn read_blob_spec(d: Seq<u8>, pos: int) -> Result<(Seq<u8>, int), OscError> {
    match read_u32_spec(d, pos) {
        Err(e) => Err(e),
        Ok((len, p)) => if p + len > usize::MAX {
            Err(OscError::BlobLengthOverflow)
        } else if p + len > d.len() {
            Err(OscError::BlobTooLong(len))
        } else {
            Ok((d.subrange(p, p + len), align4(p + len)))
        },
    }
}

/// Reading the argument that type tag `tag` announces at `pos`.
pub open spec fn read_arg_spec(d: Seq<u8>, pos: int, tag: char) -> Result<(ArgView, int), OscError> {
    if tag == 'i' {
        match read_u32_spec(d, pos) {
            Ok((v, p)) => Ok((ArgView::Int(v as i32), p)),
            Err(e) => Err(e),
        }
    } else if tag == 'f' {
        match read_u32_spec(d, pos) {
            Ok((v, p)) => Ok((ArgView::Float(v), p)),
            Err(e) => Err(e),
        }
    } else if tag == 's' {
        match read_str_spec(d, pos) {
            Ok((s, p)) => Ok((ArgView::Str(s), p)),
            Err(e) => Err(e),
        }
    } else if tag == 'b' {
        match read_blob_spec(d, pos) {
            Ok((b, p)) => Ok((ArgView::Blob(b), p)),
            Err(e) => Err(e),
        }
    } else if tag == 'h' {
        match read_u64_spec(d, pos) {
            Ok((v, p)) => Ok((ArgView::Long(v as i64), p)),
            Err(e) => Err(e),
        }
    } else if tag == 'd' {
        match read_u64_spec(d, pos) {
            Ok((v, p)) => Ok((ArgView::Double(v), p)),
            Err(e) => Err(e),
        }
    } else if tag == 't' {
        match read_timetag_spec(d, pos) {
            Ok((t, p)) => Ok((ArgView::TimeTag(t), p)),
            Err(e) => Err(e),
        }
    } else if tag == 'c' {
        match read_u32_spec(d, pos) {
            Ok((v, p)) => if is_scalar(v) {
                Ok((ArgView::Char(v as char), p))
            } else {
                Err(OscError::InvalidChar(v))
            },
            Err(e) => Err(e),
        }
    } else if tag == 'r' {
        match read_exact_spec(d, pos, 4) {
            Ok(p) => Ok((ArgView::Color(d[pos], d[pos + 1], d[pos + 2], d[pos + 3]), p)),
            Err(e) => Err(e),
        }
    } else if tag == 'm' {
        match read_exact_spec(d, pos, 4) {
            Ok(p) => Ok((ArgView::Midi(d[pos], d[pos + 1], d[pos + 2], d[pos + 3]), p)),
            Err(e) => Err(e),
        }
    } else if tag == 'T' {
        Ok((ArgView::Bool(true), pos))
    } else if tag == 'F' {
        Ok((ArgView::Bool(false), pos))
    } else if tag == 'N' {
        Ok((ArgView::Nil, pos))
    } else if tag == 'I' {
        Ok((ArgView::Impulse, pos))
    } else {
        Err(OscError::UnknownTypeTag(tag))
    }
}

/// The position after reading the argument that `tag` announces at `pos`,
/// whether the read succeeds or fails. A blob, time tag or character read
/// that fails after its leading word was read has already moved past that word.
pub open spec fn read_arg_end(d: Seq<u8>, pos: int, tag: char) -> int {
    match read_arg_spec(d, pos, tag) {
        Ok((_, p)) => p,
        Err(_) => if (tag == 'b' || tag == 't' || tag == 'c') && read_u32_spec(d, pos) is Ok {
            pos + 4
        } else {
            pos
        },
    }
}

/// The position where reading arguments for the type tags `tags[i..]` from
/// `pos` stops, with `depth` argument lists open: the end of the data read
/// when every read succeeds, else the position the failing step left.
pub open spec fn read_args_end(d: Seq<u8>, tags: Seq<char>, i: int, pos: int, depth: int) -> int
    decreases tags.len() - i,
{
    if i < 0 || i >= tags.len() {
        pos
    } else if tags[i] == '[' {
        read_args_end(d, tags, i + 1, pos, depth + 1)
    } else if tags[i] == ']' {
        if depth < 2 {
            pos
        } else {
            read_args_end(d, tags, i + 1, pos, depth - 1)
        }
    } else {
        match read_arg_spec(d, pos, tags[i]) {
            Err(_) => read_arg_end(d, pos, tags[i]),
            Ok((_, p)) => read_args_end(d, tags, i + 1, p, depth),
        }
    }
}

/// `stack` with `a` appended to its top list.
pub open spec fn push_top(stack: Seq<Seq<ArgView>>, a: ArgView) -> Seq<Seq<ArgView>> {
    stack.update(stack.len() - 1, stack.last().push(a))
}

/// Reading arguments for the type tags `tags[i..]` from `pos`, where `stack`
/// holds the argument lists of the arrays opened so far (the top-level list
/// first). Each `'['` opens a list, each `']'` closes the innermost list into
/// an `Array` argument of the list below it.
pub open spec fn read_args_spec(
    d: Seq<u8>,
    tags: Seq<char>,
    i: int,
    pos: int,
    stack: Seq<Seq<ArgView>>,
) -> Result<Seq<ArgView>, OscError>
    decreases tags.len() - i,
{
    if i < 0 || i >= tags.len() {
        if stack.len() != 1 {
            Err(OscError::UnclosedBracket)
        } else {
            Ok(stack[0])
        }
    } else if tags[i] == '[' {
        read_args_spec(d, tags, i + 1, pos, stack.push(Seq::empty()))
    } else if tags[i] == ']' {
        if stack.len() < 2 {
            Err(OscError::UnmatchedCloseBracket)
        } else {
            let inner = stack.last();
            read_args_spec(d, tags, i + 1, pos, push_top(stack.drop_last(), ArgView::Array(inner)))
        }
    } else {
        match read_arg_spec(d, pos, tags[i]) {
            Err(e) => Err(e),
            Ok((a, p)) => read_args_spec(d, tags, i + 1, p, push_top(stack, a)),
        }
    }
}

/// The characters of a type-tag string after its leading `','`.
pub open spec fn tags_after_comma(raw: Seq<char>) -> Seq<char> {
    if raw.len() == 0 {
        raw
    } else {
        raw.subrange(1, raw.len() as int)
    }
}

/// Decoding a message: address, optional type-tag string, arguments.
pub open spec fn decode_message_spec(d: Seq<u8>) -> Result<PacketView, OscError> {
    match read_str_spec(d, 0) {
        Err(e) => Err(e),
        Ok((address, p)) => {
            let tagged: Result<(Seq<char>, int), OscError> = if p < d.len() && d[p] == 0x2c {
                match read_str_spec(d, p) {
                    Err(e) => Err(e),
                    Ok((raw, p2)) => Ok((tags_after_comma(raw), p2)),
                }
            } else {
                Ok((Seq::empty(), p))
            };
            match tagged {
                Err(e) => Err(e),
                Ok((tags, p2)) => match read_args_spec(d, tags, 0, p2, seq![Seq::empty()]) {
                    Err(e) => Err(e),
                    Ok(args) => Ok(PacketView::Message(address, args)),
                },
            }
        },
    }
}

/// What decoding the bytes `d` gives: a packet, or the first error met.
/// A packet fills a whole number of 4-byte words.
pub open spec fn decode_spec(d: Seq<u8>) -> Result<PacketView, OscError>
    decreases d.len(), d.len(),
{
    if d.len() % 4 != 0 {
        Err(OscError::Misaligned)
    } else if starts_with_bundle_header(d) {
        match read_timetag_spec(d, 8) {
            Err(e) => Err(e),
            Ok((time, p)) => match bundle_elements_spec(d, p, Seq::empty()) {
                Err(e) => Err(e),
                Ok(elements) => Ok(PacketView::Bundle(time, elements)),
            },
        }
    } else if d.len() > 0 && d[0] == 0x2f {
        decode_message_spec(d)
    } else {
        Err(OscError::NotAPacket)
    }
}

/// Decoding the size-prefixed bundle elements of `d` from `pos` on, after the
/// elements `acc` already decoded.
pub open spec fn bundle_elements_spec(d: Seq<u8>, pos: int, acc: Seq<PacketView>) -> Result<
    Seq<PacketView>,
    OscError,
>
    decreases d.len(), d.len() - pos,
{
    if pos < 0 || pos >= d.len() {
        Ok(acc)
    } else {
        match read_u32_spec(d, pos) {
            Err(e) => Err(e),
            Ok((size, p)) => if p + size > d.len() {
                Err(OscError::BundleElementOverrun)
            } else {
                match decode_spec(d.subrange(p, p + size)) {
                    Err(e) => Err(e),
                    Ok(element) => bundle_elements_spec(d, p + size, acc.push(element)),
                }
            },
        }
    }
}

// ─── encoding ────────────────────────────────────────────────────────────────

/// `b` followed by a NUL byte and zero padding up to a multiple of four.
pub open spec fn nul_padded(b: Seq<u8>) -> Seq<u8> {
    b + zeros(align4(b.len() + 1int) - b.len())
}

/// `b` followed by zero padding up to a multiple of four.
pub open spec fn padded(b: Seq<u8>) -> Seq<u8> {
    b + zeros(align4(b.len() as int) - b.len())
}

/// The OSC encoding of a string.
pub open spec fn osc_string(s: Seq<char>) -> Seq<u8> {
    nul_padded(encode_utf8(s))
}

/// The type tags of the arguments `args`, arrays in brackets.
pub open spec fn tag_chars(args: Seq<ArgView>) -> Seq<char>
    decreases args,
{
    if args.len() == 0 {
        Seq::empty()
    } else {
        let rest = tag_chars(args.subrange(1, args.len() as int));
        match args[0] {
            ArgView::Array(inner) => seq!['['] + tag_chars(inner) + seq![']'] + rest,
            ArgView::Int(_) => seq!['i'] + rest,
            ArgView::Float(_) => seq!['f'] + rest,
            ArgView::Str(_) => seq!['s'] + rest,
            ArgView::Blob(_) => seq!['b'] + rest,
            ArgView::Long(_) => seq!['h'] + rest,
            ArgView::Double(_) => seq!['d'] + rest,
            ArgView::TimeTag(_) => seq!['t'] + rest,
            ArgView::Char(_) => seq!['c'] + rest,
            ArgView::Color(..) => seq!['r'] + rest,
            ArgView::Midi(..) => seq!['m'] + rest,
            ArgView::Bool(b) => if b { seq!['T'] + rest } else { seq!['F'] + rest },
            ArgView::Nil => seq!['N'] + rest,
            ArgView::Impulse => seq!['I'] + rest,
        }
    }
}

/// The data bytes of the arguments `args`, in tag order (arrays flattened).
pub open spec fn args_data(args: Seq<ArgView>) -> Seq<u8>
    decreases args,
{
    if args.len() == 0 {
        Seq::empty()
    } else {
        let rest = args_data(args.subrange(1, args.len() as int));
        match args[0] {
            ArgView::Array(inner) => args_data(inner) + rest,
            ArgView::Int(v) => u32_be(v as u32) + rest,
            ArgView::Float(v) => u32_be(v) + rest,
            ArgView::Str(s) => osc_string(s) + rest,
            ArgView::Blob(b) => u32_be(b.len() as u32) + padded(b) + rest,
            ArgView::Long(v) => u64_be(v as u64) + rest,
            ArgView::Double(v) => u64_be(v) + rest,
            ArgView::TimeTag(t) => u32_be(t.seconds) + u32_be(t.fractional) + rest,
            ArgView::Char(c) => u32_be(c as u32) + rest,
            ArgView::Color(r, g, b, a) => seq![r, g, b, a] + rest,
            ArgView::Midi(a, b, c, e) => seq![a, b, c, e] + rest,
            _ => rest,
        }
    }
}

/// The OSC encoding of a message.
pub open spec fn encode_message_spec(address: Seq<char>, args: Seq<ArgView>) -> Seq<u8> {
    osc_string(address) + osc_string(seq![','] + tag_chars(args)) + args_data(args)
}

/// The OSC encoding of a packet.
pub open spec fn encode_spec(p: PacketView) -> Seq<u8>
    decreases p,
{
    match p {
        PacketView::Message(address, args) => encode_message_spec(address, args),
        PacketView::Bundle(time, elements) => bundle_header() + u32_be(time.seconds) + u32_be(
            time.fractional,
        ) + elements_data(elements),
    }
}

/// The size-prefixed encodings of bundle elements.
pub open spec fn elements_data(elements: Seq<PacketView>) -> Seq<u8>
    decreases elements,
{
    if elements.len() == 0 {
        Seq::empty()
    } else {
        let e = encode_spec(elements[0]);
        u32_be(e.len() as u32) + e + elements_data(elements.subrange(1, elements.len() as int))
    }
}


// ─── what can be encoded ─────────────────────────────────────────────────────

/// True when every blob among `args` (nested arrays included) has a length
/// that the format's 32-bit length prefix can hold.
pub open spec fn args_encodable(args: Seq<ArgView>) -> bool
    decreases args,
{
    if args.len() == 0 {
        true
    } else {
        let first_ok = match args[0] {
            ArgView::Blob(b) => b.len() <= u32::MAX,
            ArgView::Array(inner) => args_encodable(inner),
            _ => true,
        };
        first_ok && args_encodable(args.subrange(1, args.len() as int))
    }
}

/// True when the packet's encoding can be written: blob lengths and bundle
/// element sizes fit their 32-bit prefixes.
pub open spec fn encodable(p: PacketView) -> bool
    decreases p,
{
    match p {
        PacketView::Message(_, args) => args_encodable(args),
        PacketView::Bundle(_, elements) => elements_encodable(elements),
    }
}

/// True when each element is encodable and its encoding's size fits a `u32`.
pub open spec fn elements_encodable(elements: Seq<PacketView>) -> bool
    decreases elements,
{
    if elements.len() == 0 {
        true
    } else {
        &&& encodable(elements[0])
        &&& encode_spec(elements[0]).len() <= u32::MAX
        &&& elements_encodable(elements.subrange(1, elements.len() as int))
    }
}

/// The bytes of ASCII characters.
pub open spec fn ascii_bytes(cs: Seq<char>) -> Seq<u8> {
    Seq::new(cs.len(), |i: int| cs[i] as u8)
}

} // verus!
