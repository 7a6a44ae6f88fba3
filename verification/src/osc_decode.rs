//! OSC packet decoding: converts a byte slice into an `OscPacket`.
use vstd::prelude::*;
use vstd::utf8::{decode_utf8, is_scalar, valid_utf8};
use crate::osc_types::{
    args_view, lemma_args_view_push, lemma_array_view, lemma_bundle_view, lemma_packets_view_push,
    packets_view, ArgView, OscArg, OscBundle, OscError, OscMessage, OscPacket, OscTimeTag,
    PacketView,
};
use crate::osc_wire::{
    be_u32_at, be_u64_at, bundle_elements_spec, bundle_header, decode_message_spec, decode_spec,
    nul_index, push_top, read_arg_end, read_arg_spec, read_args_end, read_args_spec, read_blob_spec, read_exact_spec,
    read_str_spec, read_timetag_spec, read_u32_spec, read_u64_spec, starts_with_bundle_header,
    tags_after_comma,
};

verus! {

broadcast use vstd::string::axiom_spec_iter;

// ─── views of decoding results ───────────────────────────────────────────────

/// The view of a decoding result.
pub open spec fn packet_result_view(r: Result<OscPacket, OscError>) -> Result<PacketView, OscError> {
    match r {
        Ok(p) => Ok(p@),
        Err(e) => Err(e),
    }
}

/// The views of the argument lists on a decoding stack.
pub open spec fn stack_view(s: Seq<Vec<OscArg>>) -> Seq<Seq<ArgView>> {
    Seq::new(s.len(), |i: int| args_view(s[i]@))
}

/// True when every position derived from `data` fits in `usize` with room to spare.
pub open spec fn addressable(data: Seq<u8>) -> bool {
    data.len() <= isize::MAX
}

// ─── trusted std calls ───────────────────────────────────────────────────────

/// `core::str::from_utf8`: gives a `str` exactly when the bytes are valid
/// UTF-8, and then that `str` holds the characters the bytes encode.
#[verifier::external_body]
fn str_from_utf8(bytes: &[u8]) -> (res: Option<&str>)
    ensures
        res is Some <==> valid_utf8(bytes@),
        res matches Some(s) ==> s@ == decode_utf8(bytes@),
{
    core::str::from_utf8(bytes).ok()
}

/// `char::from_u32`: gives a `char` exactly when `code` is a Unicode scalar
/// value (not above `0x10FFFF`, not a surrogate), and then that `char` has code `code`.
#[verifier::external_body]
fn char_from_u32(code: u32) -> (res: Option<char>)
    ensures
        res is Some <==> is_scalar(code),
        res matches Some(c) ==> c as u32 == code,
{
    char::from_u32(code)
}

// ─── low-level readers ───────────────────────────────────────────────────────

/// Rounds `n` up to the next 4-byte boundary.
fn align4(n: usize) -> (r: usize)
    requires
        n <= usize::MAX - 3,
    ensures
        r as int == crate::osc_wire::align4(n as int),
{
    let m = n + 3;
    let r = m & !3usize;
    assert(m & !3usize == (m / 4) * 4) by (bit_vector);
    r
}

/// Takes `n` bytes at `*pos` and moves past them.
fn read_exact<'a>(data: &'a [u8], pos: &mut usize, n: usize) -> (res: Result<&'a [u8], OscError>)
    requires
        addressable(data@),
        *old(pos) <= data@.len() + 3,
        n <= 8,
    ensures
        match res {
            Ok(bytes) => {
                &&& read_exact_spec(data@, *old(pos) as int, n as int) == Ok::<int, OscError>(
                    *final(pos) as int,
                )
                &&& bytes@ == data@.subrange(*old(pos) as int, *final(pos) as int)
                &&& *final(pos) <= data@.len()
            },
            Err(e) => read_exact_spec(data@, *old(pos) as int, n as int) == Err::<int, OscError>(e)
                && *final(pos) == *old(pos),
        },
{
    let start = *pos;
    if n > data.len() || start > data.len() - n {
        return Err(OscError::Truncated { need: n, offset: start, have: data.len() });
    }
    *pos = start + n;
    Ok(&data[start..start + n])
}

/// Reads a big-endian `u32` at `*pos`.
fn read_u32(data: &[u8], pos: &mut usize) -> (res: Result<u32, OscError>)
    requires
        addressable(data@),
        *old(pos) <= data@.len() + 3,
    ensures
        match res {
            Ok(v) => read_u32_spec(data@, *old(pos) as int) == Ok::<(u32, int), OscError>(
                (v, *final(pos) as int),
            ) && *final(pos) <= data@.len(),
            Err(e) => read_u32_spec(data@, *old(pos) as int) == Err::<(u32, int), OscError>(e)
                && *final(pos) == *old(pos),
        },
{
    let start = *pos;
    let b = match read_exact(data, pos, 4) {
        Ok(b) => b,
        Err(e) => return Err(e),
    };
    assert(b@[0] == data@[start as int] && b@[1] == data@[start + 1] && b@[2] == data@[start + 2]
        && b@[3] == data@[start + 3]);
    Ok(((b[0] as u32) << 24u32) | ((b[1] as u32) << 16u32) | ((b[2] as u32) << 8u32) | (
    b[3] as u32))
}

/// Reads a big-endian `i32` at `*pos`.
fn read_i32(data: &[u8], pos: &mut usize) -> (res: Result<i32, OscError>)
    requires
        addressable(data@),
        *old(pos) <= data@.len() + 3,
    ensures
        match res {
            Ok(v) => exists|u: u32|
                read_u32_spec(data@, *old(pos) as int) == Ok::<(u32, int), OscError>(
                    (u, *final(pos) as int),
                ) && v == u as i32,
            Err(e) => read_u32_spec(data@, *old(pos) as int) == Err::<(u32, int), OscError>(e)
                && *final(pos) == *old(pos),
        },
        res is Ok ==> *final(pos) <= data@.len(),
{
    match read_u32(data, pos) {
        Ok(u) => Ok(u as i32),
        Err(e) => Err(e),
    }
}

/// Reads a big-endian `u64` at `*pos`.
fn read_u64(data: &[u8], pos: &mut usize) -> (res: Result<u64, OscError>)
    requires
        addressable(data@),
        *old(pos) <= data@.len() + 3,
    ensures
        match res {
            Ok(v) => read_u64_spec(data@, *old(pos) as int) == Ok::<(u64, int), OscError>(
                (v, *final(pos) as int),
            ) && *final(pos) <= data@.len(),
            Err(e) => read_u64_spec(data@, *old(pos) as int) == Err::<(u64, int), OscError>(e)
                && *final(pos) == *old(pos),
        },
{
    let start = *pos;
    let b = match read_exact(data, pos, 8) {
        Ok(b) => b,
        Err(e) => return Err(e),
    };
    let hi = ((b[0] as u32) << 24u32) | ((b[1] as u32) << 16u32) | ((b[2] as u32) << 8u32) | (
    b[3] as u32);
    let lo = ((b[4] as u32) << 24u32) | ((b[5] as u32) << 16u32) | ((b[6] as u32) << 8u32) | (
    b[7] as u32);
    assert(hi == be_u32_at(data@, start as int));
    assert(lo == be_u32_at(data@, start + 4));
    Ok(((hi as u64) << 32u64) | (lo as u64))
}

/// Reads a time tag (seconds, then fraction) at `*pos`.
fn read_timetag(data: &[u8], pos: &mut usize) -> (res: Result<OscTimeTag, OscError>)
    requires
        addressable(data@),
        *old(pos) <= data@.len() + 3,
    ensures
        match res {
            Ok(t) => read_timetag_spec(data@, *old(pos) as int) == Ok::<(OscTimeTag, int), OscError>(
                (t, *final(pos) as int),
            ) && *final(pos) <= data@.len(),
            Err(e) => read_timetag_spec(data@, *old(pos) as int) == Err::<(OscTimeTag, int), OscError>(e)
                && *final(pos) == (if read_u32_spec(data@, *old(pos) as int) is Ok {
                *old(pos) + 4
            } else {
                *old(pos) as int
            }),
        },
{
    let seconds = match read_u32(data, pos) {
        Ok(v) => v,
        Err(e) => return Err(e),
    };
    let fractional = match read_u32(data, pos) {
        Ok(v) => v,
        Err(e) => return Err(e),
    };
    Ok(OscTimeTag { seconds, fractional })
}

/// Reads a NUL-terminated string at `*pos` and moves past its padding.
fn read_str<'a>(data: &'a [u8], pos: &mut usize) -> (res: Result<&'a str, OscError>)
    requires
        addressable(data@),
        *old(pos) <= data@.len() + 3,
    ensures
        match res {
            Ok(s) => read_str_spec(data@, *old(pos) as int) == Ok::<(Seq<char>, int), OscError>(
                (s@, *final(pos) as int),
            ) && *final(pos) <= data@.len() + 3,
            Err(e) => read_str_spec(data@, *old(pos) as int) == Err::<(Seq<char>, int), OscError>(e)
                && *final(pos) == *old(pos),
        },
{
    let start = *pos;
    let mut i = start;
    while i < data.len() && data[i] != 0
        invariant
            start <= i,
            i <= start || i <= data@.len(),
            nul_index(data@, start as int) == nul_index(data@, i as int),
        decreases data@.len() - i,
    {
        i = i + 1;
    }
    if i >= data.len() {
        return Err(OscError::UnterminatedString);
    }
    assert(nul_index(data@, i as int) == Some(i as int));
    match str_from_utf8(&data[start..i]) {
        None => Err(OscError::InvalidUtf8),
        Some(s) => {
            *pos = align4(i + 1);
            Ok(s)
        },
    }
}

/// Reads a blob (big-endian length, bytes, padding) at `*pos`.
fn read_blob<'a>(data: &'a [u8], pos: &mut usize) -> (res: Result<&'a [u8], OscError>)
    requires
        addressable(data@),
        *old(pos) <= data@.len() + 3,
    ensures
        match res {
            Ok(b) => read_blob_spec(data@, *old(pos) as int) == Ok::<(Seq<u8>, int), OscError>(
                (b@, *final(pos) as int),
            ) && *final(pos) <= data@.len() + 3,
            Err(e) => read_blob_spec(data@, *old(pos) as int) == Err::<(Seq<u8>, int), OscError>(e)
                && *final(pos) == (if read_u32_spec(data@, *old(pos) as int) is Ok {
                *old(pos) + 4
            } else {
                *old(pos) as int
            }),
        },
{
    let len32 = match read_u32(data, pos) {
        Ok(v) => v,
        Err(e) => return Err(e),
    };
    let len = len32 as usize;
    let start = *pos;
    let end = match start.checked_add(len) {
        Some(end) => end,
        None => return Err(OscError::BlobLengthOverflow),
    };
    if end > data.len() {
        return Err(OscError::BlobTooLong(len32));
    }
    let blob = &data[start..end];
    *pos = align4(end);
    Ok(blob)
}

/// An owned copy of `bytes`.
fn copy_bytes(bytes: &[u8]) -> (v: Vec<u8>)
    ensures
        v@ == bytes@,
{
    let mut v: Vec<u8> = Vec::new();
    for i in 0..bytes.len()
        invariant
            v@ == bytes@.subrange(0, i as int),
    {
        v.push(bytes[i]);
    }
    v
}

// ─── argument decoding ───────────────────────────────────────────────────────

/// Reads the single argument that type tag `tag` announces at `*pos`.
fn read_single_arg(data: &[u8], pos: &mut usize, tag: char) -> (res: Result<OscArg, OscError>)
    requires
        addressable(data@),
        *old(pos) <= data@.len() + 3,
    ensures
        match res {
            Ok(a) => read_arg_spec(data@, *old(pos) as int, tag) == Ok::<(ArgView, int), OscError>(
                (a@, *final(pos) as int),
            ) && *final(pos) <= data@.len() + 3,
            Err(e) => read_arg_spec(data@, *old(pos) as int, tag) == Err::<(ArgView, int), OscError>(e),
        },
        *final(pos) == read_arg_end(data@, *old(pos) as int, tag),
{
    let start = *pos;
    if tag == 'i' {
        match read_i32(data, pos) {
            Ok(v) => Ok(OscArg::Int(v)),
            Err(e) => Err(e),
        }
    } else if tag == 'f' {
        match read_u32(data, pos) {
            Ok(v) => Ok(OscArg::Float(v)),
            Err(e) => Err(e),
        }
    } else if tag == 's' {
        match read_str(data, pos) {
            Ok(s) => Ok(OscArg::String(s.to_owned())),
            Err(e) => Err(e),
        }
    } else if tag == 'b' {
        match read_blob(data, pos) {
            Ok(b) => Ok(OscArg::Blob(copy_bytes(b))),
            Err(e) => Err(e),
        }
    } else if tag == 'h' {
        match read_u64(data, pos) {
            Ok(v) => Ok(OscArg::Long(v as i64)),
            Err(e) => Err(e),
        }
    } else if tag == 'd' {
        match read_u64(data, pos) {
            Ok(v) => Ok(OscArg::Double(v)),
            Err(e) => Err(e),
        }
    } else if tag == 't' {
        match read_timetag(data, pos) {
            Ok(t) => Ok(OscArg::TimeTag(t)),
            Err(e) => Err(e),
        }
    } else if tag == 'c' {
        let code = match read_u32(data, pos) {
            Ok(v) => v,
            Err(e) => return Err(e),
        };
        match char_from_u32(code) {
            Some(c) => {
                proof {
                    vstd::utf8::char_u32_cast(c, code);
                }
                Ok(OscArg::Char(c))
            },
            None => Err(OscError::InvalidChar(code)),
        }
    } else if tag == 'r' {
        match read_exact(data, pos, 4) {
            Ok(b) => Ok(OscArg::Color(b[0], b[1], b[2], b[3])),
            Err(e) => Err(e),
        }
    } else if tag == 'm' {
        match read_exact(data, pos, 4) {
            Ok(b) => {
                let m = [b[0], b[1], b[2], b[3]];
                Ok(OscArg::Midi(m))
            },
            Err(e) => Err(e),
        }
    } else if tag == 'T' {
        Ok(OscArg::Bool(true))
    } else if tag == 'F' {
        Ok(OscArg::Bool(false))
    } else if tag == 'N' {
        Ok(OscArg::Nil)
    } else if tag == 'I' {
        Ok(OscArg::Impulse)
    } else {
        Err(OscError::UnknownTypeTag(tag))
    }
}


/// Reads arguments from `data[*pos..]` according to `type_tags`.
///
/// Nested arrays go through an explicit stack: `'['` pushes a new list,
/// `']'` pops it and appends it as an `Array` argument to the list below.
fn read_typed_args(data: &[u8], pos: &mut usize, type_tags: &Vec<char>) -> (res: Result<
    Vec<OscArg>,
    OscError,
>)
    requires
        addressable(data@),
        *old(pos) <= data@.len() + 3,
    ensures
        match res {
            Ok(args) => read_args_spec(
                data@,
                type_tags@,
                0,
                *old(pos) as int,
                seq![Seq::empty()],
            ) == Ok::<Seq<ArgView>, OscError>(args_view(args@)),
            Err(e) => read_args_spec(data@, type_tags@, 0, *old(pos) as int, seq![Seq::empty()])
                == Err::<Seq<ArgView>, OscError>(e),
        },
        *final(pos) == read_args_end(data@, type_tags@, 0, *old(pos) as int, 1),
{
    let ghost pos0 = *pos as int;
    let mut stack: Vec<Vec<OscArg>> = Vec::new();
    stack.push(Vec::new());
    assert(args_view(stack@[0]@) =~= Seq::<ArgView>::empty());
    assert(stack_view(stack@) =~= seq![Seq::<ArgView>::empty()]);
    let mut i: usize = 0;
    while i < type_tags.len()
        invariant
            i <= type_tags@.len(),
            stack@.len() >= 1,
            pos0 == *old(pos) as int,
            addressable(data@),
            *pos <= data@.len() + 3,
            read_args_spec(data@, type_tags@, 0, pos0, seq![Seq::empty()]) == read_args_spec(
                data@,
                type_tags@,
                i as int,
                *pos as int,
                stack_view(stack@),
            ),
            read_args_end(data@, type_tags@, 0, pos0, 1) == read_args_end(
                data@,
                type_tags@,
                i as int,
                *pos as int,
                stack@.len() as int,
            ),
        decreases type_tags@.len() - i,
    {
        let tag = type_tags[i];
        let ghost sv = stack_view(stack@);
        if tag == '[' {
            stack.push(Vec::new());
            assert(args_view(stack@.last()@) =~= Seq::<ArgView>::empty());
            assert(stack_view(stack@) =~= sv.push(Seq::empty()));
        } else if tag == ']' {
            let inner = stack.pop().unwrap();
            if stack.len() == 0 {
                assert(read_args_spec(data@, type_tags@, i as int, *pos as int, sv) == Err::<
                    Seq<ArgView>,
                    OscError,
                >(OscError::UnmatchedCloseBracket));
                assert(read_args_spec(data@, type_tags@, 0, pos0, seq![Seq::empty()]) == Err::<
                    Seq<ArgView>,
                    OscError,
                >(OscError::UnmatchedCloseBracket));
                return Err(OscError::UnmatchedCloseBracket);
            }
            let mut top = stack.pop().unwrap();
            let ghost old_top = top;
            proof {
                lemma_array_view(inner);
            }
            top.push(OscArg::Array(inner));
            stack.push(top);
            proof {
                lemma_args_view_push(old_top@, OscArg::Array(inner));
            }
            assert(stack_view(stack@) =~= push_top(sv.drop_last(), ArgView::Array(sv.last())));
        } else {
            let arg = match read_single_arg(data, pos, tag) {
                Ok(a) => a,
                Err(e) => return Err(e),
            };
            let mut top = stack.pop().unwrap();
            proof {
                lemma_args_view_push(top@, arg);
            }
            top.push(arg);
            stack.push(top);
            assert(stack_view(stack@) =~= push_top(sv, arg@));
        }
        i = i + 1;
    }
    if stack.len() != 1 {
        return Err(OscError::UnclosedBracket);
    }
    let args = stack.pop().unwrap();
    Ok(args)
}

/// The characters of a type-tag string after its leading `','`.
fn tag_chars_after_comma(raw: &str) -> (tags: Vec<char>)
    ensures
        tags@ == tags_after_comma(raw@),
{
    let mut tags: Vec<char> = Vec::new();
    let mut first = true;
    for c in it: raw.chars()
        invariant
            first <==> it.index() == 0,
            it.seq() == raw@,
            first ==> tags@.len() == 0,
            !first ==> tags@ == raw@.subrange(1, it.index()),
    {
        if !first {
            tags.push(c);
        }
        first = false;
    }
    tags
}

// ─── message ──────────────────────────────────────────────────────────────────

fn decode_message(data: &[u8]) -> (res: Result<OscMessage, OscError>)
    requires
        addressable(data@),
    ensures
        match res {
            Ok(m) => decode_message_spec(data@) == Ok::<PacketView, OscError>(
                PacketView::Message(m.address@, args_view(m.args@)),
            ),
            Err(e) => decode_message_spec(data@) == Err::<PacketView, OscError>(e),
        },
{
    let mut pos: usize = 0;
    let address = match read_str(data, &mut pos) {
        Ok(s) => s.to_owned(),
        Err(e) => return Err(e),
    };
    // Type tag string must start with ','; absence means zero arguments.
    let type_tags: Vec<char> = if pos < data.len() && data[pos] == 0x2cu8 {
        match read_str(data, &mut pos) {
            Ok(raw) => tag_chars_after_comma(raw),
            Err(e) => return Err(e),
        }
    } else {
        Vec::new()
    };
    let args = match read_typed_args(data, &mut pos, &type_tags) {
        Ok(a) => a,
        Err(e) => return Err(e),
    };
    Ok(OscMessage { address, args })
}


// ─── packets ──────────────────────────────────────────────────────────────────

/// True when `data` starts with `"#bundle\0"`.
fn has_bundle_header(data: &[u8]) -> (b: bool)
    ensures
        b == starts_with_bundle_header(data@),
{
    if data.len() < 8 {
        return false;
    }
    let header: [u8; 8] = [0x23, 0x62, 0x75, 0x6e, 0x64, 0x6c, 0x65, 0x00];
    let mut i: usize = 0;
    while i < 8
        invariant
            i <= 8,
            data@.len() >= 8,
            header@ == bundle_header(),
            forall|k: int| 0 <= k < i ==> data@[k] == bundle_header()[k],
        decreases 8 - i,
    {
        if data[i] != header[i] {
            assert(data@.subrange(0, 8)[i as int] != bundle_header()[i as int]);
            return false;
        }
        i = i + 1;
    }
    assert(data@.subrange(0, 8) =~= bundle_header());
    true
}

/// Decodes an OSC packet from a byte slice.
///
/// Returns an error if the data is truncated, misaligned, or has an invalid structure.
pub fn decode(data: &[u8]) -> (res: Result<OscPacket, OscError>)
    requires
        addressable(data@),
    ensures
        packet_result_view(res) == decode_spec(data@),
    decreases data@.len(), data@.len(),
{
    if data.len() % 4 != 0 {
        return Err(OscError::Misaligned);
    }
    if has_bundle_header(data) {
        match decode_bundle(data) {
            Ok(b) => {
                let p = OscPacket::Bundle(b);
                proof {
                    lemma_bundle_view(b);
                }
                Ok(p)
            },
            Err(e) => Err(e),
        }
    } else if data.len() > 0 && data[0] == 0x2fu8 {
        match decode_message(data) {
            Ok(m) => {
                let p = OscPacket::Message(m);
                Ok(p)
            },
            Err(e) => Err(e),
        }
    } else {
        Err(OscError::NotAPacket)
    }
}

/// Decodes a bundle: header, time tag, then size-prefixed elements.
fn decode_bundle(data: &[u8]) -> (res: Result<OscBundle, OscError>)
    requires
        addressable(data@),
        data@.len() % 4 == 0,
        starts_with_bundle_header(data@),
    ensures
        match res {
            Ok(b) => decode_spec(data@) == Ok::<PacketView, OscError>(
                PacketView::Bundle(b.time, packets_view(b.elements@)),
            ),
            Err(e) => decode_spec(data@) == Err::<PacketView, OscError>(e),
        },
    decreases data@.len(), 0int,
{
    // "#bundle\0" is 8 bytes; the time tag is the next 8 bytes.
    let mut pos: usize = 8;
    let time = match read_timetag(data, &mut pos) {
        Ok(t) => t,
        Err(e) => return Err(e),
    };
    let ghost p0 = pos as int;
    let mut elements: Vec<OscPacket> = Vec::new();
    assert(packets_view(elements@) =~= Seq::<PacketView>::empty());
    while pos < data.len()
        invariant
            addressable(data@),
            data@.len() % 4 == 0,
            starts_with_bundle_header(data@),
            16 <= pos <= data@.len(),
            read_timetag_spec(data@, 8) == Ok::<(OscTimeTag, int), OscError>((time, p0)),
            bundle_elements_spec(data@, p0, Seq::empty()) == bundle_elements_spec(
                data@,
                pos as int,
                packets_view(elements@),
            ),
        decreases data@.len() - pos,
    {
        let ghost before = pos as int;
        let size = match read_u32(data, &mut pos) {
            Ok(v) => v as usize,
            Err(e) => return Err(e),
        };
        if size > data.len() - pos {
            return Err(OscError::BundleElementOverrun);
        }
        let element_data = &data[pos..pos + size];
        let element = match decode(element_data) {
            Ok(p) => p,
            Err(e) => return Err(e),
        };
        proof {
            lemma_packets_view_push(elements@, element);
        }
        elements.push(element);
        pos = pos + size;
    }
    Ok(OscBundle { time, elements })
}

} // verus!
