//! Structural facts about the wire-format spec functions: how they
//! distribute over concatenated argument lists and bundle elements.
use vstd::prelude::*;
use crate::osc_types::{ArgView, PacketView};
use crate::osc_wire::{
    osc_string, padded, u32_be, u64_be, args_data, args_encodable, ascii_bytes, elements_data, elements_encodable, encodable,
    encode_spec, tag_chars,
};

verus! {

/// The type tags of a concatenation are the concatenated type tags.
pub proof fn lemma_tag_chars_concat(a: Seq<ArgView>, b: Seq<ArgView>)
    ensures
        tag_chars(a + b) == tag_chars(a) + tag_chars(b),
    decreases a.len(),
{
    if a.len() == 0 {
        assert(a + b =~= b);
        assert(tag_chars(a) + tag_chars(b) =~= tag_chars(b));
    } else {
        let a1 = a.subrange(1, a.len() as int);
        assert((a + b).subrange(1, (a + b).len() as int) =~= a1 + b);
        assert((a + b)[0] == a[0]);
        lemma_tag_chars_concat(a1, b);
        match a[0] {
            ArgView::Array(inner) => {
                assert(tag_chars(a + b) =~= seq!['['] + tag_chars(inner) + seq![']'] + tag_chars(
                    a1,
                ) + tag_chars(b));
                assert(tag_chars(a) =~= seq!['['] + tag_chars(inner) + seq![']'] + tag_chars(a1));
            },
            _ => {
                assert(tag_chars(a + b) =~= tag_chars(a) + tag_chars(b));
            },
        }
    }
}

/// The data bytes of a concatenation are the concatenated data bytes.
pub proof fn lemma_args_data_concat(a: Seq<ArgView>, b: Seq<ArgView>)
    ensures
        args_data(a + b) == args_data(a) + args_data(b),
    decreases a.len(),
{
    if a.len() == 0 {
        assert(a + b =~= b);
        assert(args_data(a) + args_data(b) =~= args_data(b));
    } else {
        let a1 = a.subrange(1, a.len() as int);
        assert((a + b).subrange(1, (a + b).len() as int) =~= a1 + b);
        assert((a + b)[0] == a[0]);
        lemma_args_data_concat(a1, b);
        assert(args_data(a + b) =~= args_data(a) + args_data(b));
    }
}

/// The size-prefixed element encodings of a concatenation are the
/// concatenated encodings.
pub proof fn lemma_elements_data_concat(a: Seq<PacketView>, b: Seq<PacketView>)
    ensures
        elements_data(a + b) == elements_data(a) + elements_data(b),
    decreases a.len(),
{
    if a.len() == 0 {
        assert(a + b =~= b);
        assert(elements_data(a) + elements_data(b) =~= elements_data(b));
    } else {
        let a1 = a.subrange(1, a.len() as int);
        assert((a + b).subrange(1, (a + b).len() as int) =~= a1 + b);
        assert((a + b)[0] == a[0]);
        lemma_elements_data_concat(a1, b);
        assert(elements_data(a + b) =~= elements_data(a) + elements_data(b));
    }
}

/// Every argument of an encodable list is itself encodable.
pub proof fn lemma_args_encodable_index(args: Seq<ArgView>, i: int)
    requires
        args_encodable(args),
        0 <= i < args.len(),
    ensures
        match args[i] {
            ArgView::Blob(b) => b.len() <= u32::MAX,
            ArgView::Array(inner) => args_encodable(inner),
            _ => true,
        },
    decreases i,
{
    if i > 0 {
        let rest = args.subrange(1, args.len() as int);
        lemma_args_encodable_index(rest, i - 1);
        assert(rest[i - 1] == args[i]);
    }
}

/// Every element of an encodable bundle is encodable, with a size that fits a `u32`.
pub proof fn lemma_elements_encodable_index(elements: Seq<PacketView>, i: int)
    requires
        elements_encodable(elements),
        0 <= i < elements.len(),
    ensures
        encodable(elements[i]),
        encode_spec(elements[i]).len() <= u32::MAX,
    decreases i,
{
    if i > 0 {
        let rest = elements.subrange(1, elements.len() as int);
        lemma_elements_encodable_index(rest, i - 1);
        assert(rest[i - 1] == elements[i]);
    }
}

/// The bytes of concatenated ASCII characters are the concatenated bytes.
pub proof fn lemma_ascii_bytes_concat(a: Seq<char>, b: Seq<char>)
    ensures
        ascii_bytes(a + b) == ascii_bytes(a) + ascii_bytes(b),
{
    assert(ascii_bytes(a + b) =~= ascii_bytes(a) + ascii_bytes(b));
}

/// The type tags of a single argument.
pub proof fn lemma_tag_chars_single(a: ArgView)
    ensures
        tag_chars(seq![a]) == match a {
            ArgView::Array(inner) => seq!['['] + tag_chars(inner) + seq![']'],
            ArgView::Int(_) => seq!['i'],
            ArgView::Float(_) => seq!['f'],
            ArgView::Str(_) => seq!['s'],
            ArgView::Blob(_) => seq!['b'],
            ArgView::Long(_) => seq!['h'],
            ArgView::Double(_) => seq!['d'],
            ArgView::TimeTag(_) => seq!['t'],
            ArgView::Char(_) => seq!['c'],
            ArgView::Color(..) => seq!['r'],
            ArgView::Midi(..) => seq!['m'],
            ArgView::Bool(b) => if b { seq!['T'] } else { seq!['F'] },
            ArgView::Nil => seq!['N'],
            ArgView::Impulse => seq!['I'],
        },
{
    let s = seq![a];
    assert(s.subrange(1, 1) =~= Seq::<ArgView>::empty());
    assert(tag_chars(Seq::<ArgView>::empty()) =~= Seq::<char>::empty());
    assert(tag_chars(s) =~= match a {
        ArgView::Array(inner) => seq!['['] + tag_chars(inner) + seq![']'],
        ArgView::Int(_) => seq!['i'],
        ArgView::Float(_) => seq!['f'],
        ArgView::Str(_) => seq!['s'],
        ArgView::Blob(_) => seq!['b'],
        ArgView::Long(_) => seq!['h'],
        ArgView::Double(_) => seq!['d'],
        ArgView::TimeTag(_) => seq!['t'],
        ArgView::Char(_) => seq!['c'],
        ArgView::Color(..) => seq!['r'],
        ArgView::Midi(..) => seq!['m'],
        ArgView::Bool(b) => if b { seq!['T'] } else { seq!['F'] },
        ArgView::Nil => seq!['N'],
        ArgView::Impulse => seq!['I'],
    });
}

/// The data bytes of a single argument.
pub proof fn lemma_args_data_single(a: ArgView)
    ensures
        args_data(seq![a]) == match a {
            ArgView::Array(inner) => args_data(inner),
            ArgView::Int(v) => u32_be(v as u32),
            ArgView::Float(v) => u32_be(v),
            ArgView::Str(s) => osc_string(s),
            ArgView::Blob(b) => u32_be(b.len() as u32) + padded(b),
            ArgView::Long(v) => u64_be(v as u64),
            ArgView::Double(v) => u64_be(v),
            ArgView::TimeTag(t) => u32_be(t.seconds) + u32_be(t.fractional),
            ArgView::Char(c) => u32_be(c as u32),
            ArgView::Color(r, g, b, x) => seq![r, g, b, x],
            ArgView::Midi(w, x, y, z) => seq![w, x, y, z],
            _ => Seq::empty(),
        },
{
    let s = seq![a];
    assert(s.subrange(1, 1) =~= Seq::<ArgView>::empty());
    assert(args_data(Seq::<ArgView>::empty()) =~= Seq::<u8>::empty());
    assert(args_data(s) =~= match a {
        ArgView::Array(inner) => args_data(inner),
        ArgView::Int(v) => u32_be(v as u32),
        ArgView::Float(v) => u32_be(v),
        ArgView::Str(s) => osc_string(s),
        ArgView::Blob(b) => u32_be(b.len() as u32) + padded(b),
        ArgView::Long(v) => u64_be(v as u64),
        ArgView::Double(v) => u64_be(v),
        ArgView::TimeTag(t) => u32_be(t.seconds) + u32_be(t.fractional),
        ArgView::Char(c) => u32_be(c as u32),
        ArgView::Color(r, g, b, x) => seq![r, g, b, x],
        ArgView::Midi(w, x, y, z) => seq![w, x, y, z],
        _ => Seq::empty(),
    });
}

/// True when `c` is one of the type-tag characters this format writes.
pub open spec fn is_tag_char(c: char) -> bool {
    c == 'i' || c == 'f' || c == 's' || c == 'b' || c == 'h' || c == 'd' || c == 't' || c == 'c'
        || c == 'r' || c == 'm' || c == 'T' || c == 'F' || c == 'N' || c == 'I' || c == '['
        || c == ']'
}

/// The type tags of any argument list are tag characters: ASCII and not NUL.
pub proof fn lemma_tag_chars_charset(args: Seq<ArgView>)
    ensures
        forall|k: int| 0 <= k < tag_chars(args).len() ==> is_tag_char(#[trigger] tag_chars(args)[k]),
        vstd::utf8::is_ascii_chars(tag_chars(args)),
    decreases args,
{
    if args.len() > 0 {
        let rest = args.subrange(1, args.len() as int);
        lemma_tag_chars_charset(rest);
        match args[0] {
            ArgView::Array(inner) => {
                lemma_tag_chars_charset(inner);
            },
            _ => {},
        }
        let t = tag_chars(args);
        assert forall|k: int| 0 <= k < t.len() implies is_tag_char(#[trigger] t[k]) by {
            match args[0] {
                ArgView::Array(inner) => {
                    let ti = tag_chars(inner);
                    if k == 0 {
                    } else if k < ti.len() + 1 {
                        assert(t[k] == ti[k - 1]);
                    } else if k == ti.len() + 1 {
                    } else {
                        assert(t[k] == tag_chars(rest)[k - ti.len() - 2]);
                    }
                },
                _ => {
                    if k > 0 {
                        assert(t[k] == tag_chars(rest)[k - 1]);
                    }
                },
            }
        }
    }
}

} // verus!
