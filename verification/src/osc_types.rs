//! Open Sound Control values: packets, messages, bundles and typed arguments,
//! together with their mathematical views.
use vstd::prelude::*;
use crate::text::{char_text, concat, decimal, decimal_text};

verus! {

/// An OSC (NTP-format) time tag: seconds since 1900 and a 32-bit binary fraction.
#[derive(Clone, Copy, Debug, PartialEq, Eq, Structural)]
pub struct OscTimeTag {
    pub seconds: u32,
    pub fractional: u32,
}

impl OscTimeTag {
    /// The special time tag meaning "immediately": seconds 0, fraction 1.
    pub fn immediate() -> (t: OscTimeTag)
        ensures
            t.seconds == 0,
            t.fractional == 1,
    {
        OscTimeTag { seconds: 0, fractional: 1 }
    }
}

/// One typed OSC argument.
///
/// `Float` and `Double` carry the IEEE-754 bit patterns of the 32-bit and
/// 64-bit floating point values (as `f32::to_bits` / `f64::to_bits` give them).
#[derive(Debug)]
pub enum OscArg {
    Int(i32),
    Float(u32),
    String(String),
    Blob(Vec<u8>),
    Long(i64),
    Double(u64),
    TimeTag(OscTimeTag),
    Char(char),
    Color(u8, u8, u8, u8),
    Midi([u8; 4]),
    Bool(bool),
    Nil,
    Impulse,
    Array(Vec<OscArg>),
}

/// An OSC message: an address pattern and its arguments.
#[derive(Debug)]
pub struct OscMessage {
    pub address: String,
    pub args: Vec<OscArg>,
}

/// An OSC bundle: a time tag and the packets it contains.
#[derive(Debug)]
pub struct OscBundle {
    pub time: OscTimeTag,
    pub elements: Vec<OscPacket>,
}

/// An OSC packet: a message or a bundle.
#[derive(Debug)]
pub enum OscPacket {
    Message(OscMessage),
    Bundle(OscBundle),
}

/// Why a byte sequence is not a well-formed OSC packet.
#[derive(Clone, Copy, Debug, PartialEq, Eq, Structural)]
pub enum OscError {
    /// The packet's size is not a whole number of 4-byte words.
    Misaligned,
    /// The packet starts neither with `'/'` (message) nor with `"#bundle\0"` (bundle).
    NotAPacket,
    /// A bundle element announces more bytes than remain in the bundle.
    BundleElementOverrun,
    /// A `']'` type tag closes an array that was never opened.
    UnmatchedCloseBracket,
    /// A `'['` type tag is never closed.
    UnclosedBracket,
    /// A `'c'` argument holds a value that is not a Unicode scalar value.
    InvalidChar(u32),
    /// A type tag that OSC does not define.
    UnknownTypeTag(char),
    /// A string has no NUL terminator before the end of the data.
    UnterminatedString,
    /// A string's bytes are not valid UTF-8.
    InvalidUtf8,
    /// A blob's end offset does not fit in `usize`.
    BlobLengthOverflow,
    /// A blob announces more bytes than remain in the data.
    BlobTooLong(u32),
    /// A fixed-size field needs `need` bytes at `offset`, but the data has only `have` bytes.
    Truncated { need: usize, offset: usize, have: usize },
}

/// The text of an OSC decoding error.
pub open spec fn error_message(e: OscError) -> Seq<char> {
    match e {
        OscError::Misaligned => "OSC packet size is not a multiple of 4 bytes"@,
        OscError::NotAPacket => "packet must start with '/' (message) or '#bundle\\0' (bundle)"@,
        OscError::BundleElementOverrun => "bundle element size exceeds remaining data"@,
        OscError::UnmatchedCloseBracket => "unmatched ']' in type tags"@,
        OscError::UnclosedBracket => "unclosed '[' in OSC type tags"@,
        OscError::InvalidChar(code) => "invalid char code: "@ + decimal(code as nat),
        OscError::UnknownTypeTag(c) => "unknown OSC type tag: '"@ + seq![c] + "'"@,
        OscError::UnterminatedString => "unterminated OSC string"@,
        OscError::InvalidUtf8 => "OSC string is not valid UTF-8"@,
        OscError::BlobLengthOverflow => "blob length overflow"@,
        OscError::BlobTooLong(len) => "blob length "@ + decimal(len as nat) + " exceeds remaining data"@,
        OscError::Truncated { need, offset, have } => "truncated data: need "@ + decimal(need as nat)
            + " bytes at offset "@ + decimal(offset as nat) + ", have "@ + decimal(have as nat),
    }
}

impl OscError {
    /// The error's text.
    pub fn message(&self) -> (s: String)
        ensures
            s@ == error_message(*self),
    {
        match *self {
            OscError::Misaligned => "OSC packet size is not a multiple of 4 bytes".to_owned(),
            OscError::NotAPacket => "packet must start with '/' (message) or '#bundle\\0' (bundle)".to_owned(),
            OscError::BundleElementOverrun => "bundle element size exceeds remaining data".to_owned(),
            OscError::UnmatchedCloseBracket => "unmatched ']' in type tags".to_owned(),
            OscError::UnclosedBracket => "unclosed '[' in OSC type tags".to_owned(),
            OscError::InvalidChar(code) => {
                let digits = decimal_text(code as u64);
                concat("invalid char code: ", digits.as_str())
            },
            OscError::UnknownTypeTag(c) => {
                let tag = char_text(c);
                let head = concat("unknown OSC type tag: '", tag.as_str());
                concat(head.as_str(), "'")
            },
            OscError::UnterminatedString => "unterminated OSC string".to_owned(),
            OscError::InvalidUtf8 => "OSC string is not valid UTF-8".to_owned(),
            OscError::BlobLengthOverflow => "blob length overflow".to_owned(),
            OscError::BlobTooLong(len) => {
                let digits = decimal_text(len as u64);
                let head = concat("blob length ", digits.as_str());
                concat(head.as_str(), " exceeds remaining data")
            },
            OscError::Truncated { need, offset, have } => {
                let m1 = concat("truncated data: need ", decimal_text(need as u64).as_str());
                let m2 = concat(m1.as_str(), " bytes at offset ");
                let m3 = concat(m2.as_str(), decimal_text(offset as u64).as_str());
                let m4 = concat(m3.as_str(), ", have ");
                concat(m4.as_str(), decimal_text(have as u64).as_str())
            },
        }
    }
}

/// The mathematical value of an [`OscArg`].
pub enum ArgView {
    Int(i32),
    Float(u32),
    Str(Seq<char>),
    Blob(Seq<u8>),
    Long(i64),
    Double(u64),
    TimeTag(OscTimeTag),
    Char(char),
    Color(u8, u8, u8, u8),
    Midi(u8, u8, u8, u8),
    Bool(bool),
    Nil,
    Impulse,
    Array(Seq<ArgView>),
}

/// The mathematical value of an [`OscPacket`].
pub enum PacketView {
    Message(Seq<char>, Seq<ArgView>),
    Bundle(OscTimeTag, Seq<PacketView>),
}

impl View for OscArg {
    type V = ArgView;

    open spec fn view(&self) -> ArgView
        decreases self,
    {
        match self {
            OscArg::Int(i) => ArgView::Int(*i),
            OscArg::Float(f) => ArgView::Float(*f),
            OscArg::String(s) => ArgView::Str(s@),
            OscArg::Blob(b) => ArgView::Blob(b@),
            OscArg::Long(l) => ArgView::Long(*l),
            OscArg::Double(d) => ArgView::Double(*d),
            OscArg::TimeTag(t) => ArgView::TimeTag(*t),
            OscArg::Char(c) => ArgView::Char(*c),
            OscArg::Color(r, g, b, a) => ArgView::Color(*r, *g, *b, *a),
            OscArg::Midi(m) => ArgView::Midi(m@[0], m@[1], m@[2], m@[3]),
            OscArg::Bool(b) => ArgView::Bool(*b),
            OscArg::Nil => ArgView::Nil,
            OscArg::Impulse => ArgView::Impulse,
            OscArg::Array(v) => ArgView::Array(
                Seq::new(v@.len(), |i: int| if 0 <= i < v@.len() { v@[i].view() } else { ArgView::Nil }),
            ),
        }
    }
}

/// The views of a sequence of arguments.
pub open spec fn args_view(v: Seq<OscArg>) -> Seq<ArgView> {
    Seq::new(v.len(), |i: int| v[i]@)
}

impl View for OscPacket {
    type V = PacketView;

    open spec fn view(&self) -> PacketView
        decreases self,
    {
        match self {
            OscPacket::Message(m) => PacketView::Message(m.address@, args_view(m.args@)),
            OscPacket::Bundle(b) => PacketView::Bundle(
                b.time,
                Seq::new(
                    b.elements@.len(),
                    |i: int| if 0 <= i < b.elements@.len() { b.elements@[i].view() } else { PacketView::Bundle(b.time, Seq::empty()) },
                ),
            ),
        }
    }
}

/// The views of a sequence of packets.
pub open spec fn packets_view(v: Seq<OscPacket>) -> Seq<PacketView> {
    Seq::new(v.len(), |i: int| v[i]@)
}

/// The view of an `Array` argument is the array of its elements' views.
pub proof fn lemma_array_view(inner: Vec<OscArg>)
    ensures
        OscArg::Array(inner)@ == ArgView::Array(args_view(inner@)),
{
    reveal_with_fuel(<OscArg as View>::view, 2);
    let v = OscArg::Array(inner).view();
    let t = v->Array_0;
    assert(t.len() == inner@.len());
    assert forall|i: int| 0 <= i < t.len() implies t[i] == inner@[i]@ by {}
    assert(t =~= args_view(inner@));
}

/// Appending an argument appends its view.
pub proof fn lemma_args_view_push(v: Seq<OscArg>, a: OscArg)
    ensures
        args_view(v.push(a)) == args_view(v).push(a@),
{
    assert(args_view(v.push(a)) =~= args_view(v).push(a@));
}

/// The view of a bundle packet lists its elements' views.
pub proof fn lemma_bundle_view(b: OscBundle)
    ensures
        OscPacket::Bundle(b)@ == PacketView::Bundle(b.time, packets_view(b.elements@)),
{
    reveal_with_fuel(<OscPacket as View>::view, 2);
    let v = OscPacket::Bundle(b).view();
    let t = v->Bundle_1;
    assert(t =~= packets_view(b.elements@));
}

/// Appending a packet appends its view.
pub proof fn lemma_packets_view_push(v: Seq<OscPacket>, p: OscPacket)
    ensures
        packets_view(v.push(p)) == packets_view(v).push(p@),
{
    assert(packets_view(v.push(p)) =~= packets_view(v).push(p@));
}

} // verus!
