//! The byte-level model of the Adobe Swatch Exchange format.
//!
//! Every function here is specification-only: it defines, value by value,
//! the exact byte sequence the encoder owes the caller. The executable
//! functions in the crate root are proved against these definitions.

use vstd::prelude::*;

use crate::types::{Color, ColorMode, ObjectColor, ObjectColorType, ObjectSwatch};

verus! {

/// A 16-bit quantity as two bytes, most-significant byte first.
pub open spec fn be16n(n: nat) -> Seq<u8> {
    seq![((n / 256) % 256) as u8, (n % 256) as u8]
}

/// A 32-bit quantity as four bytes, most-significant byte first.
pub open spec fn be32n(n: nat) -> Seq<u8> {
    seq![
        ((n / 0x1000000) % 256) as u8,
        ((n / 0x10000) % 256) as u8,
        ((n / 256) % 256) as u8,
        (n % 256) as u8,
    ]
}

/// The value read back from two big-endian bytes.
pub open spec fn be16val(b: Seq<u8>) -> nat
    recommends
        b.len() == 2,
{
    b[0] as nat * 256 + b[1] as nat
}

/// The value read back from four big-endian bytes.
pub open spec fn be32val(b: Seq<u8>) -> nat
    recommends
        b.len() == 4,
{
    b[0] as nat * 0x1000000 + b[1] as nat * 0x10000 + b[2] as nat * 256 + b[3] as nat
}

/// The UTF-16 code units of one character: a single unit for a code point
/// below U+10000, a surrogate pair for anything above.
pub open spec fn char_utf16(c: char) -> Seq<u16> {
    let v = c as u32;
    if v < 0x10000 {
        seq![v as u16]
    } else {
        seq![
            (0xD800 + (v - 0x10000) / 0x400) as u16,
            (0xDC00 + (v - 0x10000) % 0x400) as u16,
        ]
    }
}

/// The UTF-16 code units of a character sequence, in order.
pub open spec fn utf16_units(s: Seq<char>) -> Seq<u16>
    decreases s.len(),
{
    if s.len() == 0 {
        Seq::empty()
    } else {
        char_utf16(s[0]) + utf16_units(s.drop_first())
    }
}

/// How many UTF-16 code units a character sequence takes, the null
/// terminator not counted.
pub open spec fn utf16_count(s: Seq<char>) -> nat {
    utf16_units(s).len()
}

/// A name can be encoded only when its unit count, terminator included,
/// fits the 16-bit length prefix.
pub open spec fn name_ok(s: Seq<char>) -> bool {
    utf16_count(s) + 1 <= 0xFFFF
}

/// A sequence of UTF-16 code units, each as two big-endian bytes.
pub open spec fn be_units(us: Seq<u16>) -> Seq<u8>
    decreases us.len(),
{
    if us.len() == 0 {
        Seq::empty()
    } else {
        be_units(us.drop_last()) + be16n(us.last() as nat)
    }
}

/// The encoding of a name: a 16-bit count of UTF-16 code units (terminator
/// included), the units big-endian, then the two-byte null terminator.
pub open spec fn name_encoding(s: Seq<char>) -> Seq<u8> {
    be16n(utf16_count(s) + 1) + be_units(utf16_units(s)) + seq![0u8, 0u8]
}

/// The four-byte ASCII tag of a color mode, space-padded on the right:
/// `"RGB "`, `"LAB "`, `"CMYK"` or `"Gray"`.
pub open spec fn mode_tag_bytes(m: ColorMode) -> Seq<u8> {
    match m {
        ColorMode::Rgb => seq![0x52u8, 0x47u8, 0x42u8, 0x20u8],
        ColorMode::Lab => seq![0x4Cu8, 0x41u8, 0x42u8, 0x20u8],
        ColorMode::Cmyk => seq![0x43u8, 0x4Du8, 0x59u8, 0x4Bu8],
        ColorMode::Gray => seq![0x47u8, 0x72u8, 0x61u8, 0x79u8],
    }
}

/// The 16-bit tag of a color role.
pub open spec fn role_tag(t: ObjectColorType) -> u16 {
    match t {
        ObjectColorType::Global => 0,
        ObjectColorType::Spot => 1,
        ObjectColorType::Process => 2,
    }
}

/// The channel values of a color, each 32-bit pattern big-endian, in order.
pub open spec fn channel_bytes(vs: Seq<u32>) -> Seq<u8>
    decreases vs.len(),
{
    if vs.len() == 0 {
        Seq::empty()
    } else {
        channel_bytes(vs.drop_last()) + be32n(vs.last() as nat)
    }
}

/// The body of a color chunk: encoded name, mode tag, channel values, role.
pub open spec fn color_body_bytes(c: ObjectColor) -> Seq<u8> {
    name_encoding(c.name@) + mode_tag_bytes(c.data.mode) + channel_bytes(c.data.values@) + be16n(
        role_tag(c.object_type) as nat,
    )
}

/// A full color chunk: the type marker `0x0001`, the 32-bit body length,
/// then the body.
pub open spec fn color_chunk_bytes(c: ObjectColor) -> Seq<u8> {
    seq![0x00u8, 0x01u8] + be32n(color_body_bytes(c).len()) + color_body_bytes(c)
}

/// The chunks of a sequence of colors, concatenated in order.
pub open spec fn color_chunks_bytes(cs: Seq<ObjectColor>) -> Seq<u8>
    decreases cs.len(),
{
    if cs.len() == 0 {
        Seq::empty()
    } else {
        color_chunks_bytes(cs.drop_last()) + color_chunk_bytes(cs.last())
    }
}

/// The fixed six-byte end marker of a swatch group: type `0xC002`, zero
/// body length, no body.
pub open spec fn group_end_bytes() -> Seq<u8> {
    seq![0xC0u8, 0x02u8, 0u8, 0u8, 0u8, 0u8]
}

/// A full swatch-group chunk: start marker `0xC001` with the length of the
/// encoded group name alone, the name, the member color chunks in order,
/// then the end marker.
pub open spec fn swatch_chunk_bytes(s: ObjectSwatch) -> Seq<u8> {
    seq![0xC0u8, 0x01u8] + be32n(name_encoding(s.name@).len()) + name_encoding(s.name@)
        + color_chunks_bytes(s.swatches@) + group_end_bytes()
}

/// The chunks of a sequence of swatch groups, concatenated in order.
pub open spec fn swatch_chunks_bytes(ss: Seq<ObjectSwatch>) -> Seq<u8>
    decreases ss.len(),
{
    if ss.len() == 0 {
        Seq::empty()
    } else {
        swatch_chunks_bytes(ss.drop_last()) + swatch_chunk_bytes(ss.last())
    }
}

/// How many chunks a sequence of swatch groups contributes: two markers
/// per group plus one chunk per member color.
pub open spec fn swatch_total(ss: Seq<ObjectSwatch>) -> nat
    decreases ss.len(),
{
    if ss.len() == 0 {
        0
    } else {
        swatch_total(ss.drop_last()) + 2 + ss.last().swatches@.len()
    }
}

/// The total chunk count of a document: the group contributions plus one
/// chunk per standalone color.
pub open spec fn chunk_total(ss: Seq<ObjectSwatch>, cs: Seq<ObjectColor>) -> nat {
    swatch_total(ss) + cs.len()
}

/// The chunk count fits the 32-bit count field of the header.
pub open spec fn count_ok(ss: Seq<ObjectSwatch>, cs: Seq<ObjectColor>) -> bool {
    chunk_total(ss, cs) <= 0xFFFFFFFF
}

/// The file header: ASCII magic `"ASEF"`, version 1.0, total chunk count.
pub open spec fn header_bytes(count: nat) -> Seq<u8> {
    seq![0x41u8, 0x53u8, 0x45u8, 0x46u8] + be16n(1) + be16n(0) + be32n(count)
}

/// The complete file: header, then every swatch-group chunk in caller
/// order, then every standalone color chunk in caller order.
pub open spec fn ase_bytes(ss: Seq<ObjectSwatch>, cs: Seq<ObjectColor>) -> Seq<u8> {
    header_bytes(chunk_total(ss, cs)) + swatch_chunks_bytes(ss) + color_chunks_bytes(cs)
}

/// A color's channel count is small enough that its chunk body length fits
/// the 32-bit length field.
pub open spec fn channels_ok(c: Color) -> bool {
    c.values@.len() <= 0x3FFE0000
}

/// Every member color of a group has an encodable channel count.
pub open spec fn swatch_channels_ok(s: ObjectSwatch) -> bool {
    forall|i: int| 0 <= i < s.swatches@.len() ==> channels_ok(#[trigger] s.swatches@[i].data)
}

/// Every color of the document has an encodable channel count.
pub open spec fn doc_channels_ok(ss: Seq<ObjectSwatch>, cs: Seq<ObjectColor>) -> bool {
    &&& forall|i: int| 0 <= i < ss.len() ==> swatch_channels_ok(#[trigger] ss[i])
    &&& forall|j: int| 0 <= j < cs.len() ==> channels_ok(#[trigger] cs[j].data)
}

/// The group's own name and the names of all its member colors fit the
/// 16-bit length prefix.
pub open spec fn swatch_names_ok(s: ObjectSwatch) -> bool {
    &&& name_ok(s.name@)
    &&& forall|i: int| 0 <= i < s.swatches@.len() ==> name_ok(#[trigger] s.swatches@[i].name@)
}

/// Every name in the document fits the 16-bit length prefix.
pub open spec fn doc_names_ok(ss: Seq<ObjectSwatch>, cs: Seq<ObjectColor>) -> bool {
    &&& forall|i: int| 0 <= i < ss.len() ==> swatch_names_ok(#[trigger] ss[i])
    &&& forall|j: int| 0 <= j < cs.len() ==> name_ok(#[trigger] cs[j].name@)
}

/// Appending one character appends exactly its code units.
pub proof fn lemma_utf16_units_push(s: Seq<char>, c: char)
    ensures
        utf16_units(s.push(c)) == utf16_units(s) + char_utf16(c),
    decreases s.len(),
{
    if s.len() == 0 {
        assert(s.push(c).drop_first() =~= s);
        assert(utf16_units(s.push(c)) =~= utf16_units(s) + char_utf16(c));
    } else {
        assert(s.push(c).drop_first() =~= s.drop_first().push(c));
        lemma_utf16_units_push(s.drop_first(), c);
        assert(utf16_units(s.push(c)) =~= utf16_units(s) + char_utf16(c));
    }
}

/// Each UTF-16 code unit takes exactly two bytes.
pub proof fn lemma_be_units_len(us: Seq<u16>)
    ensures
        be_units(us).len() == 2 * us.len(),
    decreases us.len(),
{
    if us.len() > 0 {
        lemma_be_units_len(us.drop_last());
    }
}

/// Each channel value takes exactly four bytes.
pub proof fn lemma_channel_bytes_len(vs: Seq<u32>)
    ensures
        channel_bytes(vs).len() == 4 * vs.len(),
    decreases vs.len(),
{
    if vs.len() > 0 {
        lemma_channel_bytes_len(vs.drop_last());
    }
}

/// The byte length of an encoded name: prefix, units, terminator.
pub proof fn lemma_name_encoding_len(s: Seq<char>)
    ensures
        name_encoding(s).len() == 4 + 2 * utf16_count(s),
{
    lemma_be_units_len(utf16_units(s));
}

/// The byte length of a color chunk body.
pub proof fn lemma_color_body_len(c: ObjectColor)
    ensures
        color_body_bytes(c).len() == 10 + 2 * utf16_count(c.name@) + 4 * c.data.values@.len(),
{
    lemma_name_encoding_len(c.name@);
    lemma_channel_bytes_len(c.data.values@);
}

/// A prefix of the groups never contributes more chunks than all of them.
pub proof fn lemma_swatch_total_prefix(ss: Seq<ObjectSwatch>, i: int)
    requires
        0 <= i <= ss.len(),
    ensures
        swatch_total(ss.take(i)) <= swatch_total(ss),
    decreases ss.len() - i,
{
    if i == ss.len() {
        assert(ss.take(i) =~= ss);
    } else {
        assert(ss.take(i + 1).drop_last() =~= ss.take(i));
        assert(ss.take(i + 1).last() == ss[i]);
        lemma_swatch_total_prefix(ss, i + 1);
    }
}

} // verus!
