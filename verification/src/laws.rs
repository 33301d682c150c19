//! Properties of the emitted bytes.
//!
//! This module states, and proves, what a reader of an encoded file can
//! rely on: the header carries the exact chunk count, every length field
//! matches the bytes it describes, the end marker is fixed, chunk order
//! follows caller order, and a decoder reading the layout back recovers
//! every name, mode tag, channel value and role exactly.

use vstd::arithmetic::div_mod::lemma_fundamental_div_mod;
use vstd::prelude::*;

use crate::model::{
    ase_bytes, be16n, be16val, be32n, be32val, be_units, channel_bytes, channels_ok, chunk_total,
    color_body_bytes, color_chunk_bytes, color_chunks_bytes, count_ok, group_end_bytes,
    header_bytes, lemma_be_units_len, lemma_channel_bytes_len, lemma_color_body_len,
    lemma_name_encoding_len, mode_tag_bytes, name_encoding, name_ok, role_tag, swatch_chunk_bytes,
    swatch_chunks_bytes, utf16_count, utf16_units,
};
use crate::types::{ColorMode, ObjectColor, ObjectColorType, ObjectSwatch};

verus! {

/// Reads two-byte big-endian code units back out of a byte sequence.
pub open spec fn units_from_bytes(b: Seq<u8>) -> Seq<u16>
    decreases b.len(),
{
    if b.len() < 2 {
        Seq::empty()
    } else {
        units_from_bytes(b.take(b.len() - 2)) + seq![be16val(b.skip(b.len() - 2)) as u16]
    }
}

/// Reads four-byte big-endian channel values back out of a byte sequence.
pub open spec fn channels_from_bytes(b: Seq<u8>) -> Seq<u32>
    decreases b.len(),
{
    if b.len() < 4 {
        Seq::empty()
    } else {
        channels_from_bytes(b.take(b.len() - 4)) + seq![be32val(b.skip(b.len() - 4)) as u32]
    }
}

/// Reads characters back out of UTF-16 code units: one unit outside the
/// surrogate range is a character of its own, a high surrogate followed
/// by a low surrogate is one character above U+FFFF.
pub open spec fn utf16_decode(us: Seq<u16>) -> Seq<char>
    decreases us.len(),
{
    if us.len() == 0 {
        Seq::empty()
    } else if us[0] < 0xD800 || us[0] >= 0xE000 {
        seq![(us[0] as u32) as char] + utf16_decode(us.drop_first())
    } else if us[0] < 0xDC00 && us.len() >= 2 && 0xDC00 <= us[1] < 0xE000 {
        seq![((0x10000 + (us[0] - 0xD800) * 0x400 + (us[1] - 0xDC00)) as u32) as char]
            + utf16_decode(us.skip(2))
    } else {
        Seq::empty()
    }
}

/// Two big-endian bytes read back as the value they were written from.
pub proof fn lemma_be16_round_trip(n: nat)
    requires
        n < 0x10000,
    ensures
        be16val(be16n(n)) == n,
{
    lemma_fundamental_div_mod(n as int, 256);
}

/// Four big-endian bytes read back as the value they were written from.
pub proof fn lemma_be32_round_trip(n: nat)
    requires
        n < 0x100000000,
    ensures
        be32val(be32n(n)) == n,
{
    lemma_fundamental_div_mod(n as int, 256);
    lemma_fundamental_div_mod(n as int / 256, 256);
    lemma_fundamental_div_mod(n as int / 256 / 256, 256);
    assert(n as int / 256 / 256 == n as int / 0x10000) by {
        vstd::arithmetic::div_mod::lemma_div_denominator(n as int, 256, 256);
    };
    assert(n as int / 0x10000 / 256 == n as int / 0x1000000) by {
        vstd::arithmetic::div_mod::lemma_div_denominator(n as int, 0x10000, 256);
    };
}

/// Reading the written code units back gives the original units.
pub proof fn lemma_units_round_trip(us: Seq<u16>)
    ensures
        units_from_bytes(be_units(us)) == us,
    decreases us.len(),
{
    lemma_be_units_len(us);
    if us.len() == 0 {
        assert(units_from_bytes(be_units(us)) =~= us);
    } else {
        let b = be_units(us);
        lemma_be_units_len(us.drop_last());
        assert(b.take(b.len() - 2) =~= be_units(us.drop_last()));
        assert(b.skip(b.len() - 2) =~= be16n(us.last() as nat));
        lemma_be16_round_trip(us.last() as nat);
        lemma_units_round_trip(us.drop_last());
        assert(units_from_bytes(be_units(us)) =~= us);
    }
}

/// Reading the written channel values back gives the original values.
pub proof fn lemma_channels_round_trip(vs: Seq<u32>)
    ensures
        channels_from_bytes(channel_bytes(vs)) == vs,
    decreases vs.len(),
{
    lemma_channel_bytes_len(vs);
    if vs.len() == 0 {
        assert(channels_from_bytes(channel_bytes(vs)) =~= vs);
    } else {
        let b = channel_bytes(vs);
        lemma_channel_bytes_len(vs.drop_last());
        assert(b.take(b.len() - 4) =~= channel_bytes(vs.drop_last()));
        assert(b.skip(b.len() - 4) =~= be32n(vs.last() as nat));
        lemma_be32_round_trip(vs.last() as nat);
        lemma_channels_round_trip(vs.drop_last());
        assert(channels_from_bytes(channel_bytes(vs)) =~= vs);
    }
}

/// Decoding the written code units gives the original characters: no
/// name is altered by the UTF-16 encoding.
pub proof fn lemma_utf16_round_trip(s: Seq<char>)
    ensures
        utf16_decode(utf16_units(s)) == s,
    decreases s.len(),
{
    if s.len() == 0 {
        assert(utf16_decode(utf16_units(s)) =~= s);
    } else {
        let c = s[0];
        let v = c as u32;
        vstd::utf8::char_is_scalar(c);
        vstd::utf8::char_u32_cast(c, v);
        let us = utf16_units(s);
        lemma_utf16_round_trip(s.drop_first());
        if v < 0x10000 {
            assert(us[0] == v as u16);
            assert(us.drop_first() =~= utf16_units(s.drop_first()));
            assert(utf16_decode(us) =~= s);
        } else {
            let w = v - 0x10000;
            lemma_fundamental_div_mod(w as int, 0x400);
            assert(us[0] == (0xD800 + w / 0x400) as u16);
            assert(us[1] == (0xDC00 + w % 0x400) as u16);
            assert(us.skip(2) =~= utf16_units(s.drop_first()));
            assert((0x10000 + (us[0] - 0xD800) * 0x400 + (us[1] - 0xDC00)) as u32 == v);
            assert(utf16_decode(us) =~= s);
        }
    }
}

/// The four-byte mode tag is four bytes long, whatever the mode.
pub proof fn lemma_mode_tag_len(m: ColorMode)
    ensures
        mode_tag_bytes(m).len() == 4,
{
    match m {
        ColorMode::Rgb => assert(mode_tag_bytes(m).len() == 4),
        ColorMode::Lab => assert(mode_tag_bytes(m).len() == 4),
        ColorMode::Cmyk => assert(mode_tag_bytes(m).len() == 4),
        ColorMode::Gray => assert(mode_tag_bytes(m).len() == 4),
    }
}

/// Different color modes never share a tag: the mode can be read back.
pub proof fn lemma_mode_tag_injective(m1: ColorMode, m2: ColorMode)
    requires
        mode_tag_bytes(m1) == mode_tag_bytes(m2),
    ensures
        m1 == m2,
{
    match m1 {
        ColorMode::Rgb => assert(mode_tag_bytes(m1)[0] == 0x52),
        ColorMode::Lab => assert(mode_tag_bytes(m1)[0] == 0x4C),
        ColorMode::Cmyk => assert(mode_tag_bytes(m1)[0] == 0x43),
        ColorMode::Gray => assert(mode_tag_bytes(m1)[0] == 0x47),
    }
    match m2 {
        ColorMode::Rgb => assert(mode_tag_bytes(m2)[0] == 0x52),
        ColorMode::Lab => assert(mode_tag_bytes(m2)[0] == 0x4C),
        ColorMode::Cmyk => assert(mode_tag_bytes(m2)[0] == 0x43),
        ColorMode::Gray => assert(mode_tag_bytes(m2)[0] == 0x47),
    }
}

/// Different color roles never share a tag: the role can be read back.
pub proof fn lemma_role_tag_injective(t1: ObjectColorType, t2: ObjectColorType)
    requires
        role_tag(t1) == role_tag(t2),
    ensures
        t1 == t2,
{
}

/// The role tag fits two bytes.
pub proof fn lemma_role_tag_small(t: ObjectColorType)
    ensures
        role_tag(t) <= 2,
{
    match t {
        ObjectColorType::Global => assert(role_tag(t) == 0),
        ObjectColorType::Spot => assert(role_tag(t) == 1),
        ObjectColorType::Process => assert(role_tag(t) == 2),
    }
}

/// Everything a decoder reads back out of the body of one color chunk:
/// the name's unit count, the name's characters, the null terminator,
/// the mode tag, every channel bit pattern, and the role — each
/// identical to what was encoded, at the stated offsets.
pub proof fn lemma_color_body_fields(c: ObjectColor)
    requires
        name_ok(c.name@),
        channels_ok(c.data),
    ensures
        color_body_bytes(c).len() == 10 + 2 * utf16_count(c.name@) + 4 * c.data.values@.len(),
        be16val(color_body_bytes(c).take(2)) == utf16_count(c.name@) + 1,
        utf16_decode(
            units_from_bytes(
                color_body_bytes(c).subrange(2, 2 + 2 * utf16_count(c.name@) as int),
            ),
        ) == c.name@,
        color_body_bytes(c).subrange(
            2 + 2 * utf16_count(c.name@) as int,
            4 + 2 * utf16_count(c.name@) as int,
        ) == seq![0u8, 0u8],
        color_body_bytes(c).subrange(
            4 + 2 * utf16_count(c.name@) as int,
            8 + 2 * utf16_count(c.name@) as int,
        ) == mode_tag_bytes(c.data.mode),
        channels_from_bytes(
            color_body_bytes(c).subrange(
                8 + 2 * utf16_count(c.name@) as int,
                8 + 2 * utf16_count(c.name@) as int + 4 * c.data.values@.len() as int,
            ),
        ) == c.data.values@,
        be16val(color_body_bytes(c).skip(8 + 2 * utf16_count(c.name@) as int + 4 * c.data.values@.len() as int))
            == role_tag(c.object_type) as nat,
{
    let u = utf16_count(c.name@) as int;
    let n = c.data.values@.len() as int;
    let body = color_body_bytes(c);
    lemma_name_encoding_len(c.name@);
    lemma_be_units_len(utf16_units(c.name@));
    lemma_channel_bytes_len(c.data.values@);
    lemma_mode_tag_len(c.data.mode);
    lemma_color_body_len(c);
    assert(body.take(2) =~= be16n(utf16_count(c.name@) + 1));
    lemma_be16_round_trip(utf16_count(c.name@) + 1);
    assert(body.subrange(2, 2 + 2 * u) =~= be_units(utf16_units(c.name@)));
    lemma_units_round_trip(utf16_units(c.name@));
    lemma_utf16_round_trip(c.name@);
    assert(body.subrange(2 + 2 * u, 4 + 2 * u) =~= seq![0u8, 0u8]);
    assert(body.subrange(4 + 2 * u, 8 + 2 * u) =~= mode_tag_bytes(c.data.mode));
    assert(body.subrange(8 + 2 * u, 8 + 2 * u + 4 * n) =~= channel_bytes(c.data.values@));
    lemma_channels_round_trip(c.data.values@);
    assert(body.skip(8 + 2 * u + 4 * n) =~= be16n(role_tag(c.object_type) as nat));
    lemma_role_tag_small(c.object_type);
    lemma_be16_round_trip(role_tag(c.object_type) as nat);
}

/// Everything a decoder reads back out of one color chunk.
///
/// The chunk opens with the `0x0001` marker; its length field counts
/// exactly the bytes of its own body; and the body yields the name, the
/// mode tag, the channel bit patterns and the role, each identical to
/// what was encoded.
pub proof fn lemma_color_chunk_round_trip(c: ObjectColor)
    requires
        name_ok(c.name@),
        channels_ok(c.data),
    ensures
        color_chunk_bytes(c).len() == 16 + 2 * utf16_count(c.name@) + 4 * c.data.values@.len(),
        color_chunk_bytes(c).take(2) == seq![0x00u8, 0x01u8],
        be32val(color_chunk_bytes(c).subrange(2, 6)) == color_body_bytes(c).len(),
        color_chunk_bytes(c).skip(6) == color_body_bytes(c),
        be16val(color_body_bytes(c).take(2)) == utf16_count(c.name@) + 1,
        utf16_decode(
            units_from_bytes(
                color_body_bytes(c).subrange(2, 2 + 2 * utf16_count(c.name@) as int),
            ),
        ) == c.name@,
        color_body_bytes(c).subrange(
            2 + 2 * utf16_count(c.name@) as int,
            4 + 2 * utf16_count(c.name@) as int,
        ) == seq![0u8, 0u8],
        color_body_bytes(c).subrange(
            4 + 2 * utf16_count(c.name@) as int,
            8 + 2 * utf16_count(c.name@) as int,
        ) == mode_tag_bytes(c.data.mode),
        channels_from_bytes(
            color_body_bytes(c).subrange(
                8 + 2 * utf16_count(c.name@) as int,
                8 + 2 * utf16_count(c.name@) as int + 4 * c.data.values@.len() as int,
            ),
        ) == c.data.values@,
        be16val(color_body_bytes(c).skip(8 + 2 * utf16_count(c.name@) as int + 4 * c.data.values@.len() as int))
            == role_tag(c.object_type) as nat,
{
    let body = color_body_bytes(c);
    let b = color_chunk_bytes(c);
    lemma_color_body_fields(c);
    assert(b.take(2) =~= seq![0x00u8, 0x01u8]);
    assert(b.subrange(2, 6) =~= be32n(body.len()));
    lemma_be32_round_trip(body.len());
    assert(b.skip(6) =~= body);
}

/// Everything a decoder reads back out of one swatch-group chunk.
///
/// The start marker's length field counts only the encoded group name,
/// never the member chunks that follow; the name decodes back to the
/// original characters; the member chunks stand unaltered, in order,
/// between name and end marker; and the end marker is exactly the six
/// bytes `C0 02 00 00 00 00`.
pub proof fn lemma_swatch_chunk_fields(s: ObjectSwatch)
    requires
        name_ok(s.name@),
    ensures
        swatch_chunk_bytes(s).len() == 16 + 2 * utf16_count(s.name@) + color_chunks_bytes(
            s.swatches@,
        ).len(),
        swatch_chunk_bytes(s).take(2) == seq![0xC0u8, 0x01u8],
        be32val(swatch_chunk_bytes(s).subrange(2, 6)) == name_encoding(s.name@).len(),
        be16val(swatch_chunk_bytes(s).subrange(6, 8)) == utf16_count(s.name@) + 1,
        utf16_decode(
            units_from_bytes(
                swatch_chunk_bytes(s).subrange(8, 8 + 2 * utf16_count(s.name@) as int),
            ),
        ) == s.name@,
        swatch_chunk_bytes(s).subrange(
            6 + name_encoding(s.name@).len() as int,
            swatch_chunk_bytes(s).len() - 6,
        ) == color_chunks_bytes(s.swatches@),
        swatch_chunk_bytes(s).skip(swatch_chunk_bytes(s).len() - 6) == group_end_bytes(),
        group_end_bytes() == seq![0xC0u8, 0x02u8, 0u8, 0u8, 0u8, 0u8],
{
    let u = utf16_count(s.name@) as int;
    let ne = name_encoding(s.name@);
    let b = swatch_chunk_bytes(s);
    lemma_name_encoding_len(s.name@);
    lemma_be_units_len(utf16_units(s.name@));
    assert(b.take(2) =~= seq![0xC0u8, 0x01u8]);
    assert(b.subrange(2, 6) =~= be32n(ne.len()));
    lemma_be32_round_trip(ne.len());
    assert(b.subrange(6, 8) =~= be16n(utf16_count(s.name@) + 1));
    lemma_be16_round_trip(utf16_count(s.name@) + 1);
    assert(b.subrange(8, 8 + 2 * u) =~= be_units(utf16_units(s.name@)));
    lemma_units_round_trip(utf16_units(s.name@));
    lemma_utf16_round_trip(s.name@);
    assert(b.subrange(6 + ne.len() as int, b.len() - 6) =~= color_chunks_bytes(s.swatches@));
    assert(b.skip(b.len() - 6) =~= group_end_bytes());
}

/// The header's chunk count field holds exactly the document's total:
/// two markers plus one chunk per member color for every group, and one
/// chunk for every standalone color.
pub proof fn lemma_header_chunk_count(ss: Seq<ObjectSwatch>, cs: Seq<ObjectColor>)
    requires
        count_ok(ss, cs),
    ensures
        ase_bytes(ss, cs).subrange(8, 12) == be32n(chunk_total(ss, cs)),
        be32val(ase_bytes(ss, cs).subrange(8, 12)) == chunk_total(ss, cs),
{
    assert(ase_bytes(ss, cs).subrange(8, 12) =~= be32n(chunk_total(ss, cs)));
    lemma_be32_round_trip(chunk_total(ss, cs));
}

/// Appending one more group to the document appends exactly its chunk.
pub proof fn lemma_swatch_chunks_snoc(ss: Seq<ObjectSwatch>, s: ObjectSwatch)
    ensures
        swatch_chunks_bytes(ss.push(s)) == swatch_chunks_bytes(ss) + swatch_chunk_bytes(s),
{
    assert(ss.push(s).drop_last() =~= ss);
    assert(ss.push(s).last() == s);
}

/// Appending one more standalone color appends exactly its chunk.
pub proof fn lemma_color_chunks_snoc(cs: Seq<ObjectColor>, c: ObjectColor)
    ensures
        color_chunks_bytes(cs.push(c)) == color_chunks_bytes(cs) + color_chunk_bytes(c),
{
    assert(cs.push(c).drop_last() =~= cs);
    assert(cs.push(c).last() == c);
}

/// Encoding a document's groups piecewise gives the same bytes: the
/// chunks of two group sequences, one after the other, are the chunks of
/// the first followed by the chunks of the second.
pub proof fn lemma_swatch_chunks_concat(s1: Seq<ObjectSwatch>, s2: Seq<ObjectSwatch>)
    ensures
        swatch_chunks_bytes(s1 + s2) == swatch_chunks_bytes(s1) + swatch_chunks_bytes(s2),
    decreases s2.len(),
{
    if s2.len() == 0 {
        assert(s1 + s2 =~= s1);
        assert(swatch_chunks_bytes(s1) + swatch_chunks_bytes(s2) =~= swatch_chunks_bytes(s1));
    } else {
        assert((s1 + s2).drop_last() =~= s1 + s2.drop_last());
        assert((s1 + s2).last() == s2.last());
        lemma_swatch_chunks_concat(s1, s2.drop_last());
        assert(swatch_chunks_bytes(s1 + s2) =~= swatch_chunks_bytes(s1) + swatch_chunks_bytes(
            s2,
        ));
    }
}

/// The same, for sequences of standalone colors.
pub proof fn lemma_color_chunks_concat(c1: Seq<ObjectColor>, c2: Seq<ObjectColor>)
    ensures
        color_chunks_bytes(c1 + c2) == color_chunks_bytes(c1) + color_chunks_bytes(c2),
    decreases c2.len(),
{
    if c2.len() == 0 {
        assert(c1 + c2 =~= c1);
        assert(color_chunks_bytes(c1) + color_chunks_bytes(c2) =~= color_chunks_bytes(c1));
    } else {
        assert((c1 + c2).drop_last() =~= c1 + c2.drop_last());
        assert((c1 + c2).last() == c2.last());
        lemma_color_chunks_concat(c1, c2.drop_last());
        assert(color_chunks_bytes(c1 + c2) =~= color_chunks_bytes(c1) + color_chunks_bytes(c2));
    }
}

/// Output order follows input order exactly: for groups `[a, b]` and
/// standalone colors `[x, y]`, the file is the header, then a's chunk,
/// b's chunk, x's chunk, y's chunk.
pub proof fn lemma_order_preserved(
    a: ObjectSwatch,
    b: ObjectSwatch,
    x: ObjectColor,
    y: ObjectColor,
)
    ensures
        ase_bytes(seq![a, b], seq![x, y]) == header_bytes(chunk_total(seq![a, b], seq![x, y]))
            + swatch_chunk_bytes(a) + swatch_chunk_bytes(b) + color_chunk_bytes(x)
            + color_chunk_bytes(y),
{
    let sa = swatch_chunk_bytes(a);
    let sb = swatch_chunk_bytes(b);
    let cx = color_chunk_bytes(x);
    let cy = color_chunk_bytes(y);
    let none_s = Seq::<ObjectSwatch>::empty();
    let none_c = Seq::<ObjectColor>::empty();
    assert(swatch_chunks_bytes(none_s) == Seq::<u8>::empty());
    assert(none_s.push(a) =~= seq![a]);
    lemma_swatch_chunks_snoc(none_s, a);
    assert(seq![a].push(b) =~= seq![a, b]);
    lemma_swatch_chunks_snoc(seq![a], b);
    assert(swatch_chunks_bytes(seq![a, b]) == (Seq::<u8>::empty() + sa) + sb);
    assert((Seq::<u8>::empty() + sa) + sb =~= sa + sb);
    assert(color_chunks_bytes(none_c) == Seq::<u8>::empty());
    assert(none_c.push(x) =~= seq![x]);
    lemma_color_chunks_snoc(none_c, x);
    assert(seq![x].push(y) =~= seq![x, y]);
    lemma_color_chunks_snoc(seq![x], y);
    assert(color_chunks_bytes(seq![x, y]) == (Seq::<u8>::empty() + cx) + cy);
    assert((Seq::<u8>::empty() + cx) + cy =~= cx + cy);
    let h = header_bytes(chunk_total(seq![a, b], seq![x, y]));
    assert(h + (sa + sb) + (cx + cy) =~= h + sa + sb + cx + cy);
}

} // verus!
