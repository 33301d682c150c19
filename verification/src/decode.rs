//! A specification-level decoder for the emitted files.
//!
//! Nothing here runs: these functions define, byte by byte, how a reader
//! of an encoded file recovers the document, driven only by the markers
//! and length fields. The round-trip lemma at the end proves that
//! decoding what the encoder emits gives back every group, every name,
//! every mode, every channel bit pattern and every role, exactly and in
//! order. The field-level readers (`units_from_bytes`, `utf16_decode`,
//! `channels_from_bytes`) live in [`crate::laws`].

use vstd::prelude::*;

use crate::laws::{
    channels_from_bytes, lemma_be16_round_trip, lemma_be32_round_trip, lemma_channels_round_trip,
    lemma_color_chunks_concat, lemma_mode_tag_len, lemma_role_tag_small,
    lemma_swatch_chunks_concat, lemma_units_round_trip, lemma_utf16_round_trip, units_from_bytes,
    utf16_decode,
};
use crate::model::{
    ase_bytes, be16n, be16val, be32n, be32val, be_units, channel_bytes, channels_ok,
    color_body_bytes, color_chunk_bytes, color_chunks_bytes, doc_channels_ok, doc_names_ok,
    group_end_bytes, lemma_be_units_len, lemma_channel_bytes_len, lemma_color_body_len,
    lemma_name_encoding_len, mode_tag_bytes, name_encoding, name_ok, role_tag, swatch_channels_ok,
    swatch_chunk_bytes, swatch_chunks_bytes, swatch_names_ok, utf16_count, utf16_units,
};
use crate::types::{ColorMode, ObjectColor, ObjectColorType, ObjectSwatch};

verus! {

/// What a decoder recovers of one color: name, mode, channel bit
/// patterns, role.
pub type ColorFields = (Seq<char>, ColorMode, Seq<u32>, ObjectColorType);

/// What a decoder recovers of one swatch group: its name and its member
/// colors, in order.
pub type GroupFields = (Seq<char>, Seq<ColorFields>);

/// The decoder's view of one encoded color.
pub open spec fn color_fields(c: ObjectColor) -> ColorFields {
    (c.name@, c.data.mode, c.data.values@, c.object_type)
}

/// The decoder's view of a sequence of colors.
pub open spec fn colors_fields(cs: Seq<ObjectColor>) -> Seq<ColorFields> {
    cs.map_values(|c: ObjectColor| color_fields(c))
}

/// The decoder's view of one swatch group.
pub open spec fn group_fields(s: ObjectSwatch) -> GroupFields {
    (s.name@, colors_fields(s.swatches@))
}

/// The decoder's view of a sequence of swatch groups.
pub open spec fn groups_fields(ss: Seq<ObjectSwatch>) -> Seq<GroupFields> {
    ss.map_values(|s: ObjectSwatch| group_fields(s))
}

/// The color mode a four-byte tag stands for, if any.
pub open spec fn mode_from_tag(b: Seq<u8>) -> Option<ColorMode> {
    if b == mode_tag_bytes(ColorMode::Rgb) {
        Some(ColorMode::Rgb)
    } else if b == mode_tag_bytes(ColorMode::Lab) {
        Some(ColorMode::Lab)
    } else if b == mode_tag_bytes(ColorMode::Cmyk) {
        Some(ColorMode::Cmyk)
    } else if b == mode_tag_bytes(ColorMode::Gray) {
        Some(ColorMode::Gray)
    } else {
        None
    }
}

/// The color role a 16-bit tag stands for, if any.
pub open spec fn role_from_tag(n: nat) -> Option<ObjectColorType> {
    if n == 0 {
        Some(ObjectColorType::Global)
    } else if n == 1 {
        Some(ObjectColorType::Spot)
    } else if n == 2 {
        Some(ObjectColorType::Process)
    } else {
        None
    }
}

/// Reads one encoded name from the front of `b`: the 16-bit unit count,
/// the units, the terminator. Yields the characters and the bytes
/// consumed.
pub open spec fn parse_name(b: Seq<u8>) -> Option<(Seq<char>, int)> {
    if b.len() < 2 {
        None
    } else {
        let n: int = be16val(b.take(2)) as int;
        if n < 1 || b.len() < 2 + 2 * n {
            None
        } else if b.subrange(2 + 2 * (n - 1), 2 + 2 * n) != seq![0u8, 0u8] {
            None
        } else {
            Some((utf16_decode(units_from_bytes(b.subrange(2, 2 + 2 * (n - 1)))), 2 + 2 * n))
        }
    }
}

/// Reads one whole color chunk, which must be exactly `b`: the `0x0001`
/// marker, the body length, then name, mode tag, channel values, role.
#[verifier::opaque]
pub open spec fn parse_color_chunk(b: Seq<u8>) -> Option<ColorFields> {
    if b.len() < 6 || b.take(2) != seq![0x00u8, 0x01u8] {
        None
    } else if b.len() != 6 + be32val(b.subrange(2, 6)) {
        None
    } else {
        let body = b.skip(6);
        match parse_name(body) {
            None => None,
            Some((name, k)) => {
                if body.len() < k + 6 || (body.len() - k - 6) % 4 != 0 {
                    None
                } else {
                    match mode_from_tag(body.subrange(k, k + 4)) {
                        None => None,
                        Some(mode) => {
                            match role_from_tag(
                                be16val(body.subrange(body.len() - 2, body.len() as int)),
                            ) {
                                None => None,
                                Some(role) => Some(
                                    (
                                        name,
                                        mode,
                                        channels_from_bytes(
                                            body.subrange(k + 4, body.len() - 2),
                                        ),
                                        role,
                                    ),
                                ),
                            }
                        },
                    }
                }
            },
        }
    }
}

/// Reads a group's member color chunks from the front of `b`, up to and
/// including the six-byte end marker. Yields the members and the bytes
/// consumed.
#[verifier::opaque]
pub open spec fn parse_members(b: Seq<u8>) -> Option<(Seq<ColorFields>, int)>
    decreases b.len(),
{
    if b.len() < 6 {
        None
    } else if b.take(2) == seq![0xC0u8, 0x02u8] {
        if b.subrange(2, 6) == seq![0u8, 0u8, 0u8, 0u8] {
            Some((Seq::empty(), 6))
        } else {
            None
        }
    } else {
        let clen: int = 6 + be32val(b.subrange(2, 6)) as int;
        if b.len() < clen {
            None
        } else {
            match parse_color_chunk(b.take(clen)) {
                None => None,
                Some(cv) => match parse_members(b.skip(clen)) {
                    None => None,
                    Some((rest, k)) => Some((seq![cv] + rest, clen + k)),
                },
            }
        }
    }
}

/// A successful member parse consumes at least the end marker and never
/// more than the input.
pub proof fn lemma_parse_members_consumed(b: Seq<u8>)
    ensures
        parse_members(b) matches Some(r) ==> 6 <= r.1 <= b.len(),
    decreases b.len(),
{
    reveal(parse_members);
    if b.len() >= 6 && b.take(2) != seq![0xC0u8, 0x02u8] {
        let clen: int = 6 + be32val(b.subrange(2, 6)) as int;
        if b.len() >= clen {
            lemma_parse_members_consumed(b.skip(clen));
        }
    }
}

/// Reads the chunk stream that follows the header: every swatch-group
/// chunk, then every standalone color chunk.
#[verifier::opaque]
pub open spec fn parse_chunks(b: Seq<u8>) -> Option<(Seq<GroupFields>, Seq<ColorFields>)>
    decreases b.len(),
    via parse_chunks_dec
{
    if b.len() == 0 {
        Some((Seq::empty(), Seq::empty()))
    } else if b.len() < 6 {
        None
    } else if b.take(2) == seq![0xC0u8, 0x01u8] {
        let nlen: int = be32val(b.subrange(2, 6)) as int;
        if b.len() < 6 + nlen {
            None
        } else {
            match parse_name(b.subrange(6, 6 + nlen)) {
                None => None,
                Some((gname, k)) => {
                    if k != nlen {
                        None
                    } else {
                        match parse_members(b.skip(6 + nlen)) {
                            None => None,
                            Some((members, k2)) => {
                                match parse_chunks(b.skip(6 + nlen + k2)) {
                                    None => None,
                                    Some((groups, colors)) => Some(
                                        (seq![(gname, members)] + groups, colors),
                                    ),
                                }
                            },
                        }
                    }
                },
            }
        }
    } else {
        let clen: int = 6 + be32val(b.subrange(2, 6)) as int;
        if b.len() < clen {
            None
        } else {
            match parse_color_chunk(b.take(clen)) {
                None => None,
                Some(cv) => match parse_chunks(b.skip(clen)) {
                    None => None,
                    Some((groups, colors)) => {
                        if groups.len() == 0 {
                            Some((Seq::empty(), seq![cv] + colors))
                        } else {
                            None
                        }
                    },
                },
            }
        }
    }
}

#[via_fn]
proof fn parse_chunks_dec(b: Seq<u8>) {
    if b.len() >= 6 && b.take(2) == seq![0xC0u8, 0x01u8] {
        let nlen: int = be32val(b.subrange(2, 6)) as int;
        if b.len() >= 6 + nlen {
            lemma_parse_members_consumed(b.skip(6 + nlen));
        }
    }
}

/// Reads a whole file: the `"ASEF"` magic, the version, then the chunk
/// stream. The chunk-count field is not needed to recover the content;
/// that it matches the content is stated in
/// [`crate::laws::lemma_header_chunk_count`].
pub open spec fn decode_document(b: Seq<u8>) -> Option<(Seq<GroupFields>, Seq<ColorFields>)> {
    if b.len() < 12 {
        None
    } else if b.take(4) != seq![0x41u8, 0x53u8, 0x45u8, 0x46u8] {
        None
    } else if b.subrange(4, 8) != be16n(1) + be16n(0) {
        None
    } else {
        parse_chunks(b.skip(12))
    }
}

/// Every mode tag reads back as its own mode.
pub proof fn lemma_mode_from_tag(m: ColorMode)
    ensures
        mode_from_tag(mode_tag_bytes(m)) == Some(m),
{
    let rgb = mode_tag_bytes(ColorMode::Rgb);
    let lab = mode_tag_bytes(ColorMode::Lab);
    let cmyk = mode_tag_bytes(ColorMode::Cmyk);
    let gray = mode_tag_bytes(ColorMode::Gray);
    assert(rgb[0] == 0x52 && lab[0] == 0x4C && cmyk[0] == 0x43 && gray[0] == 0x47);
    match m {
        ColorMode::Rgb => assert(mode_tag_bytes(m)[0] == 0x52),
        ColorMode::Lab => assert(mode_tag_bytes(m)[0] == 0x4C),
        ColorMode::Cmyk => assert(mode_tag_bytes(m)[0] == 0x43),
        ColorMode::Gray => assert(mode_tag_bytes(m)[0] == 0x47),
    }
}

/// Every role tag reads back as its own role.
pub proof fn lemma_role_from_tag(t: ObjectColorType)
    ensures
        role_from_tag(role_tag(t) as nat) == Some(t),
{
}

/// An encoded name at the front of a stream parses back to its own
/// characters, consuming exactly its own bytes.
pub proof fn lemma_parse_name(s: Seq<char>, rest: Seq<u8>)
    requires
        name_ok(s),
    ensures
        parse_name(name_encoding(s) + rest) == Some((s, name_encoding(s).len() as int)),
{
    let ne = name_encoding(s);
    let b = ne + rest;
    lemma_name_encoding_len(s);
    lemma_be_units_len(utf16_units(s));
    let u = utf16_count(s) as int;
    assert(b.take(2) =~= be16n((u + 1) as nat));
    lemma_be16_round_trip((u + 1) as nat);
    assert(be16val(b.take(2)) as int == u + 1);
    assert(b.subrange(2 + 2 * u, 4 + 2 * u) =~= seq![0u8, 0u8]);
    assert(b.subrange(2, 2 + 2 * u) =~= be_units(utf16_units(s)));
    lemma_units_round_trip(utf16_units(s));
    lemma_utf16_round_trip(s);
}

/// One emitted color chunk parses back to exactly the color's fields.
#[verifier::rlimit(50)]
pub proof fn lemma_parse_color_chunk(c: ObjectColor)
    requires
        name_ok(c.name@),
        channels_ok(c.data),
    ensures
        parse_color_chunk(color_chunk_bytes(c)) == Some(color_fields(c)),
{
    reveal(parse_color_chunk);
    let b = color_chunk_bytes(c);
    let body0 = color_body_bytes(c);
    let ne = name_encoding(c.name@);
    let u = utf16_count(c.name@) as int;
    let n = c.data.values@.len() as int;
    lemma_color_body_len(c);
    lemma_name_encoding_len(c.name@);
    lemma_be_units_len(utf16_units(c.name@));
    lemma_channel_bytes_len(c.data.values@);
    lemma_mode_tag_len(c.data.mode);
    assert(b.take(2) =~= seq![0x00u8, 0x01u8]);
    assert(b.subrange(2, 6) =~= be32n(body0.len()));
    lemma_be32_round_trip(body0.len());
    let body = b.skip(6);
    assert(body =~= body0);
    let tailb = mode_tag_bytes(c.data.mode) + channel_bytes(c.data.values@) + be16n(
        role_tag(c.object_type) as nat,
    );
    assert(body =~= ne + tailb);
    lemma_parse_name(c.name@, tailb);
    let k = ne.len() as int;
    assert(parse_name(body) == Some((c.name@, k)));
    assert(body.len() == k + 6 + 4 * n);
    assert(body.subrange(k, k + 4) =~= mode_tag_bytes(c.data.mode));
    lemma_mode_from_tag(c.data.mode);
    assert(body.subrange(k + 4, body.len() - 2) =~= channel_bytes(c.data.values@));
    lemma_channels_round_trip(c.data.values@);
    assert(body.subrange(body.len() - 2, body.len() as int) =~= be16n(
        role_tag(c.object_type) as nat,
    ));
    lemma_role_tag_small(c.object_type);
    lemma_be16_round_trip(role_tag(c.object_type) as nat);
    lemma_role_from_tag(c.object_type);
}

/// The chunks of a non-empty color sequence start with the first
/// color's chunk.
pub proof fn lemma_color_chunks_first(cs: Seq<ObjectColor>)
    requires
        cs.len() > 0,
    ensures
        color_chunks_bytes(cs) == color_chunk_bytes(cs[0]) + color_chunks_bytes(cs.drop_first()),
{
    assert(seq![cs[0]] + cs.drop_first() =~= cs);
    lemma_color_chunks_concat(seq![cs[0]], cs.drop_first());
    assert(seq![cs[0]].drop_last() =~= Seq::<ObjectColor>::empty());
    assert(color_chunks_bytes(Seq::<ObjectColor>::empty()) == Seq::<u8>::empty());
    assert(seq![cs[0]].last() == cs[0]);
    assert(color_chunks_bytes(seq![cs[0]]) =~= color_chunk_bytes(cs[0]));
}

/// The chunks of a non-empty group sequence start with the first
/// group's chunk.
pub proof fn lemma_swatch_chunks_first(ss: Seq<ObjectSwatch>)
    requires
        ss.len() > 0,
    ensures
        swatch_chunks_bytes(ss) == swatch_chunk_bytes(ss[0]) + swatch_chunks_bytes(
            ss.drop_first(),
        ),
{
    assert(seq![ss[0]] + ss.drop_first() =~= ss);
    lemma_swatch_chunks_concat(seq![ss[0]], ss.drop_first());
    assert(seq![ss[0]].drop_last() =~= Seq::<ObjectSwatch>::empty());
    assert(swatch_chunks_bytes(Seq::<ObjectSwatch>::empty()) == Seq::<u8>::empty());
    assert(seq![ss[0]].last() == ss[0]);
    assert(swatch_chunks_bytes(seq![ss[0]]) =~= swatch_chunk_bytes(ss[0]));
}

/// The decoded fields of a non-empty color sequence start with the
/// first color's fields.
pub proof fn lemma_colors_fields_first(cs: Seq<ObjectColor>)
    requires
        cs.len() > 0,
    ensures
        colors_fields(cs) == seq![color_fields(cs[0])] + colors_fields(cs.drop_first()),
{
    assert(colors_fields(cs) =~= seq![color_fields(cs[0])] + colors_fields(cs.drop_first()));
}

/// The decoded fields of a non-empty group sequence start with the
/// first group's fields.
pub proof fn lemma_groups_fields_first(ss: Seq<ObjectSwatch>)
    requires
        ss.len() > 0,
    ensures
        groups_fields(ss) == seq![group_fields(ss[0])] + groups_fields(ss.drop_first()),
{
    assert(groups_fields(ss) =~= seq![group_fields(ss[0])] + groups_fields(ss.drop_first()));
}

/// A group's emitted member chunks, followed by the end marker, parse
/// back to exactly the members' fields, consuming the member bytes and
/// the marker.
#[verifier::rlimit(100)]
pub proof fn lemma_parse_members(cs: Seq<ObjectColor>, rest: Seq<u8>)
    requires
        forall|i: int| 0 <= i < cs.len() ==> name_ok(#[trigger] cs[i].name@),
        forall|i: int| 0 <= i < cs.len() ==> channels_ok(#[trigger] cs[i].data),
    ensures
        parse_members(color_chunks_bytes(cs) + group_end_bytes() + rest) == Some(
            (colors_fields(cs), color_chunks_bytes(cs).len() + 6 as int),
        ),
    decreases cs.len(),
{
    reveal(parse_members);
    let b = color_chunks_bytes(cs) + group_end_bytes() + rest;
    if cs.len() == 0 {
        assert(color_chunks_bytes(cs) =~= Seq::<u8>::empty());
        assert(b.take(2) =~= seq![0xC0u8, 0x02u8]);
        assert(b.subrange(2, 6) =~= seq![0u8, 0u8, 0u8, 0u8]);
        assert(colors_fields(cs) =~= Seq::<ColorFields>::empty());
    } else {
        let c0 = cs[0];
        let tail = cs.drop_first();
        lemma_color_chunks_first(cs);
        let cb = color_chunk_bytes(c0);
        lemma_color_body_len(c0);
        lemma_name_encoding_len(c0.name@);
        assert(b =~= cb + (color_chunks_bytes(tail) + group_end_bytes() + rest));
        assert(b.take(2) =~= seq![0x00u8, 0x01u8]);
        assert(b.take(2) != seq![0xC0u8, 0x02u8]) by {
            assert(b.take(2)[0] == 0x00u8);
            assert(seq![0xC0u8, 0x02u8][0] == 0xC0u8);
        };
        assert(b.subrange(2, 6) =~= be32n(color_body_bytes(c0).len()));
        lemma_be32_round_trip(color_body_bytes(c0).len());
        let clen: int = 6 + color_body_bytes(c0).len() as int;
        assert(b.len() >= clen);
        assert(b.take(clen) =~= cb);
        lemma_parse_color_chunk(c0);
        assert(b.skip(clen) =~= color_chunks_bytes(tail) + group_end_bytes() + rest);
        assert forall|i: int| 0 <= i < tail.len() implies name_ok(#[trigger] tail[i].name@)
            && channels_ok(tail[i].data) by {
            assert(tail[i] == cs[i + 1]);
        };
        lemma_parse_members(tail, rest);
        lemma_colors_fields_first(cs);
    }
}

/// A stream of standalone color chunks parses back to exactly those
/// colors, with no groups.
#[verifier::rlimit(100)]
pub proof fn lemma_parse_chunks_colors(cs: Seq<ObjectColor>)
    requires
        forall|i: int| 0 <= i < cs.len() ==> name_ok(#[trigger] cs[i].name@),
        forall|i: int| 0 <= i < cs.len() ==> channels_ok(#[trigger] cs[i].data),
    ensures
        parse_chunks(color_chunks_bytes(cs)) == Some(
            (Seq::<GroupFields>::empty(), colors_fields(cs)),
        ),
    decreases cs.len(),
{
    reveal(parse_chunks);
    let b = color_chunks_bytes(cs);
    if cs.len() == 0 {
        assert(b =~= Seq::<u8>::empty());
        assert(colors_fields(cs) =~= Seq::<ColorFields>::empty());
    } else {
        let c0 = cs[0];
        let tail = cs.drop_first();
        lemma_color_chunks_first(cs);
        let cb = color_chunk_bytes(c0);
        lemma_color_body_len(c0);
        lemma_name_encoding_len(c0.name@);
        assert(b =~= cb + color_chunks_bytes(tail));
        assert(b.take(2) =~= seq![0x00u8, 0x01u8]);
        assert(b.take(2) != seq![0xC0u8, 0x01u8]) by {
            assert(b.take(2)[0] == 0x00u8);
            assert(seq![0xC0u8, 0x01u8][0] == 0xC0u8);
        };
        assert(b.subrange(2, 6) =~= be32n(color_body_bytes(c0).len()));
        lemma_be32_round_trip(color_body_bytes(c0).len());
        let clen: int = 6 + color_body_bytes(c0).len() as int;
        assert(b.len() >= clen);
        assert(b.take(clen) =~= cb);
        lemma_parse_color_chunk(c0);
        assert(b.skip(clen) =~= color_chunks_bytes(tail));
        assert forall|i: int| 0 <= i < tail.len() implies name_ok(#[trigger] tail[i].name@)
            && channels_ok(tail[i].data) by {
            assert(tail[i] == cs[i + 1]);
        };
        lemma_parse_chunks_colors(tail);
        lemma_colors_fields_first(cs);
    }
}

/// Reading one group chunk from the front of a stream yields that
/// group's fields and leaves the rest of the stream to parse.
#[verifier::rlimit(100)]
pub proof fn lemma_parse_chunks_group_step(g: ObjectSwatch, after: Seq<u8>)
    requires
        swatch_names_ok(g),
        swatch_channels_ok(g),
    ensures
        parse_chunks(swatch_chunk_bytes(g) + after) == (match parse_chunks(after) {
            None => None,
            Some((groups, colors)) => Some(
                (seq![group_fields(g)] + groups, colors),
            ),
        }),
{
    reveal(parse_chunks);
    let b = swatch_chunk_bytes(g) + after;
    let ne = name_encoding(g.name@);
    lemma_name_encoding_len(g.name@);
    let nlen = ne.len() as int;
    assert(b.take(2) =~= seq![0xC0u8, 0x01u8]);
    assert(b.subrange(2, 6) =~= be32n(ne.len()));
    lemma_be32_round_trip(ne.len());
    assert(b.len() >= 6 + nlen);
    assert(parse_name(b.subrange(6, 6 + nlen)) == Some((g.name@, nlen))) by {
        assert(b.subrange(6, 6 + nlen) =~= ne);
        lemma_parse_name(g.name@, Seq::<u8>::empty());
        assert(ne + Seq::<u8>::empty() =~= ne);
    };
    let k2: int = color_chunks_bytes(g.swatches@).len() + 6 as int;
    assert(parse_members(b.skip(6 + nlen)) == Some((colors_fields(g.swatches@), k2))) by {
        assert(b.skip(6 + nlen) =~= color_chunks_bytes(g.swatches@) + group_end_bytes()
            + after);
        lemma_parse_members(g.swatches@, after);
    };
    assert(b.skip(6 + nlen + k2) =~= after);
}

/// The whole chunk stream of a document parses back to exactly its
/// groups and standalone colors, in order.
pub proof fn lemma_parse_chunks(ss: Seq<ObjectSwatch>, cs: Seq<ObjectColor>)
    requires
        doc_names_ok(ss, cs),
        doc_channels_ok(ss, cs),
    ensures
        parse_chunks(swatch_chunks_bytes(ss) + color_chunks_bytes(cs)) == Some(
            (groups_fields(ss), colors_fields(cs)),
        ),
    decreases ss.len(),
{
    let b = swatch_chunks_bytes(ss) + color_chunks_bytes(cs);
    if ss.len() == 0 {
        assert(swatch_chunks_bytes(ss) =~= Seq::<u8>::empty());
        assert(b =~= color_chunks_bytes(cs));
        lemma_parse_chunks_colors(cs);
        assert(groups_fields(ss) =~= Seq::<GroupFields>::empty());
    } else {
        let g = ss[0];
        let tail = ss.drop_first();
        lemma_swatch_chunks_first(ss);
        let after = swatch_chunks_bytes(tail) + color_chunks_bytes(cs);
        assert(b =~= swatch_chunk_bytes(g) + after);
        assert forall|i: int| 0 <= i < tail.len() implies swatch_names_ok(#[trigger] tail[i])
            && swatch_channels_ok(tail[i]) by {
            assert(tail[i] == ss[i + 1]);
        };
        lemma_parse_chunks(tail, cs);
        lemma_parse_chunks_group_step(g, after);
        lemma_groups_fields_first(ss);
    }
}

/// Round-trip fidelity of a whole emitted file: decoding the bytes that
/// `create_ase` returns recovers every swatch group and every standalone
/// color — name, mode, channel bit patterns and role — exactly and in
/// the original order.
pub proof fn lemma_decode_round_trip(ss: Seq<ObjectSwatch>, cs: Seq<ObjectColor>)
    requires
        doc_names_ok(ss, cs),
        doc_channels_ok(ss, cs),
    ensures
        decode_document(ase_bytes(ss, cs)) == Some((groups_fields(ss), colors_fields(cs))),
{
    let b = ase_bytes(ss, cs);
    assert(b.take(4) =~= seq![0x41u8, 0x53u8, 0x45u8, 0x46u8]);
    assert(b.subrange(4, 8) =~= be16n(1) + be16n(0));
    assert(b.skip(12) =~= swatch_chunks_bytes(ss) + color_chunks_bytes(cs));
    lemma_parse_chunks(ss, cs);
}

} // verus!
