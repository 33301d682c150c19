//! An encoder for the Adobe Swatch Exchange (ASE) binary format.
//!
//! The encoder turns a document of named swatch groups and standalone
//! colors into the ASE byte layout: a file header followed by
//! length-prefixed chunks, with names in null-terminated UTF-16
//! big-endian and channel values as big-endian IEEE-754 binary32 bit
//! patterns. The byte layout itself is defined in [`model`], and every
//! function here is proved to produce exactly those bytes.

use vstd::prelude::*;

pub mod decode;
pub mod laws;
pub mod model;
pub mod types;

use crate::model::{
    ase_bytes, be16n, be32n, be_units, channel_bytes, channels_ok, chunk_total, color_body_bytes,
    color_chunk_bytes, color_chunks_bytes, count_ok, doc_channels_ok, doc_names_ok, header_bytes,
    lemma_color_body_len, lemma_name_encoding_len, lemma_swatch_total_prefix,
    lemma_utf16_units_push, mode_tag_bytes, name_encoding, name_ok, role_tag, swatch_channels_ok,
    swatch_chunk_bytes, swatch_chunks_bytes, swatch_names_ok, swatch_total, utf16_count,
    utf16_units,
};
use crate::types::{AseError, ColorMode, ObjectColor, ObjectColorType, ObjectSwatch};
use vstd::std_specs::iter::IteratorSpec;

verus! {

broadcast use vstd::string::group_string_axioms;

/// Appends a 16-bit value, most-significant byte first.
fn push_u16_be(out: &mut Vec<u8>, x: u16)
    ensures
        final(out)@ == old(out)@ + be16n(x as nat),
{
    out.push((x / 256) as u8);
    out.push((x % 256) as u8);
    proof {
        assert(out@ =~= old(out)@ + be16n(x as nat));
    }
}

/// Appends a 32-bit value, most-significant byte first.
fn push_u32_be(out: &mut Vec<u8>, x: u32)
    ensures
        final(out)@ == old(out)@ + be32n(x as nat),
{
    out.push((x / 0x1000000) as u8);
    out.push(((x / 0x10000) % 256) as u8);
    out.push(((x / 256) % 256) as u8);
    out.push((x % 256) as u8);
    proof {
        assert(out@ =~= old(out)@ + be32n(x as nat));
    }
}

/// Collects the UTF-16 code units of a string, in order, surrogate pairs
/// for code points above U+FFFF.
fn utf16_units_vec(name: &str) -> (r: Vec<u16>)
    ensures
        r@ == utf16_units(name@),
{
    let ghost s = name@;
    let mut it = name.chars();
    let mut r: Vec<u16> = Vec::new();
    let ghost mut i: int = 0;
    proof {
        assert(it.remaining() =~= s.skip(0));
    }
    loop
        invariant
            0 <= i <= s.len(),
            it.obeys_prophetic_iter_laws(),
            it.remaining() == s.skip(i),
            r@ == utf16_units(s.take(i)),
        ensures
            i == s.len(),
            r@ == utf16_units(s.take(i)),
        decreases s.len() - i,
    {
        let ghost prev = it;
        let next_char = it.next();
        match next_char {
            Some(c) => {
                proof {
                    assert(c == s[i] && it.remaining() =~= s.skip(i + 1)) by {
                        assert(prev.remaining().len() > 0);
                        assert(s.skip(i)[0] == s[i]);
                    };
                }
                let v = c as u32;
                proof {
                    vstd::utf8::char_is_scalar(c);
                }
                if v < 0x10000 {
                    r.push(v as u16);
                } else {
                    r.push((0xD800 + (v - 0x10000) / 0x400) as u16);
                    r.push((0xDC00 + (v - 0x10000) % 0x400) as u16);
                }
                proof {
                    assert(s.take(i + 1) =~= s.take(i).push(s[i]));
                    lemma_utf16_units_push(s.take(i), s[i]);
                    assert(r@ =~= utf16_units(s.take(i + 1)));
                    i = i + 1;
                }
            },
            None => {
                proof {
                    assert(s.skip(i).len() == 0);
                }
                break;
            },
        }
    }
    proof {
        assert(s.take(s.len() as int) =~= s);
    }
    r
}

/// Says whether a name can be encoded: its UTF-16 code-unit count, null
/// terminator included, must fit the 16-bit length prefix.
pub fn name_fits(name: &str) -> (b: bool)
    ensures
        b == name_ok(name@),
{
    let units = utf16_units_vec(name);
    units.len() <= 0xFFFE
}

/// Appends the encoding of a name: the 16-bit code-unit count (terminator
/// included), the UTF-16 big-endian units, then the two-byte terminator.
fn push_name(out: &mut Vec<u8>, name: &str)
    requires
        name_ok(name@),
    ensures
        final(out)@ == old(out)@ + name_encoding(name@),
{
    let units = utf16_units_vec(name);
    push_u16_be(out, (units.len() + 1) as u16);
    let mut j: usize = 0;
    while j < units.len()
        invariant
            j <= units.len(),
            units@ == utf16_units(name@),
            utf16_count(name@) + 1 <= 0xFFFF,
            out@ == old(out)@ + be16n(utf16_count(name@) + 1) + be_units(units@.take(j as int)),
        decreases units.len() - j,
    {
        let u = units[j];
        push_u16_be(out, u);
        proof {
            assert(units@.take(j + 1).drop_last() =~= units@.take(j as int));
            assert(out@ =~= old(out)@ + be16n(utf16_count(name@) + 1) + be_units(
                units@.take(j + 1),
            ));
        }
        j = j + 1;
    }
    push_u16_be(out, 0);
    proof {
        assert(units@.take(units.len() as int) =~= units@);
        assert(out@ =~= old(out)@ + name_encoding(name@));
    }
}

/// Appends the four-byte ASCII tag of a color mode.
fn push_mode_tag(out: &mut Vec<u8>, m: &ColorMode)
    ensures
        final(out)@ == old(out)@ + mode_tag_bytes(*m),
{
    match m {
        ColorMode::Rgb => {
            out.push(0x52);
            out.push(0x47);
            out.push(0x42);
            out.push(0x20);
            proof {
                assert(out@ =~= old(out)@ + mode_tag_bytes(*m));
            }
        },
        ColorMode::Lab => {
            out.push(0x4C);
            out.push(0x41);
            out.push(0x42);
            out.push(0x20);
            proof {
                assert(out@ =~= old(out)@ + mode_tag_bytes(*m));
            }
        },
        ColorMode::Cmyk => {
            out.push(0x43);
            out.push(0x4D);
            out.push(0x59);
            out.push(0x4B);
            proof {
                assert(out@ =~= old(out)@ + mode_tag_bytes(*m));
            }
        },
        ColorMode::Gray => {
            out.push(0x47);
            out.push(0x72);
            out.push(0x61);
            out.push(0x79);
            proof {
                assert(out@ =~= old(out)@ + mode_tag_bytes(*m));
            }
        },
    }
}

/// The 16-bit tag of a color role.
fn role_value(t: &ObjectColorType) -> (r: u16)
    ensures
        r == role_tag(*t),
{
    match t {
        ObjectColorType::Global => 0,
        ObjectColorType::Spot => 1,
        ObjectColorType::Process => 2,
    }
}

/// Appends every channel value, four big-endian bytes each, in order.
fn push_channels(out: &mut Vec<u8>, vs: &Vec<u32>)
    ensures
        final(out)@ == old(out)@ + channel_bytes(vs@),
{
    let mut j: usize = 0;
    while j < vs.len()
        invariant
            j <= vs.len(),
            out@ == old(out)@ + channel_bytes(vs@.take(j as int)),
        decreases vs.len() - j,
    {
        push_u32_be(out, vs[j]);
        proof {
            assert(vs@.take(j + 1).drop_last() =~= vs@.take(j as int));
            assert(out@ =~= old(out)@ + channel_bytes(vs@.take(j + 1)));
        }
        j = j + 1;
    }
    proof {
        assert(vs@.take(vs.len() as int) =~= vs@);
    }
}

/// Appends one full color chunk: the `0x0001` marker, the 32-bit body
/// length, then the body.
fn push_color_chunk(out: &mut Vec<u8>, obj: &ObjectColor)
    requires
        name_ok(obj.name@),
        channels_ok(obj.data),
    ensures
        final(out)@ == old(out)@ + color_chunk_bytes(*obj),
{
    let mut body: Vec<u8> = Vec::new();
    push_name(&mut body, obj.name.as_str());
    push_mode_tag(&mut body, &obj.data.mode);
    push_channels(&mut body, &obj.data.values);
    let role = role_value(&obj.object_type);
    push_u16_be(&mut body, role);
    proof {
        assert(body@ =~= color_body_bytes(*obj));
        lemma_color_body_len(*obj);
    }
    out.push(0x00);
    out.push(0x01);
    push_u32_be(out, body.len() as u32);
    out.append(&mut body);
    proof {
        assert(out@ =~= old(out)@ + color_chunk_bytes(*obj));
    }
}

/// Appends one full swatch-group chunk: the `0xC001` start marker with the
/// length of the encoded group name alone, the name, every member color
/// chunk in order, then the fixed `0xC002` end marker.
fn push_swatch_chunk(out: &mut Vec<u8>, obj: &ObjectSwatch)
    requires
        swatch_names_ok(*obj),
        swatch_channels_ok(*obj),
    ensures
        final(out)@ == old(out)@ + swatch_chunk_bytes(*obj),
{
    let mut body: Vec<u8> = Vec::new();
    push_name(&mut body, obj.name.as_str());
    proof {
        lemma_name_encoding_len(obj.name@);
    }
    out.push(0xC0);
    out.push(0x01);
    push_u32_be(out, body.len() as u32);
    out.append(&mut body);
    let mut j: usize = 0;
    while j < obj.swatches.len()
        invariant
            j <= obj.swatches@.len(),
            swatch_names_ok(*obj),
            swatch_channels_ok(*obj),
            out@ == old(out)@ + seq![0xC0u8, 0x01u8] + be32n(name_encoding(obj.name@).len())
                + name_encoding(obj.name@) + color_chunks_bytes(obj.swatches@.take(j as int)),
        decreases obj.swatches@.len() - j,
    {
        push_color_chunk(out, &obj.swatches[j]);
        proof {
            assert(obj.swatches@.take(j + 1).drop_last() =~= obj.swatches@.take(j as int));
            assert(out@ =~= old(out)@ + seq![0xC0u8, 0x01u8] + be32n(
                name_encoding(obj.name@).len(),
            ) + name_encoding(obj.name@) + color_chunks_bytes(obj.swatches@.take(j + 1)));
        }
        j = j + 1;
    }
    out.push(0xC0);
    out.push(0x02);
    out.push(0x00);
    out.push(0x00);
    out.push(0x00);
    out.push(0x00);
    proof {
        assert(obj.swatches@.take(obj.swatches@.len() as int) =~= obj.swatches@);
        assert(out@ =~= old(out)@ + swatch_chunk_bytes(*obj));
    }
}

/// Computes the document's total chunk count — two markers per swatch
/// group plus one chunk per color, member or standalone — and says whether
/// it fits the 32-bit count field of the header.
pub fn chunk_count(swatch_objects: &Vec<ObjectSwatch>, color_objects: &Vec<ObjectColor>) -> (r:
    Option<u32>)
    ensures
        r is Some <==> count_ok(swatch_objects@, color_objects@),
        r matches Some(c) ==> c as nat == chunk_total(swatch_objects@, color_objects@),
{
    let ghost ss = swatch_objects@;
    let mut count: u64 = 0;
    let mut i: usize = 0;
    while i < swatch_objects.len()
        invariant
            i <= ss.len(),
            ss == swatch_objects@,
            count as nat == swatch_total(ss.take(i as int)),
            count <= 0xFFFFFFFF,
        decreases ss.len() - i,
    {
        let n = swatch_objects[i].swatches.len();
        proof {
            assert(ss.take(i + 1).drop_last() =~= ss.take(i as int));
            lemma_swatch_total_prefix(ss, i + 1);
        }
        if (n as u64) > 0xFFFFFFFF {
            return None;
        }
        let next = count + 2 + (n as u64);
        if next > 0xFFFFFFFF {
            return None;
        }
        count = next;
        i = i + 1;
    }
    proof {
        assert(ss.take(ss.len() as int) =~= ss);
    }
    if (color_objects.len() as u64) > 0xFFFFFFFF {
        return None;
    }
    let total = count + (color_objects.len() as u64);
    if total > 0xFFFFFFFF {
        return None;
    }
    Some(total as u32)
}

/// Builds the self-contained chunk of one standalone color, or reports
/// that its name does not fit the 16-bit length prefix.
pub fn chunk_for_color(obj: &ObjectColor) -> (r: Result<Vec<u8>, AseError>)
    requires
        channels_ok(obj.data),
    ensures
        r is Ok <==> name_ok(obj.name@),
        r matches Ok(bytes) ==> bytes@ == color_chunk_bytes(*obj),
        r matches Err(e) ==> e == AseError::NameTooLong,
{
    if !name_fits(obj.name.as_str()) {
        return Err(AseError::NameTooLong);
    }
    let mut out: Vec<u8> = Vec::new();
    push_color_chunk(&mut out, obj);
    Ok(out)
}

/// Builds the self-contained chunk of one swatch group, member colors
/// included, or reports the first name that does not fit the 16-bit
/// length prefix.
pub fn chunk_for_swatch(obj: &ObjectSwatch) -> (r: Result<Vec<u8>, AseError>)
    requires
        swatch_channels_ok(*obj),
    ensures
        r is Ok <==> swatch_names_ok(*obj),
        r matches Ok(bytes) ==> bytes@ == swatch_chunk_bytes(*obj),
        r matches Err(e) ==> e == AseError::NameTooLong,
{
    if !name_fits(obj.name.as_str()) {
        return Err(AseError::NameTooLong);
    }
    let mut j: usize = 0;
    while j < obj.swatches.len()
        invariant
            j <= obj.swatches@.len(),
            forall|k: int| 0 <= k < j ==> name_ok(#[trigger] obj.swatches@[k].name@),
        decreases obj.swatches@.len() - j,
    {
        if !name_fits(obj.swatches[j].name.as_str()) {
            return Err(AseError::NameTooLong);
        }
        j = j + 1;
    }
    let mut out: Vec<u8> = Vec::new();
    push_swatch_chunk(&mut out, obj);
    Ok(out)
}

/// Encodes a document — the swatch groups, then the standalone colors,
/// both in caller order — as a complete ASE file: header, group chunks,
/// color chunks. Rejects a document with a name whose UTF-16 encoding
/// does not fit a 16-bit length prefix, and one whose chunk count does
/// not fit the 32-bit count field.
pub fn create_ase(swatch_objects: &Vec<ObjectSwatch>, color_objects: &Vec<ObjectColor>) -> (r:
    Result<Vec<u8>, AseError>)
    requires
        doc_channels_ok(swatch_objects@, color_objects@),
    ensures
        r is Ok <==> doc_names_ok(swatch_objects@, color_objects@) && count_ok(
            swatch_objects@,
            color_objects@,
        ),
        r matches Ok(bytes) ==> bytes@ == ase_bytes(swatch_objects@, color_objects@),
        !doc_names_ok(swatch_objects@, color_objects@) ==> r == Err::<Vec<u8>, AseError>(
            AseError::NameTooLong,
        ),
        doc_names_ok(swatch_objects@, color_objects@) && !count_ok(
            swatch_objects@,
            color_objects@,
        ) ==> r == Err::<Vec<u8>, AseError>(AseError::ChunkCountOverflow),
{
    let ghost ss = swatch_objects@;
    let ghost cs = color_objects@;
    let mut i: usize = 0;
    while i < swatch_objects.len()
        invariant
            i <= ss.len(),
            ss == swatch_objects@,
            forall|k: int| 0 <= k < i ==> swatch_names_ok(#[trigger] ss[k]),
        decreases ss.len() - i,
    {
        let group = &swatch_objects[i];
        if !name_fits(group.name.as_str()) {
            return Err(AseError::NameTooLong);
        }
        let mut j: usize = 0;
        while j < group.swatches.len()
            invariant
                i < ss.len(),
                ss == swatch_objects@,
                *group == ss[i as int],
                j <= group.swatches@.len(),
                forall|k: int| 0 <= k < j ==> name_ok(#[trigger] group.swatches@[k].name@),
            decreases group.swatches@.len() - j,
        {
            if !name_fits(group.swatches[j].name.as_str()) {
                return Err(AseError::NameTooLong);
            }
            j = j + 1;
        }
        i = i + 1;
    }
    let mut i: usize = 0;
    while i < color_objects.len()
        invariant
            i <= cs.len(),
            cs == color_objects@,
            forall|k: int| 0 <= k < i ==> name_ok(#[trigger] cs[k].name@),
        decreases cs.len() - i,
    {
        if !name_fits(color_objects[i].name.as_str()) {
            return Err(AseError::NameTooLong);
        }
        i = i + 1;
    }
    let count = match chunk_count(swatch_objects, color_objects) {
        Some(c) => c,
        None => {
            return Err(AseError::ChunkCountOverflow);
        },
    };
    let mut out: Vec<u8> = Vec::new();
    out.push(0x41);
    out.push(0x53);
    out.push(0x45);
    out.push(0x46);
    push_u16_be(&mut out, 1);
    push_u16_be(&mut out, 0);
    push_u32_be(&mut out, count);
    proof {
        assert(out@ =~= header_bytes(chunk_total(ss, cs)));
    }
    let mut i: usize = 0;
    while i < swatch_objects.len()
        invariant
            i <= ss.len(),
            ss == swatch_objects@,
            cs == color_objects@,
            doc_names_ok(ss, cs),
            doc_channels_ok(ss, cs),
            out@ == header_bytes(chunk_total(ss, cs)) + swatch_chunks_bytes(ss.take(i as int)),
        decreases ss.len() - i,
    {
        push_swatch_chunk(&mut out, &swatch_objects[i]);
        proof {
            assert(ss.take(i + 1).drop_last() =~= ss.take(i as int));
            assert(out@ =~= header_bytes(chunk_total(ss, cs)) + swatch_chunks_bytes(
                ss.take(i + 1),
            ));
        }
        i = i + 1;
    }
    proof {
        assert(ss.take(ss.len() as int) =~= ss);
    }
    let mut i: usize = 0;
    while i < color_objects.len()
        invariant
            i <= cs.len(),
            ss == swatch_objects@,
            cs == color_objects@,
            doc_names_ok(ss, cs),
            doc_channels_ok(ss, cs),
            out@ == header_bytes(chunk_total(ss, cs)) + swatch_chunks_bytes(ss)
                + color_chunks_bytes(cs.take(i as int)),
        decreases cs.len() - i,
    {
        push_color_chunk(&mut out, &color_objects[i]);
        proof {
            assert(cs.take(i + 1).drop_last() =~= cs.take(i as int));
            assert(out@ =~= header_bytes(chunk_total(ss, cs)) + swatch_chunks_bytes(ss)
                + color_chunks_bytes(cs.take(i + 1)));
        }
        i = i + 1;
    }
    proof {
        assert(cs.take(cs.len() as int) =~= cs);
        assert(out@ =~= ase_bytes(ss, cs));
    }
    Ok(out)
}

} // verus!
