use ase_swatch::chunk_count;
use ase_swatch::chunk_for_color;
use ase_swatch::chunk_for_swatch;
use ase_swatch::create_ase;
use ase_swatch::name_fits;
use ase_swatch::types::AseError;
use ase_swatch::types::Color;
use ase_swatch::types::ColorMode;
use ase_swatch::types::ObjectColor;
use ase_swatch::types::ObjectColorType;
use ase_swatch::types::ObjectSwatch;

fn color(name: &str, role: ObjectColorType, mode: ColorMode, values: &[f32]) -> ObjectColor {
    ObjectColor {
        name: name.to_string(),
        object_type: role,
        data: Color {
            mode,
            values: values.iter().map(|v| v.to_bits()).collect(),
        },
    }
}

#[test]
fn red_color_chunk() {
    let red = color("Red", ObjectColorType::Global, ColorMode::Rgb, &[1.0, 0.0, 0.0]);
    let bytes = chunk_for_color(&red).unwrap();
    let expected: Vec<u8> = vec![
        0x00, 0x01, // color chunk marker
        0x00, 0x00, 0x00, 0x1C, // body length: 2 + 8 + 4 + 12 + 2
        0x00, 0x04, // four UTF-16 units, terminator included
        0x00, 0x52, 0x00, 0x65, 0x00, 0x64, 0x00, 0x00, // "Red\0"
        0x52, 0x47, 0x42, 0x20, // "RGB "
        0x3F, 0x80, 0x00, 0x00, // 1.0f32
        0x00, 0x00, 0x00, 0x00, // 0.0f32
        0x00, 0x00, 0x00, 0x00, // 0.0f32
        0x00, 0x00, // role Global
    ];
    assert_eq!(bytes, expected);
}

#[test]
fn empty_group_chunk() {
    let group = ObjectSwatch {
        name: "Empty".to_string(),
        swatches: vec![],
    };
    let bytes = chunk_for_swatch(&group).unwrap();
    let expected: Vec<u8> = vec![
        0xC0, 0x01, // group start marker
        0x00, 0x00, 0x00, 0x0E, // length of the name encoding alone
        0x00, 0x06, // six UTF-16 units, terminator included
        0x00, 0x45, 0x00, 0x6D, 0x00, 0x70, 0x00, 0x74, 0x00, 0x79, 0x00, 0x00, // "Empty\0"
        0xC0, 0x02, 0x00, 0x00, 0x00, 0x00, // group end marker, no body
    ];
    assert_eq!(bytes, expected);
}

#[test]
fn group_end_marker_closes_member_list() {
    let group = ObjectSwatch {
        name: "G".to_string(),
        swatches: vec![color("x", ObjectColorType::Process, ColorMode::Gray, &[0.5])],
    };
    let bytes = chunk_for_swatch(&group).unwrap();
    assert_eq!(&bytes[bytes.len() - 6..], &[0xC0, 0x02, 0x00, 0x00, 0x00, 0x00]);
    // the start chunk's length field covers the name encoding only
    assert_eq!(&bytes[2..6], &[0x00, 0x00, 0x00, 0x06]);
}

#[test]
fn mode_tags() {
    for (mode, tag) in [
        (ColorMode::Rgb, *b"RGB "),
        (ColorMode::Lab, *b"LAB "),
        (ColorMode::Cmyk, *b"CMYK"),
        (ColorMode::Gray, *b"Gray"),
    ] {
        let c = color("c", ObjectColorType::Global, mode, &[0.0]);
        let bytes = chunk_for_color(&c).unwrap();
        // marker (2) + length (4) + name length (2) + "c\0" (4) = offset 12
        assert_eq!(&bytes[12..16], &tag);
    }
}

#[test]
fn role_tags() {
    for (role, tag) in [
        (ObjectColorType::Global, 0u8),
        (ObjectColorType::Spot, 1u8),
        (ObjectColorType::Process, 2u8),
    ] {
        let c = color("c", role, ColorMode::Gray, &[0.25]);
        let bytes = chunk_for_color(&c).unwrap();
        assert_eq!(&bytes[bytes.len() - 2..], &[0x00, tag]);
    }
}

#[test]
fn lab_channel_bytes_pass_through() {
    // LAB b channel may be negative; the exact binary32 pattern is kept.
    let c = color("L", ObjectColorType::Spot, ColorMode::Lab, &[0.5, 10.0, -12.5]);
    let bytes = chunk_for_color(&c).unwrap();
    let vals = &bytes[16..28];
    assert_eq!(vals[0..4], 0.5f32.to_be_bytes());
    assert_eq!(vals[4..8], 10.0f32.to_be_bytes());
    assert_eq!(vals[8..12], (-12.5f32).to_be_bytes());
}

#[test]
fn surrogate_pair_name() {
    // U+1D11E (musical G clef) takes a UTF-16 surrogate pair.
    let c = color("\u{1D11E}", ObjectColorType::Global, ColorMode::Gray, &[1.0]);
    let bytes = chunk_for_color(&c).unwrap();
    assert_eq!(&bytes[6..8], &[0x00, 0x03]); // two units + terminator
    assert_eq!(&bytes[8..14], &[0xD8, 0x34, 0xDD, 0x1E, 0x00, 0x00]);
}

#[test]
fn empty_document() {
    let bytes = create_ase(&vec![], &vec![]).unwrap();
    let expected: Vec<u8> = vec![
        0x41, 0x53, 0x45, 0x46, // "ASEF"
        0x00, 0x01, 0x00, 0x00, // version 1.0
        0x00, 0x00, 0x00, 0x00, // zero chunks
    ];
    assert_eq!(bytes, expected);
}

#[test]
fn header_chunk_count_sums_groups_and_colors() {
    let swatches = vec![
        ObjectSwatch {
            name: "Palette 1".to_string(),
            swatches: vec![
                color("Red", ObjectColorType::Global, ColorMode::Rgb, &[1.0, 0.0, 0.0]),
                color("Green", ObjectColorType::Global, ColorMode::Rgb, &[0.0, 1.0, 0.0]),
                color("Blue", ObjectColorType::Global, ColorMode::Rgb, &[0.0, 0.0, 1.0]),
            ],
        },
        ObjectSwatch {
            name: "Palette 2".to_string(),
            swatches: vec![],
        },
    ];
    let colors = vec![color("Solo", ObjectColorType::Spot, ColorMode::Cmyk, &[0.0, 0.1, 0.2, 0.3])];
    assert_eq!(chunk_count(&swatches, &colors), Some(8)); // (2+3) + (2+0) + 1
    let bytes = create_ase(&swatches, &colors).unwrap();
    assert_eq!(&bytes[0..4], b"ASEF");
    assert_eq!(&bytes[8..12], &[0x00, 0x00, 0x00, 0x08]);
}

#[test]
fn output_order_follows_input_order() {
    let a = ObjectSwatch {
        name: "A".to_string(),
        swatches: vec![color("a1", ObjectColorType::Global, ColorMode::Gray, &[0.1])],
    };
    let b = ObjectSwatch {
        name: "B".to_string(),
        swatches: vec![],
    };
    let x = color("X", ObjectColorType::Spot, ColorMode::Rgb, &[0.2, 0.4, 0.6]);
    let y = color("Y", ObjectColorType::Process, ColorMode::Gray, &[0.8]);

    let file = create_ase(&vec![a, b], &vec![x, y]).unwrap();

    let a = ObjectSwatch {
        name: "A".to_string(),
        swatches: vec![color("a1", ObjectColorType::Global, ColorMode::Gray, &[0.1])],
    };
    let b = ObjectSwatch {
        name: "B".to_string(),
        swatches: vec![],
    };
    let x = color("X", ObjectColorType::Spot, ColorMode::Rgb, &[0.2, 0.4, 0.6]);
    let y = color("Y", ObjectColorType::Process, ColorMode::Gray, &[0.8]);
    let mut expected: Vec<u8> = vec![0x41, 0x53, 0x45, 0x46, 0x00, 0x01, 0x00, 0x00, 0x00, 0x00, 0x00, 0x07];
    expected.extend(chunk_for_swatch(&a).unwrap());
    expected.extend(chunk_for_swatch(&b).unwrap());
    expected.extend(chunk_for_color(&x).unwrap());
    expected.extend(chunk_for_color(&y).unwrap());
    assert_eq!(file, expected);
}

#[test]
fn name_at_the_length_limit_fits() {
    let name = "a".repeat(65534); // 65534 units + terminator == 65535
    assert!(name_fits(&name));
    let c = color(&name, ObjectColorType::Global, ColorMode::Gray, &[0.0]);
    let bytes = chunk_for_color(&c).unwrap();
    assert_eq!(&bytes[6..8], &[0xFF, 0xFF]);
}

#[test]
fn name_too_long_is_rejected() {
    let name = "a".repeat(65535); // 65535 units + terminator overflows the prefix
    assert!(!name_fits(&name));
    let c = color(&name, ObjectColorType::Global, ColorMode::Gray, &[0.0]);
    assert_eq!(chunk_for_color(&c), Err(AseError::NameTooLong));

    let group = ObjectSwatch {
        name: "ok".to_string(),
        swatches: vec![color(&name, ObjectColorType::Global, ColorMode::Gray, &[0.0])],
    };
    assert_eq!(chunk_for_swatch(&group), Err(AseError::NameTooLong));

    let solo = color(&name, ObjectColorType::Global, ColorMode::Gray, &[0.0]);
    assert_eq!(create_ase(&vec![], &vec![solo]), Err(AseError::NameTooLong));
}

#[test]
fn surrogate_pairs_count_as_two_units() {
    // 32768 astral characters give 65536 units before the terminator.
    let name = "\u{1D11E}".repeat(32768);
    assert!(!name_fits(&name));
    // 32767 of them give 65534 units, which still fits with the terminator.
    let name = "\u{1D11E}".repeat(32767);
    assert!(name_fits(&name));
}

#[test]
fn non_ascii_name_counts_utf16_units() {
    // "Grün" is four characters (five UTF-8 bytes); the length prefix
    // counts UTF-16 units plus the terminator, so it must read five.
    let group = ObjectSwatch {
        name: "Gr\u{FC}n".to_string(),
        swatches: vec![],
    };
    let bytes = chunk_for_swatch(&group).unwrap();
    assert_eq!(&bytes[2..6], &[0x00, 0x00, 0x00, 0x0C]); // 2 + 2 * 5
    assert_eq!(
        &bytes[6..18],
        &[0x00, 0x05, 0x00, 0x47, 0x00, 0x72, 0x00, 0xFC, 0x00, 0x6E, 0x00, 0x00]
    );
}

#[test]
fn empty_name_is_encoded() {
    // The encoder does not validate names; an empty one is one terminator unit.
    let c = color("", ObjectColorType::Global, ColorMode::Gray, &[0.0]);
    let bytes = chunk_for_color(&c).unwrap();
    assert_eq!(&bytes[6..10], &[0x00, 0x01, 0x00, 0x00]);
}

#[test]
fn color_with_no_channels() {
    let c = color("n", ObjectColorType::Global, ColorMode::Rgb, &[]);
    let bytes = chunk_for_color(&c).unwrap();
    // body: 2 + 4 ("n\0") + 4 (tag) + 0 + 2 (role)
    assert_eq!(&bytes[2..6], &[0x00, 0x00, 0x00, 0x0C]);
    assert_eq!(bytes.len(), 6 + 12);
}
