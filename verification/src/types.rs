use vstd::prelude::*;

verus! {

/// How a color's channel values are to be interpreted.
///
/// The mode determines the conventional number of channel values
/// (`Rgb`/`Lab`: 3, `Cmyk`: 4, `Gray`: 1), but the encoder does not
/// enforce that count: it writes whatever values it is given.
#[derive(Clone, Copy, PartialEq, Eq, Structural, Debug)]
pub enum ColorMode {
    Rgb,
    Lab,
    Cmyk,
    Gray,
}

/// Role of a color object: `Global`, `Spot` or `Process`.
///
/// Encoded in the output as a 16-bit big-endian integer tag
/// (0, 1 and 2 respectively).
#[derive(Clone, Copy, PartialEq, Eq, Structural, Debug)]
pub enum ObjectColorType {
    Global,
    Spot,
    Process,
}

/// Channel data of a single color.
///
/// Each entry of `values` is the IEEE-754 binary32 bit pattern of one
/// channel value; the encoder writes those 32 bits big-endian, so the
/// output holds exactly the float the caller started from.
pub struct Color {
    pub mode: ColorMode,
    pub values: Vec<u32>,
}

/// A named color with its role.
pub struct ObjectColor {
    pub name: String,
    pub object_type: ObjectColorType,
    pub data: Color,
}

/// A named group of colors. The group may be empty.
pub struct ObjectSwatch {
    pub name: String,
    pub swatches: Vec<ObjectColor>,
}

/// The conditions under which an encode request is rejected.
#[derive(Clone, Copy, PartialEq, Eq, Structural, Debug)]
pub enum AseError {
    /// A name's UTF-16 encoding, terminator included, does not fit the
    /// 16-bit length prefix of the format.
    NameTooLong,
    /// The document's total chunk count does not fit the 32-bit count
    /// field of the file header.
    ChunkCountOverflow,
}

} // verus!
