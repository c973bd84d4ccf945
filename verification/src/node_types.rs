use crate::strings::same_text;
use vstd::prelude::*;

verus! {

/// The entry of a type in the registry.
#[derive(Clone, Copy, Debug, PartialEq, Eq, Hash)]
pub struct KbinType {
    /// The id that stands for the type in the node stream.
    pub id: u8,
    /// The name by which text refers to the type.
    pub name: &'static str,
    /// A second name that text may use for the type.
    pub alt_name: Option<&'static str>,
    /// The number of bytes of one lane.
    pub size: i8,
    /// The number of lanes of one value; -1 where the length varies, 0 for a marker.
    pub count: i8,
}

/// How the bytes of one lane of a value are to be read.
#[derive(Clone, Copy, Debug, PartialEq, Eq, Hash)]
pub enum LaneKind {
    /// A two's complement number, most significant byte first.
    Signed,
    /// An unsigned number, most significant byte first.
    Unsigned,
    /// An IEEE 754 number, most significant byte first.
    Float,
    /// One byte that is 0 or 1.
    Bool,
    /// The four bytes of an IPv4 address.
    Ip4,
    /// Text of varying length.
    Text,
    /// Bytes of varying number.
    Binary,
    /// Nothing: the type is a marker of the node stream.
    Marker,
}

/// The types a node can have: the scalars, their vectors, the variable-length
/// types and the markers that structure the node stream.
#[derive(Clone, Copy, Debug, PartialEq, Eq, Hash)]
pub enum StandardType {
    /// A signed 8-bit number.
    S8,
    /// An unsigned 8-bit number.
    U8,
    /// A signed 16-bit number.
    S16,
    /// An unsigned 16-bit number.
    U16,
    /// A signed 32-bit number.
    S32,
    /// An unsigned 32-bit number.
    U32,
    /// A signed 64-bit number.
    S64,
    /// An unsigned 64-bit number.
    U64,
    /// A blob of bytes, written in text as hexadecimal.
    Binary,
    /// A text in the document's encoding.
    String,
    /// An IPv4 address: four bytes, written in text as a dotted quad.
    Ip4,
    /// A point in time as an unsigned 32-bit number.
    Time,
    /// A floating-point 32-bit number.
    Float,
    /// A floating-point 64-bit number.
    Double,
    /// 2 signed 8-bit numbers.
    S8_2,
    /// 2 unsigned 8-bit numbers.
    U8_2,
    /// 2 signed 16-bit numbers.
    S16_2,
    /// 2 unsigned 16-bit numbers.
    U16_2,
    /// 2 signed 32-bit numbers.
    S32_2,
    /// 2 unsigned 32-bit numbers.
    U32_2,
    /// 2 signed 64-bit numbers.
    S64_2,
    /// 2 unsigned 64-bit numbers.
    U64_2,
    /// 2 floating-point 32-bit numbers.
    Float2,
    /// 2 floating-point 64-bit numbers.
    Double2,
    /// 3 signed 8-bit numbers.
    S8_3,
    /// 3 unsigned 8-bit numbers.
    U8_3,
    /// 3 signed 16-bit numbers.
    S16_3,
    /// 3 unsigned 16-bit numbers.
    U16_3,
    /// 3 signed 32-bit numbers.
    S32_3,
    /// 3 unsigned 32-bit numbers.
    U32_3,
    /// 3 signed 64-bit numbers.
    S64_3,
    /// 3 unsigned 64-bit numbers.
    U64_3,
    /// 3 floating-point 32-bit numbers.
    Float3,
    /// 3 floating-point 64-bit numbers.
    Double3,
    /// 4 signed 8-bit numbers.
    S8_4,
    /// 4 unsigned 8-bit numbers.
    U8_4,
    /// 4 signed 16-bit numbers.
    S16_4,
    /// 4 unsigned 16-bit numbers.
    U16_4,
    /// 4 signed 32-bit numbers.
    S32_4,
    /// 4 unsigned 32-bit numbers.
    U32_4,
    /// 4 signed 64-bit numbers.
    S64_4,
    /// 4 unsigned 64-bit numbers.
    U64_4,
    /// 4 floating-point 32-bit numbers.
    Float4,
    /// 4 floating-point 64-bit numbers.
    Double4,
    /// 16 signed 8-bit numbers.
    Vs8,
    /// 16 unsigned 8-bit numbers.
    Vu8,
    /// 8 signed 16-bit numbers.
    Vs16,
    /// 8 unsigned 16-bit numbers.
    Vu16,
    /// A boolean.
    Boolean,
    /// 2 booleans.
    Boolean2,
    /// 3 booleans.
    Boolean3,
    /// 4 booleans.
    Boolean4,
    /// 16 booleans.
    Vb,
    /// An element without a value.
    NodeStart,
    /// An attribute of the element that is open.
    Attribute,
    /// The end of the element that is open.
    NodeEnd,
    /// The end of the document.
    FileEnd,
}

impl StandardType {
    /// The id that stands for the type in the node stream.
    pub open spec fn spec_id(self) -> u8 {
        match self {
            StandardType::S8 => 2u8,
            StandardType::U8 => 3u8,
            StandardType::S16 => 4u8,
            StandardType::U16 => 5u8,
            StandardType::S32 => 6u8,
            StandardType::U32 => 7u8,
            StandardType::S64 => 8u8,
            StandardType::U64 => 9u8,
            StandardType::Binary => 10u8,
            StandardType::String => 11u8,
            StandardType::Ip4 => 12u8,
            StandardType::Time => 13u8,
            StandardType::Float => 14u8,
            StandardType::Double => 15u8,
            StandardType::S8_2 => 16u8,
            StandardType::U8_2 => 17u8,
            StandardType::S16_2 => 18u8,
            StandardType::U16_2 => 19u8,
            StandardType::S32_2 => 20u8,
            StandardType::U32_2 => 21u8,
            StandardType::S64_2 => 22u8,
            StandardType::U64_2 => 23u8,
            StandardType::Float2 => 24u8,
            StandardType::Double2 => 25u8,
            StandardType::S8_3 => 26u8,
            StandardType::U8_3 => 27u8,
            StandardType::S16_3 => 28u8,
            StandardType::U16_3 => 29u8,
            StandardType::S32_3 => 30u8,
            StandardType::U32_3 => 31u8,
            StandardType::S64_3 => 32u8,
            StandardType::U64_3 => 33u8,
            StandardType::Float3 => 34u8,
            StandardType::Double3 => 35u8,
            StandardType::S8_4 => 36u8,
            StandardType::U8_4 => 37u8,
            StandardType::S16_4 => 38u8,
            StandardType::U16_4 => 39u8,
            StandardType::S32_4 => 40u8,
            StandardType::U32_4 => 41u8,
            StandardType::S64_4 => 42u8,
            StandardType::U64_4 => 43u8,
            StandardType::Float4 => 44u8,
            StandardType::Double4 => 45u8,
            StandardType::Vs8 => 48u8,
            StandardType::Vu8 => 49u8,
            StandardType::Vs16 => 50u8,
            StandardType::Vu16 => 51u8,
            StandardType::Boolean => 52u8,
            StandardType::Boolean2 => 53u8,
            StandardType::Boolean3 => 54u8,
            StandardType::Boolean4 => 55u8,
            StandardType::Vb => 56u8,
            StandardType::NodeStart => 1u8,
            StandardType::Attribute => 46u8,
            StandardType::NodeEnd => 190u8,
            StandardType::FileEnd => 191u8,
        }
    }

    /// The id that stands for the type in the node stream.
    pub fn id(&self) -> (r: u8)
        ensures
            r == self.spec_id(),
    {
        match self {
            StandardType::S8 => 2u8,
            StandardType::U8 => 3u8,
            StandardType::S16 => 4u8,
            StandardType::U16 => 5u8,
            StandardType::S32 => 6u8,
            StandardType::U32 => 7u8,
            StandardType::S64 => 8u8,
            StandardType::U64 => 9u8,
            StandardType::Binary => 10u8,
            StandardType::String => 11u8,
            StandardType::Ip4 => 12u8,
            StandardType::Time => 13u8,
            StandardType::Float => 14u8,
            StandardType::Double => 15u8,
            StandardType::S8_2 => 16u8,
            StandardType::U8_2 => 17u8,
            StandardType::S16_2 => 18u8,
            StandardType::U16_2 => 19u8,
            StandardType::S32_2 => 20u8,
            StandardType::U32_2 => 21u8,
            StandardType::S64_2 => 22u8,
            StandardType::U64_2 => 23u8,
            StandardType::Float2 => 24u8,
            StandardType::Double2 => 25u8,
            StandardType::S8_3 => 26u8,
            StandardType::U8_3 => 27u8,
            StandardType::S16_3 => 28u8,
            StandardType::U16_3 => 29u8,
            StandardType::S32_3 => 30u8,
            StandardType::U32_3 => 31u8,
            StandardType::S64_3 => 32u8,
            StandardType::U64_3 => 33u8,
            StandardType::Float3 => 34u8,
            StandardType::Double3 => 35u8,
            StandardType::S8_4 => 36u8,
            StandardType::U8_4 => 37u8,
            StandardType::S16_4 => 38u8,
            StandardType::U16_4 => 39u8,
            StandardType::S32_4 => 40u8,
            StandardType::U32_4 => 41u8,
            StandardType::S64_4 => 42u8,
            StandardType::U64_4 => 43u8,
            StandardType::Float4 => 44u8,
            StandardType::Double4 => 45u8,
            StandardType::Vs8 => 48u8,
            StandardType::Vu8 => 49u8,
            StandardType::Vs16 => 50u8,
            StandardType::Vu16 => 51u8,
            StandardType::Boolean => 52u8,
            StandardType::Boolean2 => 53u8,
            StandardType::Boolean3 => 54u8,
            StandardType::Boolean4 => 55u8,
            StandardType::Vb => 56u8,
            StandardType::NodeStart => 1u8,
            StandardType::Attribute => 46u8,
            StandardType::NodeEnd => 190u8,
            StandardType::FileEnd => 191u8,
        }
    }

    /// The name by which text refers to the type.
    pub open spec fn spec_name(self) -> &'static str {
        match self {
            StandardType::S8 => "s8",
            StandardType::U8 => "u8",
            StandardType::S16 => "s16",
            StandardType::U16 => "u16",
            StandardType::S32 => "s32",
            StandardType::U32 => "u32",
            StandardType::S64 => "s64",
            StandardType::U64 => "u64",
            StandardType::Binary => "bin",
            StandardType::String => "str",
            StandardType::Ip4 => "ip4",
            StandardType::Time => "time",
            StandardType::Float => "float",
            StandardType::Double => "double",
            StandardType::S8_2 => "2s8",
            StandardType::U8_2 => "2u8",
            StandardType::S16_2 => "2s16",
            StandardType::U16_2 => "2u16",
            StandardType::S32_2 => "2s32",
            StandardType::U32_2 => "2u32",
            StandardType::S64_2 => "2s64",
            StandardType::U64_2 => "2u64",
            StandardType::Float2 => "2f",
            StandardType::Double2 => "2d",
            StandardType::S8_3 => "3s8",
            StandardType::U8_3 => "3u8",
            StandardType::S16_3 => "3s16",
            StandardType::U16_3 => "3u16",
            StandardType::S32_3 => "3s32",
            StandardType::U32_3 => "3u32",
            StandardType::S64_3 => "3s64",
            StandardType::U64_3 => "3u64",
            StandardType::Float3 => "3f",
            StandardType::Double3 => "3d",
            StandardType::S8_4 => "4s8",
            StandardType::U8_4 => "4u8",
            StandardType::S16_4 => "4s16",
            StandardType::U16_4 => "4u16",
            StandardType::S32_4 => "4s32",
            StandardType::U32_4 => "4u32",
            StandardType::S64_4 => "4s64",
            StandardType::U64_4 => "4u64",
            StandardType::Float4 => "4f",
            StandardType::Double4 => "4d",
            StandardType::Vs8 => "vs8",
            StandardType::Vu8 => "vu8",
            StandardType::Vs16 => "vs16",
            StandardType::Vu16 => "vu16",
            StandardType::Boolean => "bool",
            StandardType::Boolean2 => "2b",
            StandardType::Boolean3 => "3b",
            StandardType::Boolean4 => "4b",
            StandardType::Vb => "vb",
            StandardType::NodeStart => "void",
            StandardType::Attribute => "attr",
            StandardType::NodeEnd => "nodeEnd",
            StandardType::FileEnd => "fileEnd",
        }
    }

    /// The name by which text refers to the type.
    pub fn name(&self) -> (r: &'static str)
        ensures
            r == self.spec_name(),
    {
        match self {
            StandardType::S8 => "s8",
            StandardType::U8 => "u8",
            StandardType::S16 => "s16",
            StandardType::U16 => "u16",
            StandardType::S32 => "s32",
            StandardType::U32 => "u32",
            StandardType::S64 => "s64",
            StandardType::U64 => "u64",
            StandardType::Binary => "bin",
            StandardType::String => "str",
            StandardType::Ip4 => "ip4",
            StandardType::Time => "time",
            StandardType::Float => "float",
            StandardType::Double => "double",
            StandardType::S8_2 => "2s8",
            StandardType::U8_2 => "2u8",
            StandardType::S16_2 => "2s16",
            StandardType::U16_2 => "2u16",
            StandardType::S32_2 => "2s32",
            StandardType::U32_2 => "2u32",
            StandardType::S64_2 => "2s64",
            StandardType::U64_2 => "2u64",
            StandardType::Float2 => "2f",
            StandardType::Double2 => "2d",
            StandardType::S8_3 => "3s8",
            StandardType::U8_3 => "3u8",
            StandardType::S16_3 => "3s16",
            StandardType::U16_3 => "3u16",
            StandardType::S32_3 => "3s32",
            StandardType::U32_3 => "3u32",
            StandardType::S64_3 => "3s64",
            StandardType::U64_3 => "3u64",
            StandardType::Float3 => "3f",
            StandardType::Double3 => "3d",
            StandardType::S8_4 => "4s8",
            StandardType::U8_4 => "4u8",
            StandardType::S16_4 => "4s16",
            StandardType::U16_4 => "4u16",
            StandardType::S32_4 => "4s32",
            StandardType::U32_4 => "4u32",
            StandardType::S64_4 => "4s64",
            StandardType::U64_4 => "4u64",
            StandardType::Float4 => "4f",
            StandardType::Double4 => "4d",
            StandardType::Vs8 => "vs8",
            StandardType::Vu8 => "vu8",
            StandardType::Vs16 => "vs16",
            StandardType::Vu16 => "vu16",
            StandardType::Boolean => "bool",
            StandardType::Boolean2 => "2b",
            StandardType::Boolean3 => "3b",
            StandardType::Boolean4 => "4b",
            StandardType::Vb => "vb",
            StandardType::NodeStart => "void",
            StandardType::Attribute => "attr",
            StandardType::NodeEnd => "nodeEnd",
            StandardType::FileEnd => "fileEnd",
        }
    }

    /// A second name that text may use for the type, if there is one.
    pub open spec fn spec_alt_name(self) -> Option<&'static str> {
        match self {
            StandardType::S8 => None,
            StandardType::U8 => None,
            StandardType::S16 => None,
            StandardType::U16 => None,
            StandardType::S32 => None,
            StandardType::U32 => None,
            StandardType::S64 => None,
            StandardType::U64 => None,
            StandardType::Binary => Some("binary"),
            StandardType::String => Some("string"),
            StandardType::Ip4 => None,
            StandardType::Time => None,
            StandardType::Float => Some("f"),
            StandardType::Double => Some("d"),
            StandardType::S8_2 => None,
            StandardType::U8_2 => None,
            StandardType::S16_2 => None,
            StandardType::U16_2 => None,
            StandardType::S32_2 => None,
            StandardType::U32_2 => None,
            StandardType::S64_2 => Some("vs64"),
            StandardType::U64_2 => Some("vu64"),
            StandardType::Float2 => None,
            StandardType::Double2 => Some("vd"),
            StandardType::S8_3 => None,
            StandardType::U8_3 => None,
            StandardType::S16_3 => None,
            StandardType::U16_3 => None,
            StandardType::S32_3 => None,
            StandardType::U32_3 => None,
            StandardType::S64_3 => None,
            StandardType::U64_3 => None,
            StandardType::Float3 => None,
            StandardType::Double3 => None,
            StandardType::S8_4 => None,
            StandardType::U8_4 => None,
            StandardType::S16_4 => None,
            StandardType::U16_4 => None,
            StandardType::S32_4 => Some("vs32"),
            StandardType::U32_4 => Some("vu32"),
            StandardType::S64_4 => None,
            StandardType::U64_4 => None,
            StandardType::Float4 => Some("vf"),
            StandardType::Double4 => None,
            StandardType::Vs8 => None,
            StandardType::Vu8 => None,
            StandardType::Vs16 => None,
            StandardType::Vu16 => None,
            StandardType::Boolean => Some("b"),
            StandardType::Boolean2 => None,
            StandardType::Boolean3 => None,
            StandardType::Boolean4 => None,
            StandardType::Vb => None,
            StandardType::NodeStart => None,
            StandardType::Attribute => None,
            StandardType::NodeEnd => None,
            StandardType::FileEnd => None,
        }
    }

    /// A second name that text may use for the type, if there is one.
    pub fn alt_name(&self) -> (r: Option<&'static str>)
        ensures
            r == self.spec_alt_name(),
    {
        match self {
            StandardType::S8 => None,
            StandardType::U8 => None,
            StandardType::S16 => None,
            StandardType::U16 => None,
            StandardType::S32 => None,
            StandardType::U32 => None,
            StandardType::S64 => None,
            StandardType::U64 => None,
            StandardType::Binary => Some("binary"),
            StandardType::String => Some("string"),
            StandardType::Ip4 => None,
            StandardType::Time => None,
            StandardType::Float => Some("f"),
            StandardType::Double => Some("d"),
            StandardType::S8_2 => None,
            StandardType::U8_2 => None,
            StandardType::S16_2 => None,
            StandardType::U16_2 => None,
            StandardType::S32_2 => None,
            StandardType::U32_2 => None,
            StandardType::S64_2 => Some("vs64"),
            StandardType::U64_2 => Some("vu64"),
            StandardType::Float2 => None,
            StandardType::Double2 => Some("vd"),
            StandardType::S8_3 => None,
            StandardType::U8_3 => None,
            StandardType::S16_3 => None,
            StandardType::U16_3 => None,
            StandardType::S32_3 => None,
            StandardType::U32_3 => None,
            StandardType::S64_3 => None,
            StandardType::U64_3 => None,
            StandardType::Float3 => None,
            StandardType::Double3 => None,
            StandardType::S8_4 => None,
            StandardType::U8_4 => None,
            StandardType::S16_4 => None,
            StandardType::U16_4 => None,
            StandardType::S32_4 => Some("vs32"),
            StandardType::U32_4 => Some("vu32"),
            StandardType::S64_4 => None,
            StandardType::U64_4 => None,
            StandardType::Float4 => Some("vf"),
            StandardType::Double4 => None,
            StandardType::Vs8 => None,
            StandardType::Vu8 => None,
            StandardType::Vs16 => None,
            StandardType::Vu16 => None,
            StandardType::Boolean => Some("b"),
            StandardType::Boolean2 => None,
            StandardType::Boolean3 => None,
            StandardType::Boolean4 => None,
            StandardType::Vb => None,
            StandardType::NodeStart => None,
            StandardType::Attribute => None,
            StandardType::NodeEnd => None,
            StandardType::FileEnd => None,
        }
    }

    /// The number of bytes of one lane.
    pub open spec fn spec_size(self) -> i8 {
        match self {
            StandardType::S8 => 1i8,
            StandardType::U8 => 1i8,
            StandardType::S16 => 2i8,
            StandardType::U16 => 2i8,
            StandardType::S32 => 4i8,
            StandardType::U32 => 4i8,
            StandardType::S64 => 8i8,
            StandardType::U64 => 8i8,
            StandardType::Binary => 1i8,
            StandardType::String => 1i8,
            StandardType::Ip4 => 4i8,
            StandardType::Time => 4i8,
            StandardType::Float => 4i8,
            StandardType::Double => 8i8,
            StandardType::S8_2 => 1i8,
            StandardType::U8_2 => 1i8,
            StandardType::S16_2 => 2i8,
            StandardType::U16_2 => 2i8,
            StandardType::S32_2 => 4i8,
            StandardType::U32_2 => 4i8,
            StandardType::S64_2 => 8i8,
            StandardType::U64_2 => 8i8,
            StandardType::Float2 => 4i8,
            StandardType::Double2 => 8i8,
            StandardType::S8_3 => 1i8,
            StandardType::U8_3 => 1i8,
            StandardType::S16_3 => 2i8,
            StandardType::U16_3 => 2i8,
            StandardType::S32_3 => 4i8,
            StandardType::U32_3 => 4i8,
            StandardType::S64_3 => 8i8,
            StandardType::U64_3 => 8i8,
            StandardType::Float3 => 4i8,
            StandardType::Double3 => 8i8,
            StandardType::S8_4 => 1i8,
            StandardType::U8_4 => 1i8,
            StandardType::S16_4 => 2i8,
            StandardType::U16_4 => 2i8,
            StandardType::S32_4 => 4i8,
            StandardType::U32_4 => 4i8,
            StandardType::S64_4 => 8i8,
            StandardType::U64_4 => 8i8,
            StandardType::Float4 => 4i8,
            StandardType::Double4 => 8i8,
            StandardType::Vs8 => 1i8,
            StandardType::Vu8 => 1i8,
            StandardType::Vs16 => 2i8,
            StandardType::Vu16 => 2i8,
            StandardType::Boolean => 1i8,
            StandardType::Boolean2 => 1i8,
            StandardType::Boolean3 => 1i8,
            StandardType::Boolean4 => 1i8,
            StandardType::Vb => 1i8,
            StandardType::NodeStart => 0i8,
            StandardType::Attribute => 0i8,
            StandardType::NodeEnd => 0i8,
            StandardType::FileEnd => 0i8,
        }
    }

    /// The number of bytes of one lane.
    pub fn size(&self) -> (r: i8)
        ensures
            r == self.spec_size(),
    {
        match self {
            StandardType::S8 => 1i8,
            StandardType::U8 => 1i8,
            StandardType::S16 => 2i8,
            StandardType::U16 => 2i8,
            StandardType::S32 => 4i8,
            StandardType::U32 => 4i8,
            StandardType::S64 => 8i8,
            StandardType::U64 => 8i8,
            StandardType::Binary => 1i8,
            StandardType::String => 1i8,
            StandardType::Ip4 => 4i8,
            StandardType::Time => 4i8,
            StandardType::Float => 4i8,
            StandardType::Double => 8i8,
            StandardType::S8_2 => 1i8,
            StandardType::U8_2 => 1i8,
            StandardType::S16_2 => 2i8,
            StandardType::U16_2 => 2i8,
            StandardType::S32_2 => 4i8,
            StandardType::U32_2 => 4i8,
            StandardType::S64_2 => 8i8,
            StandardType::U64_2 => 8i8,
            StandardType::Float2 => 4i8,
            StandardType::Double2 => 8i8,
            StandardType::S8_3 => 1i8,
            StandardType::U8_3 => 1i8,
            StandardType::S16_3 => 2i8,
            StandardType::U16_3 => 2i8,
            StandardType::S32_3 => 4i8,
            StandardType::U32_3 => 4i8,
            StandardType::S64_3 => 8i8,
            StandardType::U64_3 => 8i8,
            StandardType::Float3 => 4i8,
            StandardType::Double3 => 8i8,
            StandardType::S8_4 => 1i8,
            StandardType::U8_4 => 1i8,
            StandardType::S16_4 => 2i8,
            StandardType::U16_4 => 2i8,
            StandardType::S32_4 => 4i8,
            StandardType::U32_4 => 4i8,
            StandardType::S64_4 => 8i8,
            StandardType::U64_4 => 8i8,
            StandardType::Float4 => 4i8,
            StandardType::Double4 => 8i8,
            StandardType::Vs8 => 1i8,
            StandardType::Vu8 => 1i8,
            StandardType::Vs16 => 2i8,
            StandardType::Vu16 => 2i8,
            StandardType::Boolean => 1i8,
            StandardType::Boolean2 => 1i8,
            StandardType::Boolean3 => 1i8,
            StandardType::Boolean4 => 1i8,
            StandardType::Vb => 1i8,
            StandardType::NodeStart => 0i8,
            StandardType::Attribute => 0i8,
            StandardType::NodeEnd => 0i8,
            StandardType::FileEnd => 0i8,
        }
    }

    /// The number of lanes of one value; -1 where the length varies, 0 for a marker.
    pub open spec fn spec_count(self) -> i8 {
        match self {
            StandardType::S8 => 1i8,
            StandardType::U8 => 1i8,
            StandardType::S16 => 1i8,
            StandardType::U16 => 1i8,
            StandardType::S32 => 1i8,
            StandardType::U32 => 1i8,
            StandardType::S64 => 1i8,
            StandardType::U64 => 1i8,
            StandardType::Binary => -1i8,
            StandardType::String => -1i8,
            StandardType::Ip4 => 1i8,
            StandardType::Time => 1i8,
            StandardType::Float => 1i8,
            StandardType::Double => 1i8,
            StandardType::S8_2 => 2i8,
            StandardType::U8_2 => 2i8,
            StandardType::S16_2 => 2i8,
            StandardType::U16_2 => 2i8,
            StandardType::S32_2 => 2i8,
            StandardType::U32_2 => 2i8,
            StandardType::S64_2 => 2i8,
            StandardType::U64_2 => 2i8,
            StandardType::Float2 => 2i8,
            StandardType::Double2 => 2i8,
            StandardType::S8_3 => 3i8,
            StandardType::U8_3 => 3i8,
            StandardType::S16_3 => 3i8,
            StandardType::U16_3 => 3i8,
            StandardType::S32_3 => 3i8,
            StandardType::U32_3 => 3i8,
            StandardType::S64_3 => 3i8,
            StandardType::U64_3 => 3i8,
            StandardType::Float3 => 3i8,
            StandardType::Double3 => 3i8,
            StandardType::S8_4 => 4i8,
            StandardType::U8_4 => 4i8,
            StandardType::S16_4 => 4i8,
            StandardType::U16_4 => 4i8,
            StandardType::S32_4 => 4i8,
            StandardType::U32_4 => 4i8,
            StandardType::S64_4 => 4i8,
            StandardType::U64_4 => 4i8,
            StandardType::Float4 => 4i8,
            StandardType::Double4 => 4i8,
            StandardType::Vs8 => 16i8,
            StandardType::Vu8 => 16i8,
            StandardType::Vs16 => 8i8,
            StandardType::Vu16 => 8i8,
            StandardType::Boolean => 1i8,
            StandardType::Boolean2 => 2i8,
            StandardType::Boolean3 => 3i8,
            StandardType::Boolean4 => 4i8,
            StandardType::Vb => 16i8,
            StandardType::NodeStart => 0i8,
            StandardType::Attribute => 0i8,
            StandardType::NodeEnd => 0i8,
            StandardType::FileEnd => 0i8,
        }
    }

    /// The number of lanes of one value; -1 where the length varies, 0 for a marker.
    pub fn count(&self) -> (r: i8)
        ensures
            r == self.spec_count(),
    {
        match self {
            StandardType::S8 => 1i8,
            StandardType::U8 => 1i8,
            StandardType::S16 => 1i8,
            StandardType::U16 => 1i8,
            StandardType::S32 => 1i8,
            StandardType::U32 => 1i8,
            StandardType::S64 => 1i8,
            StandardType::U64 => 1i8,
            StandardType::Binary => -1i8,
            StandardType::String => -1i8,
            StandardType::Ip4 => 1i8,
            StandardType::Time => 1i8,
            StandardType::Float => 1i8,
            StandardType::Double => 1i8,
            StandardType::S8_2 => 2i8,
            StandardType::U8_2 => 2i8,
            StandardType::S16_2 => 2i8,
            StandardType::U16_2 => 2i8,
            StandardType::S32_2 => 2i8,
            StandardType::U32_2 => 2i8,
            StandardType::S64_2 => 2i8,
            StandardType::U64_2 => 2i8,
            StandardType::Float2 => 2i8,
            StandardType::Double2 => 2i8,
            StandardType::S8_3 => 3i8,
            StandardType::U8_3 => 3i8,
            StandardType::S16_3 => 3i8,
            StandardType::U16_3 => 3i8,
            StandardType::S32_3 => 3i8,
            StandardType::U32_3 => 3i8,
            StandardType::S64_3 => 3i8,
            StandardType::U64_3 => 3i8,
            StandardType::Float3 => 3i8,
            StandardType::Double3 => 3i8,
            StandardType::S8_4 => 4i8,
            StandardType::U8_4 => 4i8,
            StandardType::S16_4 => 4i8,
            StandardType::U16_4 => 4i8,
            StandardType::S32_4 => 4i8,
            StandardType::U32_4 => 4i8,
            StandardType::S64_4 => 4i8,
            StandardType::U64_4 => 4i8,
            StandardType::Float4 => 4i8,
            StandardType::Double4 => 4i8,
            StandardType::Vs8 => 16i8,
            StandardType::Vu8 => 16i8,
            StandardType::Vs16 => 8i8,
            StandardType::Vu16 => 8i8,
            StandardType::Boolean => 1i8,
            StandardType::Boolean2 => 2i8,
            StandardType::Boolean3 => 3i8,
            StandardType::Boolean4 => 4i8,
            StandardType::Vb => 16i8,
            StandardType::NodeStart => 0i8,
            StandardType::Attribute => 0i8,
            StandardType::NodeEnd => 0i8,
            StandardType::FileEnd => 0i8,
        }
    }

    /// How the bytes of a lane are to be read.
    pub open spec fn spec_kind(self) -> LaneKind {
        match self {
            StandardType::S8 => LaneKind::Signed,
            StandardType::U8 => LaneKind::Unsigned,
            StandardType::S16 => LaneKind::Signed,
            StandardType::U16 => LaneKind::Unsigned,
            StandardType::S32 => LaneKind::Signed,
            StandardType::U32 => LaneKind::Unsigned,
            StandardType::S64 => LaneKind::Signed,
            StandardType::U64 => LaneKind::Unsigned,
            StandardType::Binary => LaneKind::Binary,
            StandardType::String => LaneKind::Text,
            StandardType::Ip4 => LaneKind::Ip4,
            StandardType::Time => LaneKind::Unsigned,
            StandardType::Float => LaneKind::Float,
            StandardType::Double => LaneKind::Float,
            StandardType::S8_2 => LaneKind::Signed,
            StandardType::U8_2 => LaneKind::Unsigned,
            StandardType::S16_2 => LaneKind::Signed,
            StandardType::U16_2 => LaneKind::Unsigned,
            StandardType::S32_2 => LaneKind::Signed,
            StandardType::U32_2 => LaneKind::Unsigned,
            StandardType::S64_2 => LaneKind::Signed,
            StandardType::U64_2 => LaneKind::Unsigned,
            StandardType::Float2 => LaneKind::Float,
            StandardType::Double2 => LaneKind::Float,
            StandardType::S8_3 => LaneKind::Signed,
            StandardType::U8_3 => LaneKind::Unsigned,
            StandardType::S16_3 => LaneKind::Signed,
            StandardType::U16_3 => LaneKind::Unsigned,
            StandardType::S32_3 => LaneKind::Signed,
            StandardType::U32_3 => LaneKind::Unsigned,
            StandardType::S64_3 => LaneKind::Signed,
            StandardType::U64_3 => LaneKind::Unsigned,
            StandardType::Float3 => LaneKind::Float,
            StandardType::Double3 => LaneKind::Float,
            StandardType::S8_4 => LaneKind::Signed,
            StandardType::U8_4 => LaneKind::Unsigned,
            StandardType::S16_4 => LaneKind::Signed,
            StandardType::U16_4 => LaneKind::Unsigned,
            StandardType::S32_4 => LaneKind::Signed,
            StandardType::U32_4 => LaneKind::Unsigned,
            StandardType::S64_4 => LaneKind::Signed,
            StandardType::U64_4 => LaneKind::Unsigned,
            StandardType::Float4 => LaneKind::Float,
            StandardType::Double4 => LaneKind::Float,
            StandardType::Vs8 => LaneKind::Signed,
            StandardType::Vu8 => LaneKind::Unsigned,
            StandardType::Vs16 => LaneKind::Signed,
            StandardType::Vu16 => LaneKind::Unsigned,
            StandardType::Boolean => LaneKind::Bool,
            StandardType::Boolean2 => LaneKind::Bool,
            StandardType::Boolean3 => LaneKind::Bool,
            StandardType::Boolean4 => LaneKind::Bool,
            StandardType::Vb => LaneKind::Bool,
            StandardType::NodeStart => LaneKind::Marker,
            StandardType::Attribute => LaneKind::Marker,
            StandardType::NodeEnd => LaneKind::Marker,
            StandardType::FileEnd => LaneKind::Marker,
        }
    }

    /// How the bytes of a lane are to be read.
    pub fn kind(&self) -> (r: LaneKind)
        ensures
            r == self.spec_kind(),
    {
        match self {
            StandardType::S8 => LaneKind::Signed,
            StandardType::U8 => LaneKind::Unsigned,
            StandardType::S16 => LaneKind::Signed,
            StandardType::U16 => LaneKind::Unsigned,
            StandardType::S32 => LaneKind::Signed,
            StandardType::U32 => LaneKind::Unsigned,
            StandardType::S64 => LaneKind::Signed,
            StandardType::U64 => LaneKind::Unsigned,
            StandardType::Binary => LaneKind::Binary,
            StandardType::String => LaneKind::Text,
            StandardType::Ip4 => LaneKind::Ip4,
            StandardType::Time => LaneKind::Unsigned,
            StandardType::Float => LaneKind::Float,
            StandardType::Double => LaneKind::Float,
            StandardType::S8_2 => LaneKind::Signed,
            StandardType::U8_2 => LaneKind::Unsigned,
            StandardType::S16_2 => LaneKind::Signed,
            StandardType::U16_2 => LaneKind::Unsigned,
            StandardType::S32_2 => LaneKind::Signed,
            StandardType::U32_2 => LaneKind::Unsigned,
            StandardType::S64_2 => LaneKind::Signed,
            StandardType::U64_2 => LaneKind::Unsigned,
            StandardType::Float2 => LaneKind::Float,
            StandardType::Double2 => LaneKind::Float,
            StandardType::S8_3 => LaneKind::Signed,
            StandardType::U8_3 => LaneKind::Unsigned,
            StandardType::S16_3 => LaneKind::Signed,
            StandardType::U16_3 => LaneKind::Unsigned,
            StandardType::S32_3 => LaneKind::Signed,
            StandardType::U32_3 => LaneKind::Unsigned,
            StandardType::S64_3 => LaneKind::Signed,
            StandardType::U64_3 => LaneKind::Unsigned,
            StandardType::Float3 => LaneKind::Float,
            StandardType::Double3 => LaneKind::Float,
            StandardType::S8_4 => LaneKind::Signed,
            StandardType::U8_4 => LaneKind::Unsigned,
            StandardType::S16_4 => LaneKind::Signed,
            StandardType::U16_4 => LaneKind::Unsigned,
            StandardType::S32_4 => LaneKind::Signed,
            StandardType::U32_4 => LaneKind::Unsigned,
            StandardType::S64_4 => LaneKind::Signed,
            StandardType::U64_4 => LaneKind::Unsigned,
            StandardType::Float4 => LaneKind::Float,
            StandardType::Double4 => LaneKind::Float,
            StandardType::Vs8 => LaneKind::Signed,
            StandardType::Vu8 => LaneKind::Unsigned,
            StandardType::Vs16 => LaneKind::Signed,
            StandardType::Vu16 => LaneKind::Unsigned,
            StandardType::Boolean => LaneKind::Bool,
            StandardType::Boolean2 => LaneKind::Bool,
            StandardType::Boolean3 => LaneKind::Bool,
            StandardType::Boolean4 => LaneKind::Bool,
            StandardType::Vb => LaneKind::Bool,
            StandardType::NodeStart => LaneKind::Marker,
            StandardType::Attribute => LaneKind::Marker,
            StandardType::NodeEnd => LaneKind::Marker,
            StandardType::FileEnd => LaneKind::Marker,
        }
    }

    /// The type that `id` stands for, if any.
    pub open spec fn spec_from_u8(id: u8) -> Option<StandardType> {
        match id {
            1 => Some(StandardType::NodeStart),
            2 => Some(StandardType::S8),
            3 => Some(StandardType::U8),
            4 => Some(StandardType::S16),
            5 => Some(StandardType::U16),
            6 => Some(StandardType::S32),
            7 => Some(StandardType::U32),
            8 => Some(StandardType::S64),
            9 => Some(StandardType::U64),
            10 => Some(StandardType::Binary),
            11 => Some(StandardType::String),
            12 => Some(StandardType::Ip4),
            13 => Some(StandardType::Time),
            14 => Some(StandardType::Float),
            15 => Some(StandardType::Double),
            16 => Some(StandardType::S8_2),
            17 => Some(StandardType::U8_2),
            18 => Some(StandardType::S16_2),
            19 => Some(StandardType::U16_2),
            20 => Some(StandardType::S32_2),
            21 => Some(StandardType::U32_2),
            22 => Some(StandardType::S64_2),
            23 => Some(StandardType::U64_2),
            24 => Some(StandardType::Float2),
            25 => Some(StandardType::Double2),
            26 => Some(StandardType::S8_3),
            27 => Some(StandardType::U8_3),
            28 => Some(StandardType::S16_3),
            29 => Some(StandardType::U16_3),
            30 => Some(StandardType::S32_3),
            31 => Some(StandardType::U32_3),
            32 => Some(StandardType::S64_3),
            33 => Some(StandardType::U64_3),
            34 => Some(StandardType::Float3),
            35 => Some(StandardType::Double3),
            36 => Some(StandardType::S8_4),
            37 => Some(StandardType::U8_4),
            38 => Some(StandardType::S16_4),
            39 => Some(StandardType::U16_4),
            40 => Some(StandardType::S32_4),
            41 => Some(StandardType::U32_4),
            42 => Some(StandardType::S64_4),
            43 => Some(StandardType::U64_4),
            44 => Some(StandardType::Float4),
            45 => Some(StandardType::Double4),
            46 => Some(StandardType::Attribute),
            48 => Some(StandardType::Vs8),
            49 => Some(StandardType::Vu8),
            50 => Some(StandardType::Vs16),
            51 => Some(StandardType::Vu16),
            52 => Some(StandardType::Boolean),
            53 => Some(StandardType::Boolean2),
            54 => Some(StandardType::Boolean3),
            55 => Some(StandardType::Boolean4),
            56 => Some(StandardType::Vb),
            190 => Some(StandardType::NodeEnd),
            191 => Some(StandardType::FileEnd),
            _ => None,
        }
    }

    /// The type that `id` stands for, if any.
    pub fn from_u8(id: u8) -> (r: Option<StandardType>)
        ensures
            r == Self::spec_from_u8(id),
    {
        match id {
            1 => Some(StandardType::NodeStart),
            2 => Some(StandardType::S8),
            3 => Some(StandardType::U8),
            4 => Some(StandardType::S16),
            5 => Some(StandardType::U16),
            6 => Some(StandardType::S32),
            7 => Some(StandardType::U32),
            8 => Some(StandardType::S64),
            9 => Some(StandardType::U64),
            10 => Some(StandardType::Binary),
            11 => Some(StandardType::String),
            12 => Some(StandardType::Ip4),
            13 => Some(StandardType::Time),
            14 => Some(StandardType::Float),
            15 => Some(StandardType::Double),
            16 => Some(StandardType::S8_2),
            17 => Some(StandardType::U8_2),
            18 => Some(StandardType::S16_2),
            19 => Some(StandardType::U16_2),
            20 => Some(StandardType::S32_2),
            21 => Some(StandardType::U32_2),
            22 => Some(StandardType::S64_2),
            23 => Some(StandardType::U64_2),
            24 => Some(StandardType::Float2),
            25 => Some(StandardType::Double2),
            26 => Some(StandardType::S8_3),
            27 => Some(StandardType::U8_3),
            28 => Some(StandardType::S16_3),
            29 => Some(StandardType::U16_3),
            30 => Some(StandardType::S32_3),
            31 => Some(StandardType::U32_3),
            32 => Some(StandardType::S64_3),
            33 => Some(StandardType::U64_3),
            34 => Some(StandardType::Float3),
            35 => Some(StandardType::Double3),
            36 => Some(StandardType::S8_4),
            37 => Some(StandardType::U8_4),
            38 => Some(StandardType::S16_4),
            39 => Some(StandardType::U16_4),
            40 => Some(StandardType::S32_4),
            41 => Some(StandardType::U32_4),
            42 => Some(StandardType::S64_4),
            43 => Some(StandardType::U64_4),
            44 => Some(StandardType::Float4),
            45 => Some(StandardType::Double4),
            46 => Some(StandardType::Attribute),
            48 => Some(StandardType::Vs8),
            49 => Some(StandardType::Vu8),
            50 => Some(StandardType::Vs16),
            51 => Some(StandardType::Vu16),
            52 => Some(StandardType::Boolean),
            53 => Some(StandardType::Boolean2),
            54 => Some(StandardType::Boolean3),
            55 => Some(StandardType::Boolean4),
            56 => Some(StandardType::Vb),
            190 => Some(StandardType::NodeEnd),
            191 => Some(StandardType::FileEnd),
            _ => None,
        }
    }

    /// The registry entry of the type.
    pub fn kbin_type(&self) -> (r: KbinType)
        ensures
            r.id == self.spec_id(),
            r.name == self.spec_name(),
            r.alt_name == self.spec_alt_name(),
            r.size == self.spec_size(),
            r.count == self.spec_count(),
    {
        KbinType {
            id: self.id(),
            name: self.name(),
            alt_name: self.alt_name(),
            size: self.size(),
            count: self.count(),
        }
    }

    /// Whether text may call the type `name`.
    pub open spec fn named(self, name: Seq<char>) -> bool {
        self.spec_name()@ == name || match self.spec_alt_name() {
            Some(alt) => alt@ == name,
            None => false,
        }
    }

    /// The type of the lowest id, not below `from`, that text may call `name`.
    pub open spec fn find_name(name: Seq<char>, from: nat) -> Option<StandardType>
        decreases 256 - from,
    {
        if from >= 256 {
            None
        } else {
            match Self::spec_from_u8(from as u8) {
                Some(t) => if t.named(name) {
                    Some(t)
                } else {
                    Self::find_name(name, from + 1)
                },
                None => Self::find_name(name, from + 1),
            }
        }
    }

    /// The type that text calls `name`, by its name or by its second name.
    pub open spec fn spec_from_name(name: Seq<char>) -> Option<StandardType> {
        Self::find_name(name, 0)
    }

    /// The type that text calls `name`, by its name or by its second name.
    pub fn from_name(name: &str) -> (r: Option<StandardType>)
        ensures
            r == Self::spec_from_name(name@),
    {
        let mut id: u8 = 0;
        loop
            invariant
                Self::spec_from_name(name@) == Self::find_name(name@, id as nat),
            decreases 256 - id,
        {
            match Self::from_u8(id) {
                Some(t) => {
                    let by_name = same_text(t.name(), name);
                    let by_alt = match t.alt_name() {
                        Some(alt) => same_text(alt, name),
                        None => false,
                    };
                    if by_name || by_alt {
                        return Some(t);
                    }
                },
                None => {},
            }
            if id == 255 {
                assert(Self::find_name(name@, 256) == None::<StandardType>);
                return None;
            }
            id += 1;
        }
    }

    /// Whether a value of the type is made of lanes of a fixed size.
    pub open spec fn has_lanes(self) -> bool {
        self.spec_count() >= 1
    }

    /// The number of bytes of one value of a type with lanes.
    pub open spec fn footprint(self) -> nat {
        (self.spec_size() * self.spec_count()) as nat
    }
}

/// Every type is found again by its id.
pub proof fn lemma_from_u8_of_id(t: StandardType)
    ensures
        StandardType::spec_from_u8(t.spec_id()) == Some(t),
{
}

/// An id stands for at most one type.
pub proof fn lemma_id_of_from_u8(id: u8)
    ensures
        match StandardType::spec_from_u8(id) {
            Some(t) => t.spec_id() == id,
            None => true,
        },
{
}

/// A number that tells short names apart: the codes of the first seven
/// characters and the length, one after the other. Names that are equal have
/// the same print, so that names with different prints differ.
pub open spec fn name_print(name: Seq<char>) -> int {
    let code = |i: int|
        if i < name.len() {
            name[i] as int
        } else {
            0
        };
    code(0) + 0x100 * (code(1) + 0x100 * (code(2) + 0x100 * (code(3) + 0x100 * (code(4) + 0x100
        * (code(5) + 0x100 * (code(6) + 0x100 * name.len()))))))
}

impl StandardType {
    /// The print of the name of the type: see `name_print`.
    pub open spec fn spec_name_print(self) -> int {
        match self {
            StandardType::S8 => 144115188075870323,
            StandardType::U8 => 144115188075870325,
            StandardType::S16 => 216172782117335411,
            StandardType::U16 => 216172782117335413,
            StandardType::S32 => 216172782117073779,
            StandardType::U32 => 216172782117073781,
            StandardType::S64 => 216172782117205619,
            StandardType::U64 => 216172782117205621,
            StandardType::Binary => 216172782121019746,
            StandardType::String => 216172782121284723,
            StandardType::Ip4 => 216172782117220457,
            StandardType::Time => 288230377853380980,
            StandardType::Float => 360288470040538214,
            StandardType::Double => 432457080410304356,
            StandardType::S8_2 => 216172782117483314,
            StandardType::U8_2 => 216172782117483826,
            StandardType::S16_2 => 288230377060922162,
            StandardType::U16_2 => 288230377060922674,
            StandardType::S32_2 => 288230376993944370,
            StandardType::U32_2 => 288230376993944882,
            StandardType::S64_2 => 288230377027695410,
            StandardType::U64_2 => 288230377027695922,
            StandardType::Float2 => 144115188075882034,
            StandardType::Double2 => 144115188075881522,
            StandardType::S8_3 => 216172782117483315,
            StandardType::U8_3 => 216172782117483827,
            StandardType::S16_3 => 288230377060922163,
            StandardType::U16_3 => 288230377060922675,
            StandardType::S32_3 => 288230376993944371,
            StandardType::U32_3 => 288230376993944883,
            StandardType::S64_3 => 288230377027695411,
            StandardType::U64_3 => 288230377027695923,
            StandardType::Float3 => 144115188075882035,
            StandardType::Double3 => 144115188075881523,
            StandardType::S8_4 => 216172782117483316,
            StandardType::U8_4 => 216172782117483828,
            StandardType::S16_4 => 288230377060922164,
            StandardType::U16_4 => 288230377060922676,
            StandardType::S32_4 => 288230376993944372,
            StandardType::U32_4 => 288230376993944884,
            StandardType::S64_4 => 288230377027695412,
            StandardType::U64_4 => 288230377027695924,
            StandardType::Float4 => 144115188075882036,
            StandardType::Double4 => 144115188075881524,
            StandardType::Vs8 => 216172782117483382,
            StandardType::Vu8 => 216172782117483894,
            StandardType::Vs16 => 288230377060922230,
            StandardType::Vu16 => 288230377060922742,
            StandardType::Boolean => 288230377970954082,
            StandardType::Boolean2 => 144115188075881010,
            StandardType::Boolean3 => 144115188075881011,
            StandardType::Boolean4 => 144115188075881012,
            StandardType::Vb => 144115188075881078,
            StandardType::NodeStart => 288230377836343158,
            StandardType::Attribute => 288230378071946337,
            StandardType::NodeEnd => 532671900269440878,
            StandardType::FileEnd => 532671900269963622,
        }
    }

    /// The print of the second name of the type, where it has one.
    pub open spec fn spec_alt_print(self) -> Option<int> {
        match self {
            StandardType::S8 => None,
            StandardType::U8 => None,
            StandardType::S16 => None,
            StandardType::U16 => None,
            StandardType::S32 => None,
            StandardType::U32 => None,
            StandardType::S64 => None,
            StandardType::U64 => None,
            StandardType::Binary => Some(432479096395426146),
            StandardType::String => Some(432459288140739699),
            StandardType::Ip4 => None,
            StandardType::Time => None,
            StandardType::Float => Some(72057594037928038),
            StandardType::Double => Some(72057594037928036),
            StandardType::S8_2 => None,
            StandardType::U8_2 => None,
            StandardType::S16_2 => None,
            StandardType::U16_2 => None,
            StandardType::S32_2 => None,
            StandardType::U32_2 => None,
            StandardType::S64_2 => Some(288230377027695478),
            StandardType::U64_2 => Some(288230377027695990),
            StandardType::Float2 => None,
            StandardType::Double2 => Some(144115188075881590),
            StandardType::S8_3 => None,
            StandardType::U8_3 => None,
            StandardType::S16_3 => None,
            StandardType::U16_3 => None,
            StandardType::S32_3 => None,
            StandardType::U32_3 => None,
            StandardType::S64_3 => None,
            StandardType::U64_3 => None,
            StandardType::Float3 => None,
            StandardType::Double3 => None,
            StandardType::S8_4 => None,
            StandardType::U8_4 => None,
            StandardType::S16_4 => None,
            StandardType::U16_4 => None,
            StandardType::S32_4 => Some(288230376993944438),
            StandardType::U32_4 => Some(288230376993944950),
            StandardType::S64_4 => None,
            StandardType::U64_4 => None,
            StandardType::Float4 => Some(144115188075882102),
            StandardType::Double4 => None,
            StandardType::Vs8 => None,
            StandardType::Vu8 => None,
            StandardType::Vs16 => None,
            StandardType::Vu16 => None,
            StandardType::Boolean => Some(72057594037928034),
            StandardType::Boolean2 => None,
            StandardType::Boolean3 => None,
            StandardType::Boolean4 => None,
            StandardType::Vb => None,
            StandardType::NodeStart => None,
            StandardType::Attribute => None,
            StandardType::NodeEnd => None,
            StandardType::FileEnd => None,
        }
    }
}

/// The prints in the two tables above are those of the names of the types.
pub proof fn lemma_name_prints(t: StandardType)
    ensures
        name_print(t.spec_name()@) == t.spec_name_print(),
        match t.spec_alt_name() {
            Some(alt) => t.spec_alt_print() == Some(name_print(alt@)),
            None => t.spec_alt_print() is None,
        },
{
    match t {
        StandardType::S8 => {
            reveal_strlit("s8");
        },
        StandardType::U8 => {
            reveal_strlit("u8");
        },
        StandardType::S16 => {
            reveal_strlit("s16");
        },
        StandardType::U16 => {
            reveal_strlit("u16");
        },
        StandardType::S32 => {
            reveal_strlit("s32");
        },
        StandardType::U32 => {
            reveal_strlit("u32");
        },
        StandardType::S64 => {
            reveal_strlit("s64");
        },
        StandardType::U64 => {
            reveal_strlit("u64");
        },
        StandardType::Binary => {
            reveal_strlit("bin");
            reveal_strlit("binary");
        },
        StandardType::String => {
            reveal_strlit("str");
            reveal_strlit("string");
        },
        StandardType::Ip4 => {
            reveal_strlit("ip4");
        },
        StandardType::Time => {
            reveal_strlit("time");
        },
        StandardType::Float => {
            reveal_strlit("float");
            reveal_strlit("f");
        },
        StandardType::Double => {
            reveal_strlit("double");
            reveal_strlit("d");
        },
        StandardType::S8_2 => {
            reveal_strlit("2s8");
        },
        StandardType::U8_2 => {
            reveal_strlit("2u8");
        },
        StandardType::S16_2 => {
            reveal_strlit("2s16");
        },
        StandardType::U16_2 => {
            reveal_strlit("2u16");
        },
        StandardType::S32_2 => {
            reveal_strlit("2s32");
        },
        StandardType::U32_2 => {
            reveal_strlit("2u32");
        },
        StandardType::S64_2 => {
            reveal_strlit("2s64");
            reveal_strlit("vs64");
        },
        StandardType::U64_2 => {
            reveal_strlit("2u64");
            reveal_strlit("vu64");
        },
        StandardType::Float2 => {
            reveal_strlit("2f");
        },
        StandardType::Double2 => {
            reveal_strlit("2d");
            reveal_strlit("vd");
        },
        StandardType::S8_3 => {
            reveal_strlit("3s8");
        },
        StandardType::U8_3 => {
            reveal_strlit("3u8");
        },
        StandardType::S16_3 => {
            reveal_strlit("3s16");
        },
        StandardType::U16_3 => {
            reveal_strlit("3u16");
        },
        StandardType::S32_3 => {
            reveal_strlit("3s32");
        },
        StandardType::U32_3 => {
            reveal_strlit("3u32");
        },
        StandardType::S64_3 => {
            reveal_strlit("3s64");
        },
        StandardType::U64_3 => {
            reveal_strlit("3u64");
        },
        StandardType::Float3 => {
            reveal_strlit("3f");
        },
        StandardType::Double3 => {
            reveal_strlit("3d");
        },
        StandardType::S8_4 => {
            reveal_strlit("4s8");
        },
        StandardType::U8_4 => {
            reveal_strlit("4u8");
        },
        StandardType::S16_4 => {
            reveal_strlit("4s16");
        },
        StandardType::U16_4 => {
            reveal_strlit("4u16");
        },
        StandardType::S32_4 => {
            reveal_strlit("4s32");
            reveal_strlit("vs32");
        },
        StandardType::U32_4 => {
            reveal_strlit("4u32");
            reveal_strlit("vu32");
        },
        StandardType::S64_4 => {
            reveal_strlit("4s64");
        },
        StandardType::U64_4 => {
            reveal_strlit("4u64");
        },
        StandardType::Float4 => {
            reveal_strlit("4f");
            reveal_strlit("vf");
        },
        StandardType::Double4 => {
            reveal_strlit("4d");
        },
        StandardType::Vs8 => {
            reveal_strlit("vs8");
        },
        StandardType::Vu8 => {
            reveal_strlit("vu8");
        },
        StandardType::Vs16 => {
            reveal_strlit("vs16");
        },
        StandardType::Vu16 => {
            reveal_strlit("vu16");
        },
        StandardType::Boolean => {
            reveal_strlit("bool");
            reveal_strlit("b");
        },
        StandardType::Boolean2 => {
            reveal_strlit("2b");
        },
        StandardType::Boolean3 => {
            reveal_strlit("3b");
        },
        StandardType::Boolean4 => {
            reveal_strlit("4b");
        },
        StandardType::Vb => {
            reveal_strlit("vb");
        },
        StandardType::NodeStart => {
            reveal_strlit("void");
        },
        StandardType::Attribute => {
            reveal_strlit("attr");
        },
        StandardType::NodeEnd => {
            reveal_strlit("nodeEnd");
        },
        StandardType::FileEnd => {
            reveal_strlit("fileEnd");
        },
    }
}

/// No two types share a name: neither their names nor their second names coincide.
pub proof fn lemma_names_differ(a: StandardType, b: StandardType)
    requires
        a != b,
    ensures
        !a.named(b.spec_name()@),
        b.spec_alt_name() matches Some(alt) ==> !a.named(alt@),
{
    lemma_name_prints(a);
    lemma_name_prints(b);
    lemma_prints_differ(a, b);
}

/// No two types share a print.
proof fn lemma_prints_differ(a: StandardType, b: StandardType)
    requires
        a != b,
    ensures
        a.spec_name_print() != b.spec_name_print(),
        a.spec_alt_print() != Some(b.spec_name_print()),
        b.spec_alt_print() != Some(a.spec_name_print()),
        a.spec_alt_print() is Some ==> a.spec_alt_print() != b.spec_alt_print(),
{
}

/// Looking for the name of a type, or for its second name, from an id that
/// is not above its own finds the type.
proof fn lemma_find_name_finds(t: StandardType, name: Seq<char>, from: nat)
    requires
        t.named(name),
        from <= t.spec_id(),
    ensures
        StandardType::find_name(name, from) == Some(t),
    decreases t.spec_id() - from,
{
    lemma_from_u8_of_id(t);
    if from < t.spec_id() {
        lemma_find_name_finds(t, name, from + 1);
        match StandardType::spec_from_u8(from as u8) {
            Some(other) => {
                lemma_id_of_from_u8(from as u8);
                lemma_names_differ(other, t);
            },
            None => {},
        }
    }
}

/// Every type is found again by its name, and by its second name if it has one.
pub proof fn lemma_from_name_of_name(t: StandardType)
    ensures
        StandardType::spec_from_name(t.spec_name()@) == Some(t),
        t.spec_alt_name() matches Some(alt) ==> StandardType::spec_from_name(alt@) == Some(t),
{
    lemma_find_name_finds(t, t.spec_name()@, 0);
    match t.spec_alt_name() {
        Some(alt) => {
            lemma_find_name_finds(t, alt@, 0);
        },
        None => {},
    }
}

} // verus!
