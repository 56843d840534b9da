//! Core data types: element data types, dimensions, axis descriptors.

use vstd::prelude::*;
use vstd::string::StringExecFns;

verus! {

/// Element data types supported for volume samples.
#[derive(Debug, Clone, Copy, PartialEq, Eq, Structural)]
pub enum DataType {
    /// 1-bit boolean, stored as a full byte
    U1,
    /// Unsigned 8-bit integer
    U8,
    /// Unsigned 16-bit integer
    U16,
    /// Unsigned 32-bit integer
    U32,
    /// Unsigned 64-bit integer
    U64,
    /// Signed 8-bit integer
    I8,
    /// Signed 16-bit integer
    I16,
    /// Signed 32-bit integer
    I32,
    /// Signed 64-bit integer
    I64,
    /// 32-bit floating point
    F32,
    /// 64-bit floating point
    F64,
}

impl DataType {
    /// Size in bytes of one sample of this type.
    pub open spec fn spec_size_in_bytes(&self) -> int {
        match self {
            DataType::U1 => 1,
            DataType::U8 | DataType::I8 => 1,
            DataType::U16 | DataType::I16 => 2,
            DataType::U32 | DataType::I32 | DataType::F32 => 4,
            DataType::U64 | DataType::I64 | DataType::F64 => 8,
        }
    }

    /// Size in bytes of this data type.
    pub fn size_in_bytes(&self) -> (r: usize)
        ensures
            r == self.spec_size_in_bytes(),
    {
        match self {
            DataType::U1 => 1,
            DataType::U8 | DataType::I8 => 1,
            DataType::U16 | DataType::I16 => 2,
            DataType::U32 | DataType::I32 | DataType::F32 => 4,
            DataType::U64 | DataType::I64 | DataType::F64 => 8,
        }
    }

    /// Check if this is a floating point type.
    pub fn is_float(&self) -> (r: bool)
        ensures
            r == (self is F32 || self is F64),
    {
        match self {
            DataType::F32 | DataType::F64 => true,
            _ => false,
        }
    }

    /// Check if this is an integer type.
    pub fn is_integer(&self) -> (r: bool)
        ensures
            r == !(self is F32 || self is F64),
    {
        !self.is_float()
    }

    /// Display name of the data type.
    pub open spec fn spec_label(&self) -> Seq<char> {
        match self {
            DataType::U1 => "U1"@,
            DataType::U8 => "U8"@,
            DataType::U16 => "U16"@,
            DataType::U32 => "U32"@,
            DataType::U64 => "U64"@,
            DataType::I8 => "I8"@,
            DataType::I16 => "I16"@,
            DataType::I32 => "I32"@,
            DataType::I64 => "I64"@,
            DataType::F32 => "F32"@,
            DataType::F64 => "F64"@,
        }
    }

    /// Display name of the data type.
    pub fn label(&self) -> (r: &'static str)
        ensures
            r@ == self.spec_label(),
    {
        match self {
            DataType::U1 => "U1",
            DataType::U8 => "U8",
            DataType::U16 => "U16",
            DataType::U32 => "U32",
            DataType::U64 => "U64",
            DataType::I8 => "I8",
            DataType::I16 => "I16",
            DataType::I32 => "I32",
            DataType::I64 => "I64",
            DataType::F32 => "F32",
            DataType::F64 => "F64",
        }
    }
}

/// Dimension in a volume (up to 6 dimensions).
#[derive(Debug, Clone, Copy, PartialEq, Eq, Hash, Structural)]
pub enum Dimension {
    /// Dimension 0 (typically inline for seismic)
    Dim0,
    /// Dimension 1 (typically crossline for seismic)
    Dim1,
    /// Dimension 2 (typically depth/time for seismic)
    Dim2,
    /// Dimension 3
    Dim3,
    /// Dimension 4
    Dim4,
    /// Dimension 5
    Dim5,
}

impl Dimension {
    /// Index of this dimension.
    pub open spec fn spec_index(&self) -> int {
        match self {
            Dimension::Dim0 => 0,
            Dimension::Dim1 => 1,
            Dimension::Dim2 => 2,
            Dimension::Dim3 => 3,
            Dimension::Dim4 => 4,
            Dimension::Dim5 => 5,
        }
    }

    /// Convert from an index; indices 6 and above name no dimension.
    pub fn from_index(index: usize) -> (r: Option<Self>)
        ensures
            index < 6 ==> r is Some && r->0.spec_index() == index,
            index >= 6 ==> r is None,
    {
        match index {
            0 => Some(Dimension::Dim0),
            1 => Some(Dimension::Dim1),
            2 => Some(Dimension::Dim2),
            3 => Some(Dimension::Dim3),
            4 => Some(Dimension::Dim4),
            5 => Some(Dimension::Dim5),
            _ => None,
        }
    }

    /// Convert to an index.
    pub fn to_index(&self) -> (r: usize)
        ensures
            r == self.spec_index(),
    {
        match self {
            Dimension::Dim0 => 0,
            Dimension::Dim1 => 1,
            Dimension::Dim2 => 2,
            Dimension::Dim3 => 3,
            Dimension::Dim4 => 4,
            Dimension::Dim5 => 5,
        }
    }
}

/// Axis descriptor: sample count plus a display name and unit.
///
/// The physical coordinate range of an axis is display-only bookkeeping that
/// the engine never consults; it is carried by the embedding application
/// alongside this descriptor.
#[derive(Debug, Clone)]
pub struct AxisDescriptor {
    /// Number of samples along this axis
    pub num_samples: usize,
    /// Name of the axis (e.g., "Inline", "Crossline", "Depth")
    pub name: String,
    /// Unit of measurement (e.g., "m", "ms", "ft")
    pub unit: String,
}

impl AxisDescriptor {
    /// Create a new axis descriptor.
    pub fn new(num_samples: usize, name: &str, unit: &str) -> (r: Self)
        ensures
            r.num_samples == num_samples,
            r.name@ == name@,
            r.unit@ == unit@,
    {
        AxisDescriptor { num_samples, name: String::from_str(name), unit: String::from_str(unit) }
    }
}

} // verus!
