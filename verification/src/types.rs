//! WebNN data types, dimensions and identifiers.
use crate::error::{ConversionError, ErrorV, OnnxError};
use crate::names::Duplicate;
use crate::protos;
use crate::text;
use vstd::prelude::*;

verus! {

/// Element types of WebNN operands.
#[derive(Debug, Clone, Copy, PartialEq, Eq, Structural)]
pub enum DataType {
    Float32,
    Float16,
    Int32,
    Uint32,
    Int64,
    Uint64,
    Int8,
    Uint8,
    Int4,
    Uint4,
}

impl View for DataType {
    type V = DataType;

    open spec fn view(&self) -> DataType {
        *self
    }
}

impl Duplicate for DataType {
    fn duplicate(&self) -> (r: DataType) {
        *self
    }
}

/// The WebNN type of an ONNX element type code, where there is one.
pub open spec fn webnn_type(code: i32) -> Option<DataType> {
    if code == protos::TYPE_FLOAT || code == protos::TYPE_DOUBLE {
        Some(DataType::Float32)
    } else if code == protos::TYPE_FLOAT16 {
        Some(DataType::Float16)
    } else if code == protos::TYPE_INT32 {
        Some(DataType::Int32)
    } else if code == protos::TYPE_UINT32 {
        Some(DataType::Uint32)
    } else if code == protos::TYPE_INT64 {
        Some(DataType::Int64)
    } else if code == protos::TYPE_UINT64 {
        Some(DataType::Uint64)
    } else if code == protos::TYPE_INT8 {
        Some(DataType::Int8)
    } else if code == protos::TYPE_UINT8 || code == protos::TYPE_BOOL {
        Some(DataType::Uint8)
    } else if code == protos::TYPE_UINT4 {
        Some(DataType::Uint4)
    } else if code == protos::TYPE_INT4 {
        Some(DataType::Int4)
    } else {
        None
    }
}

pub open spec fn mapped_type(code: i32) -> Result<DataType, ErrorV> {
    match webnn_type(code) {
        Some(t) => Ok(t),
        None => Err(ErrorV::TypeConversion(code)),
    }
}

/// Convert an ONNX data type code to a WebNN data type. WebNN has no float64,
/// so double tensors are lowered to float32; booleans are bytes.
pub fn map_onnx_data_type(code: i32) -> (r: Result<DataType, OnnxError>)
    ensures
        crate::error::failed(r, |t: DataType| t) == mapped_type(code),
{
    if code == protos::TYPE_BOOL {
        return Ok(DataType::Uint8);
    }
    if code == protos::TYPE_DOUBLE {
        return Ok(DataType::Float32);
    }
    if code == protos::TYPE_UINT4 {
        return Ok(DataType::Uint4);
    }
    if code == protos::TYPE_INT4 {
        return Ok(DataType::Int4);
    }
    if code == protos::TYPE_FLOAT {
        Ok(DataType::Float32)
    } else if code == protos::TYPE_FLOAT16 {
        Ok(DataType::Float16)
    } else if code == protos::TYPE_INT32 {
        Ok(DataType::Int32)
    } else if code == protos::TYPE_UINT32 {
        Ok(DataType::Uint32)
    } else if code == protos::TYPE_INT64 {
        Ok(DataType::Int64)
    } else if code == protos::TYPE_UINT64 {
        Ok(DataType::Uint64)
    } else if code == protos::TYPE_INT8 {
        Ok(DataType::Int8)
    } else if code == protos::TYPE_UINT8 {
        Ok(DataType::Uint8)
    } else {
        Err(OnnxError::TypeConversion(ConversionError::UnsupportedOnnxDataType(code)))
    }
}

/// One axis of an operand: a size, or a symbol with an upper bound.
#[derive(Debug, PartialEq, Eq)]
pub enum Dimension {
    Static(u32),
    Dynamic { name: String, max_size: u32 },
}

pub enum DimensionV {
    Static(u32),
    Dynamic { name: Seq<char>, max_size: u32 },
}

impl View for Dimension {
    type V = DimensionV;

    open spec fn view(&self) -> DimensionV {
        match self {
            Dimension::Static(n) => DimensionV::Static(*n),
            Dimension::Dynamic { name, max_size } => DimensionV::Dynamic {
                name: name@,
                max_size: *max_size,
            },
        }
    }
}

pub open spec fn dimensions_v(v: Seq<Dimension>) -> Seq<DimensionV> {
    Seq::new(v.len(), |i: int| v[i]@)
}

/// A list of dimensions, viewed by what each stands for.
#[derive(Debug, PartialEq, Eq)]
pub struct Dims {
    pub items: Vec<Dimension>,
}

impl View for Dims {
    type V = Seq<DimensionV>;

    open spec fn view(&self) -> Seq<DimensionV> {
        dimensions_v(self.items@)
    }
}

impl Dimension {
    pub fn copy(&self) -> (r: Dimension)
        ensures
            r@ == self@,
    {
        match self {
            Dimension::Static(n) => Dimension::Static(*n),
            Dimension::Dynamic { name, max_size } => Dimension::Dynamic {
                name: name.clone(),
                max_size: *max_size,
            },
        }
    }
}

impl Duplicate for Dims {
    fn duplicate(&self) -> (r: Dims) {
        let mut items: Vec<Dimension> = Vec::new();
        let mut i: usize = 0;
        while i < self.items.len()
            invariant
                i <= self.items@.len(),
                items@.len() == i,
                forall|k: int| 0 <= k < i ==> (#[trigger] items@[k])@ == self.items@[k]@,
            decreases self.items@.len() - i,
        {
            items.push(self.items[i].copy());
            i = i + 1;
        }
        assert(dimensions_v(items@) =~= dimensions_v(self.items@));
        Dims { items }
    }
}

// ---------------------------------------------------------------------------
// Identifiers
// ---------------------------------------------------------------------------

/// A character as it stands in a WebNN identifier.
pub open spec fn safe_char(c: char) -> char {
    if c == ':' || c == '.' || c == '/' {
        '_'
    } else {
        c
    }
}

pub open spec fn safe_chars(s: Seq<char>) -> Seq<char> {
    Seq::new(s.len(), |i: int| safe_char(s[i]))
}

/// A name with the separators replaced, and `_` in front of a leading digit.
pub open spec fn sanitized(s: Seq<char>) -> Seq<char> {
    if s.len() > 0 && text::is_digit(safe_char(s[0])) {
        seq!['_'] + safe_chars(s)
    } else {
        safe_chars(s)
    }
}

/// Sanitize an ONNX identifier for WebNN: `:`, `.` and `/` become `_`, and a
/// name that starts with a digit (such as the anonymous output `495`) gets a
/// leading `_`.
pub fn sanitize_identifier(name: &str) -> (r: String)
    ensures
        r@ == sanitized(name@),
{
    let v = text::chars_of(name);
    let mut r = String::new();
    if v.len() > 0 && text::char_is_digit(v[0]) {
        r.push('_');
    }
    let ghost lead = r@;
    let mut i: usize = 0;
    assert(lead =~= lead + safe_chars(name@).take(0));
    while i < v.len()
        invariant
            i <= v@.len(),
            v@ == name@,
            r@ == lead + safe_chars(name@).take(i as int),
        decreases v@.len() - i,
    {
        let c: char = v[i];
        if c == ':' || c == '.' || c == '/' {
            r.push('_');
        } else {
            r.push(c);
        }
        i = i + 1;
        assert(r@ =~= lead + safe_chars(name@).take(i as int));
    }
    assert(safe_chars(name@).take(i as int) =~= safe_chars(name@));
    assert(r@ =~= sanitized(name@));
    r
}

/// A sanitized name holds no separator and starts with no digit.
pub proof fn law_sanitized_is_safe(s: Seq<char>)
    ensures
        forall|i: int|
            0 <= i < sanitized(s).len() ==> (#[trigger] sanitized(s)[i]) != ':' && sanitized(s)[i]
                != '.' && sanitized(s)[i] != '/',
        sanitized(s).len() > 0 ==> !text::is_digit(sanitized(s)[0]),
        s.len() == 0 <==> sanitized(s).len() == 0,
{
}

/// Sanitizing a sanitized name changes nothing.
pub proof fn law_sanitize_idempotent(s: Seq<char>)
    ensures
        sanitized(sanitized(s)) == sanitized(s),
{
    assert(safe_chars(sanitized(s)) =~= sanitized(s));
}

/// A name without separators that does not start with a digit stays as it is.
pub proof fn law_sanitize_keeps_safe_names(s: Seq<char>)
    requires
        forall|i: int| 0 <= i < s.len() ==> (#[trigger] s[i]) != ':' && s[i] != '.' && s[i] != '/',
        s.len() > 0 ==> !text::is_digit(s[0]),
    ensures
        sanitized(s) == s,
{
    assert(safe_chars(s) =~= s);
}

} // verus!
