//! Conversion errors.
use crate::text;
use vstd::prelude::*;

verus! {

/// One unsupported ONNX node reported during conversion.
#[derive(Debug, PartialEq, Eq)]
pub struct UnsupportedOpEntry {
    pub op: String,
    pub node: String,
}

/// A data type that has no WebNN counterpart.
#[derive(Debug, PartialEq, Eq)]
pub enum ConversionError {
    UnsupportedOnnxDataType(i32),
}

#[derive(Debug, PartialEq, Eq)]
pub enum OnnxError {
    /// A file could not be read; the text says why.
    IoError(String),
    ProtobufError(String),
    UnsupportedOpset { domain: String, version: i64 },
    UnsupportedOps(Vec<UnsupportedOpEntry>),
    MissingAttribute { attr: String, op: String },
    InvalidShape(String),
    TypeConversion(ConversionError),
    ShapeInference(String),
}

pub struct UnsupportedV {
    pub op: Seq<char>,
    pub node: Seq<char>,
}

/// What an error says.
pub enum ErrorV {
    Io(Seq<char>),
    Protobuf(Seq<char>),
    UnsupportedOpset { domain: Seq<char>, version: int },
    UnsupportedOps(Seq<UnsupportedV>),
    MissingAttribute { attr: Seq<char>, op: Seq<char> },
    InvalidShape(Seq<char>),
    TypeConversion(i32),
    ShapeInference(Seq<char>),
}

impl View for UnsupportedOpEntry {
    type V = UnsupportedV;

    open spec fn view(&self) -> UnsupportedV {
        UnsupportedV { op: self.op@, node: self.node@ }
    }
}

pub open spec fn unsupported_v(v: Seq<UnsupportedOpEntry>) -> Seq<UnsupportedV> {
    Seq::new(v.len(), |i: int| v[i]@)
}

impl View for OnnxError {
    type V = ErrorV;

    open spec fn view(&self) -> ErrorV {
        match self {
            OnnxError::IoError(m) => ErrorV::Io(m@),
            OnnxError::ProtobufError(m) => ErrorV::Protobuf(m@),
            OnnxError::UnsupportedOpset { domain, version } => ErrorV::UnsupportedOpset {
                domain: domain@,
                version: *version as int,
            },
            OnnxError::UnsupportedOps(v) => ErrorV::UnsupportedOps(unsupported_v(v@)),
            OnnxError::MissingAttribute { attr, op } => ErrorV::MissingAttribute {
                attr: attr@,
                op: op@,
            },
            OnnxError::InvalidShape(m) => ErrorV::InvalidShape(m@),
            OnnxError::TypeConversion(ConversionError::UnsupportedOnnxDataType(c)) => {
                ErrorV::TypeConversion(*c)
            },
            OnnxError::ShapeInference(m) => ErrorV::ShapeInference(m@),
        }
    }
}

/// The error for a single unsupported operator.
pub open spec fn unsupported(op: Seq<char>, node: Seq<char>) -> ErrorV {
    ErrorV::UnsupportedOps(seq![UnsupportedV { op, node }])
}

/// The view of a result whose value is described by `ok`.
pub open spec fn failed<T, V>(r: Result<T, OnnxError>, ok: spec_fn(T) -> V) -> Result<V, ErrorV> {
    match r {
        Ok(v) => Ok(ok(v)),
        Err(e) => Err(e@),
    }
}

/// `op (node: name)` for each entry, separated by commas.
pub open spec fn unsupported_list(v: Seq<UnsupportedV>) -> Seq<char>
    decreases v.len(),
{
    if v.len() == 0 {
        seq![]
    } else if v.len() == 1 {
        unsupported_item(v[0])
    } else {
        unsupported_list(v.drop_last()) + ", "@ + unsupported_item(v.last())
    }
}

pub open spec fn unsupported_item(e: UnsupportedV) -> Seq<char> {
    e.op + " (node: "@ + e.node + ")"@
}

fn format_unsupported_op(entry: &UnsupportedOpEntry) -> (r: String)
    ensures
        r@ == unsupported_item(entry@),
{
    let mut s = entry.op.clone();
    s.append(" (node: ");
    s.append(entry.node.as_str());
    s.append(")");
    s
}

/// Lists unsupported nodes for a message.
pub fn format_unsupported_ops_list(ops: &Vec<UnsupportedOpEntry>) -> (r: String)
    ensures
        r@ == unsupported_list(unsupported_v(ops@)),
{
    let mut s = String::new();
    let mut i: usize = 0;
    let ghost all = unsupported_v(ops@);
    assert(all.take(0) =~= Seq::<UnsupportedV>::empty());
    while i < ops.len()
        invariant
            i <= ops@.len(),
            all == unsupported_v(ops@),
            s@ == unsupported_list(all.take(i as int)),
        decreases ops@.len() - i,
    {
        assert(all.take(i + 1).drop_last() =~= all.take(i as int));
        if i > 0 {
            s.append(", ");
        }
        let item = format_unsupported_op(&ops[i]);
        s.append(item.as_str());
        i = i + 1;
        assert(s@ =~= unsupported_list(all.take(i as int)));
    }
    assert(all.take(i as int) =~= all);
    s
}

/// The text of an error.
pub open spec fn message_text(e: ErrorV) -> Seq<char> {
    match e {
        ErrorV::Io(m) => "failed to read ONNX file: "@ + m,
        ErrorV::Protobuf(m) => "failed to parse ONNX protobuf: "@ + m,
        ErrorV::UnsupportedOpset { domain, version } => "unsupported ONNX opset version "@
            + text::decimal(version) + " for domain '"@ + domain + "'"@,
        ErrorV::UnsupportedOps(v) => "unsupported operator(s): "@ + unsupported_list(v),
        ErrorV::MissingAttribute { attr, op } => "missing required attribute: "@ + attr + " in "@
            + op,
        ErrorV::InvalidShape(m) => "invalid tensor shape: "@ + m,
        ErrorV::TypeConversion(c) => "type conversion error: unsupported data type code: "@
            + text::decimal(c as int),
        ErrorV::ShapeInference(m) => "shape inference failed for node: "@ + m,
    }
}

impl OnnxError {
    /// Report a single unsupported operator/node pair.
    pub fn unsupported_op(op: String, node: String) -> (r: Self)
        ensures
            r@ == unsupported(op@, node@),
    {
        let mut v: Vec<UnsupportedOpEntry> = Vec::new();
        v.push(UnsupportedOpEntry { op, node });
        assert(unsupported_v(v@) =~= seq![UnsupportedV { op: op@, node: node@ }]);
        OnnxError::UnsupportedOps(v)
    }

    /// True when conversion failed because one or more operators are unsupported.
    pub fn is_unsupported_op(&self) -> (r: bool)
        ensures
            r == (self@ is UnsupportedOps),
    {
        match self {
            OnnxError::UnsupportedOps(_) => true,
            _ => false,
        }
    }

    /// Unsupported operator entries, when this error is [`Self::UnsupportedOps`].
    pub fn unsupported_ops(&self) -> (r: Option<&Vec<UnsupportedOpEntry>>)
        ensures
            r is Some <==> self@ is UnsupportedOps,
            r matches Some(v) ==> self@ == ErrorV::UnsupportedOps(unsupported_v(v@)),
    {
        match self {
            OnnxError::UnsupportedOps(v) => Some(v),
            _ => None,
        }
    }

    /// The text of the error.
    pub fn message(&self) -> (r: String)
        ensures
            r@ == message_text(self@),
    {
        match self {
            OnnxError::IoError(m) => {
                let mut s = String::from_str("failed to read ONNX file: ");
                s.append(m.as_str());
                s
            },
            OnnxError::ProtobufError(m) => {
                let mut s = String::from_str("failed to parse ONNX protobuf: ");
                s.append(m.as_str());
                s
            },
            OnnxError::UnsupportedOpset { domain, version } => {
                let mut s = String::from_str("unsupported ONNX opset version ");
                let d = text::decimal_i64(*version);
                s.append(d.as_str());
                s.append(" for domain '");
                s.append(domain.as_str());
                s.append("'");
                s
            },
            OnnxError::UnsupportedOps(v) => {
                let mut s = String::from_str("unsupported operator(s): ");
                let l = format_unsupported_ops_list(v);
                s.append(l.as_str());
                s
            },
            OnnxError::MissingAttribute { attr, op } => {
                let mut s = String::from_str("missing required attribute: ");
                s.append(attr.as_str());
                s.append(" in ");
                s.append(op.as_str());
                s
            },
            OnnxError::InvalidShape(m) => {
                let mut s = String::from_str("invalid tensor shape: ");
                s.append(m.as_str());
                s
            },
            OnnxError::TypeConversion(ConversionError::UnsupportedOnnxDataType(c)) => {
                let mut s = String::from_str(
                    "type conversion error: unsupported data type code: ",
                );
                let d = text::decimal_i64(*c as i64);
                s.append(d.as_str());
                s
            },
            OnnxError::ShapeInference(m) => {
                let mut s = String::from_str("shape inference failed for node: ");
                s.append(m.as_str());
                s
            },
        }
    }
}

} // verus!
