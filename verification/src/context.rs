//! What an operator handler knows about the values around a node.
use crate::error::{ErrorV, OnnxError};
use crate::names::NameMap;
use crate::protos::{AttributeProto, AttributeV, NodeProto, NodeV};
use crate::text;
use crate::types;
use crate::types::DataType;
use vstd::prelude::*;

verus! {

/// A constant tensor with its decoded payload, or the reason why the payload
/// could not be decoded.
#[derive(Debug, PartialEq, Eq)]
pub struct InitTensor {
    pub data_type: i32,
    pub dims: Vec<i64>,
    pub payload: Result<Vec<u8>, String>,
}

pub struct InitV {
    pub data_type: i32,
    pub dims: Seq<i64>,
    pub payload: Result<Seq<u8>, Seq<char>>,
}

impl View for InitTensor {
    type V = InitV;

    open spec fn view(&self) -> InitV {
        InitV {
            data_type: self.data_type,
            dims: self.dims@,
            payload: match self.payload {
                Ok(b) => Ok(b@),
                Err(m) => Err(m@),
            },
        }
    }
}

impl InitV {
    /// The payload, or the error that stands in its place.
    pub open spec fn bytes(self) -> Result<Seq<u8>, ErrorV> {
        match self.payload {
            Ok(b) => Ok(b),
            Err(m) => Err(ErrorV::InvalidShape(m)),
        }
    }
}

impl InitTensor {
    /// The payload, or the error that stands in its place.
    pub fn bytes(&self) -> (r: Result<&Vec<u8>, OnnxError>)
        ensures
            crate::error::failed(r, |b: &Vec<u8>| b@) == self@.bytes(),
    {
        match &self.payload {
            Ok(b) => Ok(b),
            Err(m) => Err(OnnxError::InvalidShape(m.clone())),
        }
    }
}

/// Constants, shapes and types of the values a node may read.
pub struct ConversionContext {
    pub initializers: NameMap<InitTensor>,
    pub value_shapes: NameMap<Vec<i64>>,
    pub value_types: NameMap<DataType>,
}

#[verifier::ext_equal]
pub struct ContextV {
    pub initializers: Map<Seq<char>, InitV>,
    pub value_shapes: Map<Seq<char>, Seq<i64>>,
    pub value_types: Map<Seq<char>, DataType>,
}

impl View for ConversionContext {
    type V = ContextV;

    open spec fn view(&self) -> ContextV {
        ContextV {
            initializers: self.initializers@,
            value_shapes: self.value_shapes@,
            value_types: self.value_types@,
        }
    }
}

/// `s` without leading slashes.
pub open spec fn without_slashes(s: Seq<char>) -> Seq<char>
    decreases s.len(),
{
    if s.len() > 0 && s[0] == '/' {
        without_slashes(s.drop_first())
    } else {
        s
    }
}

pub(crate) fn trim_slashes(s: &String) -> (r: String)
    ensures
        r@ == without_slashes(s@),
{
    let v = text::chars_of(s.as_str());
    let mut i: usize = 0;
    assert(v@.skip(0) =~= s@);
    while i < v.len() && v[i] == '/'
        invariant
            i <= v@.len(),
            without_slashes(v@.skip(i as int)) == without_slashes(s@),
        decreases v@.len() - i,
    {
        assert(v@.skip(i as int).drop_first() =~= v@.skip(i + 1));
        i = i + 1;
    }
    assert(v@.skip(i as int) =~= v@.subrange(i as int, v@.len() as int));
    text::string_of(&v, i, v.len())
}

impl ContextV {
    /// The shape of a value, looked up by its name, its sanitized name, and
    /// its name without leading slashes.
    pub open spec fn shape(self, name: Seq<char>) -> Option<Seq<i64>> {
        if self.value_shapes.contains_key(name) {
            Some(self.value_shapes[name])
        } else if self.value_shapes.contains_key(types::sanitized(name)) {
            Some(self.value_shapes[types::sanitized(name)])
        } else if self.value_shapes.contains_key(without_slashes(name)) {
            Some(self.value_shapes[without_slashes(name)])
        } else {
            None
        }
    }

    /// The type of a value, float32 where it is not known.
    pub open spec fn dtype(self, name: Seq<char>) -> DataType {
        if self.value_types.contains_key(name) {
            self.value_types[name]
        } else {
            DataType::Float32
        }
    }
}

impl ConversionContext {
    /// A context that knows nothing.
    pub fn new() -> (r: Self)
        ensures
            r@.initializers == Map::<Seq<char>, InitV>::empty(),
            r@.value_shapes == Map::<Seq<char>, Seq<i64>>::empty(),
            r@.value_types == Map::<Seq<char>, DataType>::empty(),
    {
        ConversionContext {
            initializers: NameMap::new(),
            value_shapes: NameMap::new(),
            value_types: NameMap::new(),
        }
    }

    /// The shape of a value.
    pub fn resolve_shape(&self, name: &String) -> (r: Option<&Vec<i64>>)
        ensures
            r matches Some(s) ==> self@.shape(name@) == Some(s@),
            r is None ==> self@.shape(name@) is None,
    {
        if let Some(s) = self.value_shapes.get(name) {
            return Some(s);
        }
        let sanitized = types::sanitize_identifier(name.as_str());
        if let Some(s) = self.value_shapes.get(&sanitized) {
            return Some(s);
        }
        let trimmed = trim_slashes(name);
        self.value_shapes.get(&trimmed)
    }

    /// The type of a value, float32 where it is not known.
    pub fn value_type(&self, name: &String) -> (r: DataType)
        ensures
            r == self@.dtype(name@),
    {
        match self.value_types.get(name) {
            Some(t) => *t,
            None => DataType::Float32,
        }
    }
}

// ---------------------------------------------------------------------------
// Attributes
// ---------------------------------------------------------------------------

/// The last attribute with this name.
pub open spec fn last_attr(a: Seq<AttributeV>, name: Seq<char>) -> Option<AttributeV>
    decreases a.len(),
{
    if a.len() == 0 {
        None
    } else if a.last().name == name {
        Some(a.last())
    } else {
        last_attr(a.drop_last(), name)
    }
}

/// The first attribute with this name.
pub open spec fn first_attr(a: Seq<AttributeV>, name: Seq<char>) -> Option<AttributeV>
    decreases a.len(),
{
    if a.len() == 0 {
        None
    } else if a[0].name == name {
        Some(a[0])
    } else {
        first_attr(a.drop_first(), name)
    }
}

impl NodeV {
    /// The integer of the last attribute with this name, or `default`.
    pub open spec fn int_attr(self, name: Seq<char>, default: i64) -> i64 {
        match last_attr(self.attribute, name) {
            Some(a) => a.i,
            None => default,
        }
    }

    /// The float pattern of the last attribute with this name, or `default`.
    pub open spec fn float_attr(self, name: Seq<char>, default: u32) -> u32 {
        match last_attr(self.attribute, name) {
            Some(a) => a.f,
            None => default,
        }
    }

    /// How messages show the float of the last attribute with this name.
    pub open spec fn float_attr_text(self, name: Seq<char>) -> Seq<char> {
        match last_attr(self.attribute, name) {
            Some(a) => a.f_text,
            None => seq![],
        }
    }

    /// The name an output is recorded under: the sanitized first output, or
    /// the node's name with a suffix where it has none.
    pub open spec fn label(self, node_name: Seq<char>) -> Seq<char> {
        if self.output.len() > 0 {
            types::sanitized(self.output[0])
        } else {
            node_name + "_output"@
        }
    }

    /// The name of the input at `i` where there is one that is not empty.
    pub open spec fn input_at(self, i: int) -> Option<Seq<char>> {
        if 0 <= i < self.input.len() && self.input[i].len() > 0 {
            Some(self.input[i])
        } else {
            None
        }
    }

    /// The name of the output at `i` where there is one that is not empty.
    pub open spec fn output_at(self, i: int) -> Option<Seq<char>> {
        if 0 <= i < self.output.len() && self.output[i].len() > 0 {
            Some(self.output[i])
        } else {
            None
        }
    }

    /// The first output, where there is one.
    pub open spec fn first_output(self) -> Option<Seq<char>> {
        if self.output.len() > 0 {
            Some(self.output[0])
        } else {
            None
        }
    }

    /// The node's name, or a stand-in where it has none.
    pub open spec fn display_name(self) -> Seq<char> {
        if self.name.len() > 0 {
            self.name
        } else {
            "unnamed"@
        }
    }
}

impl NodeProto {
    /// The last attribute with this name.
    pub fn find_last_attr(&self, name: &str) -> (r: Option<&AttributeProto>)
        ensures
            r matches Some(a) ==> last_attr(self@.attribute, name@) == Some(a@),
            r is None ==> last_attr(self@.attribute, name@) is None,
    {
        let ghost all = self@.attribute;
        let mut i: usize = self.attribute.len();
        assert(all.take(i as int) =~= all);
        while i > 0
            invariant
                i <= self.attribute@.len(),
                all == self@.attribute,
                last_attr(all, name@) == last_attr(all.take(i as int), name@),
            decreases i,
        {
            i = i - 1;
            assert(all.take(i + 1).drop_last() =~= all.take(i as int));
            assert(all[i as int] == self.attribute@[i as int]@);
            if text::str_eq(self.attribute[i].name.as_str(), name) {
                return Some(&self.attribute[i]);
            }
        }
        None
    }

    /// The first attribute with this name.
    pub fn find_attr(&self, name: &str) -> (r: Option<&AttributeProto>)
        ensures
            r matches Some(a) ==> first_attr(self@.attribute, name@) == Some(a@),
            r is None ==> first_attr(self@.attribute, name@) is None,
    {
        let ghost all = self@.attribute;
        let mut i: usize = 0;
        assert(all.skip(0) =~= all);
        while i < self.attribute.len()
            invariant
                i <= self.attribute@.len(),
                all == self@.attribute,
                first_attr(all, name@) == first_attr(all.skip(i as int), name@),
            decreases self.attribute@.len() - i,
        {
            assert(all.skip(i as int).drop_first() =~= all.skip(i + 1));
            assert(all[i as int] == self.attribute@[i as int]@);
            if text::str_eq(self.attribute[i].name.as_str(), name) {
                return Some(&self.attribute[i]);
            }
            i = i + 1;
        }
        None
    }

    pub fn int_attr(&self, name: &str, default: i64) -> (r: i64)
        ensures
            r == self@.int_attr(name@, default),
    {
        match self.find_last_attr(name) {
            Some(a) => a.i,
            None => default,
        }
    }

    pub fn float_attr(&self, name: &str, default: u32) -> (r: u32)
        ensures
            r == self@.float_attr(name@, default),
    {
        match self.find_last_attr(name) {
            Some(a) => a.f,
            None => default,
        }
    }

    pub fn float_attr_text(&self, name: &str) -> (r: String)
        ensures
            r@ == self@.float_attr_text(name@),
    {
        match self.find_last_attr(name) {
            Some(a) => a.f_text.clone(),
            None => String::new(),
        }
    }

    /// The name an output is recorded under.
    pub fn output_label(&self, node_name: &String) -> (r: String)
        ensures
            r@ == self@.label(node_name@),
    {
        if self.output.len() > 0 {
            types::sanitize_identifier(self.output[0].as_str())
        } else {
            let mut s = node_name.clone();
            s.append("_output");
            s
        }
    }

    /// The input at `i` where there is one that is not empty.
    pub fn input_name(&self, i: usize) -> (r: Option<&String>)
        ensures
            r matches Some(n) ==> self@.input_at(i as int) == Some(n@),
            r is None ==> self@.input_at(i as int) is None,
    {
        if i < self.input.len() && !self.input[i].as_str().is_empty() {
            Some(&self.input[i])
        } else {
            None
        }
    }

    /// The output at `i` where there is one that is not empty.
    pub fn output_name(&self, i: usize) -> (r: Option<&String>)
        ensures
            r matches Some(n) ==> self@.output_at(i as int) == Some(n@),
            r is None ==> self@.output_at(i as int) is None,
    {
        if i < self.output.len() && !self.output[i].as_str().is_empty() {
            Some(&self.output[i])
        } else {
            None
        }
    }

    /// The first output, where there is one.
    pub fn first_output(&self) -> (r: Option<&String>)
        ensures
            r matches Some(n) ==> self@.first_output() == Some(n@),
            r is None ==> self@.first_output() is None,
    {
        if self.output.len() > 0 {
            Some(&self.output[0])
        } else {
            None
        }
    }

    /// The node's name, or a stand-in where it has none.
    pub fn display_name(&self) -> (r: String)
        ensures
            r@ == self@.display_name(),
    {
        if self.name.as_str().is_empty() {
            String::from_str("unnamed")
        } else {
            self.name.clone()
        }
    }
}

} // verus!
