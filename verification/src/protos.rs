//! The parts of an ONNX model that the converter reads.
//!
//! Floating-point payloads are kept as bit patterns. Each type has a view that
//! holds what it stands for; the views nest as the types do.
use vstd::prelude::*;

verus! {

// Element type codes of `TensorProto.data_type`.
pub const TYPE_FLOAT: i32 = 1;

pub const TYPE_UINT8: i32 = 2;

pub const TYPE_INT8: i32 = 3;

pub const TYPE_UINT16: i32 = 4;

pub const TYPE_INT16: i32 = 5;

pub const TYPE_INT32: i32 = 6;

pub const TYPE_INT64: i32 = 7;

pub const TYPE_BOOL: i32 = 9;

pub const TYPE_FLOAT16: i32 = 10;

pub const TYPE_DOUBLE: i32 = 11;

pub const TYPE_UINT32: i32 = 12;

pub const TYPE_UINT64: i32 = 13;

pub const TYPE_BFLOAT16: i32 = 16;

pub const TYPE_UINT4: i32 = 21;

pub const TYPE_INT4: i32 = 22;

/// `TensorProto.data_location` of a tensor whose payload is in another file.
pub const LOCATION_EXTERNAL: i32 = 1;

// ---------------------------------------------------------------------------
// Types
// ---------------------------------------------------------------------------

#[derive(Debug, PartialEq, Eq)]
pub struct StringStringEntryProto {
    pub key: String,
    pub value: String,
}

#[derive(Debug, PartialEq, Eq)]
pub struct OperatorSetIdProto {
    pub domain: String,
    pub version: i64,
}

/// One axis of a declared shape: a number, a symbol, or nothing.
#[derive(Debug, PartialEq, Eq)]
pub enum DimensionProto {
    Unknown,
    DimValue(i64),
    DimParam(String),
}

/// Element type and, where declared, shape of a tensor value.
#[derive(Debug, PartialEq, Eq)]
pub struct TensorTypeProto {
    pub elem_type: i32,
    pub shape: Option<Vec<DimensionProto>>,
}

/// A named value; `tensor_type` is absent where the value is no tensor.
#[derive(Debug, PartialEq, Eq)]
pub struct ValueInfoProto {
    pub name: String,
    pub tensor_type: Option<TensorTypeProto>,
}

#[derive(Debug, PartialEq, Eq)]
pub struct TensorProto {
    pub name: String,
    pub dims: Vec<i64>,
    pub data_type: i32,
    pub raw_data: Vec<u8>,
    pub float_data: Vec<u32>,
    pub int32_data: Vec<i32>,
    pub int64_data: Vec<i64>,
    pub double_data: Vec<u64>,
    pub uint64_data: Vec<u64>,
    pub string_data: Vec<Vec<u8>>,
    pub data_location: i32,
    pub external_data: Vec<StringStringEntryProto>,
}

#[derive(Debug, PartialEq, Eq)]
pub struct AttributeProto {
    pub name: String,
    /// The bit pattern of the float value.
    pub f: u32,
    /// The float value in decimal, as messages show it.
    pub f_text: String,
    pub i: i64,
    pub s: Vec<u8>,
    pub t: Option<TensorProto>,
    pub g: Option<GraphProto>,
    pub floats: Vec<u32>,
    pub ints: Vec<i64>,
    pub strings: Vec<Vec<u8>>,
    pub graphs: Vec<GraphProto>,
}

#[derive(Debug, PartialEq, Eq)]
pub struct NodeProto {
    pub op_type: String,
    pub domain: String,
    pub name: String,
    pub input: Vec<String>,
    pub output: Vec<String>,
    pub attribute: Vec<AttributeProto>,
}

#[derive(Debug, PartialEq, Eq)]
pub struct GraphProto {
    pub name: String,
    pub node: Vec<NodeProto>,
    pub initializer: Vec<TensorProto>,
    pub input: Vec<ValueInfoProto>,
    pub output: Vec<ValueInfoProto>,
    pub value_info: Vec<ValueInfoProto>,
}

#[derive(Debug, PartialEq, Eq)]
pub struct ModelProto {
    pub opset_import: Vec<OperatorSetIdProto>,
    pub metadata_props: Vec<StringStringEntryProto>,
    pub graph: Option<GraphProto>,
}

// ---------------------------------------------------------------------------
// Views
// ---------------------------------------------------------------------------

pub struct EntryV {
    pub key: Seq<char>,
    pub value: Seq<char>,
}

pub struct OpsetV {
    pub domain: Seq<char>,
    pub version: int,
}

pub enum DimV {
    Unknown,
    Value(i64),
    Param(Seq<char>),
}

pub struct TensorTypeV {
    pub elem_type: i32,
    pub shape: Option<Seq<DimV>>,
}

pub struct ValueInfoV {
    pub name: Seq<char>,
    pub tensor_type: Option<TensorTypeV>,
}

pub struct TensorV {
    pub name: Seq<char>,
    pub dims: Seq<i64>,
    pub data_type: i32,
    pub raw_data: Seq<u8>,
    pub float_data: Seq<u32>,
    pub int32_data: Seq<i32>,
    pub int64_data: Seq<i64>,
    pub double_data: Seq<u64>,
    pub uint64_data: Seq<u64>,
    pub string_data: Seq<Seq<u8>>,
    pub data_location: i32,
    pub external_data: Seq<EntryV>,
}

pub struct AttributeV {
    pub name: Seq<char>,
    pub f: u32,
    pub f_text: Seq<char>,
    pub i: i64,
    pub s: Seq<u8>,
    pub t: Option<TensorV>,
    pub g: Option<GraphV>,
    pub floats: Seq<u32>,
    pub ints: Seq<i64>,
    pub strings: Seq<Seq<u8>>,
    pub graphs: Seq<GraphV>,
}

pub struct NodeV {
    pub op_type: Seq<char>,
    pub domain: Seq<char>,
    pub name: Seq<char>,
    pub input: Seq<Seq<char>>,
    pub output: Seq<Seq<char>>,
    pub attribute: Seq<AttributeV>,
}

pub struct GraphV {
    pub name: Seq<char>,
    pub node: Seq<NodeV>,
    pub initializer: Seq<TensorV>,
    pub input: Seq<ValueInfoV>,
    pub output: Seq<ValueInfoV>,
    pub value_info: Seq<ValueInfoV>,
}

pub struct ModelV {
    pub opset_import: Seq<OpsetV>,
    pub metadata_props: Seq<EntryV>,
    pub graph: Option<GraphV>,
}

/// The texts of a list of strings.
pub open spec fn texts(v: Seq<String>) -> Seq<Seq<char>> {
    Seq::new(v.len(), |i: int| v[i]@)
}

/// The contents of a list of byte strings.
pub open spec fn byte_lists(v: Seq<Vec<u8>>) -> Seq<Seq<u8>> {
    Seq::new(v.len(), |i: int| v[i]@)
}

impl View for StringStringEntryProto {
    type V = EntryV;

    open spec fn view(&self) -> EntryV {
        EntryV { key: self.key@, value: self.value@ }
    }
}

impl View for OperatorSetIdProto {
    type V = OpsetV;

    open spec fn view(&self) -> OpsetV {
        OpsetV { domain: self.domain@, version: self.version as int }
    }
}

impl View for DimensionProto {
    type V = DimV;

    open spec fn view(&self) -> DimV {
        match self {
            DimensionProto::Unknown => DimV::Unknown,
            DimensionProto::DimValue(v) => DimV::Value(*v),
            DimensionProto::DimParam(p) => DimV::Param(p@),
        }
    }
}

pub open spec fn entries_v(v: Seq<StringStringEntryProto>) -> Seq<EntryV> {
    Seq::new(v.len(), |i: int| v[i]@)
}

pub open spec fn opsets_v(v: Seq<OperatorSetIdProto>) -> Seq<OpsetV> {
    Seq::new(v.len(), |i: int| v[i]@)
}

pub open spec fn dims_v(v: Seq<DimensionProto>) -> Seq<DimV> {
    Seq::new(v.len(), |i: int| v[i]@)
}

impl View for TensorTypeProto {
    type V = TensorTypeV;

    open spec fn view(&self) -> TensorTypeV {
        TensorTypeV {
            elem_type: self.elem_type,
            shape: match self.shape {
                Some(s) => Some(dims_v(s@)),
                None => None,
            },
        }
    }
}

impl View for ValueInfoProto {
    type V = ValueInfoV;

    open spec fn view(&self) -> ValueInfoV {
        ValueInfoV {
            name: self.name@,
            tensor_type: match self.tensor_type {
                Some(t) => Some(t@),
                None => None,
            },
        }
    }
}

pub open spec fn infos_v(v: Seq<ValueInfoProto>) -> Seq<ValueInfoV> {
    Seq::new(v.len(), |i: int| v[i]@)
}

impl View for TensorProto {
    type V = TensorV;

    open spec fn view(&self) -> TensorV {
        TensorV {
            name: self.name@,
            dims: self.dims@,
            data_type: self.data_type,
            raw_data: self.raw_data@,
            float_data: self.float_data@,
            int32_data: self.int32_data@,
            int64_data: self.int64_data@,
            double_data: self.double_data@,
            uint64_data: self.uint64_data@,
            string_data: byte_lists(self.string_data@),
            data_location: self.data_location,
            external_data: entries_v(self.external_data@),
        }
    }
}

pub open spec fn tensors_v(v: Seq<TensorProto>) -> Seq<TensorV> {
    Seq::new(v.len(), |i: int| v[i]@)
}

pub open spec fn tensor_opt_v(t: Option<TensorProto>) -> Option<TensorV> {
    match t {
        Some(t) => Some(t@),
        None => None,
    }
}

pub open spec fn attribute_v(a: AttributeProto) -> AttributeV
    decreases a,
{
    AttributeV {
        name: a.name@,
        f: a.f,
        f_text: a.f_text@,
        i: a.i,
        s: a.s@,
        t: tensor_opt_v(a.t),
        g: match a.g {
            Some(g) => Some(graph_v(g)),
            None => None,
        },
        floats: a.floats@,
        ints: a.ints@,
        strings: byte_lists(a.strings@),
        graphs: Seq::new(
            a.graphs@.len(),
            |i: int|
                if 0 <= i < a.graphs@.len() {
                    graph_v(a.graphs@[i])
                } else {
                    arbitrary()
                },
        ),
    }
}

pub open spec fn node_v(n: NodeProto) -> NodeV
    decreases n,
{
    NodeV {
        op_type: n.op_type@,
        domain: n.domain@,
        name: n.name@,
        input: texts(n.input@),
        output: texts(n.output@),
        attribute: Seq::new(
            n.attribute@.len(),
            |i: int|
                if 0 <= i < n.attribute@.len() {
                    attribute_v(n.attribute@[i])
                } else {
                    arbitrary()
                },
        ),
    }
}

pub open spec fn graph_v(g: GraphProto) -> GraphV
    decreases g,
{
    GraphV {
        name: g.name@,
        node: Seq::new(
            g.node@.len(),
            |i: int|
                if 0 <= i < g.node@.len() {
                    node_v(g.node@[i])
                } else {
                    arbitrary()
                },
        ),
        initializer: tensors_v(g.initializer@),
        input: infos_v(g.input@),
        output: infos_v(g.output@),
        value_info: infos_v(g.value_info@),
    }
}

pub open spec fn nodes_v(v: Seq<NodeProto>) -> Seq<NodeV> {
    Seq::new(v.len(), |i: int| node_v(v[i]))
}

impl View for AttributeProto {
    type V = AttributeV;

    open spec fn view(&self) -> AttributeV {
        attribute_v(*self)
    }
}

impl View for NodeProto {
    type V = NodeV;

    open spec fn view(&self) -> NodeV {
        node_v(*self)
    }
}

impl View for GraphProto {
    type V = GraphV;

    open spec fn view(&self) -> GraphV {
        graph_v(*self)
    }
}

impl View for ModelProto {
    type V = ModelV;

    open spec fn view(&self) -> ModelV {
        ModelV {
            opset_import: opsets_v(self.opset_import@),
            metadata_props: entries_v(self.metadata_props@),
            graph: match self.graph {
                Some(g) => Some(g@),
                None => None,
            },
        }
    }
}

// ---------------------------------------------------------------------------
// Copies
// ---------------------------------------------------------------------------

/// A list of strings with the same texts.
pub fn copy_strings(v: &Vec<String>) -> (r: Vec<String>)
    ensures
        texts(r@) == texts(v@),
{
    let mut r: Vec<String> = Vec::new();
    let mut i: usize = 0;
    while i < v.len()
        invariant
            i <= v@.len(),
            r@.len() == i,
            forall|k: int| 0 <= k < i ==> (#[trigger] r@[k])@ == v@[k]@,
        decreases v@.len() - i,
    {
        r.push(v[i].clone());
        i = i + 1;
    }
    assert(texts(r@) =~= texts(v@));
    r
}

fn copy_byte_lists(v: &Vec<Vec<u8>>) -> (r: Vec<Vec<u8>>)
    ensures
        byte_lists(r@) == byte_lists(v@),
{
    let mut r: Vec<Vec<u8>> = Vec::new();
    let mut i: usize = 0;
    while i < v.len()
        invariant
            i <= v@.len(),
            r@.len() == i,
            forall|k: int| 0 <= k < i ==> (#[trigger] r@[k])@ == v@[k]@,
        decreases v@.len() - i,
    {
        let b: Vec<u8> = v[i].clone();
        assert(b@ =~= v@[i as int]@);
        r.push(b);
        i = i + 1;
    }
    assert(byte_lists(r@) =~= byte_lists(v@));
    r
}

fn copy_entries(v: &Vec<StringStringEntryProto>) -> (r: Vec<StringStringEntryProto>)
    ensures
        entries_v(r@) == entries_v(v@),
{
    let mut r: Vec<StringStringEntryProto> = Vec::new();
    let mut i: usize = 0;
    while i < v.len()
        invariant
            i <= v@.len(),
            r@.len() == i,
            forall|k: int| 0 <= k < i ==> (#[trigger] r@[k])@ == v@[k]@,
        decreases v@.len() - i,
    {
        r.push(StringStringEntryProto { key: v[i].key.clone(), value: v[i].value.clone() });
        i = i + 1;
    }
    assert(entries_v(r@) =~= entries_v(v@));
    r
}

impl DimensionProto {
    pub fn copy(&self) -> (r: DimensionProto)
        ensures
            r@ == self@,
    {
        match self {
            DimensionProto::Unknown => DimensionProto::Unknown,
            DimensionProto::DimValue(v) => DimensionProto::DimValue(*v),
            DimensionProto::DimParam(p) => DimensionProto::DimParam(p.clone()),
        }
    }
}

impl TensorTypeProto {
    pub fn copy(&self) -> (r: TensorTypeProto)
        ensures
            r@ == self@,
    {
        let shape = match &self.shape {
            Some(s) => {
                let mut d: Vec<DimensionProto> = Vec::new();
                let mut i: usize = 0;
                while i < s.len()
                    invariant
                        i <= s@.len(),
                        d@.len() == i,
                        forall|k: int| 0 <= k < i ==> (#[trigger] d@[k])@ == s@[k]@,
                    decreases s@.len() - i,
                {
                    d.push(s[i].copy());
                    i = i + 1;
                }
                assert(dims_v(d@) =~= dims_v(s@));
                Some(d)
            },
            None => None,
        };
        TensorTypeProto { elem_type: self.elem_type, shape }
    }
}

impl ValueInfoProto {
    pub fn copy(&self) -> (r: ValueInfoProto)
        ensures
            r@ == self@,
    {
        let tensor_type = match &self.tensor_type {
            Some(t) => Some(t.copy()),
            None => None,
        };
        ValueInfoProto { name: self.name.clone(), tensor_type }
    }
}

/// A list of values with the same views.
pub fn copy_infos(v: &Vec<ValueInfoProto>) -> (r: Vec<ValueInfoProto>)
    ensures
        infos_v(r@) == infos_v(v@),
{
    let mut r: Vec<ValueInfoProto> = Vec::new();
    let mut i: usize = 0;
    while i < v.len()
        invariant
            i <= v@.len(),
            r@.len() == i,
            forall|k: int| 0 <= k < i ==> (#[trigger] r@[k])@ == v@[k]@,
        decreases v@.len() - i,
    {
        r.push(v[i].copy());
        i = i + 1;
    }
    assert(infos_v(r@) =~= infos_v(v@));
    r
}

impl TensorProto {
    pub fn copy(&self) -> (r: TensorProto)
        ensures
            r@ == self@,
    {
        let r = TensorProto {
            name: self.name.clone(),
            dims: self.dims.clone(),
            data_type: self.data_type,
            raw_data: self.raw_data.clone(),
            float_data: self.float_data.clone(),
            int32_data: self.int32_data.clone(),
            int64_data: self.int64_data.clone(),
            double_data: self.double_data.clone(),
            uint64_data: self.uint64_data.clone(),
            string_data: copy_byte_lists(&self.string_data),
            data_location: self.data_location,
            external_data: copy_entries(&self.external_data),
        };
        assert(r.dims@ =~= self.dims@);
        assert(r.raw_data@ =~= self.raw_data@);
        assert(r.float_data@ =~= self.float_data@);
        assert(r.int32_data@ =~= self.int32_data@);
        assert(r.int64_data@ =~= self.int64_data@);
        assert(r.double_data@ =~= self.double_data@);
        assert(r.uint64_data@ =~= self.uint64_data@);
        r
    }

    /// A tensor whose payload is `raw_data`.
    pub fn raw(name: String, data_type: i32, dims: Vec<i64>, raw_data: Vec<u8>) -> (r: TensorProto)
        ensures
            r@ == raw_tensor(name@, data_type, dims@, raw_data@),
    {
        let r = TensorProto {
            name,
            dims,
            data_type,
            raw_data,
            float_data: Vec::new(),
            int32_data: Vec::new(),
            int64_data: Vec::new(),
            double_data: Vec::new(),
            uint64_data: Vec::new(),
            string_data: Vec::new(),
            data_location: 0,
            external_data: Vec::new(),
        };
        assert(r@.string_data =~= Seq::<Seq<u8>>::empty());
        assert(r@.external_data =~= Seq::<EntryV>::empty());
        r
    }
}

/// The view of a tensor that has nothing but `raw_data`.
pub open spec fn raw_tensor(
    name: Seq<char>,
    data_type: i32,
    dims: Seq<i64>,
    raw_data: Seq<u8>,
) -> TensorV {
    TensorV {
        name,
        dims,
        data_type,
        raw_data,
        float_data: seq![],
        int32_data: seq![],
        int64_data: seq![],
        double_data: seq![],
        uint64_data: seq![],
        string_data: seq![],
        data_location: 0,
        external_data: seq![],
    }
}

/// A list of tensors with the same views.
pub fn copy_tensors(v: &Vec<TensorProto>) -> (r: Vec<TensorProto>)
    ensures
        tensors_v(r@) == tensors_v(v@),
{
    let mut r: Vec<TensorProto> = Vec::new();
    let mut i: usize = 0;
    while i < v.len()
        invariant
            i <= v@.len(),
            r@.len() == i,
            forall|k: int| 0 <= k < i ==> (#[trigger] r@[k])@ == v@[k]@,
        decreases v@.len() - i,
    {
        r.push(v[i].copy());
        i = i + 1;
    }
    assert(tensors_v(r@) =~= tensors_v(v@));
    r
}

impl AttributeProto {
    pub fn copy(&self) -> (r: AttributeProto)
        ensures
            r@ == self@,
        decreases self,
    {
        let g = match &self.g {
            Some(g) => Some(g.copy()),
            None => None,
        };
        let t = match &self.t {
            Some(t) => Some(t.copy()),
            None => None,
        };
        let mut graphs: Vec<GraphProto> = Vec::new();
        let mut i: usize = 0;
        while i < self.graphs.len()
            invariant
                i <= self.graphs@.len(),
                graphs@.len() == i,
                forall|k: int| 0 <= k < i ==> graph_v(#[trigger] graphs@[k]) == graph_v(self.graphs@[k]),
            decreases self.graphs@.len() - i,
        {
            let c = self.graphs[i].copy();
            graphs.push(c);
            i = i + 1;
        }
        let r = AttributeProto {
            name: self.name.clone(),
            f: self.f,
            f_text: self.f_text.clone(),
            i: self.i,
            s: self.s.clone(),
            t,
            g,
            floats: self.floats.clone(),
            ints: self.ints.clone(),
            strings: copy_byte_lists(&self.strings),
            graphs,
        };
        assert(r.s@ =~= self.s@);
        assert(r.floats@ =~= self.floats@);
        assert(r.ints@ =~= self.ints@);
        assert(attribute_v(r).graphs =~= attribute_v(*self).graphs);
        r
    }
}

impl NodeProto {
    pub fn copy(&self) -> (r: NodeProto)
        ensures
            r@ == self@,
        decreases self,
    {
        let mut attribute: Vec<AttributeProto> = Vec::new();
        let mut i: usize = 0;
        while i < self.attribute.len()
            invariant
                i <= self.attribute@.len(),
                attribute@.len() == i,
                forall|k: int|
                    0 <= k < i ==> attribute_v(#[trigger] attribute@[k]) == attribute_v(
                        self.attribute@[k],
                    ),
            decreases self.attribute@.len() - i,
        {
            let c = self.attribute[i].copy();
            attribute.push(c);
            i = i + 1;
        }
        let r = NodeProto {
            op_type: self.op_type.clone(),
            domain: self.domain.clone(),
            name: self.name.clone(),
            input: copy_strings(&self.input),
            output: copy_strings(&self.output),
            attribute,
        };
        assert(node_v(r).attribute =~= node_v(*self).attribute);
        r
    }
}

impl GraphProto {
    pub fn copy(&self) -> (r: GraphProto)
        ensures
            r@ == self@,
        decreases self,
    {
        let mut node: Vec<NodeProto> = Vec::new();
        let mut i: usize = 0;
        while i < self.node.len()
            invariant
                i <= self.node@.len(),
                node@.len() == i,
                forall|k: int| 0 <= k < i ==> node_v(#[trigger] node@[k]) == node_v(self.node@[k]),
            decreases self.node@.len() - i,
        {
            let c = self.node[i].copy();
            node.push(c);
            i = i + 1;
        }
        let r = GraphProto {
            name: self.name.clone(),
            node,
            initializer: copy_tensors(&self.initializer),
            input: copy_infos(&self.input),
            output: copy_infos(&self.output),
            value_info: copy_infos(&self.value_info),
        };
        assert(graph_v(r).node =~= graph_v(*self).node);
        r
    }
}

// ---------------------------------------------------------------------------
// Defaults
// ---------------------------------------------------------------------------

impl Default for OperatorSetIdProto {
    fn default() -> (r: Self)
        ensures
            r@ == (OpsetV { domain: seq![], version: 0 }),
    {
        OperatorSetIdProto { domain: String::new(), version: 0 }
    }
}

impl Default for TensorProto {
    fn default() -> (r: Self)
        ensures
            r@ == raw_tensor(seq![], 0, seq![], seq![]),
    {
        TensorProto::raw(String::new(), 0, Vec::new(), Vec::new())
    }
}

impl Default for ValueInfoProto {
    fn default() -> (r: Self)
        ensures
            r@ == (ValueInfoV { name: seq![], tensor_type: None }),
    {
        ValueInfoProto { name: String::new(), tensor_type: None }
    }
}

impl Default for AttributeProto {
    fn default() -> (r: Self)
        ensures
            r@ == (AttributeV {
                name: seq![],
                f: 0,
                f_text: seq![],
                i: 0,
                s: seq![],
                t: None,
                g: None,
                floats: seq![],
                ints: seq![],
                strings: seq![],
                graphs: seq![],
            }),
    {
        let r = AttributeProto {
            name: String::new(),
            f: 0,
            f_text: String::new(),
            i: 0,
            s: Vec::new(),
            t: None,
            g: None,
            floats: Vec::new(),
            ints: Vec::new(),
            strings: Vec::new(),
            graphs: Vec::new(),
        };
        assert(r@.strings =~= Seq::<Seq<u8>>::empty());
        assert(r@.graphs =~= Seq::<GraphV>::empty());
        r
    }
}

impl Default for NodeProto {
    fn default() -> (r: Self)
        ensures
            r@ == (NodeV {
                op_type: seq![],
                domain: seq![],
                name: seq![],
                input: seq![],
                output: seq![],
                attribute: seq![],
            }),
    {
        let r = NodeProto {
            op_type: String::new(),
            domain: String::new(),
            name: String::new(),
            input: Vec::new(),
            output: Vec::new(),
            attribute: Vec::new(),
        };
        assert(r@.input =~= Seq::<Seq<char>>::empty());
        assert(r@.output =~= Seq::<Seq<char>>::empty());
        assert(r@.attribute =~= Seq::<AttributeV>::empty());
        r
    }
}

impl Default for GraphProto {
    fn default() -> (r: Self)
        ensures
            r@ == (GraphV {
                name: seq![],
                node: seq![],
                initializer: seq![],
                input: seq![],
                output: seq![],
                value_info: seq![],
            }),
    {
        let r = GraphProto {
            name: String::new(),
            node: Vec::new(),
            initializer: Vec::new(),
            input: Vec::new(),
            output: Vec::new(),
            value_info: Vec::new(),
        };
        assert(r@.node =~= Seq::<NodeV>::empty());
        assert(r@.initializer =~= Seq::<TensorV>::empty());
        assert(r@.input =~= Seq::<ValueInfoV>::empty());
        assert(r@.output =~= Seq::<ValueInfoV>::empty());
        assert(r@.value_info =~= Seq::<ValueInfoV>::empty());
        r
    }
}

impl Default for ModelProto {
    fn default() -> (r: Self)
        ensures
            r@ == (ModelV { opset_import: seq![], metadata_props: seq![], graph: None }),
    {
        let r = ModelProto { opset_import: Vec::new(), metadata_props: Vec::new(), graph: None };
        assert(r@.opset_import =~= Seq::<OpsetV>::empty());
        assert(r@.metadata_props =~= Seq::<EntryV>::empty());
        r
    }
}

} // verus!
