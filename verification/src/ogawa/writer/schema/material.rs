//! Material schema writer.

use vstd::prelude::*;
use vstd::string::*;
use vstd::utf8::encode_utf8;
use crate::ogawa::le::le_bytes;
use crate::util::data_type::DataType;
use crate::util::metadata::{MetaData, metadata_pairs};
use crate::util::pod::PlainOldDataType;
use crate::ogawa::writer::object::OObject;
use crate::ogawa::writer::property::{OProperty, OPropertyData, PropView, prop_view, add_array_view, add_scalar_view};
use crate::ogawa::writer::write_util::{encode_string_array, string_array_bytes, bytes_to_vec, write_with_hint};
use crate::ogawa::writer::schema::util::{
    ChildKind, created_view, empty_compound_view, with_children, props_view, lemma_children_view,
    children_view, schema_titled, titled_meta,
};
use crate::ogawa::writer::schema::order::{stable_order, is_stable_order, keys_view, positions};
use crate::ogawa::writer::schema::polymesh::dtype;

verus! {

/// The value of a shader parameter; floating-point components are held as
/// the bit patterns of their `f32` (or, for `Double`, `f64`) values.
pub enum ShaderParamValue {
    Float(u32),
    Double(u64),
    Vec2([u32; 2]),
    Vec3([u32; 3]),
    Color3([u32; 3]),
    Vec4([u32; 4]),
    Color4([u32; 4]),
    Matrix([u32; 16]),
    Int(i32),
    String(String),
    Bool(bool),
    FloatArray(Vec<u32>),
    IntArray(Vec<i32>),
    StringArray(Vec<String>),
}

/// A named shader parameter.
pub struct ShaderParam {
    pub name: String,
    pub value: ShaderParamValue,
}

/// The little-endian bytes of a list of 32-bit words.
pub open spec fn words_le(ws: Seq<u32>) -> Seq<u8>
    decreases ws.len(),
{
    if ws.len() == 0 {
        Seq::empty()
    } else {
        words_le(ws.drop_last()) + le_bytes(ws.last() as nat, 4)
    }
}

/// The 32-bit words of a list of integers.
pub open spec fn int_words(vs: Seq<i32>) -> Seq<u32> {
    vs.map_values(|v: i32| v as u32)
}

/// Encode a list of 32-bit words.
pub fn encode_words(ws: &[u32]) -> (r: Vec<u8>)
    ensures
        r@ == words_le(ws@),
{
    let mut out: Vec<u8> = Vec::new();
    let mut i: usize = 0;
    while i < ws.len()
        invariant
            i <= ws@.len(),
            out@ == words_le(ws@.subrange(0, i as int)),
        decreases ws@.len() - i,
    {
        write_with_hint(&mut out, ws[i], 2);
        let ghost sub = ws@.subrange(0, i + 1);
        assert(sub.drop_last() =~= ws@.subrange(0, i as int));
        i = i + 1;
    }
    assert(ws@.subrange(0, ws@.len() as int) =~= ws@);
    out
}

fn int_words_of(vs: &[i32]) -> (r: Vec<u32>)
    ensures
        r@ == int_words(vs@),
{
    let mut out: Vec<u32> = Vec::new();
    let mut i: usize = 0;
    while i < vs.len()
        invariant
            i <= vs@.len(),
            out@ =~= int_words(vs@.subrange(0, i as int)),
        decreases vs@.len() - i,
    {
        out.push(vs[i] as u32);
        i = i + 1;
    }
    assert(vs@.subrange(0, vs@.len() as int) =~= vs@);
    out
}

/// The strings of a list as character sequences.
pub open spec fn string_views(v: Seq<String>) -> Seq<Seq<char>> {
    v.map_values(|s: String| s@)
}

/// What a parameter is stored as: its data type, its sample bytes and, for
/// the array values, its dimensions (none for the scalar values).
pub open spec fn param_encoding(v: ShaderParamValue) -> (DataType, Seq<u8>, Seq<usize>) {
    match v {
        ShaderParamValue::Float(b) => (dtype(PlainOldDataType::Float32, 1), words_le(seq![b]), Seq::empty()),
        ShaderParamValue::Double(b) => (dtype(PlainOldDataType::Float64, 1), le_bytes(b as nat, 8), Seq::empty()),
        ShaderParamValue::Vec2(a) => (dtype(PlainOldDataType::Float32, 2), words_le(a@), Seq::empty()),
        ShaderParamValue::Vec3(a) => (dtype(PlainOldDataType::Float32, 3), words_le(a@), Seq::empty()),
        ShaderParamValue::Color3(a) => (dtype(PlainOldDataType::Float32, 3), words_le(a@), Seq::empty()),
        ShaderParamValue::Vec4(a) => (dtype(PlainOldDataType::Float32, 4), words_le(a@), Seq::empty()),
        ShaderParamValue::Color4(a) => (dtype(PlainOldDataType::Float32, 4), words_le(a@), Seq::empty()),
        ShaderParamValue::Matrix(a) => (dtype(PlainOldDataType::Float32, 16), words_le(a@), Seq::empty()),
        ShaderParamValue::Int(i) => (dtype(PlainOldDataType::Int32, 1), words_le(seq![i as u32]), Seq::empty()),
        ShaderParamValue::String(s) => (dtype(PlainOldDataType::String, 1), encode_utf8(s@).push(0), Seq::empty()),
        ShaderParamValue::Bool(b) => (dtype(PlainOldDataType::Boolean, 1), seq![if b { 1u8 } else { 0u8 }], Seq::empty()),
        ShaderParamValue::FloatArray(a) => (dtype(PlainOldDataType::Float32, 1), words_le(a@), seq![a@.len() as usize]),
        ShaderParamValue::IntArray(a) => (
            dtype(PlainOldDataType::Int32, 1),
            words_le(int_words(a@)),
            seq![a@.len() as usize],
        ),
        ShaderParamValue::StringArray(a) => (
            dtype(PlainOldDataType::String, 1),
            string_array_bytes(string_views(a@)),
            seq![a@.len() as usize],
        ),
    }
}

/// Encode a parameter value (see `param_encoding`).
pub fn encode_param(v: &ShaderParamValue) -> (r: (DataType, Vec<u8>, Vec<usize>))
    ensures
        (r.0, r.1@, r.2@) == param_encoding(*v),
{
    let mut dims: Vec<usize> = Vec::new();
    match v {
        ShaderParamValue::Float(b) => {
            let mut w: Vec<u32> = Vec::new();
            w.push(*b);
            assert(w@ =~= seq![*b]);
            (DataType::new(PlainOldDataType::Float32, 1), encode_words(w.as_slice()), dims)
        },
        ShaderParamValue::Double(b) => {
            let mut out: Vec<u8> = Vec::new();
            crate::ogawa::writer::write_util::write_u64_le(&mut out, *b);
            assert(out@ =~= le_bytes(*b as nat, 8));
            (DataType::new(PlainOldDataType::Float64, 1), out, dims)
        },
        ShaderParamValue::Vec2(a) => (DataType::new(PlainOldDataType::Float32, 2), encode_words(a), dims),
        ShaderParamValue::Vec3(a) => (DataType::new(PlainOldDataType::Float32, 3), encode_words(a), dims),
        ShaderParamValue::Color3(a) => (DataType::new(PlainOldDataType::Float32, 3), encode_words(a), dims),
        ShaderParamValue::Vec4(a) => (DataType::new(PlainOldDataType::Float32, 4), encode_words(a), dims),
        ShaderParamValue::Color4(a) => (DataType::new(PlainOldDataType::Float32, 4), encode_words(a), dims),
        ShaderParamValue::Matrix(a) => (DataType::new(PlainOldDataType::Float32, 16), encode_words(a), dims),
        ShaderParamValue::Int(i) => {
            let mut w: Vec<u32> = Vec::new();
            w.push(*i as u32);
            assert(w@ =~= seq![*i as u32]);
            (DataType::new(PlainOldDataType::Int32, 1), encode_words(w.as_slice()), dims)
        },
        ShaderParamValue::String(s) => {
            let mut data = bytes_to_vec(s.as_str().as_bytes());
            data.push(0);
            (DataType::new(PlainOldDataType::String, 1), data, dims)
        },
        ShaderParamValue::Bool(b) => {
            let mut data: Vec<u8> = Vec::new();
            data.push(if *b { 1u8 } else { 0u8 });
            assert(data@ =~= seq![if *b { 1u8 } else { 0u8 }]);
            (DataType::new(PlainOldDataType::Boolean, 1), data, dims)
        },
        ShaderParamValue::FloatArray(a) => {
            dims.push(a.len());
            assert(dims@ =~= seq![a@.len() as usize]);
            (DataType::new(PlainOldDataType::Float32, 1), encode_words(a.as_slice()), dims)
        },
        ShaderParamValue::IntArray(a) => {
            dims.push(a.len());
            assert(dims@ =~= seq![a@.len() as usize]);
            let w = int_words_of(a.as_slice());
            (DataType::new(PlainOldDataType::Int32, 1), encode_words(w.as_slice()), dims)
        },
        ShaderParamValue::StringArray(a) => {
            dims.push(a.len());
            assert(dims@ =~= seq![a@.len() as usize]);
            (DataType::new(PlainOldDataType::String, 1), encode_string_array(a.as_slice()), dims)
        },
    }
}

/// The property a parameter is stored in: a scalar holding its value, or
/// an array holding it with its dimensions.
pub open spec fn param_prop_view(p: ShaderParam) -> PropView {
    let (dt, data, dims) = param_encoding(p.value);
    if dims.len() == 0 {
        add_scalar_view(created_view(ChildKind::Scalar, p.name@, dt, Seq::empty(), 0), data)
    } else {
        add_array_view(created_view(ChildKind::Array, p.name@, dt, Seq::empty(), 0), data, dims)
    }
}

/// Build the property of a parameter.
pub fn param_property(p: &ShaderParam) -> (r: OProperty)
    ensures
        prop_view(r) == param_prop_view(*p),
{
    let (dt, data, dims) = encode_param(&p.value);
    if dims.len() == 0 {
        let mut prop = OProperty::scalar(p.name.as_str(), dt);
        proof {
            match &prop.data {
                OPropertyData::Scalar(s) => {
                    assert(crate::ogawa::writer::property::scalar_views(s@) =~= Seq::<Seq<u8>>::empty());
                },
                _ => {},
            }
            assert(prop_view(prop).meta =~= Seq::<(Seq<char>, Seq<char>)>::empty());
        }
        prop.add_scalar_sample(data.as_slice());
        prop
    } else {
        let mut prop = OProperty::array(p.name.as_str(), dt);
        proof {
            match &prop.data {
                OPropertyData::Array(s) => {
                    assert(crate::ogawa::writer::property::array_views(s@) =~= Seq::<(Seq<u8>, Seq<usize>)>::empty());
                },
                _ => {},
            }
            assert(prop_view(prop).meta =~= Seq::<(Seq<char>, Seq<char>)>::empty());
        }
        prop.add_array_sample(data.as_slice(), dims.as_slice());
        prop
    }
}

/// Material sample data: the shader of each (target, shader type) and the
/// parameters of each (target, shader type), in the order the keys were
/// first added; no key occurs twice in either list.
pub struct OMaterialSample {
    pub shader_names: Vec<((String, String), String)>,
    pub params: Vec<((String, String), Vec<ShaderParam>)>,
}

/// Shader entries as character sequences.
pub open spec fn shader_entries(v: Seq<((String, String), String)>) -> Seq<((Seq<char>, Seq<char>), Seq<char>)> {
    v.map_values(|e: ((String, String), String)| ((e.0.0@, e.0.1@), e.1@))
}

/// The shaders of a sample as character sequences.
pub open spec fn shaders_view(s: OMaterialSample) -> Seq<((Seq<char>, Seq<char>), Seq<char>)> {
    shader_entries(s.shader_names@)
}

/// A parameter list entry keyed by its texts.
pub open spec fn param_entry(e: ((String, String), Vec<ShaderParam>)) -> ((Seq<char>, Seq<char>), Seq<ShaderParam>) {
    ((e.0.0@, e.0.1@), e.1@)
}

/// Parameter list entries keyed by their texts.
pub open spec fn param_entries(v: Seq<((String, String), Vec<ShaderParam>)>) -> Seq<((Seq<char>, Seq<char>), Seq<ShaderParam>)> {
    v.map_values(|e: ((String, String), Vec<ShaderParam>)| param_entry(e))
}

/// The parameter lists of a sample, keyed by their texts.
pub open spec fn params_view(s: OMaterialSample) -> Seq<((Seq<char>, Seq<char>), Seq<ShaderParam>)> {
    param_entries(s.params@)
}

/// `i` is the first entry with key `key`.
pub open spec fn is_first_key<V>(es: Seq<((Seq<char>, Seq<char>), V)>, key: (Seq<char>, Seq<char>), i: int) -> bool {
    0 <= i < es.len() && es[i].0 == key && forall|j: int| 0 <= j < i ==> es[j].0 != key
}

/// The shaders after setting the shader of `key`: an existing key gets the
/// new name in place, a new key is appended.
pub open spec fn with_shader(
    es: Seq<((Seq<char>, Seq<char>), Seq<char>)>,
    key: (Seq<char>, Seq<char>),
    name: Seq<char>,
) -> Seq<((Seq<char>, Seq<char>), Seq<char>)> {
    if exists|i: int| is_first_key(es, key, i) {
        es.update(choose|i: int| is_first_key(es, key, i), (key, name))
    } else {
        es.push((key, name))
    }
}

/// The parameter lists after adding `param` under `key`: appended to the
/// list of an existing key, or a new list of one appended.
pub open spec fn with_param(
    es: Seq<((Seq<char>, Seq<char>), Seq<ShaderParam>)>,
    key: (Seq<char>, Seq<char>),
    param: ShaderParam,
) -> Seq<((Seq<char>, Seq<char>), Seq<ShaderParam>)> {
    if exists|i: int| is_first_key(es, key, i) {
        let i = choose|i: int| is_first_key(es, key, i);
        es.update(i, (key, es[i].1.push(param)))
    } else {
        es.push((key, seq![param]))
    }
}

proof fn lemma_first_key<V>(es: Seq<((Seq<char>, Seq<char>), V)>, key: (Seq<char>, Seq<char>), i: int)
    requires
        is_first_key(es, key, i),
    ensures
        (choose|k: int| is_first_key(es, key, k)) == i,
{
    let k = choose|k: int| is_first_key(es, key, k);
    if k < i {
        assert(es[k].0 != key);
    } else if k > i {
        assert(es[i].0 != key);
    }
}

impl OMaterialSample {
    /// Create empty material sample.
    pub fn new() -> (r: Self)
        ensures
            shaders_view(r).len() == 0,
            params_view(r).len() == 0,
    {
        Self { shader_names: Vec::new(), params: Vec::new() }
    }

    /// Set the shader of a target and shader type.
    pub fn add_shader(&mut self, target: &str, shader_type: &str, shader_name: &str)
        ensures
            shaders_view(*final(self)) == with_shader(
                shaders_view(*old(self)),
                (target@, shader_type@),
                shader_name@,
            ),
            params_view(*final(self)) == params_view(*old(self)),
    {
        let ghost es = shaders_view(*self);
        let ghost key = (target@, shader_type@);
        let mut i: usize = 0;
        while i < self.shader_names.len()
            invariant
                i <= self.shader_names@.len(),
                es == shaders_view(*self),
                es == shaders_view(*old(self)),
                *self == *old(self),
                key == (target@, shader_type@),
                forall|j: int| 0 <= j < i ==> es[j].0 != key,
            decreases self.shader_names@.len() - i,
        {
            if crate::util::text::str_equals(self.shader_names[i].0.0.as_str(), target)
                && crate::util::text::str_equals(self.shader_names[i].0.1.as_str(), shader_type) {
                proof {
                    assert(is_first_key(es, key, i as int));
                    lemma_first_key(es, key, i as int);
                }
                let ghost before = self.shader_names@;
                self.shader_names.set(i, ((target.to_owned(), shader_type.to_owned()), shader_name.to_owned()));
                assert(shaders_view(*self) =~= es.update(i as int, (key, shader_name@)));
                assert(with_shader(es, key, shader_name@) == es.update(i as int, (key, shader_name@)));
                return;
            }
            i = i + 1;
        }
        self.shader_names.push(((target.to_owned(), shader_type.to_owned()), shader_name.to_owned()));
        assert(shaders_view(*self) =~= es.push((key, shader_name@)));
    }

    /// Add a parameter to the list of a target and shader type.
    pub fn add_param(&mut self, target: &str, shader_type: &str, param: ShaderParam)
        ensures
            params_view(*final(self)) == with_param(params_view(*old(self)), (target@, shader_type@), param),
            shaders_view(*final(self)) == shaders_view(*old(self)),
    {
        let ghost es = params_view(*self);
        let ghost key = (target@, shader_type@);
        let mut i: usize = 0;
        while i < self.params.len()
            invariant
                i <= self.params@.len(),
                es == params_view(*self),
                es == params_view(*old(self)),
                *self == *old(self),
                key == (target@, shader_type@),
                forall|j: int| 0 <= j < i ==> es[j].0 != key,
            decreases self.params@.len() - i,
        {
            if crate::util::text::str_equals(self.params[i].0.0.as_str(), target)
                && crate::util::text::str_equals(self.params[i].0.1.as_str(), shader_type) {
                proof {
                    assert(is_first_key(es, key, i as int));
                    lemma_first_key(es, key, i as int);
                }
                let ghost p = param;
                let mut entry = self.params.remove(i);
                entry.1.push(param);
                self.params.insert(i, entry);
                assert(params_view(*self) =~= es.update(i as int, (key, es[i as int].1.push(p))));
                assert(with_param(es, key, p) == es.update(i as int, (key, es[i as int].1.push(p))));
                return;
            }
            i = i + 1;
        }
        let ghost p = param;
        let mut list: Vec<ShaderParam> = Vec::new();
        list.push(param);
        assert(list@ =~= seq![p]);
        self.params.push(((target.to_owned(), shader_type.to_owned()), list));
        assert(params_view(*self) =~= es.push((key, seq![p])));
    }
}

impl Default for OMaterialSample {
    fn default() -> (r: Self)
        ensures
            shaders_view(r).len() == 0,
            params_view(r).len() == 0,
    {
        Self::new()
    }
}

/// The sort key of a (target, shader type) key: the bytes of both texts.
pub open spec fn text_key(k: (Seq<char>, Seq<char>)) -> (Seq<u8>, Seq<u8>) {
    (encode_utf8(k.0), encode_utf8(k.1))
}

/// The sort keys of the shaders of a sample.
pub open spec fn shader_keys(es: Seq<((Seq<char>, Seq<char>), Seq<char>)>) -> Seq<(Seq<u8>, Seq<u8>)> {
    Seq::new(es.len(), |i: int| text_key(es[i].0))
}

/// The sort keys of the parameter lists of a sample.
pub open spec fn param_keys(es: Seq<((Seq<char>, Seq<char>), Seq<ShaderParam>)>) -> Seq<(Seq<u8>, Seq<u8>)> {
    Seq::new(es.len(), |i: int| text_key(es[i].0))
}

/// The sort keys of parameters: their names.
pub open spec fn name_keys(ps: Seq<ShaderParam>) -> Seq<(Seq<u8>, Seq<u8>)> {
    Seq::new(ps.len(), |i: int| (encode_utf8(ps[i].name@), Seq::<u8>::empty()))
}

/// The texts of `.shaderNames` for the shaders in the order `perm`: for
/// each, `target.shaderType` and the shader name.
pub open spec fn shader_strings(es: Seq<((Seq<char>, Seq<char>), Seq<char>)>, perm: Seq<int>) -> Seq<Seq<char>>
    decreases perm.len(),
{
    if perm.len() == 0 {
        Seq::empty()
    } else {
        let e = es[perm.last()];
        shader_strings(es, perm.drop_last()) + seq![e.0.0 + seq!['.'] + e.0.1, e.1]
    }
}

/// The name of the parameter compound of a key: `target.shaderType.params`.
pub open spec fn params_name(k: (Seq<char>, Seq<char>)) -> Seq<char> {
    k.0 + seq!['.'] + k.1 + ".params"@
}

/// The compound of a parameter list, its parameters in the order `perm`.
pub open spec fn params_compound_view(e: ((Seq<char>, Seq<char>), Seq<ShaderParam>), perm: Seq<int>) -> PropView {
    with_children(
        empty_compound_view(params_name(e.0)),
        Seq::new(perm.len(), |m: int| param_prop_view(e.1[perm[m]])),
    )
}

/// The `.shaderNames` property holding `strings` as its only sample.
pub open spec fn shader_names_view(strings: Seq<Seq<char>>) -> PropView {
    add_array_view(
        created_view(ChildKind::Array, ".shaderNames"@, dtype(PlainOldDataType::String, 1), Seq::empty(), 0),
        string_array_bytes(strings),
        seq![strings.len() as usize],
    )
}

/// The `.material` compound for the shaders in the order `ps` and the
/// parameter lists in the order `pp`, the parameters of the `k`-th in the
/// order `inner[k]`.
pub open spec fn material_view(
    ss: Seq<((Seq<char>, Seq<char>), Seq<char>)>,
    pv: Seq<((Seq<char>, Seq<char>), Seq<ShaderParam>)>,
    ps: Seq<int>,
    pp: Seq<int>,
    inner: Seq<Seq<int>>,
) -> PropView {
    with_children(
        PropView { meta: seq![("schema"@, "AbcMaterial_Material_v1"@)], ..empty_compound_view(".material"@) },
        (if ss.len() == 0 {
            Seq::<PropView>::empty()
        } else {
            seq![shader_names_view(shader_strings(ss, ps))]
        }) + Seq::new(pp.len(), |k: int| params_compound_view(pv[pp[k]], inner[k])),
    )
}

/// `v` is the `.material` compound of the sample, with the shaders and the
/// parameter lists sorted by key and the parameters of each list sorted by
/// name (equal names in the order they were added).
pub open spec fn material_built(
    ss: Seq<((Seq<char>, Seq<char>), Seq<char>)>,
    pv: Seq<((Seq<char>, Seq<char>), Seq<ShaderParam>)>,
    v: PropView,
    ps: Seq<int>,
    pp: Seq<int>,
    inner: Seq<Seq<int>>,
) -> bool {
    &&& is_stable_order(shader_keys(ss), ps)
    &&& is_stable_order(param_keys(pv), pp)
    &&& inner.len() == pp.len()
    &&& forall|k: int| 0 <= k < pp.len() ==> is_stable_order(name_keys(pv[pp[k]].1), #[trigger] inner[k])
    &&& v == material_view(ss, pv, ps, pp, inner)
}

/// Material schema writer.
pub struct OMaterial {
    object: OObject,
    sample: OMaterialSample,
}

/// The state of a material writer: the object and its sample.
pub struct MaterialView {
    pub object: OObject,
    pub shaders: Seq<((Seq<char>, Seq<char>), Seq<char>)>,
    pub params: Seq<((Seq<char>, Seq<char>), Seq<ShaderParam>)>,
}

impl View for OMaterial {
    type V = MaterialView;

    closed spec fn view(&self) -> MaterialView {
        MaterialView { object: self.object, shaders: shaders_view(self.sample), params: params_view(self.sample) }
    }
}

fn text_key_of(t: &String, ty: &String) -> (r: (Vec<u8>, Vec<u8>))
    ensures
        (r.0@, r.1@) == text_key((t@, ty@)),
{
    (bytes_to_vec(t.as_str().as_bytes()), bytes_to_vec(ty.as_str().as_bytes()))
}

fn joined(a: &String, b: &str) -> (r: String)
    ensures
        r@ == a@ + seq!['.'] + b@,
{
    proof {
        reveal_strlit(".");
    }
    let mut s = a.clone();
    s.append(".");
    s.append(b);
    s
}

fn shader_names_prop(ss: &Vec<((String, String), String)>) -> (r: OProperty)
    ensures
        exists|ps: Seq<int>| #[trigger] is_stable_order(
            shader_keys(shader_entries(ss@)),
            ps,
        ) && prop_view(r) == shader_names_view(
            shader_strings(shader_entries(ss@), ps),
        ),
{
    let ghost sv = shader_entries(ss@);
    let mut keys: Vec<(Vec<u8>, Vec<u8>)> = Vec::new();
    let mut i: usize = 0;
    while i < ss.len()
        invariant
            i <= ss@.len(),
            sv == shader_entries(ss@),
            keys_view(keys@) =~= shader_keys(sv).subrange(0, i as int),
        decreases ss@.len() - i,
    {
        let kk = text_key_of(&ss[i].0.0, &ss[i].0.1);
        let ghost before = keys_view(keys@);
        let ghost kv = (kk.0@, kk.1@);
        keys.push(kk);
        assert(keys_view(keys@) =~= before.push(kv));
        assert(sv[i as int].0 == (ss@[i as int].0.0@, ss@[i as int].0.1@));
        assert(shader_keys(sv)[i as int] == kv);
        i = i + 1;
    }
    assert(shader_keys(sv).subrange(0, ss@.len() as int) =~= shader_keys(sv));
    let perm = stable_order(&keys);
    let ghost ps = positions(perm@);
    let mut strings: Vec<String> = Vec::new();
    let mut k: usize = 0;
    while k < perm.len()
        invariant
            k <= perm@.len(),
            sv == shader_entries(ss@),
            ps == positions(perm@),
            is_stable_order(shader_keys(sv), ps),
            string_views(strings@) =~= shader_strings(sv, ps.subrange(0, k as int)),
        decreases perm@.len() - k,
    {
        let idx = perm[k];
        assert(ps[k as int] == idx as int);
        assert(0 <= ps[k as int] < shader_keys(sv).len());
        let e = &ss[idx];
        let ghost before = string_views(strings@);
        strings.push(joined(&e.0.0, e.0.1.as_str()));
        strings.push(e.1.clone());
        proof {
            let sub = ps.subrange(0, k + 1);
            assert(sub.drop_last() =~= ps.subrange(0, k as int));
            assert(sub.last() == idx as int);
            assert(string_views(strings@) =~= before + seq![sv[idx as int].0.0 + seq!['.'] + sv[idx as int].0.1, sv[idx as int].1]);
        }
        k = k + 1;
    }
    assert(ps.subrange(0, perm@.len() as int) =~= ps);
    let data = encode_string_array(strings.as_slice());
    assert(strings@.map_values(|s: String| s@) =~= string_views(strings@));
    let mut dims: Vec<usize> = Vec::new();
    dims.push(strings.len());
    assert(dims@ =~= seq![string_views(strings@).len() as usize]);
    let mut prop = OProperty::array(".shaderNames", DataType::new(PlainOldDataType::String, 1));
    proof {
        match &prop.data {
            OPropertyData::Array(s) => {
                assert(crate::ogawa::writer::property::array_views(s@) =~= Seq::<(Seq<u8>, Seq<usize>)>::empty());
            },
            _ => {},
        }
        assert(prop_view(prop).meta =~= Seq::<(Seq<char>, Seq<char>)>::empty());
    }
    prop.add_array_sample(data.as_slice(), dims.as_slice());
    assert(prop_view(prop) == shader_names_view(shader_strings(sv, ps)));
    prop
}

fn params_compound(e: &((String, String), Vec<ShaderParam>)) -> (r: OProperty)
    ensures
        exists|perm: Seq<int>| #[trigger] is_stable_order(name_keys(e.1@), perm) && prop_view(r)
            == params_compound_view(param_entry(*e), perm),
{
    let ps = &e.1;
    let mut keys: Vec<(Vec<u8>, Vec<u8>)> = Vec::new();
    let mut i: usize = 0;
    while i < ps.len()
        invariant
            i <= ps@.len(),
            keys_view(keys@) =~= name_keys(ps@).subrange(0, i as int),
        decreases ps@.len() - i,
    {
        let kk = (bytes_to_vec(ps[i].name.as_str().as_bytes()), Vec::new());
        let ghost before = keys_view(keys@);
        let ghost kv = (kk.0@, kk.1@);
        keys.push(kk);
        assert(keys_view(keys@) =~= before.push(kv));
        assert(kv.1 =~= Seq::<u8>::empty());
        assert(name_keys(ps@)[i as int] == kv);
        i = i + 1;
    }
    assert(name_keys(ps@).subrange(0, ps@.len() as int) =~= name_keys(ps@));
    let perm = stable_order(&keys);
    let ghost pp = positions(perm@);
    let mut children: Vec<OProperty> = Vec::new();
    let mut k: usize = 0;
    while k < perm.len()
        invariant
            k <= perm@.len(),
            pp == positions(perm@),
            is_stable_order(name_keys(ps@), pp),
            props_view(children@) =~= Seq::new(k as nat, |m: int| param_prop_view(ps@[pp[m]])),
        decreases perm@.len() - k,
    {
        let idx = perm[k];
        assert(pp[k as int] == idx as int);
        assert(0 <= pp[k as int] < name_keys(ps@).len());
        let prop = param_property(&ps[idx]);
        let ghost before = props_view(children@);
        children.push(prop);
        assert(props_view(children@) =~= before.push(param_prop_view(ps@[pp[k as int]])));
        k = k + 1;
    }
    let name = joined(&e.0.0, e.0.1.as_str());
    let mut name = name;
    proof {
        reveal_strlit(".params");
    }
    name.append(".params");
    let mut c = OProperty::compound(name.as_str());
    c.data = OPropertyData::Compound(children);
    proof {
        lemma_children_view(c);
        assert(prop_view(c).meta =~= Seq::<(Seq<char>, Seq<char>)>::empty());
        assert(children_view(prop_view(c)) =~= Seq::new(pp.len(), |m: int| param_prop_view(ps@[pp[m]])));
        assert(prop_view(c) == params_compound_view(param_entry(*e), pp));
    }
    c
}

impl OMaterial {
    /// Create new Material.
    pub fn new(name: &str) -> (r: Self)
        ensures
            r@.object.name@ == name@,
            metadata_pairs(r@.object.meta_data) == schema_titled(
                "AbcMaterial_Material_v1"@,
                "AbcMaterial_Material_v1:.material"@,
            ),
            r@.object.children@.len() == 0,
            r@.object.properties@.len() == 0,
            r@.shaders.len() == 0,
            r@.params.len() == 0,
    {
        let mut object = OObject::new(name);
        object.meta_data = titled_meta("AbcMaterial_Material_v1", "AbcMaterial_Material_v1:.material");
        Self { object, sample: OMaterialSample::new() }
    }

    /// Set sample data.
    pub fn set_sample(&mut self, sample: OMaterialSample)
        ensures
            final(self)@ == (MaterialView {
                shaders: shaders_view(sample),
                params: params_view(sample),
                ..old(self)@
            }),
    {
        self.sample = sample;
    }

    /// Set the shader of a target and shader type.
    pub fn add_shader(&mut self, target: &str, shader_type: &str, shader_name: &str)
        ensures
            final(self)@ == (MaterialView {
                shaders: with_shader(old(self)@.shaders, (target@, shader_type@), shader_name@),
                ..old(self)@
            }),
    {
        self.sample.add_shader(target, shader_type, shader_name);
    }

    /// Build the object: a `.material` compound follows the object's
    /// properties. It holds `.shaderNames` (when there are shaders) with,
    /// for each shader in key order, `target.shaderType` and the shader
    /// name, then one compound `target.shaderType.params` per parameter list
    /// in key order, with one property per parameter in name order.
    pub fn build(self) -> (r: OObject)
        ensures
            r.name == self@.object.name,
            r.meta_data == self@.object.meta_data,
            r.children == self@.object.children,
            props_view(r.properties@).len() == props_view(self@.object.properties@).len() + 1,
            props_view(r.properties@).drop_last() == props_view(self@.object.properties@),
            exists|ps: Seq<int>, pp: Seq<int>, inner: Seq<Seq<int>>| #[trigger] material_built(
                self@.shaders,
                self@.params,
                props_view(r.properties@).last(),
                ps,
                pp,
                inner,
            ),
    {
        let ghost ss = self@.shaders;
        let ghost pv = self@.params;
        let mut object = self.object;
        let ghost before = props_view(object.properties@);
        let sample = self.sample;
        let mut mat = OProperty::compound(".material");
        let mut mat_meta = MetaData::new();
        mat_meta.set("schema", "AbcMaterial_Material_v1");
        mat.meta_data = mat_meta;
        let mut children: Vec<OProperty> = Vec::new();
        let ghost mut ps: Seq<int> = Seq::empty();
        if sample.shader_names.len() > 0 {
            let prop = shader_names_prop(&sample.shader_names);
            proof {
                ps = choose|p: Seq<int>| #[trigger] is_stable_order(shader_keys(ss), p) && prop_view(prop)
                    == shader_names_view(shader_strings(ss, p));
            }
            children.push(prop);
        } else {
            proof {
                assert(shader_keys(ss) =~= Seq::<(Seq<u8>, Seq<u8>)>::empty());
            }
        }
        let ghost head = props_view(children@);
        assert(head =~= (if ss.len() == 0 {
            Seq::<PropView>::empty()
        } else {
            seq![shader_names_view(shader_strings(ss, ps))]
        }));
        let params = &sample.params;
        let mut keys: Vec<(Vec<u8>, Vec<u8>)> = Vec::new();
        let mut i: usize = 0;
        while i < params.len()
            invariant
                i <= params@.len(),
                pv == param_entries(params@),
                keys_view(keys@) =~= param_keys(pv).subrange(0, i as int),
            decreases params@.len() - i,
        {
            let kk = text_key_of(&params[i].0.0, &params[i].0.1);
            let ghost kb = keys_view(keys@);
            let ghost kv = (kk.0@, kk.1@);
            keys.push(kk);
            assert(keys_view(keys@) =~= kb.push(kv));
            assert(pv[i as int].0 == (params@[i as int].0.0@, params@[i as int].0.1@));
            assert(param_keys(pv)[i as int] == kv);
            i = i + 1;
        }
        assert(param_keys(pv).subrange(0, params@.len() as int) =~= param_keys(pv));
        let perm = stable_order(&keys);
        let ghost pp = positions(perm@);
        let ghost mut inner: Seq<Seq<int>> = Seq::empty();
        let mut k: usize = 0;
        while k < perm.len()
            invariant
                k <= perm@.len(),
                pv == param_entries(params@),
                pp == positions(perm@),
                is_stable_order(param_keys(pv), pp),
                inner.len() == k,
                forall|m: int| 0 <= m < k ==> is_stable_order(name_keys(pv[pp[m]].1), #[trigger] inner[m]),
                props_view(children@) =~= head + Seq::new(k as nat, |m: int| params_compound_view(pv[pp[m]], inner[m])),
            decreases perm@.len() - k,
        {
            let idx = perm[k];
            assert(pp[k as int] == idx as int);
            assert(0 <= pp[k as int] < param_keys(pv).len());
            let c = params_compound(&params[idx]);
            let ghost w = choose|p: Seq<int>| #[trigger] is_stable_order(name_keys(params@[idx as int].1@), p)
                && prop_view(c) == params_compound_view(param_entry(params@[idx as int]), p);
            let ghost cb = props_view(children@);
            children.push(c);
            proof {
                assert(pv[pp[k as int]] == param_entry(params@[idx as int]));
                let old_inner = inner;
                inner = inner.push(w);
                assert forall|m: int| 0 <= m < k + 1 implies is_stable_order(name_keys(pv[pp[m]].1), #[trigger] inner[m]) by {
                    if m < k {
                        assert(inner[m] == old_inner[m]);
                    }
                }
                assert(props_view(children@) =~= cb.push(prop_view(c)));
                assert(props_view(children@) =~= head + Seq::new((k + 1) as nat, |m: int| params_compound_view(pv[pp[m]], inner[m])));
            }
            k = k + 1;
        }
        mat.data = OPropertyData::Compound(children);
        proof {
            lemma_children_view(mat);
            assert(prop_view(mat).meta =~= seq![("schema"@, "AbcMaterial_Material_v1"@)]);
            assert(children_view(prop_view(mat)) =~= head + Seq::new(pp.len(), |m: int| params_compound_view(pv[pp[m]], inner[m])));
            assert(prop_view(mat) == material_view(ss, pv, ps, pp, inner));
            assert(material_built(ss, pv, prop_view(mat), ps, pp, inner));
        }
        let ghost mv = prop_view(mat);
        object.properties.push(mat);
        assert(props_view(object.properties@) =~= before.push(mv));
        assert(props_view(object.properties@).drop_last() =~= before);
        assert(props_view(object.properties@).last() == mv);
        assert(material_built(ss, pv, props_view(object.properties@).last(), ps, pp, inner));
        object
    }
}

} // verus!
