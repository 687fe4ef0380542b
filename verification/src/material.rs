//! The material parameter reconciler: diagnostics for missing and unused
//! parameters, adding defaults, removing parameters, preset application
//! and the canonical new material.

use vstd::prelude::*;

use crate::param_id::{
    default_texture, default_texture_spec, family_of, family_of_spec, is_blend_id, is_bool_id,
    is_float_id, is_rasterizer_id, is_sampler_id, is_texture_id, is_vector_id, Family, ParamId,
    BLEND_STATE0, CUSTOM_BOOLEAN1, CUSTOM_BOOLEAN3, CUSTOM_BOOLEAN4, CUSTOM_FLOAT8,
    CUSTOM_VECTOR0, CUSTOM_VECTOR13, CUSTOM_VECTOR14, CUSTOM_VECTOR8, RASTERIZER_STATE0, SAMPLER0,
    SAMPLER4, SAMPLER6, SAMPLER7, TEXTURE0, TEXTURE4, TEXTURE6, TEXTURE7,
};
use crate::params::{
    BlendStateData, BlendStateParam, BooleanParam, FloatParam, Param, RasterizerStateData,
    RasterizerStateParam, SamplerData, SamplerParam, TextureParam, Vector4, Vector4Param,
    F32_ZERO_POINT_FOUR_BITS, blend_state_default, rasterizer_state_default, sampler_default,
    vector4_default, vector4_one, vector4_one_exec,
};
use crate::sort::{
    count_key, distinct_keys, has_key, lemma_count_key_add, lemma_count_key_filter,
    lemma_count_key_map, lemma_count_key_zero, lemma_remove_first_absent, lemma_remove_first_at,
    lemma_remove_first_count, lemma_remove_first_distinct, lemma_sort_keyed_ensures,
    lemma_sort_keyed_strict, lemma_sort_map_commute, param_key, remove_first_keyed, sort_keyed,
    sort_params, sorted_keyed, strictly_sorted_keyed,
};

verus! {

/// One material definition: its label, its shader label, and one ordered
/// collection of parameters per family.
///
/// The label is the key by which other documents refer to the material, so
/// every transform preserves it. Within one family's collection each
/// identifier appears at most once; the collections are re-sorted into
/// ascending identifier order by every add or remove.
#[derive(Debug, Clone, PartialEq)]
pub struct MaterialEntry {
    pub material_label: String,
    pub shader_label: String,
    pub blend_states: Vec<BlendStateParam>,
    pub floats: Vec<FloatParam>,
    pub booleans: Vec<BooleanParam>,
    pub vectors: Vec<Vector4Param>,
    pub rasterizer_states: Vec<RasterizerStateParam>,
    pub samplers: Vec<SamplerParam>,
    pub textures: Vec<TextureParam>,
}

/// The parameter contract of a compiled shader: the parameters the shader
/// reads, in the shader's own order.
#[derive(Debug, Clone, PartialEq)]
pub struct ShaderDescriptor {
    pub material_parameters: Vec<ParamId>,
}

/// The mathematical view of a texture parameter: its slot identifier and
/// the characters of its path.
#[verifier::ext_equal]
pub struct TexView {
    pub param_id: ParamId,
    pub data: Seq<char>,
}

/// The mathematical view of a material entry.
#[verifier::ext_equal]
pub struct EntryView {
    pub material_label: Seq<char>,
    pub shader_label: Seq<char>,
    pub blend_states: Seq<BlendStateParam>,
    pub floats: Seq<FloatParam>,
    pub booleans: Seq<BooleanParam>,
    pub vectors: Seq<Vector4Param>,
    pub rasterizer_states: Seq<RasterizerStateParam>,
    pub samplers: Seq<SamplerParam>,
    pub textures: Seq<TexView>,
}

/// The view of a sequence of texture parameters.
pub open spec fn tex_views(s: Seq<TextureParam>) -> Seq<TexView> {
    s.map_values(|p: TextureParam| TexView { param_id: p.param_id, data: p.data@ })
}

impl View for MaterialEntry {
    type V = EntryView;

    open spec fn view(&self) -> EntryView {
        EntryView {
            material_label: self.material_label@,
            shader_label: self.shader_label@,
            blend_states: self.blend_states@,
            floats: self.floats@,
            booleans: self.booleans@,
            vectors: self.vectors@,
            rasterizer_states: self.rasterizer_states@,
            samplers: self.samplers@,
            textures: tex_views(self.textures@),
        }
    }
}

/// The key by which texture views are ordered.
pub open spec fn tex_key() -> spec_fn(TexView) -> u64 {
    |t: TexView| t.param_id.value
}

/// The identifiers of a parameter collection, in collection order.
pub open spec fn param_ids<T>(s: Seq<Param<T>>) -> Seq<ParamId> {
    s.map_values(|p: Param<T>| p.param_id)
}

/// The identifiers of a texture view collection, in collection order.
pub open spec fn tex_ids(s: Seq<TexView>) -> Seq<ParamId> {
    s.map_values(|t: TexView| t.param_id)
}

/// Whether some collection of `e` holds a parameter with identifier `id`.
pub open spec fn entry_has_param(e: EntryView, id: ParamId) -> bool {
    param_ids(e.blend_states).contains(id) || param_ids(e.floats).contains(id) || param_ids(
        e.booleans,
    ).contains(id) || param_ids(e.vectors).contains(id) || param_ids(
        e.rasterizer_states,
    ).contains(id) || param_ids(e.samplers).contains(id) || tex_ids(e.textures).contains(id)
}

/// Every identifier present in `e`, scanning the families in the fixed
/// order blend, float, boolean, vector, texture, sampler, rasterizer, and
/// each family in its collection order.
pub open spec fn all_param_ids(e: EntryView) -> Seq<ParamId> {
    param_ids(e.blend_states) + param_ids(e.floats) + param_ids(e.booleans) + param_ids(e.vectors)
        + tex_ids(e.textures) + param_ids(e.samplers) + param_ids(e.rasterizer_states)
}

/// Texture views carry the same identifiers as the texture parameters they
/// are the view of.
pub proof fn lemma_tex_ids_views(ts: Seq<TextureParam>)
    ensures
        tex_ids(tex_views(ts)) == param_ids(ts),
{
    assert(tex_ids(tex_views(ts)) =~= param_ids(ts));
}

/// Filtering distributes over pushing one element.
pub proof fn lemma_filter_push<A>(s: Seq<A>, x: A, p: spec_fn(A) -> bool)
    ensures
        s.push(x).filter(p) == if p(x) {
            s.filter(p).push(x)
        } else {
            s.filter(p)
        },
{
    reveal(Seq::filter);
    assert(s.push(x).drop_last() =~= s);
    assert(s.push(x).last() == x);
    if p(x) {
        assert(s.push(x).filter(p) =~= s.filter(p).push(x));
    } else {
        assert(s.push(x).filter(p) =~= s.filter(p));
    }
}

/// Whether the collection `v` holds a parameter with identifier `id`.
fn ids_contain<T>(v: &Vec<Param<T>>, id: ParamId) -> (r: bool)
    ensures
        r == param_ids(v@).contains(id),
{
    let mut i: usize = 0;
    while i < v.len()
        invariant
            i <= v@.len(),
            forall|k: int| 0 <= k < i ==> v@[k].param_id != id,
        decreases v@.len() - i,
    {
        if v[i].param_id.value == id.value {
            proof {
                assert(param_ids(v@)[i as int] == id);
            }
            return true;
        }
        i = i + 1;
    }
    proof {
        if param_ids(v@).contains(id) {
            let k = choose|k: int| 0 <= k < param_ids(v@).len() && param_ids(v@)[k] == id;
            assert(v@[k].param_id == id);
        }
    }
    false
}

/// Whether the identifier list `ids` contains `id`.
fn id_list_contains(ids: &Vec<ParamId>, id: ParamId) -> (r: bool)
    ensures
        r == ids@.contains(id),
{
    let mut i: usize = 0;
    while i < ids.len()
        invariant
            i <= ids@.len(),
            forall|k: int| 0 <= k < i ==> ids@[k] != id,
        decreases ids@.len() - i,
    {
        if ids[i].value == id.value {
            return true;
        }
        i = i + 1;
    }
    false
}

/// Whether any of the entry's seven collections holds a parameter with
/// identifier `id`.
pub fn contains_param(entry: &MaterialEntry, id: ParamId) -> (r: bool)
    ensures
        r == entry_has_param(entry@, id),
{
    proof {
        lemma_tex_ids_views(entry.textures@);
    }
    ids_contain(&entry.blend_states, id) || ids_contain(&entry.floats, id) || ids_contain(
        &entry.booleans,
        id,
    ) || ids_contain(&entry.vectors, id) || ids_contain(&entry.rasterizer_states, id)
        || ids_contain(&entry.samplers, id) || ids_contain(&entry.textures, id)
}

/// The parameters of `shader_ids` that `e` does not hold, in `shader_ids`
/// order.
pub open spec fn missing_spec(e: EntryView, shader_ids: Seq<ParamId>) -> Seq<ParamId> {
    shader_ids.filter(|id: ParamId| !entry_has_param(e, id))
}

/// The parameters `e` holds that are not in `shader_ids`, in the fixed
/// family scan order.
pub open spec fn unused_spec(e: EntryView, shader_ids: Seq<ParamId>) -> Seq<ParamId> {
    all_param_ids(e).filter(|id: ParamId| !shader_ids.contains(id))
}

/// The parameters the shader reads that the entry does not hold, in the
/// shader's own order. A pure query: neither argument is changed.
pub fn missing_parameters(entry: &MaterialEntry, shader: &ShaderDescriptor) -> (r: Vec<ParamId>)
    ensures
        r@ == missing_spec(entry@, shader.material_parameters@),
{
    let ghost pred = |id: ParamId| !entry_has_param(entry@, id);
    let mut r: Vec<ParamId> = Vec::new();
    proof {
        reveal(Seq::filter);
        assert(shader.material_parameters@.take(0) =~= Seq::<ParamId>::empty());
        assert(r@ =~= shader.material_parameters@.take(0).filter(pred));
    }
    let mut i: usize = 0;
    while i < shader.material_parameters.len()
        invariant
            pred == (|id: ParamId| !entry_has_param(entry@, id)),
            i <= shader.material_parameters@.len(),
            r@ == shader.material_parameters@.take(i as int).filter(pred),
        decreases shader.material_parameters@.len() - i,
    {
        let id = shader.material_parameters[i];
        let ghost taken = shader.material_parameters@.take(i as int);
        proof {
            lemma_filter_push(taken, id, pred);
            assert(taken.push(id) =~= shader.material_parameters@.take(i as int + 1));
        }
        if !contains_param(entry, id) {
            r.push(id);
        }
        i = i + 1;
    }
    proof {
        assert(shader.material_parameters@.take(shader.material_parameters@.len() as int)
            =~= shader.material_parameters@);
    }
    r
}

/// Appends to `out` the identifiers of `v` that the shader does not read,
/// in collection order.
fn push_unused<T>(out: &mut Vec<ParamId>, v: &Vec<Param<T>>, shader: &ShaderDescriptor)
    ensures
        final(out)@ == old(out)@ + param_ids(v@).filter(
            |id: ParamId| !shader.material_parameters@.contains(id),
        ),
{
    let ghost pred = |id: ParamId| !shader.material_parameters@.contains(id);
    proof {
        reveal(Seq::filter);
        assert(param_ids(v@.take(0)) =~= Seq::<ParamId>::empty());
        assert(out@ =~= out@ + param_ids(v@.take(0)).filter(pred));
    }
    let mut i: usize = 0;
    while i < v.len()
        invariant
            pred == (|id: ParamId| !shader.material_parameters@.contains(id)),
            i <= v@.len(),
            out@ == old(out)@ + param_ids(v@.take(i as int)).filter(pred),
        decreases v@.len() - i,
    {
        let id = v[i].param_id;
        let ghost taken = param_ids(v@.take(i as int));
        proof {
            lemma_filter_push(taken, id, pred);
            assert(taken.push(id) =~= param_ids(v@.take(i as int + 1)));
        }
        if !id_list_contains(&shader.material_parameters, id) {
            out.push(id);
        }
        i = i + 1;
    }
    proof {
        assert(v@.take(v@.len() as int) =~= v@);
    }
}

/// The parameters the entry holds that the shader does not read, scanning
/// the families in the order blend, float, boolean, vector, texture,
/// sampler, rasterizer, each in its collection order. A pure query.
pub fn unused_parameters(entry: &MaterialEntry, shader: &ShaderDescriptor) -> (r: Vec<ParamId>)
    ensures
        r@ == unused_spec(entry@, shader.material_parameters@),
{
    let ghost pred = |id: ParamId| !shader.material_parameters@.contains(id);
    let mut r: Vec<ParamId> = Vec::new();
    push_unused(&mut r, &entry.blend_states, shader);
    push_unused(&mut r, &entry.floats, shader);
    push_unused(&mut r, &entry.booleans, shader);
    push_unused(&mut r, &entry.vectors, shader);
    push_unused(&mut r, &entry.textures, shader);
    push_unused(&mut r, &entry.samplers, shader);
    push_unused(&mut r, &entry.rasterizer_states, shader);
    proof {
        lemma_tex_ids_views(entry.textures@);
        let b = param_ids(entry.blend_states@);
        let f = param_ids(entry.floats@);
        let bo = param_ids(entry.booleans@);
        let ve = param_ids(entry.vectors@);
        let t = param_ids(entry.textures@);
        let sa = param_ids(entry.samplers@);
        let ra = param_ids(entry.rasterizer_states@);
        Seq::filter_distributes_over_add(b, f, pred);
        Seq::filter_distributes_over_add(b + f, bo, pred);
        Seq::filter_distributes_over_add(b + f + bo, ve, pred);
        Seq::filter_distributes_over_add(b + f + bo + ve, t, pred);
        Seq::filter_distributes_over_add(b + f + bo + ve + t, sa, pred);
        Seq::filter_distributes_over_add(b + f + bo + ve + t + sa, ra, pred);
        assert(all_param_ids(entry@) == b + f + bo + ve + t + sa + ra);
        assert(r@ == Seq::<ParamId>::empty() + b.filter(pred) + f.filter(pred) + bo.filter(pred)
            + ve.filter(pred) + t.filter(pred) + sa.filter(pred) + ra.filter(pred));
        assert(Seq::<ParamId>::empty() + b.filter(pred) =~= b.filter(pred));
        assert(r@ =~= (b + f + bo + ve + t + sa + ra).filter(pred));
    }
    r
}

/// The default parameter appended for a missing blend state slot.
pub open spec fn blend_addition(id: ParamId) -> BlendStateParam {
    Param { param_id: id, data: blend_state_default() }
}

/// The default parameter appended for a missing float slot: 0.0.
pub open spec fn float_addition(id: ParamId) -> FloatParam {
    Param { param_id: id, data: 0u32 }
}

/// The default parameter appended for a missing boolean slot: false.
pub open spec fn boolean_addition(id: ParamId) -> BooleanParam {
    Param { param_id: id, data: false }
}

/// The default parameter appended for a missing vector slot: the zero
/// vector.
pub open spec fn vector_addition(id: ParamId) -> Vector4Param {
    Param { param_id: id, data: vector4_default() }
}

/// The default parameter appended for a missing rasterizer state slot.
pub open spec fn rasterizer_addition(id: ParamId) -> RasterizerStateParam {
    Param { param_id: id, data: rasterizer_state_default() }
}

/// The default parameter appended for a missing sampler slot.
pub open spec fn sampler_addition(id: ParamId) -> SamplerParam {
    Param { param_id: id, data: sampler_default() }
}

/// The default parameter appended for a missing texture slot: the slot's
/// canonical default texture path.
pub open spec fn texture_addition(id: ParamId) -> TexView {
    TexView { param_id: id, data: default_texture_spec(id.value) }
}

/// The blend state parameters appended for the identifiers of `ids` that
/// name blend state slots, in `ids` order.
pub open spec fn blend_additions(ids: Seq<ParamId>) -> Seq<BlendStateParam> {
    ids.filter(|id: ParamId| is_blend_id(id.value)).map_values(|id: ParamId| blend_addition(id))
}

/// The float parameters appended for the float identifiers of `ids`.
pub open spec fn float_additions(ids: Seq<ParamId>) -> Seq<FloatParam> {
    ids.filter(|id: ParamId| is_float_id(id.value)).map_values(|id: ParamId| float_addition(id))
}

/// The boolean parameters appended for the boolean identifiers of `ids`.
pub open spec fn boolean_additions(ids: Seq<ParamId>) -> Seq<BooleanParam> {
    ids.filter(|id: ParamId| is_bool_id(id.value)).map_values(|id: ParamId| boolean_addition(id))
}

/// The vector parameters appended for the vector identifiers of `ids`.
pub open spec fn vector_additions(ids: Seq<ParamId>) -> Seq<Vector4Param> {
    ids.filter(|id: ParamId| is_vector_id(id.value)).map_values(|id: ParamId| vector_addition(id))
}

/// The rasterizer state parameters appended for the rasterizer
/// identifiers of `ids`.
pub open spec fn rasterizer_additions(ids: Seq<ParamId>) -> Seq<RasterizerStateParam> {
    ids.filter(|id: ParamId| is_rasterizer_id(id.value)).map_values(
        |id: ParamId| rasterizer_addition(id),
    )
}

/// The sampler parameters appended for the sampler identifiers of `ids`.
pub open spec fn sampler_additions(ids: Seq<ParamId>) -> Seq<SamplerParam> {
    ids.filter(|id: ParamId| is_sampler_id(id.value)).map_values(|id: ParamId| sampler_addition(id))
}

/// The texture parameters appended for the texture identifiers of `ids`.
pub open spec fn texture_additions(ids: Seq<ParamId>) -> Seq<TexView> {
    ids.filter(|id: ParamId| is_texture_id(id.value)).map_values(|id: ParamId| texture_addition(id))
}

/// `e` with the defaults for `ids` appended to their families, before the
/// canonical re-sort. Identifiers of no family contribute nothing.
pub open spec fn with_additions(e: EntryView, ids: Seq<ParamId>) -> EntryView {
    EntryView {
        material_label: e.material_label,
        shader_label: e.shader_label,
        blend_states: e.blend_states + blend_additions(ids),
        floats: e.floats + float_additions(ids),
        booleans: e.booleans + boolean_additions(ids),
        vectors: e.vectors + vector_additions(ids),
        rasterizer_states: e.rasterizer_states + rasterizer_additions(ids),
        samplers: e.samplers + sampler_additions(ids),
        textures: e.textures + texture_additions(ids),
    }
}

/// `e` with each family collection stably sorted by ascending identifier:
/// the canonical storage order.
pub open spec fn canonicalize(e: EntryView) -> EntryView {
    EntryView {
        material_label: e.material_label,
        shader_label: e.shader_label,
        blend_states: sort_keyed(e.blend_states, param_key::<BlendStateData>()),
        floats: sort_keyed(e.floats, param_key::<u32>()),
        booleans: sort_keyed(e.booleans, param_key::<bool>()),
        vectors: sort_keyed(e.vectors, param_key::<Vector4>()),
        rasterizer_states: sort_keyed(e.rasterizer_states, param_key::<RasterizerStateData>()),
        samplers: sort_keyed(e.samplers, param_key::<SamplerData>()),
        textures: sort_keyed(e.textures, tex_key()),
    }
}

/// What `add_parameters` produces: the defaults for `ids` appended to
/// their families, then every family re-sorted canonically.
pub open spec fn add_spec(e: EntryView, ids: Seq<ParamId>) -> EntryView {
    canonicalize(with_additions(e, ids))
}

/// Appending one identifier extends exactly the additions of its family.
proof fn lemma_additions_push(ids: Seq<ParamId>, id: ParamId)
    ensures
        blend_additions(ids.push(id)) == if is_blend_id(id.value) {
            blend_additions(ids).push(blend_addition(id))
        } else {
            blend_additions(ids)
        },
        float_additions(ids.push(id)) == if is_float_id(id.value) {
            float_additions(ids).push(float_addition(id))
        } else {
            float_additions(ids)
        },
        boolean_additions(ids.push(id)) == if is_bool_id(id.value) {
            boolean_additions(ids).push(boolean_addition(id))
        } else {
            boolean_additions(ids)
        },
        vector_additions(ids.push(id)) == if is_vector_id(id.value) {
            vector_additions(ids).push(vector_addition(id))
        } else {
            vector_additions(ids)
        },
        rasterizer_additions(ids.push(id)) == if is_rasterizer_id(id.value) {
            rasterizer_additions(ids).push(rasterizer_addition(id))
        } else {
            rasterizer_additions(ids)
        },
        sampler_additions(ids.push(id)) == if is_sampler_id(id.value) {
            sampler_additions(ids).push(sampler_addition(id))
        } else {
            sampler_additions(ids)
        },
        texture_additions(ids.push(id)) == if is_texture_id(id.value) {
            texture_additions(ids).push(texture_addition(id))
        } else {
            texture_additions(ids)
        },
{
    lemma_filter_push(ids, id, |id: ParamId| is_blend_id(id.value));
    lemma_filter_push(ids, id, |id: ParamId| is_float_id(id.value));
    lemma_filter_push(ids, id, |id: ParamId| is_bool_id(id.value));
    lemma_filter_push(ids, id, |id: ParamId| is_vector_id(id.value));
    lemma_filter_push(ids, id, |id: ParamId| is_rasterizer_id(id.value));
    lemma_filter_push(ids, id, |id: ParamId| is_sampler_id(id.value));
    lemma_filter_push(ids, id, |id: ParamId| is_texture_id(id.value));
    if is_blend_id(id.value) {
        assert(blend_additions(ids.push(id)) =~= blend_additions(ids).push(blend_addition(id)));
    }
    if is_float_id(id.value) {
        assert(float_additions(ids.push(id)) =~= float_additions(ids).push(float_addition(id)));
    }
    if is_bool_id(id.value) {
        assert(boolean_additions(ids.push(id)) =~= boolean_additions(ids).push(
            boolean_addition(id),
        ));
    }
    if is_vector_id(id.value) {
        assert(vector_additions(ids.push(id)) =~= vector_additions(ids).push(vector_addition(id)));
    }
    if is_rasterizer_id(id.value) {
        assert(rasterizer_additions(ids.push(id)) =~= rasterizer_additions(ids).push(
            rasterizer_addition(id),
        ));
    }
    if is_sampler_id(id.value) {
        assert(sampler_additions(ids.push(id)) =~= sampler_additions(ids).push(
            sampler_addition(id),
        ));
    }
    if is_texture_id(id.value) {
        assert(texture_additions(ids.push(id)) =~= texture_additions(ids).push(
            texture_addition(id),
        ));
    }
}

/// For each identifier in order: classifies it, appends the family's
/// default value to the matching collection, and silently skips
/// identifiers of no family. Afterwards every collection is re-sorted
/// into canonical ascending identifier order. The labels are preserved.
pub fn add_parameters(entry: &mut MaterialEntry, parameters: &[ParamId])
    ensures
        final(entry)@ == add_spec(old(entry)@, parameters@),
{
    proof {
        reveal(Seq::filter);
        assert(parameters@.take(0) =~= Seq::<ParamId>::empty());
        assert(entry@ =~= with_additions(old(entry)@, parameters@.take(0))) by {
            assert(blend_additions(parameters@.take(0)) =~= Seq::<BlendStateParam>::empty());
            assert(float_additions(parameters@.take(0)) =~= Seq::<FloatParam>::empty());
            assert(boolean_additions(parameters@.take(0)) =~= Seq::<BooleanParam>::empty());
            assert(vector_additions(parameters@.take(0)) =~= Seq::<Vector4Param>::empty());
            assert(rasterizer_additions(parameters@.take(0)) =~= Seq::<
                RasterizerStateParam,
            >::empty());
            assert(sampler_additions(parameters@.take(0)) =~= Seq::<SamplerParam>::empty());
            assert(texture_additions(parameters@.take(0)) =~= Seq::<TexView>::empty());
        }
    }
    let mut i: usize = 0;
    while i < parameters.len()
        invariant
            i <= parameters@.len(),
            entry@ == with_additions(old(entry)@, parameters@.take(i as int)),
        decreases parameters@.len() - i,
    {
        let id = parameters[i];
        let ghost taken = parameters@.take(i as int);
        proof {
            assert(taken.push(id) =~= parameters@.take(i as int + 1));
            lemma_additions_push(taken, id);
        }
        match family_of(id) {
            Some(Family::Blend) => {
                entry.blend_states.push(Param { param_id: id, data: BlendStateData::default() });
                proof {
                    assert(entry@ =~= with_additions(old(entry)@, parameters@.take(i as int + 1)));
                }
            },
            Some(Family::Float) => {
                entry.floats.push(Param { param_id: id, data: 0u32 });
                proof {
                    assert(entry@ =~= with_additions(old(entry)@, parameters@.take(i as int + 1)));
                }
            },
            Some(Family::Boolean) => {
                entry.booleans.push(Param { param_id: id, data: false });
                proof {
                    assert(entry@ =~= with_additions(old(entry)@, parameters@.take(i as int + 1)));
                }
            },
            Some(Family::Vector) => {
                entry.vectors.push(Param { param_id: id, data: Vector4::default() });
                proof {
                    assert(entry@ =~= with_additions(old(entry)@, parameters@.take(i as int + 1)));
                }
            },
            Some(Family::Rasterizer) => {
                entry.rasterizer_states.push(
                    Param { param_id: id, data: RasterizerStateData::default() },
                );
                proof {
                    assert(entry@ =~= with_additions(old(entry)@, parameters@.take(i as int + 1)));
                }
            },
            Some(Family::Sampler) => {
                entry.samplers.push(Param { param_id: id, data: SamplerData::default() });
                proof {
                    assert(entry@ =~= with_additions(old(entry)@, parameters@.take(i as int + 1)));
                }
            },
            Some(Family::Texture) => {
                let ghost prev = entry.textures@;
                let path = default_texture(id);
                let p = Param { param_id: id, data: path };
                entry.textures.push(p);
                proof {
                    assert(entry.textures@ == prev.push(p));
                    assert(tex_views(prev.push(p)) =~= tex_views(prev).push(
                        TexView { param_id: id, data: p.data@ },
                    ));
                    assert(TexView { param_id: id, data: p.data@ } == texture_addition(id));
                    assert(tex_views(prev) == with_additions(
                        old(entry)@,
                        parameters@.take(i as int),
                    ).textures);
                    assert(entry@ =~= with_additions(old(entry)@, parameters@.take(i as int + 1)));
                }
            },
            None => {
                proof {
                    assert(entry@ =~= with_additions(old(entry)@, parameters@.take(i as int + 1)));
                }
            },
        }
        i = i + 1;
    }
    proof {
        assert(parameters@.take(parameters@.len() as int) =~= parameters@);
    }
    canonicalize_entry(entry);
}

/// Re-sorts every family collection into the canonical ascending
/// identifier order, leaving everything else unchanged.
fn canonicalize_entry(entry: &mut MaterialEntry)
    ensures
        final(entry)@ == canonicalize(old(entry)@),
{
    let ghost raw_textures = entry.textures@;
    sort_params(&mut entry.blend_states);
    sort_params(&mut entry.floats);
    sort_params(&mut entry.booleans);
    sort_params(&mut entry.vectors);
    sort_params(&mut entry.rasterizer_states);
    sort_params(&mut entry.samplers);
    sort_params(&mut entry.textures);
    proof {
        lemma_sort_map_commute(
            raw_textures,
            param_key::<String>(),
            tex_key(),
            |p: TextureParam| TexView { param_id: p.param_id, data: p.data@ },
        );
        assert(tex_views(entry.textures@) == sort_keyed(tex_views(raw_textures), tex_key()));
        assert(entry@ =~= canonicalize(old(entry)@));
    }
}

/// Removes one parameter with identifier `id`: the families are searched
/// in the fixed order blend, float, boolean, vector, rasterizer, sampler,
/// texture, and the first occurrence in the first family that holds the
/// identifier is removed. An absent identifier changes nothing.
pub open spec fn remove_one(e: EntryView, id: ParamId) -> EntryView {
    if has_key(e.blend_states, id.value, param_key::<BlendStateData>()) {
        EntryView {
            blend_states: remove_first_keyed(
                e.blend_states,
                id.value,
                param_key::<BlendStateData>(),
            ),
            ..e
        }
    } else if has_key(e.floats, id.value, param_key::<u32>()) {
        EntryView { floats: remove_first_keyed(e.floats, id.value, param_key::<u32>()), ..e }
    } else if has_key(e.booleans, id.value, param_key::<bool>()) {
        EntryView { booleans: remove_first_keyed(e.booleans, id.value, param_key::<bool>()), ..e }
    } else if has_key(e.vectors, id.value, param_key::<Vector4>()) {
        EntryView { vectors: remove_first_keyed(e.vectors, id.value, param_key::<Vector4>()), ..e }
    } else if has_key(e.rasterizer_states, id.value, param_key::<RasterizerStateData>()) {
        EntryView {
            rasterizer_states: remove_first_keyed(
                e.rasterizer_states,
                id.value,
                param_key::<RasterizerStateData>(),
            ),
            ..e
        }
    } else if has_key(e.samplers, id.value, param_key::<SamplerData>()) {
        EntryView {
            samplers: remove_first_keyed(e.samplers, id.value, param_key::<SamplerData>()),
            ..e
        }
    } else if has_key(e.textures, id.value, tex_key()) {
        EntryView { textures: remove_first_keyed(e.textures, id.value, tex_key()), ..e }
    } else {
        e
    }
}

/// Removes the identifiers of `ids` one after the other, in order.
pub open spec fn remove_all(e: EntryView, ids: Seq<ParamId>) -> EntryView
    decreases ids.len(),
{
    if ids.len() == 0 {
        e
    } else {
        remove_all(remove_one(e, ids.first()), ids.drop_first())
    }
}

/// What `remove_parameters` produces: each identifier removed in order,
/// then every family re-sorted canonically.
pub open spec fn remove_spec(e: EntryView, ids: Seq<ParamId>) -> EntryView {
    canonicalize(remove_all(e, ids))
}

/// Removing the identifiers of `ids.push(id)` removes those of `ids`,
/// then `id`.
proof fn lemma_remove_all_push(e: EntryView, ids: Seq<ParamId>, id: ParamId)
    ensures
        remove_all(e, ids.push(id)) == remove_one(remove_all(e, ids), id),
    decreases ids.len(),
{
    let one = ids.push(id);
    if ids.len() == 0 {
        assert(one.first() == id);
        assert(one.drop_first() =~= Seq::<ParamId>::empty());
        assert(remove_all(e, one) == remove_all(remove_one(e, id), one.drop_first()));
        assert(remove_all(remove_one(e, id), one.drop_first()) == remove_one(e, id));
        assert(remove_all(e, ids) == e);
    } else {
        assert(one.first() == ids.first());
        assert(one.drop_first() =~= ids.drop_first().push(id));
        assert(remove_all(e, one) == remove_all(remove_one(e, ids.first()), one.drop_first()));
        lemma_remove_all_push(remove_one(e, ids.first()), ids.drop_first(), id);
        assert(remove_all(e, ids) == remove_all(remove_one(e, ids.first()), ids.drop_first()));
    }
}

/// Texture views hold a key exactly when the texture parameters they are
/// the view of hold it.
proof fn lemma_tex_views_has_key(ts: Seq<TextureParam>, idv: u64)
    ensures
        has_key(tex_views(ts), idv, tex_key()) == has_key(ts, idv, param_key::<String>()),
{
    if has_key(tex_views(ts), idv, tex_key()) {
        let k = choose|k: int|
            0 <= k < tex_views(ts).len() && tex_key()(tex_views(ts)[k]) == idv;
        assert(param_key::<String>()(ts[k]) == idv);
        assert(has_key(ts, idv, param_key::<String>())) by {
            assert(0 <= k < ts.len() && param_key::<String>()(ts[k]) == idv);
        }
    }
    if has_key(ts, idv, param_key::<String>()) {
        let k = choose|k: int| 0 <= k < ts.len() && param_key::<String>()(ts[k]) == idv;
        assert(tex_key()(tex_views(ts)[k]) == idv);
        assert(has_key(tex_views(ts), idv, tex_key())) by {
            assert(0 <= k < tex_views(ts).len() && tex_key()(tex_views(ts)[k]) == idv);
        }
    }
}

/// The position of the first parameter of `v` with identifier `id`.
fn position_of_id<T>(v: &Vec<Param<T>>, id: ParamId) -> (r: Option<usize>)
    ensures
        match r {
            Some(j) => j < v@.len() && v@[j as int].param_id == id && (forall|k: int|
                0 <= k < j ==> v@[k].param_id != id),
            None => !has_key(v@, id.value, param_key::<T>()),
        },
{
    let mut i: usize = 0;
    while i < v.len()
        invariant
            i <= v@.len(),
            forall|k: int| 0 <= k < i ==> v@[k].param_id != id,
        decreases v@.len() - i,
    {
        if v[i].param_id.value == id.value {
            return Some(i);
        }
        i = i + 1;
    }
    proof {
        if has_key(v@, id.value, param_key::<T>()) {
            let k = choose|k: int|
                0 <= k < v@.len() && param_key::<T>()(v@[k]) == id.value;
            assert(v@[k].param_id != id);
        }
    }
    None
}

/// For each identifier in order: searches the families in the fixed order
/// blend, float, boolean, vector, rasterizer, sampler, texture and removes
/// the first occurrence found; identifiers not present are silently
/// ignored. Afterwards every collection is re-sorted into canonical
/// ascending identifier order. The labels are preserved.
pub fn remove_parameters(entry: &mut MaterialEntry, parameters: &[ParamId])
    ensures
        final(entry)@ == remove_spec(old(entry)@, parameters@),
{
    proof {
        assert(parameters@.take(0) =~= Seq::<ParamId>::empty());
        assert(entry@ == remove_all(old(entry)@, parameters@.take(0)));
    }
    let mut i: usize = 0;
    while i < parameters.len()
        invariant
            i <= parameters@.len(),
            entry@ == remove_all(old(entry)@, parameters@.take(i as int)),
        decreases parameters@.len() - i,
    {
        let id = parameters[i];
        let ghost cur = entry@;
        proof {
            assert(parameters@.take(i as int).push(id) =~= parameters@.take(i as int + 1));
            lemma_remove_all_push(old(entry)@, parameters@.take(i as int), id);
        }
        if let Some(j) = position_of_id(&entry.blend_states, id) {
            proof {
                assert(has_key(cur.blend_states, id.value, param_key::<BlendStateData>())) by {
                    assert(param_key::<BlendStateData>()(cur.blend_states[j as int]) == id.value);
                }
                lemma_remove_first_at(
                    cur.blend_states,
                    id.value,
                    param_key::<BlendStateData>(),
                    j as int,
                );
            }
            entry.blend_states.remove(j);
            proof {
                assert(entry@ =~= remove_one(cur, id));
            }
        } else if let Some(j) = position_of_id(&entry.floats, id) {
            proof {
                assert(has_key(cur.floats, id.value, param_key::<u32>())) by {
                    assert(param_key::<u32>()(cur.floats[j as int]) == id.value);
                }
                lemma_remove_first_at(cur.floats, id.value, param_key::<u32>(), j as int);
            }
            entry.floats.remove(j);
            proof {
                assert(entry@ =~= remove_one(cur, id));
            }
        } else if let Some(j) = position_of_id(&entry.booleans, id) {
            proof {
                assert(has_key(cur.booleans, id.value, param_key::<bool>())) by {
                    assert(param_key::<bool>()(cur.booleans[j as int]) == id.value);
                }
                lemma_remove_first_at(cur.booleans, id.value, param_key::<bool>(), j as int);
            }
            entry.booleans.remove(j);
            proof {
                assert(entry@ =~= remove_one(cur, id));
            }
        } else if let Some(j) = position_of_id(&entry.vectors, id) {
            proof {
                assert(has_key(cur.vectors, id.value, param_key::<Vector4>())) by {
                    assert(param_key::<Vector4>()(cur.vectors[j as int]) == id.value);
                }
                lemma_remove_first_at(cur.vectors, id.value, param_key::<Vector4>(), j as int);
            }
            entry.vectors.remove(j);
            proof {
                assert(entry@ =~= remove_one(cur, id));
            }
        } else if let Some(j) = position_of_id(&entry.rasterizer_states, id) {
            proof {
                assert(has_key(
                    cur.rasterizer_states,
                    id.value,
                    param_key::<RasterizerStateData>(),
                )) by {
                    assert(param_key::<RasterizerStateData>()(cur.rasterizer_states[j as int])
                        == id.value);
                }
                lemma_remove_first_at(
                    cur.rasterizer_states,
                    id.value,
                    param_key::<RasterizerStateData>(),
                    j as int,
                );
            }
            entry.rasterizer_states.remove(j);
            proof {
                assert(entry@ =~= remove_one(cur, id));
            }
        } else if let Some(j) = position_of_id(&entry.samplers, id) {
            proof {
                assert(has_key(cur.samplers, id.value, param_key::<SamplerData>())) by {
                    assert(param_key::<SamplerData>()(cur.samplers[j as int]) == id.value);
                }
                lemma_remove_first_at(cur.samplers, id.value, param_key::<SamplerData>(), j as int);
            }
            entry.samplers.remove(j);
            proof {
                assert(entry@ =~= remove_one(cur, id));
            }
        } else if let Some(j) = position_of_id(&entry.textures, id) {
            let ghost ts = entry.textures@;
            proof {
                assert(has_key(cur.textures, id.value, tex_key())) by {
                    assert(tex_key()(cur.textures[j as int]) == id.value);
                }
                assert(forall|k: int| 0 <= k < j ==> tex_key()(cur.textures[k]) != id.value);
                lemma_remove_first_at(cur.textures, id.value, tex_key(), j as int);
            }
            entry.textures.remove(j);
            proof {
                assert(tex_views(entry.textures@) =~= tex_views(ts).remove(j as int));
                assert(entry@ =~= remove_one(cur, id));
            }
        } else {
            proof {
                lemma_tex_views_has_key(entry.textures@, id.value);
                assert(remove_one(cur, id) == cur);
            }
        }
        i = i + 1;
    }
    proof {
        assert(parameters@.take(parameters@.len() as int) =~= parameters@);
    }
    canonicalize_entry(entry);
}

/// The path of the first texture of `ts` with identifier `id`, if any.
pub open spec fn find_texture(ts: Seq<TexView>, id: ParamId) -> Option<Seq<char>>
    decreases ts.len(),
{
    if ts.len() == 0 {
        None
    } else if ts.first().param_id == id {
        Some(ts.first().data)
    } else {
        find_texture(ts.drop_first(), id)
    }
}

/// The texture slot `t` of a preset, as applied to an entry whose
/// textures are `entry_texs`: the entry's own path for that slot if it
/// has one, else the slot's canonical default path.
pub open spec fn preset_texture(entry_texs: Seq<TexView>, t: TexView) -> TexView {
    TexView {
        param_id: t.param_id,
        data: match find_texture(entry_texs, t.param_id) {
            Some(d) => d,
            None => default_texture_spec(t.param_id.value),
        },
    }
}

/// What `apply_preset` produces: the entry's material label, everything
/// else from the preset, except that each preset texture slot keeps the
/// entry's existing path for that slot where there is one and otherwise
/// takes the slot's canonical default path.
pub open spec fn apply_preset_spec(e: EntryView, p: EntryView) -> EntryView {
    EntryView {
        material_label: e.material_label,
        shader_label: p.shader_label,
        blend_states: p.blend_states,
        floats: p.floats,
        booleans: p.booleans,
        vectors: p.vectors,
        rasterizer_states: p.rasterizer_states,
        samplers: p.samplers,
        textures: p.textures.map_values(|t: TexView| preset_texture(e.textures, t)),
    }
}

/// The search finds the first texture whose identifier matches.
proof fn lemma_find_texture_at(ts: Seq<TexView>, id: ParamId, j: int)
    requires
        0 <= j < ts.len(),
        ts[j].param_id == id,
        forall|k: int| 0 <= k < j ==> ts[k].param_id != id,
    ensures
        find_texture(ts, id) == Some(ts[j].data),
    decreases ts.len(),
{
    if ts.first().param_id == id {
        assert(j == 0);
    } else {
        assert(j > 0);
        let t0 = ts.drop_first();
        assert(t0[j - 1] == ts[j]);
        assert(forall|k: int| 0 <= k < j - 1 ==> t0[k] == ts[k + 1] && t0[k].param_id != id);
        lemma_find_texture_at(t0, id, j - 1);
    }
}

/// The search returns nothing when no texture's identifier matches.
proof fn lemma_find_texture_absent(ts: Seq<TexView>, id: ParamId)
    requires
        forall|k: int| 0 <= k < ts.len() ==> ts[k].param_id != id,
    ensures
        find_texture(ts, id) == None::<Seq<char>>,
    decreases ts.len(),
{
    if ts.len() > 0 {
        let t0 = ts.drop_first();
        assert(forall|k: int| 0 <= k < t0.len() ==> t0[k] == ts[k + 1] && t0[k].param_id != id);
        lemma_find_texture_absent(t0, id);
    }
}

/// The path of the first texture of `ts` with identifier `id`, cloned,
/// or `None` if the entry has no texture for that slot.
fn find_texture_in(ts: &Vec<TextureParam>, id: ParamId) -> (r: Option<String>)
    ensures
        match r {
            Some(d) => find_texture(tex_views(ts@), id) == Some(d@),
            None => find_texture(tex_views(ts@), id) == None::<Seq<char>>,
        },
{
    let mut i: usize = 0;
    while i < ts.len()
        invariant
            i <= ts@.len(),
            forall|k: int| 0 <= k < i ==> ts@[k].param_id != id,
        decreases ts@.len() - i,
    {
        if ts[i].param_id.value == id.value {
            let d = ts[i].data.clone();
            proof {
                assert(tex_views(ts@)[i as int].param_id == id);
                assert(forall|k: int|
                    0 <= k < i ==> tex_views(ts@)[k].param_id == ts@[k].param_id);
                lemma_find_texture_at(tex_views(ts@), id, i as int);
                assert(tex_views(ts@)[i as int].data == d@);
            }
            return Some(d);
        }
        i = i + 1;
    }
    proof {
        assert(forall|k: int|
            0 <= k < tex_views(ts@).len() ==> tex_views(ts@)[k].param_id == ts@[k].param_id);
        lemma_find_texture_absent(tex_views(ts@), id);
    }
    None
}

/// A copy of a parameter collection whose values are plain data.
fn copy_params<T: Copy>(v: &Vec<Param<T>>) -> (r: Vec<Param<T>>)
    ensures
        r@ == v@,
{
    let mut r: Vec<Param<T>> = Vec::new();
    let mut i: usize = 0;
    while i < v.len()
        invariant
            i <= v@.len(),
            r@ == v@.take(i as int),
        decreases v@.len() - i,
    {
        r.push(v[i]);
        proof {
            assert(r@ =~= v@.take(i as int + 1));
        }
        i = i + 1;
    }
    proof {
        assert(v@.take(v@.len() as int) =~= v@);
    }
    r
}

/// Produces a new entry from an entry and a preset: the entry keeps its
/// material label (other documents refer to it by that label), every
/// other field is taken from the preset, and each preset texture slot
/// keeps the entry's existing path where the entry has one, falling back
/// to the slot's canonical default path. Neither input is changed.
pub fn apply_preset(entry: &MaterialEntry, preset: &MaterialEntry) -> (r: MaterialEntry)
    ensures
        r@ == apply_preset_spec(entry@, preset@),
{
    let mut textures: Vec<TextureParam> = Vec::new();
    let ghost target = preset@.textures.map_values(
        |t: TexView| preset_texture(entry@.textures, t),
    );
    proof {
        assert(tex_views(textures@) =~= target.take(0));
    }
    let mut i: usize = 0;
    while i < preset.textures.len()
        invariant
            i <= preset.textures@.len(),
            target == preset@.textures.map_values(
                |t: TexView| preset_texture(entry@.textures, t),
            ),
            target.len() == preset.textures@.len(),
            tex_views(textures@) == target.take(i as int),
        decreases preset.textures@.len() - i,
    {
        let id = preset.textures[i].param_id;
        let ghost before = textures@;
        match find_texture_in(&entry.textures, id) {
            Some(d) => {
                let p = Param { param_id: id, data: d };
                textures.push(p);
                proof {
                    assert(textures@ == before.push(p));
                    assert(tex_views(before.push(p)) =~= tex_views(before).push(
                        TexView { param_id: id, data: p.data@ },
                    ));
                    assert(target[i as int] == preset_texture(
                        entry@.textures,
                        preset@.textures[i as int],
                    ));
                    assert(preset@.textures[i as int].param_id == id);
                    assert(TexView { param_id: id, data: p.data@ } == target[i as int]);
                    assert(tex_views(textures@) =~= target.take(i as int + 1));
                }
            },
            None => {
                let p = Param { param_id: id, data: default_texture(id) };
                textures.push(p);
                proof {
                    assert(textures@ == before.push(p));
                    assert(tex_views(before.push(p)) =~= tex_views(before).push(
                        TexView { param_id: id, data: p.data@ },
                    ));
                    assert(target[i as int] == preset_texture(
                        entry@.textures,
                        preset@.textures[i as int],
                    ));
                    assert(preset@.textures[i as int].param_id == id);
                    assert(TexView { param_id: id, data: p.data@ } == target[i as int]);
                    assert(tex_views(textures@) =~= target.take(i as int + 1));
                }
            },
        }
        i = i + 1;
    }
    proof {
        assert(target.take(target.len() as int) =~= target);
    }
    let r = MaterialEntry {
        material_label: entry.material_label.clone(),
        shader_label: preset.shader_label.clone(),
        blend_states: copy_params(&preset.blend_states),
        floats: copy_params(&preset.floats),
        booleans: copy_params(&preset.booleans),
        vectors: copy_params(&preset.vectors),
        rasterizer_states: copy_params(&preset.rasterizer_states),
        samplers: copy_params(&preset.samplers),
        textures,
    };
    proof {
        assert(r@ =~= apply_preset_spec(entry@, preset@));
    }
    r
}

/// The canonical new material: its labels, one blend state, one float,
/// three booleans, four vectors (a fully transparent vector 0 to support
/// transparency), one rasterizer state, four samplers, and four textures
/// with their canonical default paths.
pub open spec fn default_material_spec() -> EntryView {
    EntryView {
        material_label: "NEW_MATERIAL"@,
        shader_label: "SFX_PBS_0100000008008269_opaque"@,
        blend_states: seq![
            Param { param_id: ParamId { value: BLEND_STATE0 }, data: blend_state_default() },
        ],
        floats: seq![
            Param { param_id: ParamId { value: CUSTOM_FLOAT8 }, data: F32_ZERO_POINT_FOUR_BITS },
        ],
        booleans: seq![
            Param { param_id: ParamId { value: CUSTOM_BOOLEAN1 }, data: true },
            Param { param_id: ParamId { value: CUSTOM_BOOLEAN3 }, data: true },
            Param { param_id: ParamId { value: CUSTOM_BOOLEAN4 }, data: true },
        ],
        vectors: seq![
            Param { param_id: ParamId { value: CUSTOM_VECTOR0 }, data: vector4_default() },
            Param { param_id: ParamId { value: CUSTOM_VECTOR13 }, data: vector4_one() },
            Param { param_id: ParamId { value: CUSTOM_VECTOR14 }, data: vector4_one() },
            Param { param_id: ParamId { value: CUSTOM_VECTOR8 }, data: vector4_one() },
        ],
        rasterizer_states: seq![
            Param {
                param_id: ParamId { value: RASTERIZER_STATE0 },
                data: rasterizer_state_default(),
            },
        ],
        samplers: seq![
            Param { param_id: ParamId { value: SAMPLER0 }, data: sampler_default() },
            Param { param_id: ParamId { value: SAMPLER4 }, data: sampler_default() },
            Param { param_id: ParamId { value: SAMPLER6 }, data: sampler_default() },
            Param { param_id: ParamId { value: SAMPLER7 }, data: sampler_default() },
        ],
        textures: seq![
            texture_addition(ParamId { value: TEXTURE0 }),
            texture_addition(ParamId { value: TEXTURE4 }),
            texture_addition(ParamId { value: TEXTURE6 }),
            texture_addition(ParamId { value: TEXTURE7 }),
        ],
    }
}

/// Produces the canonical starting material for a newly created entry.
pub fn default_material() -> (r: MaterialEntry)
    ensures
        r@ == default_material_spec(),
{
    let t0 = ParamId { value: TEXTURE0 };
    let t4 = ParamId { value: TEXTURE4 };
    let t6 = ParamId { value: TEXTURE6 };
    let t7 = ParamId { value: TEXTURE7 };
    let r = MaterialEntry {
        material_label: String::from_str("NEW_MATERIAL"),
        shader_label: String::from_str("SFX_PBS_0100000008008269_opaque"),
        blend_states: vec![
            Param { param_id: ParamId { value: BLEND_STATE0 }, data: BlendStateData::default() },
        ],
        floats: vec![
            Param {
                param_id: ParamId { value: CUSTOM_FLOAT8 },
                data: F32_ZERO_POINT_FOUR_BITS,
            },
        ],
        booleans: vec![
            Param { param_id: ParamId { value: CUSTOM_BOOLEAN1 }, data: true },
            Param { param_id: ParamId { value: CUSTOM_BOOLEAN3 }, data: true },
            Param { param_id: ParamId { value: CUSTOM_BOOLEAN4 }, data: true },
        ],
        vectors: vec![
            Param { param_id: ParamId { value: CUSTOM_VECTOR0 }, data: Vector4::default() },
            Param { param_id: ParamId { value: CUSTOM_VECTOR13 }, data: vector4_one_exec() },
            Param { param_id: ParamId { value: CUSTOM_VECTOR14 }, data: vector4_one_exec() },
            Param { param_id: ParamId { value: CUSTOM_VECTOR8 }, data: vector4_one_exec() },
        ],
        rasterizer_states: vec![
            Param {
                param_id: ParamId { value: RASTERIZER_STATE0 },
                data: RasterizerStateData::default(),
            },
        ],
        samplers: vec![
            Param { param_id: ParamId { value: SAMPLER0 }, data: SamplerData::default() },
            Param { param_id: ParamId { value: SAMPLER4 }, data: SamplerData::default() },
            Param { param_id: ParamId { value: SAMPLER6 }, data: SamplerData::default() },
            Param { param_id: ParamId { value: SAMPLER7 }, data: SamplerData::default() },
        ],
        textures: vec![
            Param { param_id: t0, data: default_texture(t0) },
            Param { param_id: t4, data: default_texture(t4) },
            Param { param_id: t6, data: default_texture(t6) },
            Param { param_id: t7, data: default_texture(t7) },
        ],
    };
    proof {
        assert(tex_views(r.textures@) =~= default_material_spec().textures);
        assert(r@ =~= default_material_spec());
    }
    r
}

/// The entry invariant: within each family's collection, every identifier
/// appears at most once.
pub open spec fn wf(e: EntryView) -> bool {
    distinct_keys(e.blend_states, param_key::<BlendStateData>()) && distinct_keys(
        e.floats,
        param_key::<u32>(),
    ) && distinct_keys(e.booleans, param_key::<bool>()) && distinct_keys(
        e.vectors,
        param_key::<Vector4>(),
    ) && distinct_keys(e.rasterizer_states, param_key::<RasterizerStateData>()) && distinct_keys(
        e.samplers,
        param_key::<SamplerData>(),
    ) && distinct_keys(e.textures, tex_key())
}

/// A collection holds an identifier exactly when it holds its key.
proof fn lemma_contains_has_key<T>(s: Seq<Param<T>>, id: ParamId)
    ensures
        param_ids(s).contains(id) == has_key(s, id.value, param_key::<T>()),
{
    if param_ids(s).contains(id) {
        let i = choose|i: int| 0 <= i < param_ids(s).len() && param_ids(s)[i] == id;
        assert(has_key(s, id.value, param_key::<T>())) by {
            assert(0 <= i < s.len() && param_key::<T>()(s[i]) == id.value);
        }
    }
    if has_key(s, id.value, param_key::<T>()) {
        let i = choose|i: int| 0 <= i < s.len() && param_key::<T>()(s[i]) == id.value;
        assert(s[i].param_id == id);
        assert(param_ids(s).contains(id)) by {
            assert(param_ids(s)[i] == id);
        }
    }
}

/// A texture view collection holds an identifier exactly when it holds
/// its key.
proof fn lemma_tex_contains_has_key(s: Seq<TexView>, id: ParamId)
    ensures
        tex_ids(s).contains(id) == has_key(s, id.value, tex_key()),
{
    if tex_ids(s).contains(id) {
        let i = choose|i: int| 0 <= i < tex_ids(s).len() && tex_ids(s)[i] == id;
        assert(has_key(s, id.value, tex_key())) by {
            assert(0 <= i < s.len() && tex_key()(s[i]) == id.value);
        }
    }
    if has_key(s, id.value, tex_key()) {
        let i = choose|i: int| 0 <= i < s.len() && tex_key()(s[i]) == id.value;
        assert(s[i].param_id == id);
        assert(tex_ids(s).contains(id)) by {
            assert(tex_ids(s)[i] == id);
        }
    }
}

/// After any add or remove, each of the seven family collections is
/// sorted in ascending identifier order: the canonical order is
/// re-established unconditionally.
pub proof fn lemma_canonicalize_sorted(e: EntryView)
    ensures
        sorted_keyed(canonicalize(e).blend_states, param_key::<BlendStateData>()),
        sorted_keyed(canonicalize(e).floats, param_key::<u32>()),
        sorted_keyed(canonicalize(e).booleans, param_key::<bool>()),
        sorted_keyed(canonicalize(e).vectors, param_key::<Vector4>()),
        sorted_keyed(canonicalize(e).rasterizer_states, param_key::<RasterizerStateData>()),
        sorted_keyed(canonicalize(e).samplers, param_key::<SamplerData>()),
        sorted_keyed(canonicalize(e).textures, tex_key()),
{
    lemma_sort_keyed_ensures(e.blend_states, param_key::<BlendStateData>());
    lemma_sort_keyed_ensures(e.floats, param_key::<u32>());
    lemma_sort_keyed_ensures(e.booleans, param_key::<bool>());
    lemma_sort_keyed_ensures(e.vectors, param_key::<Vector4>());
    lemma_sort_keyed_ensures(e.rasterizer_states, param_key::<RasterizerStateData>());
    lemma_sort_keyed_ensures(e.samplers, param_key::<SamplerData>());
    lemma_sort_keyed_ensures(e.textures, tex_key());
}

/// After `add_parameters`, every family collection is sorted in ascending
/// identifier order, for every entry and every identifier list.
pub proof fn lemma_add_parameters_sorted(e: EntryView, ids: Seq<ParamId>)
    ensures
        sorted_keyed(add_spec(e, ids).blend_states, param_key::<BlendStateData>()),
        sorted_keyed(add_spec(e, ids).floats, param_key::<u32>()),
        sorted_keyed(add_spec(e, ids).booleans, param_key::<bool>()),
        sorted_keyed(add_spec(e, ids).vectors, param_key::<Vector4>()),
        sorted_keyed(add_spec(e, ids).rasterizer_states, param_key::<RasterizerStateData>()),
        sorted_keyed(add_spec(e, ids).samplers, param_key::<SamplerData>()),
        sorted_keyed(add_spec(e, ids).textures, tex_key()),
{
    lemma_canonicalize_sorted(with_additions(e, ids));
}

/// After `remove_parameters`, every family collection is sorted in
/// ascending identifier order, for every entry and every identifier list.
pub proof fn lemma_remove_parameters_sorted(e: EntryView, ids: Seq<ParamId>)
    ensures
        sorted_keyed(remove_spec(e, ids).blend_states, param_key::<BlendStateData>()),
        sorted_keyed(remove_spec(e, ids).floats, param_key::<u32>()),
        sorted_keyed(remove_spec(e, ids).booleans, param_key::<bool>()),
        sorted_keyed(remove_spec(e, ids).vectors, param_key::<Vector4>()),
        sorted_keyed(remove_spec(e, ids).rasterizer_states, param_key::<RasterizerStateData>()),
        sorted_keyed(remove_spec(e, ids).samplers, param_key::<SamplerData>()),
        sorted_keyed(remove_spec(e, ids).textures, tex_key()),
{
    lemma_canonicalize_sorted(remove_all(e, ids));
}

/// Filtering keeps a duplicate-free sequence duplicate-free.
proof fn lemma_filter_no_duplicates<A>(s: Seq<A>, p: spec_fn(A) -> bool)
    requires
        s.no_duplicates(),
    ensures
        s.filter(p).no_duplicates(),
    decreases s.len(),
{
    reveal(Seq::filter);
    if s.len() > 0 {
        let s0 = s.drop_last();
        assert(s0.no_duplicates()) by {
            assert forall|i: int, j: int| 0 <= i < j < s0.len() implies s0[i] != s0[j] by {
                assert(s[i] != s[j]);
            }
        }
        lemma_filter_no_duplicates(s0, p);
        if p(s.last()) {
            assert(s.filter(p) == s0.filter(p).push(s.last()));
            assert(!s0.filter(p).contains(s.last())) by {
                if s0.filter(p).contains(s.last()) {
                    s0.lemma_filter_contains_rev(p, s.last());
                    let k = choose|k: int| 0 <= k < s0.len() && s0[k] == s.last();
                    assert(s[k] == s[s.len() - 1]);
                }
            }
            assert forall|i: int, j: int|
                0 <= i < j < s.filter(p).len() implies s.filter(p)[i] != s.filter(p)[j] by {
                if j < s0.filter(p).len() {
                    assert(s0.filter(p)[i] != s0.filter(p)[j]);
                } else {
                    assert(s.filter(p)[j] == s.last());
                    if s0.filter(p)[i] == s.last() {
                        assert(s0.filter(p).contains(s.last())) by {
                            assert(s0.filter(p)[i] == s.last());
                        }
                    }
                }
            }
        }
    }
}

/// Appending fresh, pairwise-distinct parameters to a duplicate-free
/// family collection keeps its keys pairwise distinct.
proof fn lemma_appended_distinct<T>(
    s: Seq<Param<T>>,
    ids: Seq<ParamId>,
    fam: spec_fn(ParamId) -> bool,
    mk: spec_fn(ParamId) -> Param<T>,
)
    requires
        distinct_keys(s, param_key::<T>()),
        ids.no_duplicates(),
        forall|i: int| 0 <= i < ids.len() ==> !param_ids(s).contains(#[trigger] ids[i]),
        forall|id: ParamId| (#[trigger] mk(id)).param_id == id,
    ensures
        distinct_keys(s + ids.filter(fam).map_values(mk), param_key::<T>()),
{
    let f = ids.filter(fam);
    lemma_filter_no_duplicates(ids, fam);
    let a = f.map_values(mk);
    let w = s + a;
    assert forall|i: int, j: int|
        0 <= i < j < w.len() implies param_key::<T>()(w[i]) != param_key::<T>()(w[j]) by {
        if j < s.len() {
        } else if i >= s.len() {
            let fi = f[i - s.len()];
            let fj = f[j - s.len()];
            assert(w[i] == mk(fi) && w[j] == mk(fj));
            if fi.value == fj.value {
                assert(fi == fj);
                assert(f[i - s.len()] == f[j - s.len()]);
            }
        } else {
            let fj = f[j - s.len()];
            assert(w[j] == mk(fj));
            if param_key::<T>()(w[i]) == fj.value {
                assert(s[i].param_id == fj);
                assert(param_ids(s).contains(fj)) by {
                    assert(param_ids(s)[i] == fj);
                }
                ids.lemma_filter_contains_rev(fam, fj);
                let k = choose|k: int| 0 <= k < ids.len() && ids[k] == fj;
                assert(!param_ids(s).contains(ids[k]));
            }
        }
    }
}

/// The texture analogue of `lemma_appended_distinct`.
proof fn lemma_appended_distinct_tex(s: Seq<TexView>, ids: Seq<ParamId>)
    requires
        distinct_keys(s, tex_key()),
        ids.no_duplicates(),
        forall|i: int| 0 <= i < ids.len() ==> !tex_ids(s).contains(#[trigger] ids[i]),
    ensures
        distinct_keys(s + texture_additions(ids), tex_key()),
{
    let fam = |id: ParamId| is_texture_id(id.value);
    let f = ids.filter(fam);
    lemma_filter_no_duplicates(ids, fam);
    let a = texture_additions(ids);
    let w = s + a;
    assert forall|i: int, j: int|
        0 <= i < j < w.len() implies tex_key()(w[i]) != tex_key()(w[j]) by {
        if j < s.len() {
        } else if i >= s.len() {
            let fi = f[i - s.len()];
            let fj = f[j - s.len()];
            assert(w[i] == texture_addition(fi) && w[j] == texture_addition(fj));
            if fi.value == fj.value {
                assert(fi == fj);
                assert(f[i - s.len()] == f[j - s.len()]);
            }
        } else {
            let fj = f[j - s.len()];
            assert(w[j] == texture_addition(fj));
            if tex_key()(w[i]) == fj.value {
                assert(s[i].param_id == fj);
                assert(tex_ids(s).contains(fj)) by {
                    assert(tex_ids(s)[i] == fj);
                }
                ids.lemma_filter_contains_rev(fam, fj);
                let k = choose|k: int| 0 <= k < ids.len() && ids[k] == fj;
                assert(!tex_ids(s).contains(ids[k]));
            }
        }
    }
}

/// For a well-formed entry and fresh, pairwise-distinct identifiers, the
/// canonical order after `add_parameters` is strictly ascending in every
/// family, and the entry invariant is re-established.
pub proof fn lemma_add_parameters_sorted_strict(e: EntryView, ids: Seq<ParamId>)
    requires
        wf(e),
        ids.no_duplicates(),
        forall|i: int| 0 <= i < ids.len() ==> !entry_has_param(e, #[trigger] ids[i]),
    ensures
        strictly_sorted_keyed(add_spec(e, ids).blend_states, param_key::<BlendStateData>()),
        strictly_sorted_keyed(add_spec(e, ids).floats, param_key::<u32>()),
        strictly_sorted_keyed(add_spec(e, ids).booleans, param_key::<bool>()),
        strictly_sorted_keyed(add_spec(e, ids).vectors, param_key::<Vector4>()),
        strictly_sorted_keyed(
            add_spec(e, ids).rasterizer_states,
            param_key::<RasterizerStateData>(),
        ),
        strictly_sorted_keyed(add_spec(e, ids).samplers, param_key::<SamplerData>()),
        strictly_sorted_keyed(add_spec(e, ids).textures, tex_key()),
        wf(add_spec(e, ids)),
{
    let w = with_additions(e, ids);
    assert forall|i: int| 0 <= i < ids.len() implies !param_ids(e.blend_states).contains(
        #[trigger] ids[i],
    ) && !param_ids(e.floats).contains(ids[i]) && !param_ids(e.booleans).contains(ids[i])
        && !param_ids(e.vectors).contains(ids[i]) && !param_ids(e.rasterizer_states).contains(
        ids[i],
    ) && !param_ids(e.samplers).contains(ids[i]) && !tex_ids(e.textures).contains(ids[i]) by {
        assert(!entry_has_param(e, ids[i]));
    }
    lemma_appended_distinct(
        e.blend_states,
        ids,
        |id: ParamId| is_blend_id(id.value),
        |id: ParamId| blend_addition(id),
    );
    lemma_appended_distinct(
        e.floats,
        ids,
        |id: ParamId| is_float_id(id.value),
        |id: ParamId| float_addition(id),
    );
    lemma_appended_distinct(
        e.booleans,
        ids,
        |id: ParamId| is_bool_id(id.value),
        |id: ParamId| boolean_addition(id),
    );
    lemma_appended_distinct(
        e.vectors,
        ids,
        |id: ParamId| is_vector_id(id.value),
        |id: ParamId| vector_addition(id),
    );
    lemma_appended_distinct(
        e.rasterizer_states,
        ids,
        |id: ParamId| is_rasterizer_id(id.value),
        |id: ParamId| rasterizer_addition(id),
    );
    lemma_appended_distinct(
        e.samplers,
        ids,
        |id: ParamId| is_sampler_id(id.value),
        |id: ParamId| sampler_addition(id),
    );
    lemma_appended_distinct_tex(e.textures, ids);
    lemma_sort_keyed_strict(w.blend_states, param_key::<BlendStateData>());
    lemma_sort_keyed_strict(w.floats, param_key::<u32>());
    lemma_sort_keyed_strict(w.booleans, param_key::<bool>());
    lemma_sort_keyed_strict(w.vectors, param_key::<Vector4>());
    lemma_sort_keyed_strict(w.rasterizer_states, param_key::<RasterizerStateData>());
    lemma_sort_keyed_strict(w.samplers, param_key::<SamplerData>());
    lemma_sort_keyed_strict(w.textures, tex_key());
}

/// Removing one identifier preserves the entry invariant.
proof fn lemma_remove_one_wf(e: EntryView, id: ParamId)
    requires
        wf(e),
    ensures
        wf(remove_one(e, id)),
{
    lemma_remove_first_distinct(e.blend_states, id.value, param_key::<BlendStateData>());
    lemma_remove_first_distinct(e.floats, id.value, param_key::<u32>());
    lemma_remove_first_distinct(e.booleans, id.value, param_key::<bool>());
    lemma_remove_first_distinct(e.vectors, id.value, param_key::<Vector4>());
    lemma_remove_first_distinct(e.rasterizer_states, id.value, param_key::<RasterizerStateData>());
    lemma_remove_first_distinct(e.samplers, id.value, param_key::<SamplerData>());
    lemma_remove_first_distinct(e.textures, id.value, tex_key());
}

/// Removing a list of identifiers preserves the entry invariant.
proof fn lemma_remove_all_wf(e: EntryView, ids: Seq<ParamId>)
    requires
        wf(e),
    ensures
        wf(remove_all(e, ids)),
    decreases ids.len(),
{
    if ids.len() > 0 {
        lemma_remove_one_wf(e, ids.first());
        lemma_remove_all_wf(remove_one(e, ids.first()), ids.drop_first());
    }
}

/// For a well-formed entry, the canonical order after `remove_parameters`
/// is strictly ascending in every family, and the entry invariant is
/// re-established.
pub proof fn lemma_remove_parameters_sorted_strict(e: EntryView, ids: Seq<ParamId>)
    requires
        wf(e),
    ensures
        strictly_sorted_keyed(remove_spec(e, ids).blend_states, param_key::<BlendStateData>()),
        strictly_sorted_keyed(remove_spec(e, ids).floats, param_key::<u32>()),
        strictly_sorted_keyed(remove_spec(e, ids).booleans, param_key::<bool>()),
        strictly_sorted_keyed(remove_spec(e, ids).vectors, param_key::<Vector4>()),
        strictly_sorted_keyed(
            remove_spec(e, ids).rasterizer_states,
            param_key::<RasterizerStateData>(),
        ),
        strictly_sorted_keyed(remove_spec(e, ids).samplers, param_key::<SamplerData>()),
        strictly_sorted_keyed(remove_spec(e, ids).textures, tex_key()),
        wf(remove_spec(e, ids)),
{
    lemma_remove_all_wf(e, ids);
    let w = remove_all(e, ids);
    lemma_sort_keyed_strict(w.blend_states, param_key::<BlendStateData>());
    lemma_sort_keyed_strict(w.floats, param_key::<u32>());
    lemma_sort_keyed_strict(w.booleans, param_key::<bool>());
    lemma_sort_keyed_strict(w.vectors, param_key::<Vector4>());
    lemma_sort_keyed_strict(w.rasterizer_states, param_key::<RasterizerStateData>());
    lemma_sort_keyed_strict(w.samplers, param_key::<SamplerData>());
    lemma_sort_keyed_strict(w.textures, tex_key());
}

/// The identifiers of a concatenation are the concatenated identifiers.
proof fn lemma_param_ids_add<T>(a: Seq<Param<T>>, b: Seq<Param<T>>)
    ensures
        param_ids(a + b) == param_ids(a) + param_ids(b),
{
    assert(param_ids(a + b) =~= param_ids(a) + param_ids(b));
}

/// The texture analogue of `lemma_param_ids_add`.
proof fn lemma_tex_ids_add(a: Seq<TexView>, b: Seq<TexView>)
    ensures
        tex_ids(a + b) == tex_ids(a) + tex_ids(b),
{
    assert(tex_ids(a + b) =~= tex_ids(a) + tex_ids(b));
}

/// The canonical re-sort holds exactly the identifiers the un-sorted
/// entry held.
proof fn lemma_canonicalize_has_param(w: EntryView, id: ParamId)
    ensures
        entry_has_param(canonicalize(w), id) == entry_has_param(w, id),
{
    let c = canonicalize(w);
    lemma_sort_keyed_ensures(w.blend_states, param_key::<BlendStateData>());
    lemma_sort_keyed_ensures(w.floats, param_key::<u32>());
    lemma_sort_keyed_ensures(w.booleans, param_key::<bool>());
    lemma_sort_keyed_ensures(w.vectors, param_key::<Vector4>());
    lemma_sort_keyed_ensures(w.rasterizer_states, param_key::<RasterizerStateData>());
    lemma_sort_keyed_ensures(w.samplers, param_key::<SamplerData>());
    lemma_sort_keyed_ensures(w.textures, tex_key());
    lemma_contains_has_key(w.blend_states, id);
    lemma_contains_has_key(c.blend_states, id);
    lemma_contains_has_key(w.floats, id);
    lemma_contains_has_key(c.floats, id);
    lemma_contains_has_key(w.booleans, id);
    lemma_contains_has_key(c.booleans, id);
    lemma_contains_has_key(w.vectors, id);
    lemma_contains_has_key(c.vectors, id);
    lemma_contains_has_key(w.rasterizer_states, id);
    lemma_contains_has_key(c.rasterizer_states, id);
    lemma_contains_has_key(w.samplers, id);
    lemma_contains_has_key(c.samplers, id);
    lemma_tex_contains_has_key(w.textures, id);
    lemma_tex_contains_has_key(c.textures, id);
}

/// Appending defaults never loses a parameter the entry already held.
proof fn lemma_with_additions_preserves(e: EntryView, ids: Seq<ParamId>, id: ParamId)
    requires
        entry_has_param(e, id),
    ensures
        entry_has_param(with_additions(e, ids), id),
{
    let w = with_additions(e, ids);
    lemma_param_ids_add(e.blend_states, blend_additions(ids));
    lemma_param_ids_add(e.floats, float_additions(ids));
    lemma_param_ids_add(e.booleans, boolean_additions(ids));
    lemma_param_ids_add(e.vectors, vector_additions(ids));
    lemma_param_ids_add(e.rasterizer_states, rasterizer_additions(ids));
    lemma_param_ids_add(e.samplers, sampler_additions(ids));
    lemma_tex_ids_add(e.textures, texture_additions(ids));
    if param_ids(e.blend_states).contains(id) {
        let k = choose|k: int|
            0 <= k < param_ids(e.blend_states).len() && param_ids(e.blend_states)[k] == id;
        assert(param_ids(w.blend_states)[k] == id);
    } else if param_ids(e.floats).contains(id) {
        let k = choose|k: int| 0 <= k < param_ids(e.floats).len() && param_ids(e.floats)[k] == id;
        assert(param_ids(w.floats)[k] == id);
    } else if param_ids(e.booleans).contains(id) {
        let k = choose|k: int|
            0 <= k < param_ids(e.booleans).len() && param_ids(e.booleans)[k] == id;
        assert(param_ids(w.booleans)[k] == id);
    } else if param_ids(e.vectors).contains(id) {
        let k = choose|k: int| 0 <= k < param_ids(e.vectors).len() && param_ids(e.vectors)[k] == id;
        assert(param_ids(w.vectors)[k] == id);
    } else if param_ids(e.rasterizer_states).contains(id) {
        let k = choose|k: int|
            0 <= k < param_ids(e.rasterizer_states).len() && param_ids(e.rasterizer_states)[k]
                == id;
        assert(param_ids(w.rasterizer_states)[k] == id);
    } else if param_ids(e.samplers).contains(id) {
        let k = choose|k: int|
            0 <= k < param_ids(e.samplers).len() && param_ids(e.samplers)[k] == id;
        assert(param_ids(w.samplers)[k] == id);
    } else {
        let k = choose|k: int| 0 <= k < tex_ids(e.textures).len() && tex_ids(e.textures)[k] == id;
        assert(tex_ids(w.textures)[k] == id);
    }
}

/// An identifier of the list that classifies into a family is present
/// after its default is appended.
proof fn lemma_with_additions_gives(e: EntryView, ids: Seq<ParamId>, id: ParamId)
    requires
        ids.contains(id),
        family_of_spec(id.value) is Some,
    ensures
        entry_has_param(with_additions(e, ids), id),
{
    let w = with_additions(e, ids);
    let n = choose|n: int| 0 <= n < ids.len() && ids[n] == id;
    lemma_param_ids_add(e.blend_states, blend_additions(ids));
    lemma_param_ids_add(e.floats, float_additions(ids));
    lemma_param_ids_add(e.booleans, boolean_additions(ids));
    lemma_param_ids_add(e.vectors, vector_additions(ids));
    lemma_param_ids_add(e.rasterizer_states, rasterizer_additions(ids));
    lemma_param_ids_add(e.samplers, sampler_additions(ids));
    lemma_tex_ids_add(e.textures, texture_additions(ids));
    if is_blend_id(id.value) {
        let fam = |id: ParamId| is_blend_id(id.value);
        ids.lemma_filter_contains(fam, n);
        let f = ids.filter(fam);
        let q = choose|q: int| 0 <= q < f.len() && f[q] == id;
        assert(param_ids(w.blend_states)[e.blend_states.len() + q] == id);
    } else if is_float_id(id.value) {
        let fam = |id: ParamId| is_float_id(id.value);
        ids.lemma_filter_contains(fam, n);
        let f = ids.filter(fam);
        let q = choose|q: int| 0 <= q < f.len() && f[q] == id;
        assert(param_ids(w.floats)[e.floats.len() + q] == id);
    } else if is_bool_id(id.value) {
        let fam = |id: ParamId| is_bool_id(id.value);
        ids.lemma_filter_contains(fam, n);
        let f = ids.filter(fam);
        let q = choose|q: int| 0 <= q < f.len() && f[q] == id;
        assert(param_ids(w.booleans)[e.booleans.len() + q] == id);
    } else if is_vector_id(id.value) {
        let fam = |id: ParamId| is_vector_id(id.value);
        ids.lemma_filter_contains(fam, n);
        let f = ids.filter(fam);
        let q = choose|q: int| 0 <= q < f.len() && f[q] == id;
        assert(param_ids(w.vectors)[e.vectors.len() + q] == id);
    } else if is_rasterizer_id(id.value) {
        let fam = |id: ParamId| is_rasterizer_id(id.value);
        ids.lemma_filter_contains(fam, n);
        let f = ids.filter(fam);
        let q = choose|q: int| 0 <= q < f.len() && f[q] == id;
        assert(param_ids(w.rasterizer_states)[e.rasterizer_states.len() + q] == id);
    } else if is_sampler_id(id.value) {
        let fam = |id: ParamId| is_sampler_id(id.value);
        ids.lemma_filter_contains(fam, n);
        let f = ids.filter(fam);
        let q = choose|q: int| 0 <= q < f.len() && f[q] == id;
        assert(param_ids(w.samplers)[e.samplers.len() + q] == id);
    } else {
        assert(is_texture_id(id.value));
        let fam = |id: ParamId| is_texture_id(id.value);
        ids.lemma_filter_contains(fam, n);
        let f = ids.filter(fam);
        let q = choose|q: int| 0 <= q < f.len() && f[q] == id;
        assert(tex_ids(w.textures)[e.textures.len() + q] == id);
    }
}

/// Computing the missing parameters and adding them leaves nothing
/// missing, for every entry and every shader whose parameters all
/// classify into a family: the diagnose-then-repair cycle converges in
/// one step.
pub proof fn lemma_missing_after_add_empty(e: EntryView, shader_ids: Seq<ParamId>)
    requires
        forall|i: int|
            0 <= i < shader_ids.len() ==> family_of_spec(
                (#[trigger] shader_ids[i]).value,
            ) is Some,
    ensures
        missing_spec(add_spec(e, missing_spec(e, shader_ids)), shader_ids) == Seq::<
            ParamId,
        >::empty(),
{
    let m = missing_spec(e, shader_ids);
    let w = with_additions(e, m);
    let e2 = add_spec(e, m);
    assert forall|i: int| 0 <= i < shader_ids.len() implies entry_has_param(
        e2,
        #[trigger] shader_ids[i],
    ) by {
        let id = shader_ids[i];
        if entry_has_param(e, id) {
            lemma_with_additions_preserves(e, m, id);
        } else {
            shader_ids.lemma_filter_contains(|id: ParamId| !entry_has_param(e, id), i);
            assert(m.contains(id));
            lemma_with_additions_gives(e, m, id);
        }
        lemma_canonicalize_has_param(w, id);
    }
    let pred = |id: ParamId| !entry_has_param(e2, id);
    assert(shader_ids.all(|id: ParamId| !pred(id))) by {
        assert forall|i: int| 0 <= i < shader_ids.len() implies !pred(shader_ids[i]) by {
            assert(entry_has_param(e2, shader_ids[i]));
        }
    }
    shader_ids.lemma_all_neg_filter_empty(pred);
    assert(missing_spec(e2, shader_ids) =~= Seq::<ParamId>::empty());
}

/// The key of a bare identifier: its numeric value.
pub open spec fn id_key() -> spec_fn(ParamId) -> u64 {
    |id: ParamId| id.value
}

/// How many parameters with key `k` the entry holds, over all seven
/// families.
pub open spec fn entry_count(e: EntryView, k: u64) -> nat {
    count_key(e.blend_states, k, param_key::<BlendStateData>()) + count_key(
        e.floats,
        k,
        param_key::<u32>(),
    ) + count_key(e.booleans, k, param_key::<bool>()) + count_key(
        e.vectors,
        k,
        param_key::<Vector4>(),
    ) + count_key(e.rasterizer_states, k, param_key::<RasterizerStateData>()) + count_key(
        e.samplers,
        k,
        param_key::<SamplerData>(),
    ) + count_key(e.textures, k, tex_key())
}

/// Whether any family of `e` holds a parameter with key `k`.
pub open spec fn entry_has_key(e: EntryView, k: u64) -> bool {
    has_key(e.blend_states, k, param_key::<BlendStateData>()) || has_key(
        e.floats,
        k,
        param_key::<u32>(),
    ) || has_key(e.booleans, k, param_key::<bool>()) || has_key(
        e.vectors,
        k,
        param_key::<Vector4>(),
    ) || has_key(e.rasterizer_states, k, param_key::<RasterizerStateData>()) || has_key(
        e.samplers,
        k,
        param_key::<SamplerData>(),
    ) || has_key(e.textures, k, tex_key())
}

/// An entry holds a key exactly when its count is positive.
proof fn lemma_entry_count_zero(e: EntryView, k: u64)
    ensures
        (entry_count(e, k) == 0) == !entry_has_key(e, k),
{
    lemma_count_key_zero(e.blend_states, k, param_key::<BlendStateData>());
    lemma_count_key_zero(e.floats, k, param_key::<u32>());
    lemma_count_key_zero(e.booleans, k, param_key::<bool>());
    lemma_count_key_zero(e.vectors, k, param_key::<Vector4>());
    lemma_count_key_zero(e.rasterizer_states, k, param_key::<RasterizerStateData>());
    lemma_count_key_zero(e.samplers, k, param_key::<SamplerData>());
    lemma_count_key_zero(e.textures, k, tex_key());
}

/// Removing one identifier lowers its key count by one when present and
/// changes no other key's count.
proof fn lemma_remove_one_count(e: EntryView, id: ParamId, k: u64)
    ensures
        entry_count(remove_one(e, id), k) as int == if k == id.value && entry_has_key(
            e,
            id.value,
        ) {
            entry_count(e, k) - 1
        } else {
            entry_count(e, k) as int
        },
{
    lemma_remove_first_count(e.blend_states, id.value, param_key::<BlendStateData>(), k);
    lemma_remove_first_count(e.floats, id.value, param_key::<u32>(), k);
    lemma_remove_first_count(e.booleans, id.value, param_key::<bool>(), k);
    lemma_remove_first_count(e.vectors, id.value, param_key::<Vector4>(), k);
    lemma_remove_first_count(e.rasterizer_states, id.value, param_key::<RasterizerStateData>(), k);
    lemma_remove_first_count(e.samplers, id.value, param_key::<SamplerData>(), k);
    lemma_remove_first_count(e.textures, id.value, tex_key(), k);
}

/// Removing a list that names each unwanted key at least as often as the
/// entry holds it empties the entry of that key.
proof fn lemma_remove_all_count_zero(e: EntryView, u: Seq<ParamId>, k: u64)
    requires
        count_key(u, k, id_key()) >= entry_count(e, k),
    ensures
        entry_count(remove_all(e, u), k) == 0,
    decreases u.len(),
{
    if u.len() == 0 {
        assert(entry_count(e, k) == 0);
    } else {
        let id = u.first();
        let e1 = remove_one(e, id);
        assert(remove_all(e, u) == remove_all(e1, u.drop_first()));
        lemma_remove_one_count(e, id, k);
        lemma_entry_count_zero(e, id.value);
        assert(id_key()(u.first()) == id.value);
        assert(count_key(u, k, id_key()) == (if id.value == k {
            1nat
        } else {
            0nat
        }) + count_key(u.drop_first(), k, id_key()));
        if id.value == k && entry_has_key(e, id.value) {
            assert(entry_count(e1, k) == entry_count(e, k) - 1);
        } else if id.value == k {
            assert(entry_count(e, k) == 0);
            assert(entry_count(e1, k) == 0);
        } else {
            assert(entry_count(e1, k) == entry_count(e, k));
        }
        lemma_remove_all_count_zero(e1, u.drop_first(), k);
    }
}

/// The flat identifier list of an entry names each key exactly as often
/// as the entry holds it.
proof fn lemma_all_param_ids_count(e: EntryView, k: u64)
    ensures
        count_key(all_param_ids(e), k, id_key()) == entry_count(e, k),
{
    let b = param_ids(e.blend_states);
    let f = param_ids(e.floats);
    let bo = param_ids(e.booleans);
    let ve = param_ids(e.vectors);
    let t = tex_ids(e.textures);
    let sa = param_ids(e.samplers);
    let ra = param_ids(e.rasterizer_states);
    lemma_count_key_map(
        e.blend_states,
        param_key::<BlendStateData>(),
        id_key(),
        |p: BlendStateParam| p.param_id,
        k,
    );
    lemma_count_key_map(e.floats, param_key::<u32>(), id_key(), |p: FloatParam| p.param_id, k);
    lemma_count_key_map(e.booleans, param_key::<bool>(), id_key(), |p: BooleanParam| p.param_id, k);
    lemma_count_key_map(
        e.vectors,
        param_key::<Vector4>(),
        id_key(),
        |p: Vector4Param| p.param_id,
        k,
    );
    lemma_count_key_map(
        e.rasterizer_states,
        param_key::<RasterizerStateData>(),
        id_key(),
        |p: RasterizerStateParam| p.param_id,
        k,
    );
    lemma_count_key_map(
        e.samplers,
        param_key::<SamplerData>(),
        id_key(),
        |p: SamplerParam| p.param_id,
        k,
    );
    lemma_count_key_map(e.textures, tex_key(), id_key(), |t: TexView| t.param_id, k);
    lemma_count_key_add(b, f, k, id_key());
    lemma_count_key_add(b + f, bo, k, id_key());
    lemma_count_key_add(b + f + bo, ve, k, id_key());
    lemma_count_key_add(b + f + bo + ve, t, k, id_key());
    lemma_count_key_add(b + f + bo + ve + t, sa, k, id_key());
    lemma_count_key_add(b + f + bo + ve + t + sa, ra, k, id_key());
}

/// Removing every unused parameter leaves nothing unused, for every
/// entry and every shader: the diagnose-then-prune cycle converges in
/// one step.
pub proof fn lemma_unused_after_remove_empty(e: EntryView, shader_ids: Seq<ParamId>)
    ensures
        unused_spec(remove_spec(e, unused_spec(e, shader_ids)), shader_ids) == Seq::<
            ParamId,
        >::empty(),
{
    let pred = |id: ParamId| !shader_ids.contains(id);
    let u = unused_spec(e, shader_ids);
    let w = remove_all(e, u);
    let c = canonicalize(w);
    lemma_sort_keyed_ensures(w.blend_states, param_key::<BlendStateData>());
    lemma_sort_keyed_ensures(w.floats, param_key::<u32>());
    lemma_sort_keyed_ensures(w.booleans, param_key::<bool>());
    lemma_sort_keyed_ensures(w.vectors, param_key::<Vector4>());
    lemma_sort_keyed_ensures(w.rasterizer_states, param_key::<RasterizerStateData>());
    lemma_sort_keyed_ensures(w.samplers, param_key::<SamplerData>());
    lemma_sort_keyed_ensures(w.textures, tex_key());
    assert forall|i: int| 0 <= i < all_param_ids(c).len() implies !pred(
        #[trigger] all_param_ids(c)[i],
    ) by {
        let id = all_param_ids(c)[i];
        if !shader_ids.contains(id) {
            // Every stored occurrence of this key was listed as unused,
            // so every one of them was removed.
            assert(forall|n: int|
                0 <= n < all_param_ids(e).len() && id_key()(#[trigger] all_param_ids(e)[n])
                    == id.value ==> pred(all_param_ids(e)[n])) by {
                assert forall|n: int|
                    0 <= n < all_param_ids(e).len() && id_key()(
                        #[trigger] all_param_ids(e)[n],
                    ) == id.value implies pred(all_param_ids(e)[n]) by {
                    assert(all_param_ids(e)[n] == id);
                }
            }
            lemma_count_key_filter(all_param_ids(e), pred, id.value, id_key());
            lemma_all_param_ids_count(e, id.value);
            lemma_remove_all_count_zero(e, u, id.value);
            lemma_entry_count_zero(w, id.value);
            // Yet the identifier sits in some family of the re-sorted
            // entry, whose keys the sort preserved.
            let b = param_ids(c.blend_states);
            let f = param_ids(c.floats);
            let bo = param_ids(c.booleans);
            let ve = param_ids(c.vectors);
            let t = tex_ids(c.textures);
            let sa = param_ids(c.samplers);
            let ra = param_ids(c.rasterizer_states);
            assert(all_param_ids(c) == b + f + bo + ve + t + sa + ra);
            if i < b.len() {
                assert(has_key(c.blend_states, id.value, param_key::<BlendStateData>())) by {
                    assert(c.blend_states[i].param_id == id);
                }
            } else if i < b.len() + f.len() {
                let m = i - b.len();
                assert(has_key(c.floats, id.value, param_key::<u32>())) by {
                    assert(c.floats[m].param_id == id);
                }
            } else if i < b.len() + f.len() + bo.len() {
                let m = i - b.len() - f.len();
                assert(has_key(c.booleans, id.value, param_key::<bool>())) by {
                    assert(c.booleans[m].param_id == id);
                }
            } else if i < b.len() + f.len() + bo.len() + ve.len() {
                let m = i - b.len() - f.len() - bo.len();
                assert(has_key(c.vectors, id.value, param_key::<Vector4>())) by {
                    assert(c.vectors[m].param_id == id);
                }
            } else if i < b.len() + f.len() + bo.len() + ve.len() + t.len() {
                let m = i - b.len() - f.len() - bo.len() - ve.len();
                assert(has_key(c.textures, id.value, tex_key())) by {
                    assert(c.textures[m].param_id == id);
                }
            } else if i < b.len() + f.len() + bo.len() + ve.len() + t.len() + sa.len() {
                let m = i - b.len() - f.len() - bo.len() - ve.len() - t.len();
                assert(has_key(c.samplers, id.value, param_key::<SamplerData>())) by {
                    assert(c.samplers[m].param_id == id);
                }
            } else {
                let m = i - b.len() - f.len() - bo.len() - ve.len() - t.len() - sa.len();
                assert(has_key(c.rasterizer_states, id.value, param_key::<RasterizerStateData>()))
                    by {
                    assert(c.rasterizer_states[m].param_id == id);
                }
            }
            assert(entry_has_key(w, id.value));
            assert(false);
        }
    }
    assert(all_param_ids(c).all(|id: ParamId| !pred(id))) by {
        assert forall|i: int| 0 <= i < all_param_ids(c).len() implies !pred(
            all_param_ids(c)[i],
        ) by {}
    }
    all_param_ids(c).lemma_all_neg_filter_empty(pred);
    assert(unused_spec(c, shader_ids) =~= Seq::<ParamId>::empty());
}


/// The canonical new material satisfies the entry invariant: no family
/// names a slot twice.
pub proof fn lemma_default_material_wf()
    ensures
        wf(default_material_spec()),
{
}

} // verus!
