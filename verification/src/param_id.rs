//! Material parameter identifiers and their classification into families.
//!
//! A parameter slot is identified by the numeric value used by the matl
//! format. The identifiers are partitioned into disjoint families by
//! contiguous numeric ranges, so classification is a range test rather than
//! an enumeration of every identifier.

use vstd::prelude::*;

verus! {

/// The largest numeric value that names a defined material parameter.
pub const MAX_PARAM_ID: u64 = 365;

// Identifiers used by the default material, the default texture table and
// the canonical presets. The numeric values are the ones used by the matl
// format's parameter enumeration.
pub const BLEND_STATE0: u64 = 280;
pub const RASTERIZER_STATE0: u64 = 291;
pub const CUSTOM_FLOAT0: u64 = 192;
pub const CUSTOM_FLOAT8: u64 = 200;
pub const CUSTOM_BOOLEAN0: u64 = 232;
pub const CUSTOM_BOOLEAN1: u64 = 233;
pub const CUSTOM_BOOLEAN3: u64 = 235;
pub const CUSTOM_BOOLEAN4: u64 = 236;
pub const CUSTOM_VECTOR0: u64 = 152;
pub const CUSTOM_VECTOR8: u64 = 160;
pub const CUSTOM_VECTOR13: u64 = 165;
pub const CUSTOM_VECTOR14: u64 = 166;
pub const SAMPLER0: u64 = 108;
pub const SAMPLER1: u64 = 109;
pub const SAMPLER4: u64 = 112;
pub const SAMPLER6: u64 = 114;
pub const SAMPLER7: u64 = 115;
pub const TEXTURE0: u64 = 92;
pub const TEXTURE1: u64 = 93;
pub const TEXTURE2: u64 = 94;
pub const TEXTURE3: u64 = 95;
pub const TEXTURE4: u64 = 96;
pub const TEXTURE5: u64 = 97;
pub const TEXTURE6: u64 = 98;
pub const TEXTURE7: u64 = 99;
pub const TEXTURE8: u64 = 100;
pub const TEXTURE9: u64 = 101;
pub const TEXTURE10: u64 = 102;
pub const TEXTURE11: u64 = 103;
pub const TEXTURE12: u64 = 104;
pub const TEXTURE13: u64 = 105;
pub const TEXTURE14: u64 = 106;
pub const TEXTURE15: u64 = 107;
pub const TEXTURE16: u64 = 307;
pub const TEXTURE17: u64 = 308;
pub const TEXTURE18: u64 = 309;
pub const TEXTURE19: u64 = 310;

/// Identifies one material parameter slot by its numeric value in the matl
/// format's parameter enumeration.
#[derive(Debug, Clone, Copy, PartialEq, Eq, Structural)]
pub struct ParamId {
    pub value: u64,
}

/// The semantic family of a material parameter slot.
#[derive(Debug, Clone, Copy, PartialEq, Eq, Structural)]
pub enum Family {
    Blend,
    Float,
    Boolean,
    Vector,
    Rasterizer,
    Sampler,
    Texture,
}

/// `BlendState0` through `BlendState10`.
pub open spec fn is_blend_id(v: u64) -> bool {
    280 <= v <= 290
}

/// `CustomFloat0` through `CustomFloat19`.
pub open spec fn is_float_id(v: u64) -> bool {
    192 <= v <= 211
}

/// `CustomBoolean0` through `CustomBoolean19`.
pub open spec fn is_bool_id(v: u64) -> bool {
    232 <= v <= 251
}

/// `CustomVector0` through `CustomVector19`, then `CustomVector20` through
/// `CustomVector63`, which sit in a second contiguous block.
pub open spec fn is_vector_id(v: u64) -> bool {
    152 <= v <= 171 || 315 <= v <= 358
}

/// `RasterizerState0` through `RasterizerState10`.
pub open spec fn is_rasterizer_id(v: u64) -> bool {
    291 <= v <= 301
}

/// `Sampler0` through `Sampler15`, then `Sampler16` through `Sampler19`.
pub open spec fn is_sampler_id(v: u64) -> bool {
    108 <= v <= 123 || 311 <= v <= 314
}

/// `Texture0` through `Texture15`, then `Texture16` through `Texture19`.
pub open spec fn is_texture_id(v: u64) -> bool {
    92 <= v <= 107 || 307 <= v <= 310
}

/// Whether the numeric value `v` names a slot of family `f`.
pub open spec fn in_family(v: u64, f: Family) -> bool {
    match f {
        Family::Blend => is_blend_id(v),
        Family::Float => is_float_id(v),
        Family::Boolean => is_bool_id(v),
        Family::Vector => is_vector_id(v),
        Family::Rasterizer => is_rasterizer_id(v),
        Family::Sampler => is_sampler_id(v),
        Family::Texture => is_texture_id(v),
    }
}

/// The family of the slot named `v`, or `None` for an identifier that
/// belongs to no recognized family.
pub open spec fn family_of_spec(v: u64) -> Option<Family> {
    if is_blend_id(v) {
        Some(Family::Blend)
    } else if is_float_id(v) {
        Some(Family::Float)
    } else if is_bool_id(v) {
        Some(Family::Boolean)
    } else if is_vector_id(v) {
        Some(Family::Vector)
    } else if is_rasterizer_id(v) {
        Some(Family::Rasterizer)
    } else if is_sampler_id(v) {
        Some(Family::Sampler)
    } else if is_texture_id(v) {
        Some(Family::Texture)
    } else {
        None
    }
}

/// Classifies a parameter identifier into its family. Total: every
/// identifier yields exactly one answer, and `None` is returned only for
/// identifiers outside all seven family ranges.
pub fn family_of(id: ParamId) -> (r: Option<Family>)
    ensures
        r == family_of_spec(id.value),
{
    let v = id.value;
    if 280 <= v && v <= 290 {
        Some(Family::Blend)
    } else if 192 <= v && v <= 211 {
        Some(Family::Float)
    } else if 232 <= v && v <= 251 {
        Some(Family::Boolean)
    } else if (152 <= v && v <= 171) || (315 <= v && v <= 358) {
        Some(Family::Vector)
    } else if 291 <= v && v <= 301 {
        Some(Family::Rasterizer)
    } else if (108 <= v && v <= 123) || (311 <= v && v <= 314) {
        Some(Family::Sampler)
    } else if (92 <= v && v <= 107) || (307 <= v && v <= 310) {
        Some(Family::Texture)
    } else {
        None
    }
}

/// Whether `p` names a blend state slot.
pub fn is_blend(p: ParamId) -> (r: bool)
    ensures
        r == is_blend_id(p.value),
{
    matches!(family_of(p), Some(Family::Blend))
}

/// Whether `p` names a float slot.
pub fn is_float(p: ParamId) -> (r: bool)
    ensures
        r == is_float_id(p.value),
{
    matches!(family_of(p), Some(Family::Float))
}

/// Whether `p` names a boolean slot.
pub fn is_bool(p: ParamId) -> (r: bool)
    ensures
        r == is_bool_id(p.value),
{
    matches!(family_of(p), Some(Family::Boolean))
}

/// Whether `p` names a vector slot.
pub fn is_vector(p: ParamId) -> (r: bool)
    ensures
        r == is_vector_id(p.value),
{
    matches!(family_of(p), Some(Family::Vector))
}

/// Whether `p` names a rasterizer state slot.
pub fn is_rasterizer(p: ParamId) -> (r: bool)
    ensures
        r == is_rasterizer_id(p.value),
{
    matches!(family_of(p), Some(Family::Rasterizer))
}

/// Whether `p` names a sampler slot.
pub fn is_sampler(p: ParamId) -> (r: bool)
    ensures
        r == is_sampler_id(p.value),
{
    matches!(family_of(p), Some(Family::Sampler))
}

/// Whether `p` names a texture slot.
pub fn is_texture(p: ParamId) -> (r: bool)
    ensures
        r == is_texture_id(p.value),
{
    matches!(family_of(p), Some(Family::Texture))
}

/// The classifier is a partition: an identifier belongs to at most one
/// family, `family_of` answers `Some(f)` exactly for the identifiers of
/// family `f`, and `None` exactly for identifiers outside every family.
pub proof fn lemma_family_partition(v: u64)
    ensures
        forall|f1: Family, f2: Family| in_family(v, f1) && in_family(v, f2) ==> f1 == f2,
        forall|f: Family| family_of_spec(v) == Some(f) <==> in_family(v, f),
        family_of_spec(v) == None::<Family> <==> forall|f: Family| !in_family(v, f),
{
    assert forall|f1: Family, f2: Family| in_family(v, f1) && in_family(v, f2) implies f1 == f2 by {
        assert(in_family(v, f1) && in_family(v, f2) ==> f1 == f2);
    }
    assert forall|f: Family| family_of_spec(v) == Some(f) <==> in_family(v, f) by {
        assert(family_of_spec(v) == Some(f) <==> in_family(v, f));
    }
    if family_of_spec(v) == None::<Family> {
        assert forall|f: Family| !in_family(v, f) by {
            assert(!in_family(v, f));
        }
    }
    if forall|f: Family| !in_family(v, f) {
        assert(!in_family(v, Family::Blend));
        assert(!in_family(v, Family::Float));
        assert(!in_family(v, Family::Boolean));
        assert(!in_family(v, Family::Vector));
        assert(!in_family(v, Family::Rasterizer));
        assert(!in_family(v, Family::Sampler));
        assert(!in_family(v, Family::Texture));
    }
}

/// The path of the canonical default texture for the slot named `v`: the
/// texture closest to "no visual effect" for that slot. Identifiers without
/// an explicit table entry fall back to the default opaque white texture.
pub open spec fn default_texture_spec(v: u64) -> Seq<char> {
    if v == TEXTURE2 || v == TEXTURE7 || v == TEXTURE8 {
        "#replace_cubemap"@
    } else if v == TEXTURE4 {
        "/common/shader/sfxpbs/fighter/default_normal"@
    } else if v == TEXTURE6 {
        "/common/shader/sfxpbs/fighter/default_params"@
    } else if v == TEXTURE5 || v == TEXTURE9 || v == TEXTURE14 {
        "/common/shader/sfxpbs/default_black"@
    } else {
        "/common/shader/sfxpbs/default_white"@
    }
}

/// The canonical default texture path for the slot named by `p`.
pub fn default_texture(p: ParamId) -> (r: String)
    ensures
        r@ == default_texture_spec(p.value),
{
    let v = p.value;
    if v == TEXTURE2 || v == TEXTURE7 || v == TEXTURE8 {
        String::from_str("#replace_cubemap")
    } else if v == TEXTURE4 {
        String::from_str("/common/shader/sfxpbs/fighter/default_normal")
    } else if v == TEXTURE6 {
        String::from_str("/common/shader/sfxpbs/fighter/default_params")
    } else if v == TEXTURE5 || v == TEXTURE9 || v == TEXTURE14 {
        String::from_str("/common/shader/sfxpbs/default_black")
    } else {
        String::from_str("/common/shader/sfxpbs/default_white")
    }
}

} // verus!
