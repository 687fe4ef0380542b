use ssbh_material::material::{
    add_parameters, apply_preset, default_material, missing_parameters, remove_parameters,
    unused_parameters, MaterialEntry, ShaderDescriptor,
};
use ssbh_material::param_id::{
    default_texture, family_of, is_blend, is_bool, is_float, is_rasterizer, is_sampler,
    is_texture, is_vector, Family, ParamId, BLEND_STATE0, CUSTOM_BOOLEAN0, CUSTOM_BOOLEAN1,
    CUSTOM_BOOLEAN3, CUSTOM_BOOLEAN4, CUSTOM_FLOAT0, CUSTOM_FLOAT8, CUSTOM_VECTOR0,
    CUSTOM_VECTOR13, CUSTOM_VECTOR14, CUSTOM_VECTOR8, RASTERIZER_STATE0, SAMPLER0, SAMPLER1,
    SAMPLER4, SAMPLER6, SAMPLER7, TEXTURE0, TEXTURE1, TEXTURE2, TEXTURE4, TEXTURE5, TEXTURE6,
    TEXTURE7, TEXTURE8, TEXTURE9, TEXTURE14, TEXTURE19,
};
use ssbh_material::params::{
    BlendStateData, BlendStateParam, BooleanParam, FloatParam, Param, RasterizerStateData,
    RasterizerStateParam, SamplerData, SamplerParam, TextureParam, Vector4, Vector4Param,
    F32_ONE_BITS, F32_ZERO_POINT_FOUR_BITS,
};

fn pid(value: u64) -> ParamId {
    ParamId { value }
}

fn empty_entry(material_label: &str, shader_label: &str) -> MaterialEntry {
    MaterialEntry {
        material_label: material_label.to_string(),
        shader_label: shader_label.to_string(),
        blend_states: Vec::new(),
        floats: Vec::new(),
        booleans: Vec::new(),
        vectors: Vec::new(),
        rasterizer_states: Vec::new(),
        samplers: Vec::new(),
        textures: Vec::new(),
    }
}

#[test]
fn add_parameters_all_missing() {
    let mut entry = empty_entry("", "");

    let required_parameters = missing_parameters(
        &entry,
        &ShaderDescriptor {
            material_parameters: vec![
                pid(BLEND_STATE0),
                pid(CUSTOM_FLOAT0),
                pid(CUSTOM_BOOLEAN0),
                pid(CUSTOM_VECTOR0),
                pid(RASTERIZER_STATE0),
                pid(SAMPLER0),
                pid(TEXTURE0),
            ],
        },
    );
    add_parameters(&mut entry, &required_parameters);

    assert_eq!(
        MaterialEntry {
            material_label: String::new(),
            shader_label: String::new(),
            blend_states: vec![BlendStateParam {
                param_id: pid(BLEND_STATE0),
                data: Default::default(),
            }],
            floats: vec![FloatParam {
                param_id: pid(CUSTOM_FLOAT0),
                data: Default::default(),
            }],
            booleans: vec![BooleanParam {
                param_id: pid(CUSTOM_BOOLEAN0),
                data: Default::default(),
            }],
            vectors: vec![Vector4Param {
                param_id: pid(CUSTOM_VECTOR0),
                data: Default::default(),
            }],
            rasterizer_states: vec![RasterizerStateParam {
                param_id: pid(RASTERIZER_STATE0),
                data: Default::default(),
            }],
            samplers: vec![SamplerParam {
                param_id: pid(SAMPLER0),
                data: Default::default(),
            }],
            textures: vec![TextureParam {
                param_id: pid(TEXTURE0),
                data: "/common/shader/sfxpbs/default_white".to_string(),
            }],
        },
        entry
    );
}

#[test]
fn remove_parameters_all_unused() {
    let mut entry = MaterialEntry {
        material_label: String::new(),
        shader_label: String::new(),
        blend_states: vec![BlendStateParam {
            param_id: pid(BLEND_STATE0),
            data: Default::default(),
        }],
        floats: vec![FloatParam {
            param_id: pid(CUSTOM_FLOAT0),
            data: Default::default(),
        }],
        booleans: vec![BooleanParam {
            param_id: pid(CUSTOM_BOOLEAN0),
            data: Default::default(),
        }],
        vectors: vec![Vector4Param {
            param_id: pid(CUSTOM_VECTOR0),
            data: Default::default(),
        }],
        rasterizer_states: vec![RasterizerStateParam {
            param_id: pid(RASTERIZER_STATE0),
            data: Default::default(),
        }],
        samplers: vec![SamplerParam {
            param_id: pid(SAMPLER0),
            data: Default::default(),
        }],
        textures: vec![TextureParam {
            param_id: pid(TEXTURE0),
            data: String::new(),
        }],
    };

    let unused_parameters = unused_parameters(
        &entry,
        &ShaderDescriptor {
            material_parameters: Vec::new(),
        },
    );
    remove_parameters(&mut entry, &unused_parameters);

    assert!(entry.blend_states.is_empty());
    assert!(entry.floats.is_empty());
    assert!(entry.booleans.is_empty());
    assert!(entry.vectors.is_empty());
    assert!(entry.rasterizer_states.is_empty());
    assert!(entry.samplers.is_empty());
    assert!(entry.textures.is_empty());
}

#[test]
fn apply_preset_empty_material() {
    let mut entry = empty_entry("material", "123");
    entry.textures = vec![TextureParam {
        param_id: pid(TEXTURE0),
        data: "a".to_string(),
    }];

    let preset = MaterialEntry {
        material_label: "preset".to_string(),
        shader_label: "456".to_string(),
        blend_states: vec![BlendStateParam {
            param_id: pid(BLEND_STATE0),
            data: Default::default(),
        }],
        floats: vec![FloatParam {
            param_id: pid(CUSTOM_FLOAT0),
            data: Default::default(),
        }],
        booleans: vec![BooleanParam {
            param_id: pid(CUSTOM_BOOLEAN0),
            data: Default::default(),
        }],
        vectors: vec![Vector4Param {
            param_id: pid(CUSTOM_VECTOR0),
            data: Default::default(),
        }],
        rasterizer_states: vec![RasterizerStateParam {
            param_id: pid(RASTERIZER_STATE0),
            data: Default::default(),
        }],
        samplers: vec![
            SamplerParam {
                param_id: pid(SAMPLER0),
                data: Default::default(),
            },
            SamplerParam {
                param_id: pid(SAMPLER1),
                data: Default::default(),
            },
        ],
        textures: vec![
            TextureParam {
                param_id: pid(TEXTURE0),
                data: "d".to_string(),
            },
            TextureParam {
                param_id: pid(TEXTURE1),
                data: "c".to_string(),
            },
        ],
    };

    entry = apply_preset(&entry, &preset);

    assert_eq!(
        MaterialEntry {
            material_label: "material".to_string(),
            shader_label: "456".to_string(),
            blend_states: vec![BlendStateParam {
                param_id: pid(BLEND_STATE0),
                data: Default::default(),
            }],
            floats: vec![FloatParam {
                param_id: pid(CUSTOM_FLOAT0),
                data: Default::default(),
            }],
            booleans: vec![BooleanParam {
                param_id: pid(CUSTOM_BOOLEAN0),
                data: Default::default(),
            }],
            vectors: vec![Vector4Param {
                param_id: pid(CUSTOM_VECTOR0),
                data: Default::default(),
            }],
            rasterizer_states: vec![RasterizerStateParam {
                param_id: pid(RASTERIZER_STATE0),
                data: Default::default(),
            }],
            samplers: vec![
                SamplerParam {
                    param_id: pid(SAMPLER0),
                    data: Default::default(),
                },
                SamplerParam {
                    param_id: pid(SAMPLER1),
                    data: Default::default(),
                }
            ],
            textures: vec![
                TextureParam {
                    param_id: pid(TEXTURE0),
                    data: "a".to_string(),
                },
                TextureParam {
                    param_id: pid(TEXTURE1),
                    data: "/common/shader/sfxpbs/default_white".to_string(),
                }
            ],
        },
        entry
    );
}

#[test]
fn classifier_is_a_partition() {
    // Every identifier value satisfies at most one family predicate, and
    // family_of agrees with the predicate that holds.
    for value in 0..=400u64 {
        let id = pid(value);
        let mut families = 0;
        if is_blend(id) {
            families += 1;
            assert_eq!(family_of(id), Some(Family::Blend));
        }
        if is_float(id) {
            families += 1;
            assert_eq!(family_of(id), Some(Family::Float));
        }
        if is_bool(id) {
            families += 1;
            assert_eq!(family_of(id), Some(Family::Boolean));
        }
        if is_vector(id) {
            families += 1;
            assert_eq!(family_of(id), Some(Family::Vector));
        }
        if is_rasterizer(id) {
            families += 1;
            assert_eq!(family_of(id), Some(Family::Rasterizer));
        }
        if is_sampler(id) {
            families += 1;
            assert_eq!(family_of(id), Some(Family::Sampler));
        }
        if is_texture(id) {
            families += 1;
            assert_eq!(family_of(id), Some(Family::Texture));
        }
        assert!(families <= 1, "value {value} is in {families} families");
        if families == 0 {
            assert_eq!(family_of(id), None);
        }
    }
}

#[test]
fn classifier_family_examples() {
    assert_eq!(family_of(pid(BLEND_STATE0)), Some(Family::Blend));
    assert_eq!(family_of(pid(290)), Some(Family::Blend));
    assert_eq!(family_of(pid(RASTERIZER_STATE0)), Some(Family::Rasterizer));
    assert_eq!(family_of(pid(301)), Some(Family::Rasterizer));
    assert_eq!(family_of(pid(CUSTOM_FLOAT0)), Some(Family::Float));
    assert_eq!(family_of(pid(211)), Some(Family::Float));
    assert_eq!(family_of(pid(CUSTOM_BOOLEAN0)), Some(Family::Boolean));
    assert_eq!(family_of(pid(251)), Some(Family::Boolean));
    assert_eq!(family_of(pid(CUSTOM_VECTOR0)), Some(Family::Vector));
    assert_eq!(family_of(pid(171)), Some(Family::Vector));
    assert_eq!(family_of(pid(315)), Some(Family::Vector));
    assert_eq!(family_of(pid(358)), Some(Family::Vector));
    assert_eq!(family_of(pid(SAMPLER0)), Some(Family::Sampler));
    assert_eq!(family_of(pid(123)), Some(Family::Sampler));
    assert_eq!(family_of(pid(311)), Some(Family::Sampler));
    assert_eq!(family_of(pid(TEXTURE0)), Some(Family::Texture));
    assert_eq!(family_of(pid(107)), Some(Family::Texture));
    assert_eq!(family_of(pid(TEXTURE19)), Some(Family::Texture));
    // Identifiers outside every family: the old fixed-function values,
    // custom colors, integers, UV transforms, and values past the end.
    assert_eq!(family_of(pid(0)), None);
    assert_eq!(family_of(pid(91)), None);
    assert_eq!(family_of(pid(151)), None);
    assert_eq!(family_of(pid(172)), None);
    assert_eq!(family_of(pid(212)), None);
    assert_eq!(family_of(pid(252)), None);
    assert_eq!(family_of(pid(302)), None);
    assert_eq!(family_of(pid(359)), None);
    assert_eq!(family_of(pid(1000)), None);
}

#[test]
fn default_texture_table() {
    let white = "/common/shader/sfxpbs/default_white";
    let black = "/common/shader/sfxpbs/default_black";
    let cube = "#replace_cubemap";
    assert_eq!(default_texture(pid(TEXTURE0)), white);
    assert_eq!(default_texture(pid(TEXTURE1)), white);
    assert_eq!(default_texture(pid(TEXTURE2)), cube);
    assert_eq!(
        default_texture(pid(TEXTURE4)),
        "/common/shader/sfxpbs/fighter/default_normal"
    );
    assert_eq!(default_texture(pid(TEXTURE5)), black);
    assert_eq!(
        default_texture(pid(TEXTURE6)),
        "/common/shader/sfxpbs/fighter/default_params"
    );
    assert_eq!(default_texture(pid(TEXTURE7)), cube);
    assert_eq!(default_texture(pid(TEXTURE8)), cube);
    assert_eq!(default_texture(pid(TEXTURE9)), black);
    assert_eq!(default_texture(pid(TEXTURE14)), black);
    for value in [102, 103, 104, 105, 107, 307, 308, 309, 310] {
        assert_eq!(default_texture(pid(value)), white);
    }
    // Any identifier without a table entry falls back to opaque white.
    assert_eq!(default_texture(pid(0)), white);
}

#[test]
fn add_empty_list_sorts_collections() {
    let mut entry = empty_entry("m", "s");
    entry.vectors = vec![
        Vector4Param {
            param_id: pid(CUSTOM_VECTOR14),
            data: Default::default(),
        },
        Vector4Param {
            param_id: pid(CUSTOM_VECTOR0),
            data: Default::default(),
        },
        Vector4Param {
            param_id: pid(CUSTOM_VECTOR8),
            data: Default::default(),
        },
    ];
    add_parameters(&mut entry, &[]);
    let ids: Vec<u64> = entry.vectors.iter().map(|p| p.param_id.value).collect();
    assert_eq!(ids, vec![CUSTOM_VECTOR0, CUSTOM_VECTOR8, CUSTOM_VECTOR14]);
    assert_eq!(entry.material_label, "m");
    assert_eq!(entry.shader_label, "s");
}

#[test]
fn add_and_remove_leave_collections_sorted() {
    let mut entry = empty_entry("m", "s");
    add_parameters(
        &mut entry,
        &[
            pid(CUSTOM_BOOLEAN4),
            pid(CUSTOM_BOOLEAN0),
            pid(TEXTURE7),
            pid(TEXTURE0),
            pid(CUSTOM_BOOLEAN1),
        ],
    );
    let bool_ids: Vec<u64> = entry.booleans.iter().map(|p| p.param_id.value).collect();
    assert_eq!(bool_ids, vec![CUSTOM_BOOLEAN0, CUSTOM_BOOLEAN1, CUSTOM_BOOLEAN4]);
    let tex_ids: Vec<u64> = entry.textures.iter().map(|p| p.param_id.value).collect();
    assert_eq!(tex_ids, vec![TEXTURE0, TEXTURE7]);

    remove_parameters(&mut entry, &[pid(CUSTOM_BOOLEAN1)]);
    let bool_ids: Vec<u64> = entry.booleans.iter().map(|p| p.param_id.value).collect();
    assert_eq!(bool_ids, vec![CUSTOM_BOOLEAN0, CUSTOM_BOOLEAN4]);
}

#[test]
fn add_skips_unclassified_ids() {
    let mut entry = empty_entry("m", "s");
    // The old fixed-function identifier 0 belongs to no family and is
    // silently skipped.
    add_parameters(&mut entry, &[pid(0), pid(CUSTOM_FLOAT0)]);
    assert_eq!(entry.floats.len(), 1);
    assert!(entry.blend_states.is_empty());
    assert!(entry.booleans.is_empty());
    assert!(entry.vectors.is_empty());
    assert!(entry.rasterizer_states.is_empty());
    assert!(entry.samplers.is_empty());
    assert!(entry.textures.is_empty());
}

#[test]
fn add_duplicate_id_appends_twice() {
    let mut entry = empty_entry("m", "s");
    add_parameters(&mut entry, &[pid(CUSTOM_FLOAT0), pid(CUSTOM_FLOAT0)]);
    assert_eq!(entry.floats.len(), 2);
    assert_eq!(entry.floats[0].param_id, pid(CUSTOM_FLOAT0));
    assert_eq!(entry.floats[1].param_id, pid(CUSTOM_FLOAT0));
}

#[test]
fn remove_absent_id_is_ignored() {
    let mut entry = empty_entry("m", "s");
    add_parameters(&mut entry, &[pid(CUSTOM_FLOAT0)]);
    remove_parameters(&mut entry, &[pid(CUSTOM_FLOAT8), pid(TEXTURE0)]);
    assert_eq!(entry.floats.len(), 1);
}

#[test]
fn missing_keeps_shader_order() {
    let mut entry = empty_entry("m", "s");
    add_parameters(&mut entry, &[pid(CUSTOM_FLOAT0)]);
    let shader = ShaderDescriptor {
        material_parameters: vec![
            pid(TEXTURE7),
            pid(CUSTOM_FLOAT0),
            pid(BLEND_STATE0),
            pid(SAMPLER0),
        ],
    };
    let missing = missing_parameters(&entry, &shader);
    assert_eq!(missing, vec![pid(TEXTURE7), pid(BLEND_STATE0), pid(SAMPLER0)]);
}

#[test]
fn unused_scans_families_in_fixed_order() {
    let mut entry = empty_entry("m", "s");
    add_parameters(
        &mut entry,
        &[
            pid(RASTERIZER_STATE0),
            pid(SAMPLER0),
            pid(TEXTURE0),
            pid(CUSTOM_VECTOR0),
            pid(CUSTOM_BOOLEAN0),
            pid(CUSTOM_FLOAT0),
            pid(BLEND_STATE0),
        ],
    );
    let shader = ShaderDescriptor {
        material_parameters: Vec::new(),
    };
    let unused = unused_parameters(&entry, &shader);
    // Families are scanned in the order blend, float, boolean, vector,
    // texture, sampler, rasterizer.
    assert_eq!(
        unused,
        vec![
            pid(BLEND_STATE0),
            pid(CUSTOM_FLOAT0),
            pid(CUSTOM_BOOLEAN0),
            pid(CUSTOM_VECTOR0),
            pid(TEXTURE0),
            pid(SAMPLER0),
            pid(RASTERIZER_STATE0),
        ]
    );
}

#[test]
fn missing_then_add_then_nothing_missing() {
    let mut entry = empty_entry("m", "s");
    add_parameters(&mut entry, &[pid(CUSTOM_FLOAT8), pid(TEXTURE4)]);
    let shader = ShaderDescriptor {
        material_parameters: vec![
            pid(BLEND_STATE0),
            pid(CUSTOM_FLOAT8),
            pid(CUSTOM_VECTOR13),
            pid(TEXTURE4),
            pid(SAMPLER4),
        ],
    };
    let missing = missing_parameters(&entry, &shader);
    assert_eq!(
        missing,
        vec![pid(BLEND_STATE0), pid(CUSTOM_VECTOR13), pid(SAMPLER4)]
    );
    add_parameters(&mut entry, &missing);
    assert!(missing_parameters(&entry, &shader).is_empty());
}

#[test]
fn unused_then_remove_then_nothing_unused() {
    let mut entry = empty_entry("m", "s");
    add_parameters(
        &mut entry,
        &[
            pid(BLEND_STATE0),
            pid(CUSTOM_FLOAT0),
            pid(CUSTOM_FLOAT8),
            pid(TEXTURE0),
            pid(TEXTURE4),
            pid(SAMPLER0),
        ],
    );
    let shader = ShaderDescriptor {
        material_parameters: vec![pid(CUSTOM_FLOAT8), pid(TEXTURE4)],
    };
    let unused = unused_parameters(&entry, &shader);
    assert_eq!(
        unused,
        vec![pid(BLEND_STATE0), pid(CUSTOM_FLOAT0), pid(TEXTURE0), pid(SAMPLER0)]
    );
    remove_parameters(&mut entry, &unused);
    assert!(unused_parameters(&entry, &shader).is_empty());
    assert_eq!(entry.floats.len(), 1);
    assert_eq!(entry.textures.len(), 1);
}

#[test]
fn default_material_golden() {
    let m = default_material();
    assert_eq!(m.material_label, "NEW_MATERIAL");
    assert_eq!(m.shader_label, "SFX_PBS_0100000008008269_opaque");

    assert_eq!(m.blend_states.len(), 1);
    assert_eq!(m.blend_states[0].param_id, pid(BLEND_STATE0));
    assert_eq!(m.blend_states[0].data, BlendStateData::default());

    assert_eq!(m.floats.len(), 1);
    assert_eq!(m.floats[0].param_id, pid(CUSTOM_FLOAT8));
    assert_eq!(m.floats[0].data, 0.4f32.to_bits());
    assert_eq!(f32::from_bits(m.floats[0].data), 0.4);

    let bool_ids: Vec<u64> = m.booleans.iter().map(|p| p.param_id.value).collect();
    assert_eq!(bool_ids, vec![CUSTOM_BOOLEAN1, CUSTOM_BOOLEAN3, CUSTOM_BOOLEAN4]);
    assert!(m.booleans.iter().all(|p| p.data));

    let vec_ids: Vec<u64> = m.vectors.iter().map(|p| p.param_id.value).collect();
    assert_eq!(
        vec_ids,
        vec![CUSTOM_VECTOR0, CUSTOM_VECTOR13, CUSTOM_VECTOR14, CUSTOM_VECTOR8]
    );
    // Vector 0 is fully transparent to support transparency workflows.
    assert_eq!(m.vectors[0].data, Vector4::default());
    let one = Vector4 {
        x: F32_ONE_BITS,
        y: F32_ONE_BITS,
        z: F32_ONE_BITS,
        w: F32_ONE_BITS,
    };
    assert_eq!(1.0f32.to_bits(), F32_ONE_BITS);
    assert_eq!(0.4f32.to_bits(), F32_ZERO_POINT_FOUR_BITS);
    assert_eq!(m.vectors[1].data, one);
    assert_eq!(m.vectors[2].data, one);
    assert_eq!(m.vectors[3].data, one);

    assert_eq!(m.rasterizer_states.len(), 1);
    assert_eq!(m.rasterizer_states[0].param_id, pid(RASTERIZER_STATE0));
    assert_eq!(m.rasterizer_states[0].data, RasterizerStateData::default());

    let sampler_ids: Vec<u64> = m.samplers.iter().map(|p| p.param_id.value).collect();
    assert_eq!(sampler_ids, vec![SAMPLER0, SAMPLER4, SAMPLER6, SAMPLER7]);
    assert!(m.samplers.iter().all(|p| p.data == SamplerData::default()));

    let texture_ids: Vec<u64> = m.textures.iter().map(|p| p.param_id.value).collect();
    assert_eq!(texture_ids, vec![TEXTURE0, TEXTURE4, TEXTURE6, TEXTURE7]);
    assert_eq!(m.textures[0].data, "/common/shader/sfxpbs/default_white");
    assert_eq!(m.textures[1].data, "/common/shader/sfxpbs/fighter/default_normal");
    assert_eq!(m.textures[2].data, "/common/shader/sfxpbs/fighter/default_params");
    assert_eq!(m.textures[3].data, "#replace_cubemap");
}

#[test]
fn apply_preset_takes_non_texture_fields_from_preset() {
    let mut entry = empty_entry("kept_label", "old_shader");
    add_parameters(&mut entry, &[pid(CUSTOM_BOOLEAN0), pid(TEXTURE2)]);
    entry.textures[0].data = "mesh/specific/cube".to_string();

    let mut preset = empty_entry("preset_label", "new_shader");
    add_parameters(&mut preset, &[pid(CUSTOM_FLOAT8), pid(TEXTURE2), pid(TEXTURE4)]);

    let result = apply_preset(&entry, &preset);
    assert_eq!(result.material_label, "kept_label");
    assert_eq!(result.shader_label, "new_shader");
    // The non-texture collections come from the preset verbatim.
    assert!(result.booleans.is_empty());
    assert_eq!(result.floats, preset.floats);
    // The entry's own texture path is preserved; the slot it lacks gets
    // the canonical default.
    assert_eq!(result.textures.len(), 2);
    assert_eq!(result.textures[0].param_id, pid(TEXTURE2));
    assert_eq!(result.textures[0].data, "mesh/specific/cube");
    assert_eq!(result.textures[1].param_id, pid(TEXTURE4));
    assert_eq!(
        result.textures[1].data,
        "/common/shader/sfxpbs/fighter/default_normal"
    );
}

#[test]
fn remove_searches_families_in_fixed_order() {
    // An identifier stored under another family's tag is still found:
    // the search visits blend, float, boolean, vector, rasterizer,
    // sampler, texture and removes the first occurrence it meets.
    let mut entry = empty_entry("m", "s");
    entry.booleans = vec![BooleanParam {
        param_id: pid(CUSTOM_FLOAT0),
        data: false,
    }];
    remove_parameters(&mut entry, &[pid(CUSTOM_FLOAT0)]);
    assert!(entry.booleans.is_empty());
}

#[test]
fn remove_takes_one_occurrence_per_listed_id() {
    // When the same identifier value sits in two collections, one listed
    // removal removes only the occurrence in the family searched first.
    let mut entry = empty_entry("m", "s");
    entry.blend_states = vec![BlendStateParam {
        param_id: pid(BLEND_STATE0),
        data: Default::default(),
    }];
    entry.floats = vec![FloatParam {
        param_id: pid(BLEND_STATE0),
        data: 0,
    }];
    remove_parameters(&mut entry, &[pid(BLEND_STATE0)]);
    assert!(entry.blend_states.is_empty());
    assert_eq!(entry.floats.len(), 1);
    remove_parameters(&mut entry, &[pid(BLEND_STATE0)]);
    assert!(entry.floats.is_empty());
}
