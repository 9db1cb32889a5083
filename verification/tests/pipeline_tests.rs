use cavegen::cache::FrameCacheDyn;
use cavegen::camera::{camera_intent, CameraIntent, CameraKeys};
use cavegen::passes::{
    bind_group_selection, compute_graph, default_shader_configs, node_dispatches, workgroup_count,
    ComputeNode, PassBindGroup, ShaderConfig, BUFFER_LEN,
};
use cavegen::readback::{latest, note_uniforms, recreate, ReadbackState};
use cavegen::resources::ParamsChanged;
use cavegen::texture::{
    grid_buffer_bytes, gradient_texture_data, readback_bytes, readback_cells, split_words,
    texture_bytes_per_row,
};

fn configs(iterations: &[u32]) -> Vec<ShaderConfig> {
    iterations
        .iter()
        .map(|&i| ShaderConfig { shader_path: "shader.wgsl", iterations: i })
        .collect()
}

#[test]
fn selection_alternates_over_all_passes() {
    let configs = default_shader_configs();
    let sel = bind_group_selection(configs.len(), &configs);
    let mut pass = 0u32;
    for (node, config) in configs.iter().enumerate() {
        for it in 0..config.iterations as usize {
            assert_eq!(sel.group_of(node as u32, it), Some(pass % 2));
            pass += 1;
        }
        assert_eq!(sel.group_of(node as u32, config.iterations as usize), None);
    }
    assert_eq!(pass, 24);
    assert_eq!(sel.final_pass, 0);
    assert_eq!(sel.group_of(5, 0), None);
}

#[test]
fn selection_with_odd_total_ends_on_group_one() {
    let configs = configs(&[2, 3, 0]);
    let sel = bind_group_selection(3, &configs);
    assert_eq!(sel.group_of(0, 0), Some(0));
    assert_eq!(sel.group_of(0, 1), Some(1));
    assert_eq!(sel.group_of(1, 0), Some(0));
    assert_eq!(sel.group_of(1, 2), Some(0));
    assert_eq!(sel.group_of(2, 0), None);
    assert_eq!(sel.final_pass, 1);
}

#[test]
fn selection_of_fewer_pipelines_than_configs() {
    let configs = configs(&[1, 1, 1]);
    let sel = bind_group_selection(1, &configs);
    assert_eq!(sel.group_of(0, 0), Some(0));
    assert_eq!(sel.group_of(1, 0), None);
    assert_eq!(sel.final_pass, 1);
}

#[test]
fn dispatches_of_compute_and_final_nodes() {
    let configs = configs(&[2, 3]);
    let sel = bind_group_selection(2, &configs);
    let node = ComputeNode { pipeline_index: 1, is_final: false };
    assert_eq!(
        node_dispatches(&node, &configs, &sel, 2),
        Some(vec![PassBindGroup::Compute(0), PassBindGroup::Compute(1), PassBindGroup::Compute(0)])
    );
    let last = ComputeNode { pipeline_index: 0, is_final: true };
    assert_eq!(node_dispatches(&last, &configs, &sel, 2), Some(vec![PassBindGroup::FinalB]));
    let missing = ComputeNode { pipeline_index: 2, is_final: false };
    assert_eq!(node_dispatches(&missing, &configs, &sel, 2), None);
    let first = ComputeNode { pipeline_index: 0, is_final: false };
    assert_eq!(node_dispatches(&first, &configs, &sel, 1), None);
}

#[test]
fn dispatches_without_iterations_need_no_selection() {
    let configs = configs(&[0]);
    let sel = bind_group_selection(0, &configs);
    let node = ComputeNode::default();
    assert_eq!(node.pipeline_index, 0);
    assert!(!node.is_final);
    assert_eq!(node_dispatches(&node, &configs, &sel, 2), Some(vec![]));
    assert_eq!(sel.final_pass, 0);
}

#[test]
fn workgroups_cover_the_grid() {
    assert_eq!(workgroup_count(BUFFER_LEN), 128);
    assert_eq!(workgroup_count(0), 0);
    assert_eq!(workgroup_count(1), 1);
    assert_eq!(workgroup_count(17), 2);
    assert_eq!(workgroup_count(32), 2);
}

#[test]
fn graph_is_a_chain_ending_in_the_final_pass() {
    let (nodes, edges) = compute_graph(5);
    assert_eq!(nodes.len(), 6);
    for (i, n) in nodes.iter().take(5).enumerate() {
        assert_eq!(n.pipeline_index, i);
        assert!(!n.is_final);
    }
    assert_eq!(nodes[5].pipeline_index, 0);
    assert!(nodes[5].is_final);
    assert_eq!(edges, vec![(0, 1), (1, 2), (2, 3), (3, 4), (4, 5)]);
    let (nodes, edges) = compute_graph(0);
    assert_eq!(nodes.len(), 1);
    assert!(edges.is_empty());
}

#[test]
fn default_configs_list_the_cave_shaders() {
    let configs = default_shader_configs();
    let iterations: Vec<u32> = configs.iter().map(|c| c.iterations).collect();
    assert_eq!(iterations, vec![1, 5, 1, 16, 1]);
    assert_eq!(configs[3].shader_path, "shaders/ca.wgsl");
    let copy = configs[1].clone();
    assert_eq!(copy.shader_path, "shaders/domain_warp.wgsl");
    assert_eq!(copy.iterations, 5);
}

#[test]
fn cache_computes_once_and_then_hits() {
    let mut cache: FrameCacheDyn<String, 1> = FrameCacheDyn::new();
    let mut calls = 0;
    let a = cache.get_or_else_insert("checkers", || {
        calls += 1;
        "texture".to_string()
    });
    assert_eq!(a, "texture");
    let b = cache.get_or_else_insert("checkers", || "other".to_string());
    assert_eq!(b, "texture");
    assert_eq!(calls, 1);
    assert_eq!(cache.len(), 1);
    let h = cache.get_or_else_insert_hashed(7, || "seven".to_string());
    assert_eq!(h, "seven");
    assert_eq!(cache.get_or_else_insert_hashed(7, || "eight".to_string()), "seven");
    assert_eq!(cache.len(), 2);
}

#[test]
fn cache_evicts_entries_older_than_ttl() {
    let mut cache: FrameCacheDyn<u32, 1> = FrameCacheDyn::new();
    assert_eq!(cache.generation(), 0);
    cache.get_or_else_insert_hashed(1, || 10);
    cache.evict_cache();
    assert_eq!(cache.generation(), 1);
    cache.get_or_else_insert_hashed(2, || 20);
    cache.evict_cache();
    // entry 1 was used at generation 0, one generation before: still kept.
    assert_eq!(cache.len(), 2);
    cache.evict_cache();
    // at generation 2, entry 1 is two generations old: dropped.
    assert_eq!(cache.len(), 1);
    assert_eq!(cache.get_or_else_insert_hashed(2, || 99), 20);
    assert_eq!(cache.get_or_else_insert_hashed(1, || 11), 11);
    cache.evict_cache();
    cache.evict_cache();
    cache.evict_cache();
    assert_eq!(cache.len(), 0);
    assert_eq!(cache.generation(), 6);
}

#[test]
fn cache_with_zero_ttl_keeps_only_this_frame() {
    let mut cache: FrameCacheDyn<u8, 0> = FrameCacheDyn::new();
    cache.get_or_else_insert_hashed(5, || 1);
    cache.evict_cache();
    assert_eq!(cache.len(), 1);
    cache.evict_cache();
    assert_eq!(cache.len(), 0);
}

#[test]
fn texture_rows_repeat_the_gradient() {
    let colors = vec![(1, 2, 3), (4, 5, 6)];
    let data = gradient_texture_data(&colors, 9, 3);
    let row = vec![1, 2, 3, 9, 4, 5, 6, 9];
    assert_eq!(data.len(), 24);
    for r in 0..3 {
        assert_eq!(&data[r * 8..(r + 1) * 8], &row[..]);
    }
    assert!(gradient_texture_data(&colors, 9, 0).is_empty());
    let floats = gradient_texture_data(&vec![(0.25f32, 0.5f32, 0.75f32)], 1.0f32, 2);
    assert_eq!(floats, vec![0.25, 0.5, 0.75, 1.0, 0.25, 0.5, 0.75, 1.0]);
}

#[test]
fn texture_and_buffer_sizes() {
    assert_eq!(texture_bytes_per_row(256), 256 * 4 * 4);
    assert_eq!(grid_buffer_bytes(), 2 * 4 * 8 * 2048 * 2048);
    assert_eq!(readback_cells(360), 129600);
    assert_eq!(readback_bytes(360), 518400);
    assert_eq!(readback_cells(0), 0);
}

#[test]
fn readback_words_are_four_bytes_each() {
    let values = [1.5f32, -2.0, 0.0];
    let bytes: Vec<u8> = values.iter().flat_map(|v| v.to_ne_bytes()).collect();
    let words = split_words(&bytes);
    let back: Vec<f32> = words.iter().map(|w| f32::from_ne_bytes(*w)).collect();
    assert_eq!(back, values.to_vec());
    assert!(split_words(&Vec::new()).is_empty());
}

#[test]
fn readback_rebuilds_when_the_size_changes() {
    let state = ReadbackState { needs_recreation: false, current_size: 16 };
    let same = note_uniforms(state, false, 16);
    assert_eq!(same, state);
    assert_eq!(recreate(same, 16), (state, None));
    let grown = note_uniforms(state, false, 32);
    assert!(grown.needs_recreation);
    assert_eq!(grown.current_size, 16);
    let (after, cells) = recreate(grown, 32);
    assert_eq!(after, ReadbackState { needs_recreation: false, current_size: 32 });
    assert_eq!(cells, Some(1024));
    let touched = note_uniforms(after, true, 32);
    assert!(touched.needs_recreation);
}

#[test]
fn latest_event_wins() {
    assert_eq!(latest(3u32, &vec![]), 3);
    assert_eq!(latest(3u32, &vec![5, 7]), 7);
    assert_eq!(latest((1u32, 0.5f32), &vec![(2, 0.25)]), (2, 0.25));
}

#[test]
fn camera_keys_give_directions() {
    let none = CameraKeys {
        up: false,
        down: false,
        left: false,
        right: false,
        zoom_in: false,
        zoom_out: false,
    };
    assert_eq!(camera_intent(&none), CameraIntent { dx: 0, dy: 0, zoom: 0 });
    let diagonal = CameraKeys { up: true, left: true, zoom_out: true, ..none };
    assert_eq!(camera_intent(&diagonal), CameraIntent { dx: -1, dy: 1, zoom: -1 });
    let both = CameraKeys { up: true, down: true, right: true, zoom_in: true, ..none };
    assert_eq!(camera_intent(&both), CameraIntent { dx: 1, dy: 0, zoom: 1 });
}

#[test]
fn params_start_out_changed() {
    assert!(ParamsChanged::default().0);
}

#[test]
fn default_cache_is_empty() {
    let cache: FrameCacheDyn<u8, 3> = Default::default();
    assert_eq!(cache.len(), 0);
    assert_eq!(cache.generation(), 0);
}

#[test]
fn cache_keeps_distinct_keys_apart() {
    let mut cache: FrameCacheDyn<u32, 1> = FrameCacheDyn::new();
    assert_eq!(cache.get_or_else_insert("one", || 1), 1);
    assert_eq!(cache.get_or_else_insert("two", || 2), 2);
    assert_eq!(cache.get_or_else_insert(3u64, || 3), 3);
    assert_eq!(cache.len(), 3);
    assert_eq!(cache.get_or_else_insert("one", || 100), 1);
    assert_eq!(cache.get_or_else_insert("two", || 200), 2);
}

#[test]
fn cache_hits_up_to_ttl_plus_one_evictions() {
    for m in 0..6u32 {
        let mut cache: FrameCacheDyn<u32, 2> = FrameCacheDyn::new();
        assert_eq!(cache.get_or_else_insert_hashed(7, || 70), 70);
        assert_eq!(cache.len(), 1);
        for _ in 0..m {
            cache.evict_cache();
        }
        let second = cache.get_or_else_insert_hashed(7, || 71);
        if m <= 3 {
            assert_eq!(second, 70, "after {} evictions", m);
        } else {
            assert_eq!(second, 71, "after {} evictions", m);
        }
        assert_eq!(cache.len(), 1);
    }
}

#[test]
fn cache_miss_adds_one_entry_and_eviction_never_grows() {
    let mut cache: FrameCacheDyn<u32, 0> = FrameCacheDyn::new();
    cache.get_or_else_insert_hashed(1, || 1);
    cache.get_or_else_insert_hashed(2, || 2);
    assert_eq!(cache.len(), 2);
    cache.get_or_else_insert_hashed(2, || 3);
    assert_eq!(cache.len(), 2);
    cache.evict_cache();
    assert_eq!(cache.len(), 2);
    cache.get_or_else_insert_hashed(1, || 4);
    cache.evict_cache();
    assert_eq!(cache.len(), 1);
}
