use std::mem;

use chemengine::physics::{BodyType, GpuPhysics};
use chemengine::render::gpu::{CullResult, DrawIndirectCommand, GpuCullPipeline, GpuDrawList};
use chemengine::render::stereo::{
    history_read_slot, history_write_slot, jitter_index, right_eye_frame, JITTER_TABLE_LEN, RIGHT_EYE_JITTER_OFFSET,
};

#[test]
fn workgroup_count_correct() {
    assert_eq!(GpuPhysics::workgroup_count(1000), 4);
    assert_eq!(GpuPhysics::workgroup_count(256), 1);
    assert_eq!(GpuPhysics::workgroup_count(257), 2);
    assert_eq!(GpuPhysics::workgroup_count(1), 1);
    assert_eq!(GpuPhysics::workgroup_count(0), 0);
}

#[test]
fn workgroup_count_at_the_top_of_the_range() {
    assert_eq!(GpuPhysics::workgroup_count(u32::MAX), 16_777_216);
    assert_eq!(GpuPhysics::workgroup_count(512), 2);
}

#[test]
fn cull_result_size() {
    assert_eq!(mem::size_of::<CullResult>(), 4);
}

#[test]
fn new_pipelines_hold_their_shader_and_no_objects() {
    let p = GpuPhysics::new("// physics");
    assert_eq!(p.shader_source, "// physics");
    assert_eq!(p.body_count, 0);
    let c = GpuCullPipeline::new("// cull");
    assert_eq!(c.object_count, 0);
    assert_ne!(BodyType::Static, BodyType::Dynamic);
    let d = DrawIndirectCommand::default();
    assert_eq!(d.instance_count, 0);
}

#[test]
fn jitter_offset_preserves_history_parity() {
    for frame in 0u64..32 {
        let left_parity = frame & 1;
        let right_parity = (frame + RIGHT_EYE_JITTER_OFFSET) & 1;
        assert_eq!(left_parity, right_parity, "frame {} eyes on different parity", frame);
    }
}

#[test]
fn right_eye_offset_constant_is_even_and_nonzero() {
    assert_ne!(RIGHT_EYE_JITTER_OFFSET, 0);
    assert_eq!(RIGHT_EYE_JITTER_OFFSET & 1, 0, "offset must be even to preserve history parity");
}

#[test]
fn eyes_write_the_same_slot_and_read_the_other() {
    for frame in [0u64, 1, 7, 8, 1_000_001, u64::MAX - 1] {
        assert_eq!(history_write_slot(right_eye_frame(frame)), history_write_slot(frame));
        assert_ne!(history_read_slot(frame), history_write_slot(frame));
    }
    assert_eq!(right_eye_frame(u64::MAX), 7);
}

/// The per-object record the draw list carries in these tests.
#[allow(dead_code)]
#[derive(Debug, Clone, Copy, Default, PartialEq)]
struct ObjectData {
    aabb_min: [f32; 3],
    aabb_max: [f32; 3],
    mesh_id: u32,
    vertex_count: u32,
    first_vertex: u32,
}

fn add(list: &mut GpuDrawList<ObjectData>, data: ObjectData) -> u32 {
    list.add_object(data, data.vertex_count, data.first_vertex)
}

#[test]
fn draw_list_add_and_count() {
    let mut list = GpuDrawList::new();
    assert_eq!(list.object_count(), 0);

    add(&mut list, ObjectData::default());
    add(&mut list, ObjectData::default());
    add(&mut list, ObjectData::default());

    assert_eq!(list.object_count(), 3);
    assert_eq!(list.commands.len(), 3);
}

#[test]
fn draw_list_clear() {
    let mut list = GpuDrawList::new();
    add(&mut list, ObjectData::default());
    add(&mut list, ObjectData::default());
    list.visible_count = 2;

    list.clear();

    assert_eq!(list.object_count(), 0);
    assert_eq!(list.commands.len(), 0);
    assert_eq!(list.visible_count, 0);
}

#[test]
fn added_object_gets_a_visible_command_for_its_mesh_range() {
    let mut list = GpuDrawList::with_capacity(4);
    let first = add(&mut list, ObjectData { vertex_count: 36, first_vertex: 100, ..Default::default() });
    let second = add(&mut list, ObjectData { vertex_count: 3, first_vertex: 7, ..Default::default() });
    assert_eq!(first, 0);
    assert_eq!(second, 1);
    assert_eq!(
        list.commands[0],
        DrawIndirectCommand { vertex_count: 36, instance_count: 1, first_vertex: 100, first_instance: 0 }
    );
    assert_eq!(
        list.commands[1],
        DrawIndirectCommand { vertex_count: 3, instance_count: 1, first_vertex: 7, first_instance: 1 }
    );
    assert_eq!(list.count_visible(), 2);
    assert_eq!(list.visible_count, 0);
}

#[test]
fn cull_results_set_instance_counts_and_visible_count() {
    let mut list: GpuDrawList<ObjectData> = GpuDrawList::default();
    for k in 0..5u32 {
        add(&mut list, ObjectData { vertex_count: 3, first_vertex: 3 * k, ..Default::default() });
    }
    list.apply_cull_results(&vec![true, true, false, true, false]);
    let counts: Vec<u32> = list.commands.iter().map(|c| c.instance_count).collect();
    assert_eq!(counts, vec![1, 1, 0, 1, 0]);
    assert_eq!(list.visible_count, 3);
    assert_eq!(list.count_visible(), 3);
    assert_eq!(list.commands[3].first_vertex, 9);
    assert_eq!(list.commands[3].first_instance, 3);

    list.apply_cull_results(&vec![false; 5]);
    assert_eq!(list.visible_count, 0);
    assert_eq!(list.count_visible(), 0);
}

#[test]
fn cull_leaves_commands_past_the_objects_alone() {
    let mut list = GpuDrawList::new();
    add(&mut list, ObjectData::default());
    list.commands.push(DrawIndirectCommand { vertex_count: 9, instance_count: 4, first_vertex: 0, first_instance: 8 });
    list.apply_cull_results(&vec![false]);
    assert_eq!(list.visible_count, 0);
    assert_eq!(list.commands[1].instance_count, 4);
    assert_eq!(list.count_visible(), 1);
}

#[test]
fn jitter_index_cycles_through_the_table() {
    assert_eq!(JITTER_TABLE_LEN, 16);
    assert_eq!(jitter_index(0), 0);
    assert_eq!(jitter_index(15), 15);
    assert_eq!(jitter_index(16), 0);
    assert_eq!(jitter_index(37), 5);
    assert_eq!(jitter_index(u64::MAX), 15);
}

#[test]
fn eyes_never_share_a_jitter_entry() {
    for frame in (0u64..64).chain(u64::MAX - 20..=u64::MAX) {
        let left = jitter_index(frame);
        let right = jitter_index(right_eye_frame(frame));
        assert_ne!(left, right, "frame {}", frame);
        assert_eq!(right, (left + 8) % 16);
    }
}

/// Radical inverse base-`base` of `i` (the Halton sequence).
fn halton(mut i: u32, base: u32) -> f32 {
    let mut f = 1.0f32;
    let mut r = 0.0f32;
    while i > 0 {
        f /= base as f32;
        r += f * (i % base) as f32;
        i /= base;
    }
    r
}

fn halton_pair(frame: u64) -> [f32; 2] {
    let i = jitter_index(frame) as u32 + 1;
    [halton(i, 2) - 0.5, halton(i, 3) - 0.5]
}

#[test]
fn decorrelated_jitter() {
    // For every frame in a full Halton window, left and right must differ.
    for frame in 0u64..32 {
        let left = halton_pair(frame);
        let right = halton_pair(frame + RIGHT_EYE_JITTER_OFFSET);
        let d = ((left[0] - right[0]).powi(2) + (left[1] - right[1]).powi(2)).sqrt();
        assert!(d > 1e-3, "frame {}: left {:?} and right {:?} are too close", frame, left, right);
    }
}

#[test]
fn halton_spans_both_halves() {
    // Over 16 frames the jitter falls in both halves of each axis.
    let mut seen_neg_x = false;
    let mut seen_pos_x = false;
    let mut seen_neg_y = false;
    let mut seen_pos_y = false;
    for frame in 0u64..16 {
        let v = halton_pair(frame);
        if v[0] < 0.0 {
            seen_neg_x = true;
        } else {
            seen_pos_x = true;
        }
        if v[1] < 0.0 {
            seen_neg_y = true;
        } else {
            seen_pos_y = true;
        }
    }
    assert!(seen_neg_x && seen_pos_x, "X not covering both halves");
    assert!(seen_neg_y && seen_pos_y, "Y not covering both halves");
}
