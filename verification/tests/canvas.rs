use shader_canvas::canvas::instance::{
    instance_grid, instance_raw_layout, Axis, InstanceController, InstancePlacement, KeyCode,
    Rotation, VertexFormat, VertexStepMode, SPEED_LIMIT,
};
use shader_canvas::canvas::shader::ShaderController;

#[test]
fn canvas_watcher_follows_last_wgsl_file() {
    let mut c = ShaderController::new();
    assert_eq!(c.check_for_updates(&Vec::new()), None);
    let events = vec![
        "dir/a.wgsl".to_string(),
        "dir/b.wesl".to_string(),
        "dir/c.wgsl".to_string(),
        "dir/d.txt".to_string(),
    ];
    assert_eq!(c.check_for_updates(&events).as_deref(), Some("dir/c.wgsl"));
    assert_eq!(c.shader_path.as_deref(), Some("dir/c.wgsl"));
    assert_eq!(
        c.check_for_updates(&vec!["dir/x.wesl".to_string()]).as_deref(),
        Some("dir/c.wgsl")
    );
    assert_eq!(c.check_for_updates(&Vec::new()).as_deref(), Some("dir/c.wgsl"));
}

#[test]
fn arrow_keys_hold_directions() {
    let mut c = InstanceController::new();
    assert!(c.handle_key(KeyCode::ArrowUp, true));
    assert!(c.handle_key(KeyCode::ArrowLeft, true));
    assert!(c.is_forward_pressed());
    assert!(c.is_left_pressed());
    assert!(!c.is_backward_pressed());
    assert!(!c.is_right_pressed());
    assert_eq!(
        c.rotation_plan(),
        vec![
            Rotation { axis: Axis::X, positive: true },
            Rotation { axis: Axis::Y, positive: false }
        ]
    );
    assert!(c.handle_key(KeyCode::ArrowUp, false));
    assert!(c.handle_key(KeyCode::ArrowDown, true));
    assert!(c.handle_key(KeyCode::ArrowRight, true));
    assert_eq!(
        c.rotation_plan(),
        vec![
            Rotation { axis: Axis::X, positive: false },
            Rotation { axis: Axis::Y, positive: false },
            Rotation { axis: Axis::Y, positive: true }
        ]
    );
}

#[test]
fn other_keys_are_ignored() {
    let mut c = InstanceController::new();
    assert!(!c.handle_key(KeyCode::Other, true));
    assert_eq!(c.speed(), 1);
    assert!(c.rotation_plan().is_empty());
}

#[test]
fn q_and_e_change_speed() {
    let mut c = InstanceController::new();
    assert_eq!(c.speed(), 1);
    assert!(c.handle_key(KeyCode::KeyE, true));
    assert!(c.handle_key(KeyCode::KeyE, false));
    assert_eq!(c.speed(), 3);
    for _ in 0..5 {
        assert!(c.handle_key(KeyCode::KeyQ, true));
    }
    assert_eq!(c.speed(), -2);
    assert!(c.handle_key(KeyCode::KeyE, true));
    assert!(c.handle_key(KeyCode::KeyQ, true));
    assert_eq!(c.speed(), -2);
}

#[test]
fn speed_stops_at_the_limit() {
    let mut c = InstanceController::new();
    for _ in 0..(SPEED_LIMIT as i64 + 10) {
        c.handle_key(KeyCode::KeyE, true);
    }
    assert_eq!(c.speed(), SPEED_LIMIT);
    // a 32-bit float stops there too
    let f: f32 = 16777216.0;
    assert_eq!(f + 1.0, f);
    c.handle_key(KeyCode::KeyQ, true);
    assert_eq!(c.speed(), SPEED_LIMIT - 1);
}

#[test]
fn grid_is_centred() {
    let grid = instance_grid();
    assert_eq!(grid.len(), 10000);
    assert_eq!(grid[0], InstancePlacement { x: -50, z: -50, tilted: true });
    assert_eq!(grid[1], InstancePlacement { x: -49, z: -50, tilted: true });
    assert_eq!(grid[100], InstancePlacement { x: -50, z: -49, tilted: true });
    assert_eq!(grid[5050], InstancePlacement { x: 0, z: 0, tilted: false });
    assert_eq!(grid[9999], InstancePlacement { x: 49, z: 49, tilted: true });
    assert_eq!(grid.iter().filter(|p| !p.tilted).count(), 1);
}

#[test]
fn instance_layout_tiles_the_matrix() {
    let layout = instance_raw_layout();
    assert_eq!(layout.array_stride, 64);
    assert_eq!(layout.step_mode, VertexStepMode::Instance);
    let offsets: Vec<u64> = layout.attributes.iter().map(|a| a.offset).collect();
    let locations: Vec<u32> = layout.attributes.iter().map(|a| a.shader_location).collect();
    assert_eq!(offsets, vec![0, 16, 32, 48]);
    assert_eq!(locations, vec![5, 6, 7, 8]);
    assert!(layout.attributes.iter().all(|a| a.format == VertexFormat::Float32x4));
}

#[test]
fn releasing_an_arrow_restores_the_state() {
    let mut c = InstanceController::new();
    for code in [KeyCode::ArrowUp, KeyCode::ArrowDown, KeyCode::ArrowLeft, KeyCode::ArrowRight] {
        assert!(c.handle_key(code, true));
        assert_eq!(c.rotation_plan().len(), 1);
        assert!(c.handle_key(code, false));
        assert!(c.rotation_plan().is_empty());
    }
    assert!(!c.is_forward_pressed() && !c.is_backward_pressed());
    assert!(!c.is_left_pressed() && !c.is_right_pressed());
    assert_eq!(c.speed(), 1);
}
