use shader_canvas::order::{insert_sorted, path_le_exec};
use shader_canvas::paths::{has_shader_extension, has_wgsl_extension};
use shader_canvas::shader::{
    DirEntry, ShaderController, ShaderLoadResult, ShaderLoadStep, ShaderPlaylist, FALLBACK_SHADER,
};

fn entry(path: &str, is_file: bool) -> DirEntry {
    DirEntry { path: path.to_string(), is_file }
}

fn sample_entries() -> Vec<DirEntry> {
    vec![
        entry("shaders/waves.wgsl", true),
        entry("shaders/notes.txt", true),
        entry("shaders/blur.wesl", true),
        entry("shaders/nested.wgsl", false),
        entry("shaders/circle.wgsl", true),
    ]
}

#[test]
fn path_order_is_bytewise() {
    let s = |x: &str| x.to_string();
    assert!(path_le_exec(&s("a"), &s("b")));
    assert!(!path_le_exec(&s("b"), &s("a")));
    assert!(path_le_exec(&s("a"), &s("a")));
    assert!(path_le_exec(&s("a"), &s("ab")));
    assert!(!path_le_exec(&s("ab"), &s("a")));
    assert!(path_le_exec(&s("B"), &s("a")));
    // 'é' is encoded as 0xC3 0xA9, after every ASCII byte.
    assert!(!path_le_exec(&s("é"), &s("z")));
    assert!(path_le_exec(&s(""), &s("")));
}

#[test]
fn insert_sorted_keeps_order() {
    let mut v: Vec<String> = Vec::new();
    for x in ["d", "b", "c", "a", "b"] {
        insert_sorted(&mut v, x.to_string());
    }
    assert_eq!(v, vec!["a", "b", "b", "c", "d"]);
}

#[test]
fn shader_extensions() {
    assert!(has_shader_extension("shaders/a.wgsl"));
    assert!(has_shader_extension("a.wesl"));
    assert!(!has_shader_extension("a.txt"));
    assert!(!has_shader_extension("a.WGSL"));
    assert!(!has_shader_extension(".wgsl"));
    assert!(has_shader_extension("x/.hidden.wgsl"));
    assert!(has_shader_extension("dir.wgsl/"));
    assert!(!has_shader_extension("a.wgsl/.."));
    assert!(!has_shader_extension("wgsl"));
    assert!(has_wgsl_extension("a.b.wgsl"));
    assert!(!has_wgsl_extension("a.wesl"));
}

#[test]
fn playlist_keeps_sorted_shader_files() {
    let p = ShaderPlaylist::new("shaders".to_string(), &sample_entries());
    assert_eq!(
        p.files(),
        &vec!["shaders/blur.wesl", "shaders/circle.wgsl", "shaders/waves.wgsl"]
    );
    assert_eq!(p.current_index(), 0);
    assert_eq!(p.current().map(|s| s.as_str()), Some("shaders/blur.wesl"));
    assert_eq!(p.dir(), "shaders");
}

#[test]
fn playlist_wraps_both_ways() {
    let mut p = ShaderPlaylist::new("shaders".to_string(), &sample_entries());
    assert!(p.prev());
    assert_eq!(p.current_index(), 2);
    assert!(p.next());
    assert_eq!(p.current_index(), 0);
    assert!(p.next());
    assert!(p.next());
    assert_eq!(p.current().map(|s| s.as_str()), Some("shaders/waves.wgsl"));
    assert!(p.next());
    assert_eq!(p.current_index(), 0);
    // prev undoes next
    assert!(p.next());
    assert!(p.prev());
    assert_eq!(p.current_index(), 0);
}

#[test]
fn playlist_cycles_back_after_len_moves() {
    let mut p = ShaderPlaylist::new("shaders".to_string(), &sample_entries());
    assert!(p.next());
    let start = p.current_index();
    for _ in 0..p.files().len() {
        assert!(p.next());
    }
    assert_eq!(p.current_index(), start);
}

#[test]
fn empty_playlist_does_not_move() {
    let mut p = ShaderPlaylist::new("empty".to_string(), &vec![entry("empty/readme.md", true)]);
    assert!(p.files().is_empty());
    assert!(p.current().is_none());
    assert!(!p.next());
    assert!(!p.prev());
    assert_eq!(p.current_index(), 0);
}

#[test]
fn refresh_resets_index_past_the_end() {
    let mut p = ShaderPlaylist::new("shaders".to_string(), &sample_entries());
    assert!(p.prev());
    assert_eq!(p.current_index(), 2);
    p.refresh(&vec![entry("shaders/one.wgsl", true)]);
    assert_eq!(p.files(), &vec!["shaders/one.wgsl"]);
    assert_eq!(p.current_index(), 0);
}

#[test]
fn refresh_keeps_index_in_range() {
    let mut p = ShaderPlaylist::new("shaders".to_string(), &sample_entries());
    assert!(p.next());
    p.refresh(&sample_entries());
    assert_eq!(p.current_index(), 1);
    let before = p.files().clone();
    p.refresh(&sample_entries());
    assert_eq!(p.files(), &before);
    assert_eq!(p.current_index(), 1);
}

#[test]
fn controller_starts_on_first_shader() {
    let c = ShaderController::new("shaders".to_string(), &sample_entries());
    assert_eq!(c.shader_path.as_deref(), Some("shaders/blur.wesl"));
    assert_eq!(c.last_modified, None);
    let empty = ShaderController::new("none".to_string(), &Vec::new());
    assert_eq!(empty.shader_path, None);
}

#[test]
fn load_step_builds_package_module_path() {
    let c = ShaderController::new("shaders".to_string(), &sample_entries());
    match c.prepare_shader_load() {
        ShaderLoadStep::Compile { dir, module_name } => {
            assert_eq!(dir, "shaders");
            assert_eq!(module_name, "package::blur");
        }
        ShaderLoadStep::Done(_) => panic!("expected a compile step"),
    }
    let mut c = c;
    c.shader_path = Some("shaders/.hidden".to_string());
    match c.prepare_shader_load() {
        ShaderLoadStep::Compile { module_name, .. } => assert_eq!(module_name, "package::.hidden"),
        ShaderLoadStep::Done(_) => panic!("expected a compile step"),
    }
    c.shader_path = Some("shaders/a.b.wgsl".to_string());
    match c.prepare_shader_load() {
        ShaderLoadStep::Compile { module_name, .. } => assert_eq!(module_name, "package::a.b"),
        ShaderLoadStep::Done(_) => panic!("expected a compile step"),
    }
}

#[test]
fn load_without_file_is_file_error() {
    let mut c = ShaderController::new("none".to_string(), &Vec::new());
    assert!(matches!(
        c.prepare_shader_load(),
        ShaderLoadStep::Done(ShaderLoadResult::FileError)
    ));
    c.shader_path = Some("shaders/..".to_string());
    assert!(matches!(
        c.prepare_shader_load(),
        ShaderLoadStep::Done(ShaderLoadResult::FileError)
    ));
}

#[test]
fn complete_load_checks_wgsl() {
    match ShaderController::complete_shader_load(Some(FALLBACK_SHADER.to_string())) {
        ShaderLoadResult::Success(s) => assert_eq!(s, FALLBACK_SHADER),
        _ => panic!("the fallback shader is valid WGSL"),
    }
    assert!(matches!(
        ShaderController::complete_shader_load(Some("fn broken( {".to_string())),
        ShaderLoadResult::CompileError
    ));
    assert!(matches!(
        ShaderController::complete_shader_load(None),
        ShaderLoadResult::CompileError
    ));
}

#[test]
fn shader_source_for_each_result() {
    assert_eq!(
        ShaderController::get_shader_source(ShaderLoadResult::Success("code".to_string())),
        Some("code".to_string())
    );
    assert_eq!(ShaderController::get_shader_source(ShaderLoadResult::CompileError), None);
    assert_eq!(
        ShaderController::get_shader_source(ShaderLoadResult::FileError),
        Some(FALLBACK_SHADER.to_string())
    );
}

#[test]
fn hot_reload_picks_last_event_on_current_name() {
    let c = ShaderController::new("shaders".to_string(), &sample_entries());
    let events = vec![
        "shaders/blur.wesl".to_string(),
        "shaders/notes.txt".to_string(),
        "elsewhere/blur.wesl".to_string(),
        "shaders/circle.wgsl".to_string(),
    ];
    assert_eq!(
        c.hot_reload_candidate(&events).as_deref(),
        Some("elsewhere/blur.wesl")
    );
    let none = vec!["shaders/circle.wgsl".to_string(), "shaders/blur.txt".to_string()];
    assert_eq!(c.hot_reload_candidate(&none), None);
    assert_eq!(c.hot_reload_candidate(&Vec::new()), None);
    let empty = ShaderController::new("none".to_string(), &Vec::new());
    assert_eq!(empty.hot_reload_candidate(&events), None);
}

#[test]
fn modification_is_reported_once() {
    let mut c = ShaderController::new("shaders".to_string(), &sample_entries());
    let p = "shaders/blur.wesl".to_string();
    assert_eq!(c.record_modification(p.clone(), Some(5)), Some(p.clone()));
    assert_eq!(c.last_modified, Some(5));
    assert_eq!(c.record_modification(p.clone(), Some(5)), None);
    assert_eq!(c.record_modification(p.clone(), Some(-7)), Some(p.clone()));
    assert_eq!(c.record_modification(p.clone(), None), Some(p.clone()));
    assert_eq!(c.last_modified, None);
    assert_eq!(c.record_modification(p, None), None);
}

#[test]
fn playlist_keys_change_the_shader() {
    let mut c = ShaderController::new("shaders".to_string(), &sample_entries());
    c.last_modified = Some(1);
    assert_eq!(c.handle_playlist_next().as_deref(), Some("shaders/circle.wgsl"));
    assert_eq!(c.shader_path.as_deref(), Some("shaders/circle.wgsl"));
    assert_eq!(c.last_modified, Some(1));
    assert_eq!(c.handle_playlist_prev().as_deref(), Some("shaders/blur.wesl"));
    assert_eq!(c.handle_playlist_prev().as_deref(), Some("shaders/waves.wgsl"));
    assert_eq!(c.shader_path.as_deref(), Some("shaders/waves.wgsl"));
    let mut empty = ShaderController::new("none".to_string(), &Vec::new());
    assert_eq!(empty.handle_playlist_next(), None);
    assert_eq!(empty.handle_playlist_prev(), None);
    assert_eq!(empty.shader_path, None);
}
