use brainjar::init::{resolve_data_dir, resolve_data_dir_string};

fn home_str() -> Option<String> {
    dirs::home_dir().map(|h| h.to_string_lossy().into_owned())
}

#[test]
fn test_resolve_data_dir_default_location() {
    let home = dirs::home_dir().unwrap();
    let config = home.join(".brainjar").join("brainjar.toml");
    let result = resolve_data_dir(&config.to_string_lossy());
    assert_eq!(result, home.join(".brainjar").to_string_lossy());
}

#[test]
fn test_resolve_data_dir_already_in_brainjar_dir() {
    let result = resolve_data_dir("/tmp/myproject/.brainjar/brainjar.toml");
    assert_eq!(result, "/tmp/myproject/.brainjar");
}

#[test]
fn test_resolve_data_dir_no_double_nesting() {
    let result = resolve_data_dir("/tmp/test/.brainjar/config.toml");
    assert!(!result.contains(".brainjar/.brainjar"));
}

#[test]
fn test_resolve_data_dir_root_path() {
    let result = resolve_data_dir("/brainjar.toml");
    assert_eq!(result, "/.brainjar");
}

#[test]
fn test_resolve_data_dir_default_home() {
    let result = resolve_data_dir("/home/user/.brainjar/brainjar.toml");
    assert_eq!(result, "/home/user/.brainjar");
}

#[test]
fn test_resolve_data_dir_custom_location() {
    let result = resolve_data_dir("/home/user/experiments/test.toml");
    assert_eq!(result, "/home/user/experiments/.brainjar");
}

#[test]
fn test_resolve_data_dir_nested_brainjar() {
    let result = resolve_data_dir("/home/user/myproject/.brainjar/brainjar.toml");
    assert_eq!(result, "/home/user/myproject/.brainjar");
}

#[test]
fn test_resolve_data_dir_tmp_custom() {
    let result = resolve_data_dir("/tmp/brainjar-test-custom/test.toml");
    assert_eq!(result, "/tmp/brainjar-test-custom/.brainjar");
}

#[test]
fn test_resolve_data_dir_tmp_nested() {
    let result = resolve_data_dir("/tmp/brainjar-test-nested/.brainjar/brainjar.toml");
    assert_eq!(result, "/tmp/brainjar-test-nested/.brainjar");
}

#[test]
fn test_resolve_data_dir_string_home() {
    if let Some(home) = dirs::home_dir() {
        let config = home.join(".brainjar").join("brainjar.toml");
        let result = resolve_data_dir_string(&config.to_string_lossy(), home_str().as_deref());
        assert_eq!(result, "~/.brainjar");
    }
}

#[test]
fn test_resolve_data_dir_string_custom_home_subdir() {
    if let Some(home) = dirs::home_dir() {
        let config = home.join("experiments").join("test.toml");
        let result = resolve_data_dir_string(&config.to_string_lossy(), home_str().as_deref());
        assert_eq!(result, "~/experiments/.brainjar");
    }
}

#[test]
fn test_resolve_data_dir_string_absolute_non_home() {
    let result = resolve_data_dir_string("/tmp/brainjar-test/test.toml", home_str().as_deref());
    assert_eq!(result, "/tmp/brainjar-test/.brainjar");
}

#[test]
fn test_resolve_data_dir_string_nested_non_home() {
    let result = resolve_data_dir_string("/tmp/proj/.brainjar/brainjar.toml", home_str().as_deref());
    assert_eq!(result, "/tmp/proj/.brainjar");
}

#[test]
fn test_no_collision_between_separate_configs() {
    let dir1 = resolve_data_dir("/tmp/proj1/brainjar.toml");
    let dir2 = resolve_data_dir("/tmp/proj2/brainjar.toml");
    assert_ne!(dir1, dir2);
    assert_eq!(dir1, "/tmp/proj1/.brainjar");
    assert_eq!(dir2, "/tmp/proj2/.brainjar");
}

#[test]
fn test_resolve_data_dir_prevents_double_nesting() {
    let result = resolve_data_dir("/tmp/proj/.brainjar/brainjar.toml");
    assert_eq!(result, "/tmp/proj/.brainjar");
    assert!(!result.contains(".brainjar/.brainjar"));
}

#[test]
fn test_resolve_data_dir_creates_subdir_for_regular_path() {
    let result = resolve_data_dir("/tmp/test-custom/test.toml");
    assert_eq!(result, "/tmp/test-custom/.brainjar");
}

#[test]
fn test_smart_default_with_default_config_location() {
    if let Some(home) = dirs::home_dir() {
        let config = home.join(".brainjar").join("brainjar.toml");
        let result = resolve_data_dir(&config.to_string_lossy());
        assert_eq!(result, home.join(".brainjar").to_string_lossy());
    }
}

#[test]
fn test_smart_default_with_custom_config_in_subdir() {
    if let Some(home) = dirs::home_dir() {
        let config = home.join("experiments").join("test.toml");
        let result = resolve_data_dir(&config.to_string_lossy());
        assert_eq!(result, home.join("experiments").join(".brainjar").to_string_lossy());
        let result_str = resolve_data_dir_string(&config.to_string_lossy(), home_str().as_deref());
        assert!(result_str.starts_with("~/"), "Expected ~ prefix, got: {}", result_str);
        assert!(result_str.contains(".brainjar"), "Expected .brainjar in path, got: {}", result_str);
    }
}

#[test]
fn test_two_configs_different_paths_separate_data_dirs() {
    let dir1 = tempfile::tempdir().unwrap();
    let dir2 = tempfile::tempdir().unwrap();
    let config1 = dir1.path().join("brainjar.toml");
    let config2 = dir2.path().join("brainjar.toml");
    let data_dir1 = resolve_data_dir(&config1.to_string_lossy());
    let data_dir2 = resolve_data_dir(&config2.to_string_lossy());
    assert_ne!(data_dir1, data_dir2);
    assert!(data_dir1.ends_with(".brainjar"));
    assert!(data_dir2.ends_with(".brainjar"));
}

#[test]
fn test_nested_brainjar_config_parent_is_dotbrainjar() {
    if let Some(home) = dirs::home_dir() {
        let brainjar_dir = home.join(".brainjar");
        let config = brainjar_dir.join("brainjar.toml");
        let parent = config.parent().unwrap();
        let parent_name = parent.file_name().map(|n| n.to_string_lossy().into_owned());
        assert_eq!(parent_name.as_deref(), Some(".brainjar"));
        let result = resolve_data_dir(&config.to_string_lossy());
        assert_eq!(result, brainjar_dir.to_string_lossy());
    }
}

#[test]
fn test_resolve_data_dir_string_absolute_path_outside_home() {
    let result = resolve_data_dir_string("/var/lib/brainjar/config.toml", home_str().as_deref());
    assert_eq!(result, "/var/lib/brainjar/.brainjar");
    assert!(!result.contains("~"), "Absolute paths outside home should not use ~");
}

#[test]
fn test_resolve_data_dir_handles_relative_paths() {
    let result = resolve_data_dir("./brainjar.toml");
    assert_eq!(result, "./.brainjar");
}

#[test]
fn test_resolve_data_dir_handles_deeply_nested_paths() {
    let result = resolve_data_dir("/a/b/c/d/e/f/g/brainjar.toml");
    assert_eq!(result, "/a/b/c/d/e/f/g/.brainjar");
}

#[test]
fn test_multiple_configs_same_project_different_names() {
    let dir = tempfile::tempdir().unwrap();
    let config1 = dir.path().join("brainjar.toml");
    let config2 = dir.path().join("brainjar-alt.toml");
    let data_dir1 = resolve_data_dir(&config1.to_string_lossy());
    let data_dir2 = resolve_data_dir(&config2.to_string_lossy());
    assert_eq!(data_dir1, data_dir2, "Configs in same dir should resolve to same data_dir");
}
