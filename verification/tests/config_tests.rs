use oxur::design::config::Config;

#[test]
fn test_default_config() {
    let config = Config::default();
    assert_eq!(config.docs_directory, "./design/docs");
    assert_eq!(config.state_file, "./design/docs/.oxd/state.json");
    assert!(config.preserve_dustbin_structure);
    assert!(config.auto_stage_git);
}

#[test]
fn test_load_with_docs_dir() {
    let config = Config::load(Some("/custom/docs"), Ok(None)).unwrap();
    assert_eq!(config.docs_directory, "/custom/docs");
    assert_eq!(config.state_file, "/custom/docs/.oxd/state.json");
    assert_eq!(config.dustbin_directory, "/custom/docs/.dustbin");
}

#[test]
fn test_dustbin_dir_for_state_preserved() {
    let config = Config {
        dustbin_directory: "/dustbin".to_string(),
        preserve_dustbin_structure: true,
        ..Default::default()
    };

    let result = config.dustbin_dir_for_state("01-draft");
    assert_eq!(result, "/dustbin/01-draft");
}

#[test]
fn test_dustbin_dir_for_state_flat() {
    let config = Config {
        dustbin_directory: "/dustbin".to_string(),
        preserve_dustbin_structure: false,
        ..Default::default()
    };

    let result = config.dustbin_dir_for_state("01-draft");
    assert_eq!(result, "/dustbin");
}

#[test]
fn load_fails_with_the_config_file_error() {
    let r = Config::load(Some("/docs"), Err("Failed to parse .oxd/config.toml".to_string()));
    assert_eq!(r.err(), Some("Failed to parse .oxd/config.toml".to_string()));
    let c = Config::load(None, Ok(None)).unwrap();
    assert_eq!(c.docs_directory, "./design/docs");
}
