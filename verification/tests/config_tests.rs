use novasearch::config::{
    default_exclude_patterns, default_include_paths, is_reload_trigger, Config, ConfigError,
    DebouncedSender,
};
use novasearch::watcher::RawEventKind;
use novasearch::paths::{
    expand_tilde, extension, file_name, file_stem, get_config_path, get_database_path, join,
    path_components,
};
use std::time::Duration;

#[test]
fn test_default_config() {
    let config = Config::default();
    assert_eq!(config.indexing.include_paths, vec!["~"]);
    assert_eq!(config.performance.max_cpu_percent, 10);
    assert_eq!(config.performance.max_memory_mb, 100);
    assert_eq!(config.performance.batch_size, 100);
    assert_eq!(config.performance.flush_interval_ms, 1000);
    assert_eq!(config.ui.keyboard_shortcut, "Super+Space");
    assert_eq!(config.ui.max_results, 50);
}

#[test]
fn test_default_lists() {
    assert_eq!(default_include_paths(), vec!["~"]);
    assert_eq!(default_exclude_patterns(), vec![".*", "node_modules", ".git", "target"]);
    assert_eq!(
        Config::default().indexing.exclude_patterns,
        vec![".*", "node_modules", ".git", "target"]
    );
}

#[test]
fn test_default_config_is_valid() {
    assert!(Config::default().validate().is_ok());
}

#[test]
fn test_validation_empty_include_paths() {
    let mut config = Config::default();
    config.indexing.include_paths.clear();

    let result = config.validate();
    assert!(result.is_err());
    assert!(matches!(result.unwrap_err(), ConfigError::ValidationError(_)));
}

#[test]
fn test_validation_invalid_cpu_percent() {
    let mut config = Config::default();
    config.performance.max_cpu_percent = 0;

    let result = config.validate();
    assert!(result.is_err());

    config.performance.max_cpu_percent = 101;
    let result = config.validate();
    assert!(result.is_err());
}

#[test]
fn test_validation_cpu_percent_bounds() {
    let mut config = Config::default();
    config.performance.max_cpu_percent = 1;
    assert!(config.validate().is_ok());
    config.performance.max_cpu_percent = 100;
    assert!(config.validate().is_ok());
}

#[test]
fn test_validation_zero_values() {
    let mut config = Config::default();

    config.performance.max_memory_mb = 0;
    assert!(config.validate().is_err());

    config = Config::default();
    config.performance.batch_size = 0;
    assert!(config.validate().is_err());

    config = Config::default();
    config.performance.flush_interval_ms = 0;
    assert!(config.validate().is_err());

    config = Config::default();
    config.ui.max_results = 0;
    assert!(config.validate().is_err());
}

#[test]
fn test_validation_empty_keyboard_shortcut() {
    let mut config = Config::default();
    config.ui.keyboard_shortcut = String::new();

    let result = config.validate();
    assert!(result.is_err());
}

#[test]
fn test_validation_messages() {
    let mut config = Config::default();
    config.indexing.include_paths.clear();
    config.performance.batch_size = 0;
    match config.validate() {
        Err(ConfigError::ValidationError(msg)) => {
            assert_eq!(msg, "include_paths cannot be empty")
        }
        _ => panic!("expected a validation error"),
    }
    let mut config = Config::default();
    config.performance.max_cpu_percent = 200;
    match config.validate() {
        Err(ConfigError::ValidationError(msg)) => {
            assert_eq!(msg, "max_cpu_percent must be between 1 and 100")
        }
        _ => panic!("expected a validation error"),
    }
    let mut config = Config::default();
    config.performance.max_memory_mb = 0;
    match config.validate() {
        Err(e) => assert_eq!(
            e.message(),
            "Validation error: max_memory_mb must be greater than 0"
        ),
        Ok(()) => panic!("expected a validation error"),
    }
    let mut config = Config::default();
    config.performance.batch_size = 0;
    assert_eq!(
        config.validate().unwrap_err().message(),
        "Validation error: batch_size must be greater than 0"
    );
    let mut config = Config::default();
    config.performance.flush_interval_ms = 0;
    assert_eq!(
        config.validate().unwrap_err().message(),
        "Validation error: flush_interval_ms must be greater than 0"
    );
    let mut config = Config::default();
    config.ui.max_results = 0;
    assert_eq!(
        config.validate().unwrap_err().message(),
        "Validation error: max_results must be greater than 0"
    );
    let mut config = Config::default();
    config.ui.keyboard_shortcut = String::new();
    assert_eq!(
        config.validate().unwrap_err().message(),
        "Validation error: keyboard_shortcut cannot be empty"
    );
}

#[test]
fn test_config_error_messages() {
    assert_eq!(ConfigError::IoError("gone".to_string()).message(), "IO error: gone");
    assert_eq!(ConfigError::ParseError("bad".to_string()).message(), "Parse error: bad");
    assert_eq!(
        ConfigError::SerializeError("odd".to_string()).message(),
        "Serialize error: odd"
    );
}

#[test]
fn test_flush_interval() {
    let config = Config::default();
    assert_eq!(config.flush_interval(), Duration::from_millis(1000));
}

#[test]
fn test_flush_interval_follows_setting() {
    let mut config = Config::default();
    config.performance.flush_interval_ms = 250;
    assert_eq!(config.flush_interval(), Duration::from_millis(250));
    assert_ne!(config.flush_interval(), Duration::from_millis(1000));
}

#[test]
fn test_expand_tilde() {
    let home = "/home/user";

    assert_eq!(expand_tilde("~", Some(home)), "/home/user");
    assert_eq!(expand_tilde("~/Documents", Some(home)), "/home/user/Documents");
    assert_eq!(expand_tilde("/absolute/path", Some(home)), "/absolute/path");
}

#[test]
fn test_expand_tilde_without_home() {
    assert_eq!(expand_tilde("~", None), "~");
    assert_eq!(expand_tilde("~/Documents", None), "~/Documents");
    assert_eq!(expand_tilde("~other", Some("/home/user")), "~other");
}

#[test]
fn test_expand_paths() {
    let mut config = Config::default();
    config.indexing.include_paths = vec!["~".to_string(), "~/Documents".to_string()];

    let expanded = config.expand_paths(Some("/home/user"));

    assert_eq!(expanded[0], "/home/user");
    assert_eq!(expanded[1], "/home/user/Documents");
    assert_eq!(expanded.len(), 2);
}

#[test]
fn test_database_path() {
    let db_path = get_database_path("/home/user");
    assert!(db_path.contains(".local/share/novasearch/index.db"));
    assert_eq!(db_path, "/home/user/.local/share/novasearch/index.db");
}

#[test]
fn test_config_path() {
    let config_path = get_config_path("/home/user");
    assert!(config_path.contains(".config/novasearch/config.toml"));
    assert_eq!(config_path, "/home/user/.config/novasearch/config.toml");
}

#[test]
fn test_join() {
    assert_eq!(join("/a", "b"), "/a/b");
    assert_eq!(join("/a/", "b"), "/a/b");
    assert_eq!(join("/a", "/b"), "/b");
    assert_eq!(join("", "b"), "b");
}

#[test]
fn test_path_components() {
    assert_eq!(path_components("/home/user/.hidden"), vec!["/", "home", "user", ".hidden"]);
    assert_eq!(path_components("//a///b/"), vec!["/", "a", "b"]);
    assert_eq!(path_components("/"), vec!["/"]);
    assert_eq!(path_components("").len(), 0);
    assert_eq!(path_components("plain"), vec!["plain"]);
    assert_eq!(path_components("rel/dir/file"), vec!["rel", "dir", "file"]);
}

#[test]
fn test_path_components_drop_current_dir() {
    assert_eq!(path_components("a/./b"), vec!["a", "b"]);
    assert_eq!(path_components("a/."), vec!["a"]);
    assert_eq!(path_components("a/b/."), vec!["a", "b"]);
    assert_eq!(path_components("/./a"), vec!["/", "a"]);
    assert_eq!(path_components("/a/./././b/."), vec!["/", "a", "b"]);
    assert_eq!(path_components("./a/b"), vec![".", "a", "b"]);
    assert_eq!(path_components("././a"), vec![".", "a"]);
    assert_eq!(path_components("."), vec!["."]);
    assert_eq!(path_components("a/../b"), vec!["a", "..", "b"]);
    assert_eq!(path_components(".hidden/.x"), vec![".hidden", ".x"]);
}

#[test]
fn test_path_components_as_the_standard_library() {
    for path in [
        "", "/", "//", ".", "..", "./", "a", "a/", "a/.", "a/./b", "/a/./b", "./a/b", "././a",
        "a/../b", "/a//b///c/", "/./", "/../x", ".hidden/.x", "/home/user/.config/app.toml",
        "a/b/.", "./.", "x/./.",
    ] {
        let expected: Vec<String> = std::path::Path::new(path)
            .components()
            .map(|c| c.as_os_str().to_string_lossy().to_string())
            .collect();
        assert_eq!(path_components(path), expected, "components of {:?}", path);
        let name = std::path::Path::new(path)
            .file_name()
            .map(|n| n.to_string_lossy().to_string());
        assert_eq!(file_name(path), name, "file name of {:?}", path);
    }
}

#[test]
fn test_file_name() {
    assert_eq!(file_name("/home/user/test.txt"), Some("test.txt".to_string()));
    assert_eq!(file_name("/home/user/dir/"), Some("dir".to_string()));
    assert_eq!(file_name("/"), None);
    assert_eq!(file_name("/a/.."), None);
    assert_eq!(file_name(""), None);
    assert_eq!(file_name("a/."), Some("a".to_string()));
    assert_eq!(file_name("a/./b"), Some("b".to_string()));
    assert_eq!(file_name("."), None);
    assert_eq!(file_name("./"), None);
    assert_eq!(file_name(".."), None);
}

#[test]
fn test_extension_and_stem() {
    assert_eq!(extension("app.desktop"), Some("desktop".to_string()));
    assert_eq!(extension("archive.tar.gz"), Some("gz".to_string()));
    assert_eq!(extension(".bashrc"), None);
    assert_eq!(extension("plain"), None);
    assert_eq!(extension("dot."), Some(String::new()));
    assert_eq!(file_stem("b.txt"), "b");
    assert_eq!(file_stem("archive.tar.gz"), "archive.tar");
    assert_eq!(file_stem(".bashrc"), ".bashrc");
    assert_eq!(file_stem("plain"), "plain");
}

#[test]
fn test_debounced_sender() {
    let mut sender = DebouncedSender::new(500);
    assert!(sender.send(1000));
    assert!(!sender.send(1200));
    assert!(!sender.send(1499));
    assert!(sender.send(1500));
    assert_eq!(sender.last_send, Some(1500));
    assert!(!sender.send(1400));
}

#[test]
fn test_reload_trigger() {
    let paths = vec!["/etc/other".to_string(), "/home/u/.config/novasearch/config.toml".to_string()];
    let config = "/home/u/.config/novasearch/config.toml";
    assert!(is_reload_trigger(RawEventKind::Modify, &paths, config));
    assert!(is_reload_trigger(RawEventKind::Create, &paths, config));
    assert!(is_reload_trigger(RawEventKind::Rename, &paths, config));
    assert!(!is_reload_trigger(RawEventKind::Remove, &paths, config));
    assert!(!is_reload_trigger(RawEventKind::Access, &paths, config));
    assert!(!is_reload_trigger(RawEventKind::Modify, &paths, "/home/u/.config/novasearch"));
    assert!(!is_reload_trigger(RawEventKind::Modify, &vec![], config));
}
