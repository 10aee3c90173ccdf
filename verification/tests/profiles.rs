//! Language-server profiles: built-ins, validation, selection, and routing.

use chronogit::lsp::profiles::escape_verdict;
use chronogit::paths::PathComponentKind;
use std::path::PathBuf;

use chronogit::domain::path::RepoPath;
use chronogit::lsp::profiles::{
    builtin_profiles, merge_user_profiles, selected_profiles, validate_profile, CommandPart, LspConfig,
    RawProfile,
};
use chronogit::lsp::LspError;

fn path(value: &str) -> RepoPath {
    RepoPath::from_bytes(value.as_bytes().to_vec()).unwrap_or_else(|e| panic!("{e}"))
}

fn words(values: &[&str]) -> Vec<String> {
    values.iter().map(|v| v.to_string()).collect()
}

fn raw(extensions: &[&str], command: &[&str], root_markers: &[&str], workspace_data: bool) -> RawProfile {
    RawProfile {
        language_id: "go".to_string(),
        extensions: words(extensions),
        command: words(command),
        root_markers: words(root_markers),
        initialization_options: None,
        workspace_data,
        install_hint: None,
    }
}

fn config(enabled: &[&str]) -> LspConfig {
    LspConfig::select(&words(enabled), &builtin_profiles(), None).unwrap_or_else(|e| panic!("{e:?}"))
}

#[test]
fn builtins_are_opt_in_and_python_is_never_chosen_implicitly() {
    assert!(LspConfig::disabled().is_disabled());
    let ids: Vec<String> = builtin_profiles().iter().map(|p| p.id().to_string()).collect();
    assert_eq!(ids, vec!["rust-analyzer", "jdtls", "pyright", "basedpyright", "pylsp"]);
    let config = config(&["pyright", "pylsp"]);
    match config.profile_for_path(&path("src/main.py")) {
        Err(LspError::AmbiguousProfile(message)) => assert_eq!(
            message,
            "multiple enabled language servers match .py; enable only one of: pyright, pylsp"
        ),
        other => panic!("unexpected {other:?}"),
    }
}

#[test]
fn routes_each_extension_to_its_one_enabled_profile() {
    let config = config(&["rust-analyzer", "jdtls", "pyright", "jdtls"]);
    assert_eq!(config.profiles().len(), 3);
    for (file, id) in [
        ("rust/src/lib.rs", "rust-analyzer"),
        ("java/src/Main.java", "jdtls"),
        ("python/pkg/main.py", "pyright"),
        ("python/pkg/Types.PYI", "pyright"),
    ] {
        let profile = config.profile_for_path(&path(file)).unwrap_or_else(|e| panic!("{e:?}"));
        assert_eq!(profile.id(), id);
    }
    let jdtls = config.profile_for_path(&path("A.java")).unwrap_or_else(|e| panic!("{e:?}"));
    assert!(jdtls.needs_workspace_data());
    assert_eq!(jdtls.language_id(), "java");
    assert_eq!(jdtls.initialization_options(), "{}");
    match config.profile_for_path(&path("Makefile")) {
        Err(LspError::Disabled(message)) => {
            assert_eq!(message, "no enabled language server matches Makefile")
        }
        other => panic!("unexpected {other:?}"),
    }
    match config.profile_for_path(&path("notes.txt")) {
        Err(LspError::Disabled(message)) => {
            assert_eq!(message, "no enabled language server matches .txt files")
        }
        other => panic!("unexpected {other:?}"),
    }
}

#[test]
fn unknown_profiles_are_configuration_errors() {
    let error = selected_profiles(&words(&["rust-analyzer", "nope"]), &builtin_profiles(), Some(PathBuf::from("/x/lsp.toml")))
        .err()
        .unwrap_or_else(|| panic!("an unknown profile must fail"));
    assert_eq!(error.detail, "unknown LSP profile \"nope\"; choose a built-in or configured profile");
    assert_eq!(error.path, Some(PathBuf::from("/x/lsp.toml")));
}

#[test]
fn user_profile_is_data_driven_and_shell_free() {
    let profile = validate_profile("gopls", &raw(&["go"], &["gopls"], &["go.mod"], false))
        .unwrap_or_else(|e| panic!("{e}"));
    assert_eq!(profile.id(), "gopls");
    assert_eq!(profile.language_id(), "go");
    assert_eq!(profile.extensions(), &["go".to_string()]);
    assert_eq!(profile.install_hint(), "install the gopls language server and ensure it is on PATH");
}

#[test]
fn rejects_partial_placeholders_parent_markers_and_bad_extensions() {
    let cases: [(&str, RawProfile, &str); 7] = [
        ("x", raw(&["x"], &["server", "--cache={cache_dir}"], &[], false), "unsupported or partial placeholder in \"--cache={cache_dir}\""),
        ("x", raw(&["x"], &["server", "{workspace_config}"], &[], false), "workspace placeholders require workspace_data = true"),
        ("x", raw(&["x"], &["server"], &["../owned"], false), "root marker \"../owned\" must stay relative"),
        ("x", raw(&[".go"], &["server"], &[], false), "invalid extension \".go\""),
        ("x", raw(&["go", "go"], &["server"], &[], false), "duplicate extension \"go\""),
        ("x", raw(&[], &["server"], &[], false), "extensions must contain 1 to 32 values"),
        ("bad id", raw(&["x"], &["server"], &[], false), "profile id contains unsupported characters"),
    ];
    for (id, profile, message) in cases {
        assert_eq!(validate_profile(id, &profile).err(), Some(message.to_string()));
    }
}

#[test]
fn user_profiles_replace_built_ins_and_are_bounded() {
    let file = PathBuf::from("/home/u/.config/chronogit/lsp.toml");
    let mut profiles = builtin_profiles();
    let servers = vec![("pylsp".to_string(), raw(&["py"], &["my-pylsp"], &[], false))];
    merge_user_profiles(&file, &servers, &mut profiles).unwrap_or_else(|e| panic!("{e:?}"));
    assert_eq!(profiles.len(), 5);
    let config = LspConfig::select(&words(&["pylsp"]), &profiles, None).unwrap_or_else(|e| panic!("{e:?}"));
    assert_eq!(config.profiles()[0].language_id(), "go");

    let bad = vec![("broken".to_string(), raw(&["b"], &[], &[], false))];
    let error = merge_user_profiles(&file, &bad, &mut profiles).err().unwrap_or_else(|| panic!("must fail"));
    assert_eq!(error.detail, "profile \"broken\": command must contain 1 to 64 arguments");
    assert_eq!(error.path, Some(file.clone()));

    let many: Vec<(String, RawProfile)> =
        (0..40).map(|k| (format!("p{k}"), raw(&["z"], &["srv"], &[], false))).collect();
    let error = merge_user_profiles(&file, &many, &mut profiles).err().unwrap_or_else(|| panic!("must fail"));
    assert_eq!(error.detail, "too many LSP server profiles");
}

#[test]
fn command_placeholders_expand_to_workspace_paths() {
    let profiles = builtin_profiles();
    let jdtls = &profiles[1];
    let root = PathBuf::from("/repo/java");
    let data = PathBuf::from("/cache/ws-1");
    let cache = PathBuf::from("/cache");
    let (exe, args) = jdtls.command_parts(&root, Some(&data), &cache).unwrap_or_else(|e| panic!("{e:?}"));
    assert!(matches!(exe, CommandPart::Text(ref t) if t == "jdtls"));
    assert_eq!(args.len(), 4);
    assert!(matches!(&args[0], CommandPart::Text(t) if t == "-configuration"));
    assert!(matches!(&args[1], CommandPart::Path(p) if p == &PathBuf::from("/cache/ws-1/configuration")));
    assert!(matches!(&args[3], CommandPart::Path(p) if p == &data));
    assert!(matches!(
        jdtls.command_parts(&root, None, &cache),
        Err(LspError::Process(message)) if message == "profile requires workspace data"
    ));
    let (exe, args) = profiles[0].command_parts(&root, None, &cache).unwrap_or_else(|e| panic!("{e:?}"));
    assert!(matches!(exe, CommandPart::Text(ref t) if t == "rust-analyzer"));
    assert!(args.is_empty());
}

#[test]
fn markers_with_a_parent_root_or_prefix_component_escape() {
    assert!(escape_verdict(true, &vec![PathComponentKind::Normal]));
    assert!(escape_verdict(false, &vec![PathComponentKind::Normal, PathComponentKind::ParentDir]));
    assert!(escape_verdict(false, &vec![PathComponentKind::RootDir]));
    assert!(!escape_verdict(false, &vec![PathComponentKind::CurDir, PathComponentKind::Normal]));
}

#[test]
fn the_last_definition_of_a_profile_wins() {
    let file = PathBuf::from("/home/u/.config/chronogit/lsp.toml");
    let mut profiles = builtin_profiles();
    let before = profiles.len();
    let mut first = raw(&["aa"], &["first-server"], &[], false);
    first.language_id = "first".to_string();
    let mut second = raw(&["bb"], &["second-server"], &[], false);
    second.language_id = "second".to_string();
    let servers = vec![("mine".to_string(), first), ("mine".to_string(), second)];
    merge_user_profiles(&file, &servers, &mut profiles).unwrap_or_else(|e| panic!("{e:?}"));
    assert_eq!(profiles.len(), before + 1);
    let mine = profiles.iter().find(|p| p.id() == "mine").unwrap_or_else(|| panic!("missing"));
    assert_eq!(mine.language_id(), "second");
}
