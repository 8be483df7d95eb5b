use drifters::config::{AppConfig, MachineOverride, SyncRules};
use drifters::conflict::{resolve_conflict, ConflictResolution};
use drifters::fileset::{expand_tilde, expand_tilde_in, fileset_patterns, matches_any_pattern, select_files};
use drifters::github::parse_github_repo;
use drifters::local::{lock_path_of, machine_id_from, temp_repo_path_under, LocalConfig};
use drifters::lock::{lock_start, lock_step, LockAction, LockEvent, LockState};
use drifters::machines::{MachineIdProblem, MachineRegistry};
use drifters::safety::check_push_sizes;
use drifters::updates::{compare_versions, should_check_for_updates, version_numbers};

#[test]
fn test_parse_github_repo() {
    let result = parse_github_repo("https://github.com/tjirsch/drifters");
    assert!(result.is_ok(), "Failed to parse repository URL from Cargo.toml");

    let (owner, repo) = result.unwrap();
    assert!(!owner.is_empty(), "Owner should not be empty");
    assert!(!repo.is_empty(), "Repo should not be empty");

    assert_eq!(owner, "tjirsch");
    assert_eq!(repo, "drifters");
}

#[test]
fn github_url_forms() {
    assert_eq!(
        parse_github_repo("http://github.com/a/b/").unwrap(),
        ("a".to_string(), "b".to_string())
    );
    assert_eq!(
        parse_github_repo("https://github.com/a/b/tree/main").unwrap(),
        ("a".to_string(), "b".to_string())
    );
    assert!(parse_github_repo("https://gitlab.com/a/b").is_err());
    assert!(parse_github_repo("https://github.com/onlyowner//").is_err());
}

#[test]
fn test_compare_versions() {
    assert_eq!(compare_versions("1.0.0", "1.0.1"), -1);
    assert_eq!(compare_versions("1.0.1", "1.0.0"), 1);
    assert_eq!(compare_versions("1.0.0", "1.0.0"), 0);
    assert_eq!(compare_versions("1.0", "1.0.0"), 0);
    assert_eq!(compare_versions("1.2.3", "1.10.0"), -1);
    assert_eq!(compare_versions("2.0.0", "1.99.99"), 1);
}

#[test]
fn version_segments_that_do_not_parse_count_as_zero() {
    assert_eq!(version_numbers("1.x.+3.4294967296"), vec![1, 0, 3, 0]);
    assert_eq!(version_numbers(""), vec![0]);
    assert_eq!(compare_versions("1.beta", "1.0"), 0);
    assert_eq!(compare_versions("4294967295", "4294967294"), 1);
}

#[test]
fn update_frequency() {
    assert!(!should_check_for_updates("never", None, 0));
    assert!(should_check_for_updates("always", Some(100), 100));
    assert!(!should_check_for_updates("daily", Some(1000), 1000 + 86399));
    assert!(should_check_for_updates("daily", Some(1000), 1000 + 86400));
    assert!(should_check_for_updates("daily", None, 5));
}

#[test]
fn test_expand_tilde() {
    let expanded = expand_tilde("~/test/path");
    assert!(expanded.contains("test/path"));
    assert!(!expanded.starts_with("~"));
}

#[test]
fn tilde_expansion_with_given_home() {
    assert_eq!(expand_tilde_in("~/a/b", Some("/home/u")), "/home/u/a/b");
    assert_eq!(expand_tilde_in("~/a", Some("/home/u/")), "/home/u/a");
    assert_eq!(expand_tilde_in("~user/a", Some("/home/u")), "~user/a");
    assert_eq!(expand_tilde_in("~/a", None), "~/a");
    assert_eq!(expand_tilde_in("/etc/x", Some("/home/u")), "/etc/x");
}

fn strings(v: &[&str]) -> Vec<String> {
    v.iter().map(|s| s.to_string()).collect()
}

#[test]
fn fileset_tiers_add_up() {
    let mut app = AppConfig::default();
    app.includes = strings(&["~/a"]);
    app.exclude = strings(&["x"]);
    app.include_macos = strings(&["~/mac-only.txt"]);
    app.include_linux = strings(&["~/linux-only.txt"]);
    app.exclude_linux = strings(&["y"]);
    app.machines.insert(
        "machine1".to_string(),
        MachineOverride { includes: strings(&["~/m"]), exclude: strings(&["z"]) },
    );
    let (inc, exc) = fileset_patterns(&app, "machine1", "linux");
    assert_eq!(inc, strings(&["~/a", "~/linux-only.txt", "~/m"]));
    assert_eq!(exc, strings(&["x", "y", "z"]));
    let (inc, exc) = fileset_patterns(&app, "machine2", "macos");
    assert_eq!(inc, strings(&["~/a", "~/mac-only.txt"]));
    assert_eq!(exc, strings(&["x"]));
    let (inc, _) = fileset_patterns(&app, "machine1", "plan9");
    assert_eq!(inc, strings(&["~/a", "~/m"]));
}

#[test]
fn machine_override_exclude_removes_matching_file() {
    let mut app = AppConfig::default();
    app.includes = strings(&["~/t/*.txt"]);
    app.machines.insert(
        "laptop".to_string(),
        MachineOverride { includes: vec![], exclude: strings(&["~/t/secret.txt"]) },
    );
    let (_, exc) = fileset_patterns(&app, "laptop", "linux");
    let found = strings(&["/home/u/t/notes.txt", "/home/u/t/secret.txt", "/home/u/t/a.txt"]);
    let kept = select_files(&found, &exc, Some("/home/u"));
    assert_eq!(kept, strings(&["/home/u/t/a.txt", "/home/u/t/notes.txt"]));
}

#[test]
fn exclusion_by_glob_or_substring() {
    let pats = strings(&["*.bak", "cache"]);
    assert!(matches_any_pattern("x.bak", &pats, None));
    assert!(matches_any_pattern("/a/cache/b", &pats, None));
    assert!(!matches_any_pattern("/a/b.txt", &pats, None));
    assert!(!matches_any_pattern("/a/b.txt", &strings(&["[bad"]), None));
}

#[test]
fn selected_files_are_sorted_and_unique() {
    let found = strings(&["b", "a", "c", "a", "b"]);
    assert_eq!(select_files(&found, &vec![], None), strings(&["a", "b", "c"]));
    assert!(select_files(&vec![], &vec![], None).is_empty());
}

#[test]
fn sync_rules_add_app_replaces() {
    let mut rules = SyncRules::new();
    let mut a = AppConfig::default();
    a.includes = strings(&["~/.zshrc"]);
    rules.add_app("zsh".to_string(), a);
    rules.add_app("zsh".to_string(), AppConfig::default());
    assert_eq!(rules.apps.len(), 1);
    assert!(rules.apps.get("zsh").unwrap().includes.is_empty());
}

#[test]
fn exclude_for_machine_adds_pattern_once() {
    let mut rules = SyncRules::new();
    let mut app = AppConfig::default();
    app.includes = strings(&["~/.config/app/*"]);
    rules.add_app("app".to_string(), app);
    assert!(rules.exclude_for_machine("app", "laptop", "secret.txt").unwrap());
    assert!(!rules.exclude_for_machine("app", "laptop", "secret.txt").unwrap());
    let app = rules.apps.get("app").unwrap();
    assert_eq!(app.includes, strings(&["~/.config/app/*"]));
    assert_eq!(app.machines.get("laptop").unwrap().exclude, strings(&["**/secret.txt"]));
    assert!(rules.exclude_for_machine("nope", "laptop", "x").is_err());
}

#[test]
fn rename_app_moves_rules() {
    let mut rules = SyncRules::new();
    let mut app = AppConfig::default();
    app.includes = strings(&["~/.zshrc"]);
    rules.add_app("zsh".to_string(), app);
    rules.add_app("vim".to_string(), AppConfig::default());
    assert!(rules.rename_app("zsh", "").is_err());
    assert!(rules.rename_app("zsh", "a/b").is_err());
    assert!(rules.rename_app("zsh", "zsh").is_err());
    assert!(rules.rename_app("zsh", "vim").is_err());
    assert!(matches!(
        rules.rename_app("fish", "shell"),
        Err(drifters::error::DriftersError::AppNotFound(_))
    ));
    rules.rename_app("zsh", "shell").unwrap();
    assert!(rules.apps.get("zsh").is_none());
    assert_eq!(rules.apps.get("shell").unwrap().includes, strings(&["~/.zshrc"]));
    assert_eq!(rules.apps.len(), 2);
}

#[test]
fn machine_overrides_follow_renames_and_removals() {
    let mut rules = SyncRules::new();
    let mut app = AppConfig::default();
    app.machines.insert(
        "old".to_string(),
        MachineOverride { includes: strings(&["~/x"]), exclude: vec![] },
    );
    app.machines.insert("other".to_string(), MachineOverride::default());
    rules.add_app("a".to_string(), app);
    rules.add_app("b".to_string(), AppConfig::default());
    rules.rename_machine_overrides("old", "new");
    let a = rules.apps.get("a").unwrap();
    assert!(a.machines.get("old").is_none());
    assert_eq!(a.machines.get("new").unwrap().includes, strings(&["~/x"]));
    assert!(a.machines.get("other").is_some());
    rules.remove_machine_overrides("other");
    let a = rules.apps.get("a").unwrap();
    assert!(a.machines.get("other").is_none());
    assert_eq!(a.machines.len(), 1);
    assert!(rules.apps.get("b").unwrap().machines.is_empty());
}

#[test]
fn registry_rename_and_remove() {
    let mut reg = MachineRegistry::new();
    reg.register_machine("laptop".to_string(), "linux".to_string());
    reg.register_machine("desk".to_string(), "macos".to_string());
    assert!(reg.rename_machine("laptop", "desk").is_err());
    assert!(reg.rename_machine("ghost", "x").is_err());
    assert!(reg.rename_machine("laptop", "").is_err());
    reg.rename_machine("laptop", "book").unwrap();
    assert_eq!(reg.machines.get("book").unwrap().os, "linux");
    assert!(reg.machines.get("laptop").is_none());
    reg.remove_machine("desk").unwrap();
    assert!(reg.remove_machine("desk").is_err());
    assert_eq!(reg.machines.len(), 1);
}

#[test]
fn local_paths() {
    assert_eq!(temp_repo_path_under("/home/u"), "/home/u/.config/drifters/tmp-repo");
    assert_eq!(lock_path_of("/home/u/.config/drifters/tmp-repo"), "/home/u/.config/drifters/tmp-repo.lock");
    assert_eq!(lock_path_of("/x/repo.git"), "/x/repo.lock");
    assert_eq!(machine_id_from(None), "unknown");
    assert_eq!(machine_id_from(Some("box".to_string())), "box");
    let c = LocalConfig::new("m".to_string(), "u".to_string());
    assert_eq!(c.self_update_frequency, "always");
    assert_eq!(c.last_update_check, None);
}

#[test]
fn stale_lock_is_reclaimed() {
    let (s, a) = lock_start();
    assert_eq!(a, LockAction::TryCreate);
    let (s, a) = lock_step(s, LockEvent::Exists { age_secs: Some(301), elapsed_secs: 100 });
    assert_eq!(a, LockAction::RemoveStale);
    let (s, a) = lock_step(s, LockEvent::Removed);
    assert_eq!(a, LockAction::TryCreate);
    let (s, a) = lock_step(s, LockEvent::Created);
    assert_eq!((s, a), (LockState::Held, LockAction::Done));
}

#[test]
fn fresh_lock_waits_then_times_out() {
    let (s, _) = lock_start();
    let (s, a) = lock_step(s, LockEvent::Exists { age_secs: Some(300), elapsed_secs: 0 });
    assert_eq!(a, LockAction::Wait { show_notice: true });
    let (s, a) = lock_step(s, LockEvent::Waited);
    assert_eq!(a, LockAction::TryCreate);
    let (s, a) = lock_step(s, LockEvent::Exists { age_secs: None, elapsed_secs: 5 });
    assert_eq!(a, LockAction::Wait { show_notice: false });
    let (s, _) = lock_step(s, LockEvent::Waited);
    let (s, a) = lock_step(s, LockEvent::Exists { age_secs: Some(1), elapsed_secs: 30 });
    assert_eq!((s, a), (LockState::Failed, LockAction::TimedOut));
}

#[test]
fn lock_create_error_aborts() {
    let (s, _) = lock_start();
    let (_, a) = lock_step(s, LockEvent::CreateFailed { elapsed_secs: 0 });
    assert_eq!(a, LockAction::CreateError);
}

#[test]
fn push_size_safety() {
    assert!(check_push_sizes(5, None));
    assert!(!check_push_sizes(5, Some(11)));
    assert!(check_push_sizes(5, Some(10)));
    assert!(!check_push_sizes(100, Some(1001)));
    assert!(check_push_sizes(100, Some(1000)));
}

#[test]
fn machine_ids() {
    let mut reg = MachineRegistry::new();
    reg.register_machine("laptop".to_string(), "linux".to_string());
    assert_eq!(reg.machines.get("laptop").unwrap().os, "linux");
    assert!(reg.machines.get("laptop").unwrap().last_sync.is_some());
    assert_eq!(reg.check_new_machine_id(""), Some(MachineIdProblem::Empty));
    assert_eq!(reg.check_new_machine_id("a/b"), Some(MachineIdProblem::HasSeparator));
    assert_eq!(reg.check_new_machine_id("a\\b"), Some(MachineIdProblem::HasSeparator));
    assert_eq!(reg.check_new_machine_id("laptop"), Some(MachineIdProblem::Taken));
    assert_eq!(reg.check_new_machine_id("desk"), None);
}

#[test]
fn conflicts_keep_local() {
    assert!(matches!(resolve_conflict("a", "b").unwrap(), ConflictResolution::KeepLocal));
}

#[test]
fn selected_files_follow_path_order() {
    let found = strings(&["/h/nvim.bak/x", "/h/nvim/init.lua", "/h/a-b", "/h/a/b", "rel/x", "/h/a//b"]);
    assert_eq!(
        select_files(&found, &vec![], None),
        strings(&["/h/a/b", "/h/a-b", "/h/nvim/init.lua", "/h/nvim.bak/x", "rel/x"])
    );
}
