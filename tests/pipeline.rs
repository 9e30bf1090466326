use new_cli::hooks::{
    advance, command_outcome, Phase, CommandFailure, Hook, HookRun, Registry, RemoveGit, ReplacePlaceholders,
    RunCommands, Stage,
};
use new_cli::init::{ensure_directory_available, find_recipe, resolve_directory, run, DirectoryAction, InitArgs, InitError};
use new_cli::paths::{name_from_path, project_name};
use new_cli::repo::{is_local_repo, normalize_repo, RepoError};

#[test]
fn default_hooks_run_after_clone_in_registration_order() {
    let registry = Registry::with_defaults();
    assert!(registry.hooks_at(Stage::PreClone).is_empty());
    let mut run = HookRun::start(&registry, Stage::PostClone);
    let mut seen = Vec::new();
    while let Some(h) = run.next_hook() {
        seen.push(h.name());
        run.record(true);
    }
    assert_eq!(seen, vec!["Remove .git directory from template", "Replace Placeholders", "Run Commands"]);
    assert_eq!(run.failure(), None);
}

#[test]
fn failing_hook_stops_the_run() {
    let mut registry = Registry::new();
    registry.register(Hook::RemoveGit(RemoveGit));
    registry.register(Hook::ReplacePlaceholders(ReplacePlaceholders));
    registry.register(Hook::RunCommands(RunCommands));
    let mut run = HookRun::start(&registry, Stage::PostClone);
    assert_eq!(run.next_hook(), Some(Hook::RemoveGit(RemoveGit)));
    run.record(true);
    assert_eq!(run.next_hook(), Some(Hook::ReplacePlaceholders(ReplacePlaceholders)));
    run.record(false);
    assert_eq!(run.next_hook(), None);
    assert_eq!(run.failure(), Some(Hook::ReplacePlaceholders(ReplacePlaceholders)));
}

#[test]
fn command_status_is_classified() {
    assert_eq!(command_outcome(true, Some(0)), Ok(()));
    assert_eq!(command_outcome(false, Some(3)), Err(CommandFailure::ExitCode(3)));
    assert_eq!(command_outcome(false, None), Err(CommandFailure::Signal));
}

#[test]
fn repo_shorthand_becomes_a_github_url() {
    assert_eq!(normalize_repo("  owner/repo \n").unwrap(), "https://github.com/owner/repo");
    assert_eq!(normalize_repo("https://example.com/a/b"), Err(RepoError::Url));
    assert_eq!(normalize_repo("github.com/a"), Err(RepoError::Url));
    assert_eq!(normalize_repo("git@host:a/b"), Err(RepoError::Url));
    assert_eq!(normalize_repo("owner"), Err(RepoError::Form));
    assert_eq!(normalize_repo("/repo"), Err(RepoError::Form));
    assert_eq!(normalize_repo("owner/"), Err(RepoError::Form));
    assert_eq!(normalize_repo("a/b/c"), Err(RepoError::Form));
}

#[test]
fn local_repos_are_recognised() {
    assert!(is_local_repo("file:///tmp/x", false));
    assert!(is_local_repo("/tmp/x", true));
    assert!(!is_local_repo("https://github.com/a/b", false));
}

#[test]
fn names_from_paths() {
    assert_eq!(project_name("/work/MyProject"), Some("MyProject".to_string()));
    assert_eq!(project_name("/work/MyProject/"), Some("MyProject".to_string()));
    assert_eq!(project_name("/"), None);
    assert_eq!(name_from_path("/recipes/rust.toml"), "rust");
}

#[test]
fn init_checks_its_arguments() {
    let none = InitArgs { template: None, directory: None };
    assert_eq!(run(&none).err(), Some(InitError::MissingTemplate));
    let args = InitArgs { template: Some("rust".to_string()), directory: Some("p".to_string()) };
    let q = run(&args).unwrap();
    assert_eq!(q.template, "rust");
    assert_eq!(q.directory, Some("p".to_string()));
    assert_eq!(resolve_directory(None, None), Err(InitError::MissingDirectory));
    assert_eq!(resolve_directory(None, Some("a".to_string())), Ok("a".to_string()));
    assert_eq!(resolve_directory(Some("g".to_string()), Some("a".to_string())), Ok("g".to_string()));
}

#[test]
fn project_directory_availability() {
    assert_eq!(ensure_directory_available(true, true, true), Err(InitError::DirectoryNotEmpty));
    assert_eq!(ensure_directory_available(true, false, true), Ok(DirectoryAction::UseExisting));
    assert_eq!(ensure_directory_available(false, false, true), Err(InitError::NotADirectory));
    assert_eq!(ensure_directory_available(false, false, false), Ok(DirectoryAction::CreateParent));
}

#[test]
fn materialization_phases_stop_at_a_failure() {
    assert_eq!(advance(Phase::PreCloneHooks, true), Phase::Clone);
    assert_eq!(advance(Phase::Clone, true), Phase::PostCloneHooks);
    assert_eq!(advance(Phase::PostCloneHooks, true), Phase::Done);
    assert_eq!(advance(Phase::PreCloneHooks, false), Phase::Failed);
    assert_eq!(advance(Phase::Failed, true), Phase::Failed);
}

#[test]
fn recipes_are_found_by_name() {
    let names: Vec<String> = ["rust", "web", "rust"].iter().map(|s| s.to_string()).collect();
    assert_eq!(find_recipe(&names, &"rust".to_string()), Some(0));
    assert_eq!(find_recipe(&names, &"web".to_string()), Some(1));
    assert_eq!(find_recipe(&names, &"go".to_string()), None);
}
