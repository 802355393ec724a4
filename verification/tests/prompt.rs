use mcpconfig::prompt::{
    default_system_prompt_files, label_for_path, label_for_stem, FileState, PromptInjector,
};

fn seen(modified: i128, content: &str) -> FileState {
    FileState::Present { modified, content: Some(content.to_string()) }
}

#[test]
fn test_inject_no_files() {
    let mut injector = PromptInjector::new(&["/nonexistent/foo.md".to_string()]);
    let result = injector.inject("You are helpful.", &[FileState::Missing]);
    assert_eq!(result, "You are helpful.");
}

#[test]
fn test_inject_with_files() {
    let mut injector = PromptInjector::new(&[
        "/tmp/mcpconfig_prompt_test/ARCHITECTURE.md".to_string(),
        "/tmp/mcpconfig_prompt_test/STATE.md".to_string(),
    ]);
    let result = injector.inject(
        "You are helpful.",
        &[
            seen(1, "# Architecture\nMCP-driven agent"),
            seen(2, "# State\nRunning on droplet"),
        ],
    );

    assert!(result.contains("[System Context]"));
    assert!(result.contains("MCP-driven agent"));
    assert!(result.contains("[Current State]"));
    assert!(result.contains("Running on droplet"));
    assert!(result.contains("[Task System Prompt]"));
    assert!(result.contains("You are helpful."));

    let ctx_pos = result.find("[System Context]").unwrap();
    let task_pos = result.find("[Task System Prompt]").unwrap();
    assert!(ctx_pos < task_pos);
}

#[test]
fn test_inject_partial_missing() {
    let mut injector = PromptInjector::new(&[
        "/tmp/mcpconfig_prompt_partial/ARCHITECTURE.md".to_string(),
        "/nonexistent/STATE.md".to_string(),
    ]);
    let result = injector.inject(
        "Original prompt",
        &[seen(1, "# Arch\nContent here"), FileState::Missing],
    );

    assert!(result.contains("[System Context]"));
    assert!(result.contains("Content here"));
    assert!(result.contains("[Task System Prompt]"));
    assert!(result.contains("Original prompt"));
    assert!(!result.contains("[Current State]"));
}

#[test]
fn test_mtime_cache() {
    let path = "/tmp/mcpconfig_prompt_mtime/STATE.md".to_string();
    let mut injector = PromptInjector::new(&[path.clone()]);

    assert!(injector.needs_read(&path, 1_000));
    let r1 = injector.inject("prompt", &[seen(1_000, "version 1")]);
    assert!(r1.contains("version 1"));
    assert!(!injector.needs_read(&path, 1_000));

    assert!(injector.needs_read(&path, 50_001_000));
    let r2 = injector.inject("prompt", &[seen(50_001_000, "version 2")]);
    assert!(r2.contains("version 2"));
}

#[test]
fn test_label_for_path() {
    assert_eq!(label_for_path("/opt/cpc/state/ARCHITECTURE.md"), "System Context");
    assert_eq!(label_for_path("/opt/cpc/state/STATE.md"), "Current State");
    assert_eq!(label_for_path("/opt/cpc/state/CUSTOM.md"), "CUSTOM");
}

#[test]
fn whole_injected_prompt() {
    let mut injector = PromptInjector::new(&["a/STATE.md".to_string(), "NOTES.txt".to_string()]);
    let result = injector.inject("go", &[seen(1, "s"), seen(1, "n")]);
    assert_eq!(result, "[Current State]\ns\n\n[NOTES]\nn\n\n[Task System Prompt]\ngo");
}

#[test]
fn unmodified_file_comes_from_the_cache() {
    let mut injector = PromptInjector::new(&["STATE.md".to_string()]);
    let first = injector.inject("p", &[seen(7, "old")]);
    let again = injector.inject("p", &[seen(7, "new")]);
    assert_eq!(first, again);
    let unread = injector.inject("p", &[FileState::Present { modified: 7, content: None }]);
    assert_eq!(first, unread);
}

#[test]
fn unreadable_file_is_skipped_and_not_forgotten() {
    let mut injector = PromptInjector::new(&["STATE.md".to_string()]);
    let first = injector.inject("p", &[seen(7, "old")]);
    let failed = injector.inject("p", &[FileState::Present { modified: 8, content: None }]);
    assert_eq!(failed, "p");
    let back = injector.inject("p", &[FileState::Present { modified: 7, content: None }]);
    assert_eq!(back, first);
}

#[test]
fn default_files_are_used_where_none_are_configured() {
    let injector = PromptInjector::new(&[]);
    assert_eq!(injector.paths(), default_system_prompt_files());
    assert_eq!(
        injector.paths(),
        vec!["/opt/cpc/state/ARCHITECTURE.md".to_string(), "/opt/cpc/state/STATE.md".to_string()]
    );
}

#[test]
fn labels_of_unusual_names() {
    assert_eq!(label_for_path("dir/archive.tar.gz"), "archive.tar");
    assert_eq!(label_for_path(".hidden"), ".hidden");
    assert_eq!(label_for_path(".hidden.md"), ".hidden");
    assert_eq!(label_for_path("plain"), "plain");
    assert_eq!(label_for_path("a..md"), "a.");
    assert_eq!(label_for_path("..."), "..");
    assert_eq!(label_for_path("x/a.b/c"), "c");
    assert_eq!(label_for_path("dir/.."), "Context");
    assert_eq!(label_for_stem(None), "Context");
    assert_eq!(label_for_stem(Some("STATE".to_string())), "Current State");
}

#[test]
fn labels_of_paths_without_a_plain_file_name() {
    assert_eq!(label_for_path("/"), "Context");
    assert_eq!(label_for_path(""), "Context");
    assert_eq!(label_for_path("."), "Context");
    assert_eq!(label_for_path("./"), "Context");
    assert_eq!(label_for_path("a/../"), "Context");
    assert_eq!(label_for_path("notes/state.md"), "state");
    assert_eq!(label_for_path("STATE.txt"), "Current State");
    assert_eq!(label_for_path("a.b.md"), "a.b");
    assert_eq!(label_for_path("/opt/state/STATE.md/"), "Current State");
    assert_eq!(label_for_path("foo.txt/."), "foo");
    assert_eq!(label_for_path("foo.txt/.//"), "foo");
    assert_eq!(label_for_path("d/a:b.md"), "a:b");
}

#[test]
fn empty_and_repeated_files_give_sections() {
    let mut injector = PromptInjector::new(&["x.md".to_string(), "x.md".to_string()]);
    let result = injector.inject("p", &[seen(1, ""), seen(1, "")]);
    assert_eq!(result, "[x]\n\n\n[x]\n\n\n[Task System Prompt]\np");
}

#[test]
fn injection_only_puts_text_in_front() {
    let files = ["a/STATE.md".to_string(), "b/GONE.md".to_string(), "c/NOTES.txt".to_string()];
    let mut injector = PromptInjector::new(&files);
    let first = [seen(1, "s"), FileState::Missing, FileState::Present { modified: 1, content: None }];
    let context = injector.inject("", &first);
    assert_eq!(context, "[Current State]\ns\n\n[Task System Prompt]\n");
    let again = [
        FileState::Present { modified: 1, content: None },
        FileState::Missing,
        FileState::Present { modified: 1, content: None },
    ];
    for prompt in ["go", "", "stay\n"] {
        assert_eq!(injector.inject(prompt, &again), format!("{}{}", context, prompt));
    }
}
