use agent_skills::mcp::{
    ask_llm_answer, echo, finished_task_state, greet_user, greeting, list_resource_templates,
    list_resources, list_tasks, list_workspace_roots, ping, read_resource, slow_count_result,
    summarize, EchoPromptArgs, ElicitOutcome, FinishedTask, ResourceError, Role, SlowCountArgs,
    SummarizePromptArgs, TaskState, UserNameInput, WorkspaceRoot, SLOW_COUNT_TICK_MS,
};

#[test]
fn list_resources_returns_the_static_example() {
    let listed = list_resources();
    assert_eq!(listed.len(), 1);
    assert_eq!(listed[0].uri, "mem://example");
    assert_eq!(listed[0].name, "example");
}

#[test]
fn read_resource_serves_static_and_templated_uris() {
    let r = read_resource("mem://example").unwrap();
    assert!(r.text.contains("Example in-memory resource"));
    assert_eq!(r.uri, "mem://example");

    let r = read_resource("echo://hello").unwrap();
    assert_eq!(r.text, "hello");

    let err = read_resource("echo://").expect_err("empty echo:// URI should be rejected");
    assert!(matches!(&err, ResourceError::InvalidParams { message, uri } if message.contains("non-empty") && uri == "echo://"));
}

#[test]
fn echo_resource_keeps_slashes() {
    assert_eq!(read_resource("echo://a/b").unwrap().text, "a/b");
}

#[test]
fn greet_resource_renders_localized_greetings() {
    assert_eq!(read_resource("greet://en/Ada").unwrap().text, "Hello, Ada!");
    assert_eq!(read_resource("greet://JA/Ada").unwrap().text, "こんにちは, Ada!");
    assert_eq!(read_resource("greet://Es/Ada").unwrap().text, "Hola, Ada!");
    assert_eq!(read_resource("greet://fr/Ada/Lovelace").unwrap().text, "Bonjour, Ada/Lovelace!");
    assert_eq!(read_resource("greet://xx/Ada").unwrap().text, "Hello, Ada!");
    for bad in ["greet://en", "greet://en/", "greet:///Ada", "greet://"] {
        assert!(matches!(
            read_resource(bad),
            Err(ResourceError::InvalidParams { message, .. }) if message == "greet:// requires both a language and a name segment"
        ), "{bad}");
    }
    assert!(matches!(read_resource("file:///etc"), Err(ResourceError::NotFound { uri }) if uri == "file:///etc"));
}

#[test]
fn resource_templates_are_listed() {
    let t = list_resource_templates();
    assert_eq!(t.len(), 2);
    assert_eq!(t[0].uri_template, "echo://{message}");
    assert_eq!(t[1].uri_template, "greet://{language}/{name}");
    assert_eq!(t[1].mime_type, "text/plain");
}

#[test]
fn get_echo_prompt_returns_the_supplied_message() {
    let p = echo(&EchoPromptArgs { message: "hi".into() });
    assert_eq!(p.messages.len(), 1);
    assert_eq!(p.messages[0].0, Role::User);
    assert_eq!(p.messages[0].1, "hi");
    assert_eq!(p.description, "Echo of: hi");
}

#[test]
fn greeting_and_summary_prompts() {
    let g = greeting();
    assert_eq!(g.messages.len(), 2);
    assert_eq!(g.messages[1].0, Role::Assistant);
    let p = summarize(&SummarizePromptArgs { topic: "Rust".into(), bullet_count: 3, tone: None }).unwrap();
    assert_eq!(p.description, "3-bullet neutral summary of 'Rust'");
    assert_eq!(
        p.messages[0].1,
        "You are a concise writer. Respond in a neutral tone using exactly 3 bullet points."
    );
    assert_eq!(p.messages[1].1, "Summarize the following topic: Rust");
    let p = summarize(&SummarizePromptArgs { topic: "t".into(), bullet_count: 12, tone: Some("formal".into()) }).unwrap();
    assert_eq!(p.description, "12-bullet formal summary of 't'");
    assert!(summarize(&SummarizePromptArgs { topic: "t".into(), bullet_count: 0, tone: None }).is_err());
}

#[test]
fn call_ping_returns_pong() {
    assert_eq!(ping(), "pong");
}

#[test]
fn call_slow_count_synchronously_returns_the_target() {
    assert_eq!(slow_count_result(&SlowCountArgs { target: 1 }), "1");
    assert_eq!(slow_count_result(&SlowCountArgs { target: 255 }), "255");
    assert_eq!(SLOW_COUNT_TICK_MS, 100);
}

#[test]
fn declined_elicitation_returns_a_graceful_success() {
    let text = greet_user(&ElicitOutcome::Declined).unwrap();
    assert!(text.contains("declined"));
    assert_eq!(greet_user(&ElicitOutcome::Provided(UserNameInput { name: "Ada".into() })).unwrap(), "Hello, Ada!");
    assert_eq!(greet_user(&ElicitOutcome::Failed("io".into())).unwrap_err(), "elicitation failed: io");
}

#[test]
fn ask_llm_takes_the_first_text_block() {
    assert_eq!(ask_llm_answer(&vec![None, Some("a".into()), Some("b".into())]), "a");
    assert_eq!(ask_llm_answer(&vec![None]), "(no text response)");
}

#[test]
fn workspace_roots_text() {
    assert_eq!(list_workspace_roots(&vec![]), "Client exposed no roots.");
    let roots = vec![
        WorkspaceRoot { name: Some("proj".into()), uri: "file:///p".into() },
        WorkspaceRoot { name: None, uri: "file:///q".into() },
    ];
    assert_eq!(list_workspace_roots(&roots), "- proj (file:///p)\n- file:///q");
}

#[test]
fn list_tasks_reports_cancelled_status_for_cancelled_task() {
    let done = FinishedTask { id: "t1".into(), error: None };
    let cancelled = FinishedTask { id: "t2".into(), error: Some("Operation Cancelled".into()) };
    let timed_out = FinishedTask { id: "t3".into(), error: Some("Operation timed out".into()) };
    assert_eq!(finished_task_state(&done), TaskState::Completed);
    assert_eq!(finished_task_state(&cancelled), TaskState::Cancelled);
    assert_eq!(finished_task_state(&timed_out), TaskState::Failed);
    let listed = list_tasks(&vec!["r1".into()], &vec![done, cancelled, timed_out]);
    assert_eq!(listed.len(), 4);
    assert_eq!(listed[0], ("r1".to_string(), TaskState::Working));
    assert_eq!(listed[2], ("t2".to_string(), TaskState::Cancelled));
}
