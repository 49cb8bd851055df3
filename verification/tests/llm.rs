use workmux::llm::{
    accept_branch_name, custom_launch, full_prompt, generate_branch_name, run_custom_command,
    run_generator_command, run_llm_command, sanitize_branch_name, Launch, NameError, Run, Step,
    DEFAULT_SYSTEM_PROMPT,
};

fn printed(stdout: &str) -> Run {
    Run::Finished {
        success: true,
        code: Some(0),
        stdout: stdout.as_bytes().to_vec(),
        stderr: vec![],
    }
}

fn failed(code: Option<i32>, stderr: &[u8]) -> Run {
    Run::Finished { success: false, code, stdout: b"ignored".to_vec(), stderr: stderr.to_vec() }
}

fn custom(program: &str, args: &[&str]) -> Launch {
    Launch::Custom {
        program: program.to_string(),
        args: args.iter().map(|arg| arg.to_string()).collect(),
    }
}

#[test]
fn sanitize_branch_name_simple() {
    assert_eq!(sanitize_branch_name("add-user-auth"), "add-user-auth");
}

#[test]
fn sanitize_branch_name_with_backticks() {
    assert_eq!(sanitize_branch_name("`add-user-auth`"), "add-user-auth");
}

#[test]
fn sanitize_branch_name_with_triple_backticks() {
    assert_eq!(
        sanitize_branch_name("```\nadd-user-auth\n```"),
        "add-user-auth"
    );
}

#[test]
fn sanitize_branch_name_multiline() {
    assert_eq!(
        sanitize_branch_name("add-user-auth\nsome explanation"),
        "add-user-auth"
    );
}

#[test]
fn sanitize_branch_name_with_spaces() {
    assert_eq!(sanitize_branch_name("add user auth"), "add-user-auth");
}

#[test]
fn sanitize_branch_name_with_special_chars() {
    assert_eq!(sanitize_branch_name("Add User Auth!"), "add-user-auth");
}

#[test]
fn sanitize_branch_name_empty() {
    assert_eq!(sanitize_branch_name(""), "");
}

#[test]
fn sanitize_branch_name_whitespace_only() {
    assert_eq!(sanitize_branch_name("   "), "");
}

#[test]
fn run_generator_dispatches_to_custom_command() {
    let launch =
        run_generator_command(Some("nonexistent-test-cmd"), Some("model"), "prompt").unwrap();
    let result = launch.finish(Run::NotStarted);
    assert!(result.is_err());
    let err = result.unwrap_err().message();
    assert!(
        err.contains("nonexistent-test-cmd"),
        "Error should mention the custom command: {}",
        err
    );
}

#[test]
fn custom_command_rejects_mismatched_quotes() {
    let result = run_custom_command("gemini --sys \"unclosed", "prompt");
    assert!(result.is_err());
    let err = result.unwrap_err().message();
    assert!(
        err.contains("mismatched quotes"),
        "Should report mismatched quotes: {}",
        err
    );
}

#[test]
fn sanitize_branch_name_cleans_the_first_line_only() {
    assert_eq!(sanitize_branch_name("``` Fix\u{a0}the  Bug \r\nand more ```"), "fix-the-bug");
    assert_eq!(sanitize_branch_name("`\n\n`"), "");
    assert_eq!(sanitize_branch_name("a`b"), "a-b");
    assert_eq!(sanitize_branch_name("\u{dc}ber"), "uber");
}

#[test]
fn sanitize_branch_name_of_ascii() {
    for (raw, name) in [
        ("--Fix__the--BUG 42!?", "fix-the-bug-42"),
        ("a\tb", "a-b"),
        ("@[`{/:", ""),
        ("AZaz09", "azaz09"),
    ] {
        assert_eq!(sanitize_branch_name(raw), name);
    }
}

#[test]
fn sanitize_branch_name_keeps_its_own_results() {
    for raw in ["Add User Auth!", "x--y", "-a-", "42"] {
        let once = sanitize_branch_name(raw);
        assert_eq!(sanitize_branch_name(&once), once);
    }
}

#[test]
fn full_prompt_joins_system_and_user() {
    assert_eq!(full_prompt(Some("S"), "fix it"), "S\n\nUser Input:\nfix it");
    assert_eq!(
        full_prompt(None, "fix it"),
        format!("{}\n\nUser Input:\nfix it", DEFAULT_SYSTEM_PROMPT)
    );
    assert_eq!(
        DEFAULT_SYSTEM_PROMPT,
        r#"Generate a short, valid git branch name (kebab-case) based on the user's input.
Output ONLY the branch name."#
    );
}

#[test]
fn custom_command_is_split_into_words() {
    assert_eq!(
        run_custom_command("gemini -p 'be brief' \"a\"b # note", "P").unwrap(),
        custom("gemini", &["-p", "be brief", "ab", "P"])
    );
    assert_eq!(run_custom_command("gemini", "P").unwrap(), custom("gemini", &["P"]));
}

#[test]
fn custom_command_without_quotes_is_split_at_blanks() {
    assert_eq!(
        run_custom_command(" gen\t-x  a#b\n\u{e9}\r ", "P").unwrap(),
        custom("gen", &["-x", "a#b", "\u{e9}\r", "P"])
    );
    assert!(matches!(run_custom_command(" \t\n", "P"), Err(NameError::EmptyCommand)));
}

#[test]
fn custom_command_rejects_any_open_quote() {
    for line in ["'", "gen \"", "gen 'x y", "gen x\"y\nz"] {
        match run_custom_command(line, "P") {
            Err(NameError::MismatchedQuotes(said)) => assert_eq!(said, line),
            other => panic!("{:?}", other),
        }
    }
}

#[test]
fn custom_command_needs_a_word() {
    let error = run_custom_command("# only a comment", "P").unwrap_err();
    assert!(matches!(error, NameError::EmptyCommand));
    assert_eq!(error.message(), "auto_name.command is empty");
}

#[test]
fn custom_launch_of_given_words() {
    let words = Some(vec!["a".to_string(), "b".to_string()]);
    assert_eq!(custom_launch(words, "a b", "P").unwrap(), custom("a", &["b", "P"]));
    assert!(matches!(custom_launch(Some(vec![]), "", "P"), Err(NameError::EmptyCommand)));
    assert_eq!(
        custom_launch(None, "a 'b", "P").unwrap_err().message(),
        "Failed to parse auto_name.command: mismatched quotes in 'a 'b'"
    );
}

#[test]
fn llm_command_names_the_model() {
    assert_eq!(
        run_llm_command(Some("gpt"), "P"),
        Launch::Llm { args: vec!["-m".to_string(), "gpt".to_string()], input: "P".to_string() }
    );
    assert_eq!(
        run_llm_command(None, "P"),
        Launch::Llm { args: vec![], input: "P".to_string() }
    );
}

#[test]
fn blank_command_means_llm() {
    for command in [None, Some(""), Some(" \t\n")] {
        assert_eq!(
            run_generator_command(command, None, "P").unwrap(),
            Launch::Llm { args: vec![], input: "P".to_string() }
        );
    }
    assert_eq!(
        run_generator_command(Some("  cmd x "), Some("m"), "P").unwrap(),
        custom("cmd", &["x", "P"])
    );
}

#[test]
fn finish_reports_failures() {
    let error = custom("gen", &[]).finish(failed(Some(3), b" bad \xff\n")).unwrap_err();
    assert_eq!(error.message(), "Custom command 'gen' failed (exit code 3):\nbad \u{fffd}");
    let error = custom("gen", &[]).finish(failed(None, b"")).unwrap_err();
    assert_eq!(error.message(), "Custom command 'gen' failed (exit code 1):\n");
    let error = custom("gen", &[]).finish(failed(Some(-2147483648), b"")).unwrap_err();
    assert_eq!(error.message(), "Custom command 'gen' failed (exit code -2147483648):\n");
    let error = custom("gen", &[]).finish(Run::NotStarted).unwrap_err();
    assert_eq!(error.message(), "Failed to execute custom command 'gen'");
    let error = run_llm_command(None, "P").finish(failed(Some(1), b" no key\n")).unwrap_err();
    assert_eq!(error.message(), "llm command failed:  no key\n");
    let error = run_llm_command(None, "P").finish(Run::NotStarted).unwrap_err();
    assert_eq!(
        error.message(),
        "Failed to run 'llm' command. Is it installed? (pipx install llm)"
    );
}

#[test]
fn finish_takes_the_answer() {
    assert_eq!(custom("gen", &[]).finish(printed("a b\n")).unwrap(), "a b\n");
    let run = Run::Finished { success: true, code: Some(0), stdout: vec![b'a', 0xff], stderr: vec![] };
    let error = run_llm_command(None, "P").finish(run).unwrap_err();
    assert!(matches!(error, NameError::NotUtf8(_)));
    assert_eq!(error.message(), "invalid utf-8 sequence of 1 bytes from index 1");
}

#[test]
fn finish_tells_of_the_answer_and_not_of_the_complaint() {
    let run = Run::Finished {
        success: true,
        code: Some(0),
        stdout: vec![b'a', b'b', 0xc3],
        stderr: vec![0xff],
    };
    match generate_branch_name("fix it", None, None, None, Some(run)) {
        Step::Failed(error) => {
            assert_eq!(error.message(), "incomplete utf-8 byte sequence from index 2");
        }
        other => panic!("{:?}", other),
    }
}

#[test]
fn accept_branch_name_refuses_nothing() {
    assert_eq!(accept_branch_name("a".to_string()).unwrap(), "a");
    let error = accept_branch_name(String::new()).unwrap_err();
    assert!(matches!(error, NameError::EmptyName));
    assert_eq!(error.message(), "LLM returned empty branch name");
}

#[test]
fn generate_branch_name_first_says_what_to_run() {
    match generate_branch_name("fix it", Some("m"), Some("S"), None, None) {
        Step::Run(launch) => {
            assert_eq!(launch, run_llm_command(Some("m"), "S\n\nUser Input:\nfix it"));
        }
        other => panic!("{:?}", other),
    }
}

#[test]
fn generate_branch_name_runs_the_command() {
    match generate_branch_name("fix it", None, Some("S"), Some(" gen "), None) {
        Step::Run(launch) => assert_eq!(launch, custom("gen", &["S\n\nUser Input:\nfix it"])),
        other => panic!("{:?}", other),
    }
}

#[test]
fn generate_branch_name_then_names() {
    match generate_branch_name("fix it", None, None, Some("gen"), Some(printed(" `Fix It`\n"))) {
        Step::Named(name) => assert_eq!(name, "fix-it"),
        other => panic!("{:?}", other),
    }
}

#[test]
fn generate_branch_name_fails() {
    match generate_branch_name("fix it", None, None, None, Some(printed("\n!!\n"))) {
        Step::Failed(error) => assert!(matches!(error, NameError::EmptyName)),
        other => panic!("{:?}", other),
    }
    match generate_branch_name("fix it", None, None, Some("gen '"), None) {
        Step::Failed(error) => assert!(matches!(error, NameError::MismatchedQuotes(_))),
        other => panic!("{:?}", other),
    }
    match generate_branch_name("fix it", None, None, Some("gen"), Some(failed(Some(2), b"x"))) {
        Step::Failed(error) => assert!(matches!(error, NameError::CustomFailed { .. })),
        other => panic!("{:?}", other),
    }
}
