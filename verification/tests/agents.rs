use herdr_devcontainer_status::agents::{
    agents, canonical_agent, claimed_argv0, label_of, normalize, parse_args, strip_launcher,
    AGENT_WITHOUT_COMMAND, AGENT_WITHOUT_NAME,
};

#[test]
fn a_command_claims_the_pane_for_the_agent_it_names() {
    assert_eq!(claimed_argv0("codex", None), Some("codex".to_string()));
    assert_eq!(
        claimed_argv0("/usr/local/bin/codex", None),
        Some("codex".to_string())
    );
    assert_eq!(
        claimed_argv0("opencode", None),
        Some("opencode".to_string())
    );
    assert_eq!(claimed_argv0("bash", None), None);
    assert_eq!(claimed_argv0("/bin/zsh", None), None);
    assert_eq!(claimed_argv0("", None), None);
}

#[test]
fn a_named_claim_overrides_the_command() {
    // The claim is in place before the shell is, because an agent started inside the
    // container is invisible to herdr.
    assert_eq!(
        claimed_argv0("bash", Some("opencode")),
        Some("opencode".to_string())
    );
    assert_eq!(
        claimed_argv0("/bin/zsh", Some("codex")),
        Some("codex".to_string())
    );
}

#[test]
fn a_claim_uses_the_label_and_not_the_alias() {
    assert_eq!(
        claimed_argv0("cursor-agent", None),
        Some("cursor".to_string())
    );
    assert_eq!(claimed_argv0("kimi-code", None), Some("kimi".to_string()));
    assert_eq!(claimed_argv0("ghcs", None), Some("copilot".to_string()));
}

#[test]
fn an_extension_and_the_case_do_not_hide_an_agent() {
    assert_eq!(canonical_agent("codex.cmd"), Some("codex"));
    assert_eq!(canonical_agent("opencode.js"), Some("opencode"));
    // Only one suffix is stripped, so a double extension still fails to match.
    assert_eq!(canonical_agent("opencode.js.exe"), None);
    assert_eq!(canonical_agent("CODEX"), Some("codex"));
    // A leading path isn't stripped here: callers extract the file name first.
    assert_eq!(canonical_agent("/usr/local/bin/Codex"), None);
}

#[test]
fn every_canonical_label_resolves_to_itself_with_no_duplicate_aliases() {
    let mut seen = std::collections::HashSet::new();
    for group in agents() {
        assert_eq!(canonical_agent(group[0]), Some(group[0]));
        for alias in group {
            assert!(
                seen.insert(alias),
                "duplicate alias across groups: {alias}"
            );
        }
    }
}

fn args(v: &[&str]) -> Vec<String> {
    v.iter().map(|s| s.to_string()).collect::<Vec<_>>()
}

#[test]
fn parse_args_claims_a_recognised_or_unknown_agent_name() {
    let recognised = args(&["--agent", "opencode", "bash"]);
    let (claim, command) = parse_args(&recognised).unwrap();
    assert_eq!(claim.as_deref(), Some("opencode"));
    assert_eq!(command, &recognised[2..]);

    // Forwarded verbatim so a herdr agent this table doesn't know about yet still works.
    let unknown = args(&["--agent", "hypothetical", "bash"]);
    let (claim, _) = parse_args(&unknown).unwrap();
    assert_eq!(claim.as_deref(), Some("hypothetical"));

    // An alias resolves to its canonical label.
    let alias = args(&["--agent", "cursor-agent", "bash"]);
    let (claim, _) = parse_args(&alias).unwrap();
    assert_eq!(claim.as_deref(), Some("cursor"));
}

#[test]
fn a_command_without_a_leading_flag_is_untouched() {
    let session = args(&["codex", "--continue"]);
    let (claim, command) = parse_args(&session).unwrap();
    assert_eq!(claim, None);
    assert_eq!(command, &session[..]);

    // Only leading, so it can't swallow a flag meant for the command itself.
    let passthrough = args(&["codex", "--agent"]);
    let (claim, command) = parse_args(&passthrough).unwrap();
    assert_eq!(claim, None);
    assert_eq!(command, &passthrough[..]);
}

#[test]
fn parse_args_rejects_agent_flag_with_no_name_or_no_command() {
    assert!(parse_args(&args(&["--agent"])).is_err());
    // `--agent bash` reads "bash" as the agent name and has no command left, so it must
    // error, not silently claim.
    assert!(parse_args(&args(&["--agent", "bash"])).is_err());
}

#[test]
fn each_rejection_says_what_is_missing() {
    assert_eq!(
        parse_args(&args(&["--agent"])),
        Err(AGENT_WITHOUT_NAME.to_string())
    );
    assert_eq!(
        parse_args(&args(&["--agent", "codex"])),
        Err(AGENT_WITHOUT_COMMAND.to_string())
    );
    assert_eq!(
        AGENT_WITHOUT_COMMAND.lines().collect::<Vec<_>>(),
        [
            "exec: --agent takes an agent name now, and still needs a command",
            "  exec --agent codex bash    claims the pane and runs bash",
            "  exec bash                  runs it unclaimed",
        ]
    );
    let none = args(&[]);
    assert_eq!(parse_args(&none), Ok((None, &none[..])));
}

#[test]
fn every_alias_resolves_to_the_label_of_its_group() {
    for group in agents() {
        for alias in &group {
            assert_eq!(canonical_agent(alias), Some(group[0]));
            assert_eq!(label_of(alias), Some(group[0]));
            assert_eq!(
                claimed_argv0(&format!("/opt/bin/{alias}"), None),
                Some(group[0].to_string())
            );
        }
    }
    assert_eq!(agents().len(), 21);
    assert_eq!(agents().iter().map(|g| g.len()).sum::<usize>(), 40);
}

#[test]
fn normalizing_lowercases_and_trims() {
    assert_eq!(normalize("  Codex.EXE\n"), "codex");
    assert_eq!(normalize("\u{a0}ÉCLAIR.Js\u{3000}"), "éclair");
    assert_eq!(normalize("codex"), "codex");
    assert_eq!(normalize(""), "");
}

#[test]
fn one_extension_is_stripped_and_no_more() {
    for suffix in [".exe", ".cmd", ".bat", ".ps1", ".js"] {
        assert_eq!(strip_launcher(&format!("agent{suffix}")), "agent");
        assert_eq!(strip_launcher(&format!("a.js{suffix}")), "a.js");
    }
    assert_eq!(strip_launcher("agent.sh"), "agent.sh");
    assert_eq!(strip_launcher(".js"), "");
}

#[test]
fn case_and_space_do_not_matter() {
    for name in ["Kimi-Code", " kimi-code ", "KIMI-CODE.EXE", "\tkimi-code.exe"] {
        assert_eq!(canonical_agent(name), Some("kimi"));
    }
}

#[test]
fn a_passed_on_command_is_read_unchanged() {
    let first = args(&["--agent", "codex", "bash", "--agent"]);
    let (_, command) = parse_args(&first).unwrap();
    assert_eq!(parse_args(command), Ok((None, command)));
}

#[test]
fn the_case_of_ascii_letters_does_not_matter_in_any_name() {
    for name in ["ÉCLAIR.Js", "ὈΔΥΣΣΕΎΣ", "AΣ", "AΣB", "Σ", "xΣ.EXE", "İstanbul", "K\u{212a}k"] {
        let lower = name.to_ascii_lowercase();
        assert_eq!(normalize(name), normalize(&lower));
        assert_eq!(normalize(name), normalize(&format!("\u{2003}{lower} ")));
        assert_eq!(canonical_agent(name), canonical_agent(&lower));
    }
    assert_eq!(canonical_agent("\u{212a}IMI"), Some("kimi"));
}

#[test]
fn what_a_name_resolves_to_resolves_to_itself() {
    for name in ["GHCS", "open-code.cmd", " qodercn ", "antigravity-cli"] {
        let label = canonical_agent(name).unwrap();
        assert_eq!(canonical_agent(label), Some(label));
    }
    assert_eq!(label_of("nobody"), None);
}
