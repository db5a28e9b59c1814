use d9cker::contexts::{
    attach_args, current_context, exec_args, load_contexts, read_result, remote_edit_args, remote_read_args,
    resolve_host, sh_quote, ssh_target, DockerContext,
};

fn ctx(name: &str, host: &str) -> DockerContext {
    DockerContext {
        name: name.into(),
        description: format!("{name} box"),
        host: host.into(),
    }
}

#[test]
fn ssh_target_parses() {
    assert_eq!(
        ssh_target("ssh://yizhi@10.0.0.106"),
        Some(("yizhi@10.0.0.106".into(), None))
    );
    assert_eq!(
        ssh_target("ssh://user@host:2222"),
        Some(("user@host".into(), Some("2222".into())))
    );
    assert_eq!(ssh_target("unix:///var/run/docker.sock"), None);
}

#[test]
fn sh_quote_escapes() {
    assert_eq!(sh_quote("/a/b.yml"), "'/a/b.yml'");
    assert_eq!(sh_quote("/it's/x.yml"), "'/it'\\''s/x.yml'");
}

#[test]
fn ssh_target_keeps_a_non_numeric_suffix() {
    assert_eq!(
        ssh_target("ssh://user@host:abc"),
        Some(("user@host:abc".into(), None))
    );
    assert_eq!(ssh_target("ssh://host:"), Some(("host:".into(), None)));
    assert_eq!(
        ssh_target("ssh://a:1:22"),
        Some(("a:1".into(), Some("22".into())))
    );
    assert_eq!(ssh_target("ssh://"), Some(("".into(), None)));
    assert_eq!(ssh_target("tcp://host:2375"), None);
}

#[test]
fn sh_quote_of_quotes_only() {
    assert_eq!(sh_quote("''"), "''\\'''\\'''");
    assert_eq!(sh_quote(""), "''");
}

#[test]
fn load_contexts_adds_default_and_sorts_by_name() {
    let stored = vec![ctx("prod", "ssh://p"), ctx("", "ssh://x"), ctx("dev", "tcp://d:2375")];
    let all = load_contexts(None, stored);
    let names: Vec<&str> = all.iter().map(|c| c.name.as_str()).collect();
    assert_eq!(names, ["default", "dev", "prod"]);
    assert_eq!(all[0].host, "unix:///var/run/docker.sock");
    assert_eq!(all[0].description, "Current DOCKER_HOST based configuration");
    assert_eq!(all[1].host, "tcp://d:2375");
}

#[test]
fn load_contexts_default_follows_docker_host() {
    let all = load_contexts(Some("tcp://1.2.3.4:2375".into()), vec![ctx("Zeta", "z"), ctx("alpha", "a")]);
    let names: Vec<&str> = all.iter().map(|c| c.name.as_str()).collect();
    // byte order: upper case sorts before lower case
    assert_eq!(names, ["Zeta", "alpha", "default"]);
    assert_eq!(all[2].host, "tcp://1.2.3.4:2375");
}

#[test]
fn resolve_host_finds_the_first_named() {
    let cs = vec![ctx("a", "ssh://one"), ctx("b", "ssh://two"), ctx("a", "ssh://three")];
    assert_eq!(resolve_host(&cs, "a"), Ok("ssh://one".to_string()));
    assert_eq!(resolve_host(&cs, "b"), Ok("ssh://two".to_string()));
    assert_eq!(resolve_host(&cs, "c"), Err("unknown context 'c'".to_string()));
}

#[test]
fn current_context_prefers_env_then_config() {
    assert_eq!(current_context(Some("ci".into()), Some("prod".into())), "ci");
    assert_eq!(current_context(Some("".into()), Some("prod".into())), "prod");
    assert_eq!(current_context(None, Some("".into())), "default");
    assert_eq!(current_context(None, None), "default");
}

#[test]
fn remote_file_commands() {
    assert_eq!(
        remote_read_args("ssh://me@box:2200", "/srv/compose.yml"),
        Some(vec![
            "-o".to_string(),
            "BatchMode=yes".into(),
            "-p".into(),
            "2200".into(),
            "me@box".into(),
            "cat".into(),
            "--".into(),
            "/srv/compose.yml".into(),
        ])
    );
    assert_eq!(remote_read_args("unix:///var/run/docker.sock", "/x"), None);
    assert_eq!(
        remote_edit_args("ssh://me@box", "/it's.yml"),
        Some(vec![
            "-t".to_string(),
            "me@box".into(),
            "${EDITOR:-vi} '/it'\\''s.yml'".into(),
        ])
    );
    assert_eq!(remote_edit_args("tcp://h:1", "/x"), None);
}

#[test]
fn docker_cli_arguments() {
    assert_eq!(
        exec_args("prod", "abc"),
        vec![
            "--context",
            "prod",
            "exec",
            "-it",
            "abc",
            "sh",
            "-c",
            "command -v bash >/dev/null 2>&1 && exec bash || exec sh"
        ]
    );
    assert_eq!(
        attach_args("dev", "c1"),
        vec!["--context", "dev", "attach", "--sig-proxy=false", "c1"]
    );
}

#[test]
fn default_resolves_to_the_built_in_context() {
    let stored = vec![ctx("default", "tcp://elsewhere:2375"), ctx("a", "unix:///a.sock")];
    let all = load_contexts(None, stored.clone());
    assert_eq!(resolve_host(&all, "default"), Ok("unix:///var/run/docker.sock".to_string()));
    let all = load_contexts(Some("tcp://1.2.3.4:2375".into()), stored);
    assert_eq!(resolve_host(&all, "default"), Ok("tcp://1.2.3.4:2375".to_string()));
}

#[test]
fn read_result_keeps_output_or_trims_the_error() {
    assert_eq!(read_result(true, " out \n".to_string(), "ignored"), Ok(" out \n".to_string()));
    assert_eq!(
        read_result(false, "partial".to_string(), "  cat: /x: No such file\n"),
        Err("cat: /x: No such file".to_string())
    );
    assert_eq!(read_result(false, String::new(), " \t\n"), Err(String::new()));
}
