use jarvis::deploy::{
    build_deploy_presets, build_jenkins_server_config, credential_names, env_key_prefix,
    resolve_jenkins_mcp_path, token_keychain_account, validate_credential_name,
    validate_project_aliases, CredentialInput, McpServerConfig, ProjectInput,
};

fn cred(name: &str, username: &str, token: Option<&str>, projects: Vec<ProjectInput>) -> CredentialInput {
    CredentialInput {
        name: name.to_string(),
        username: username.to_string(),
        token: token.map(|t| t.to_string()),
        projects,
    }
}

fn proj(job: &str, alias: &str) -> ProjectInput {
    ProjectInput { job: job.to_string(), alias: alias.to_string() }
}

fn lookup<'a>(pairs: &'a [(String, String)], key: &str) -> Option<&'a str> {
    pairs.iter().find(|(k, _)| k == key).map(|(_, v)| v.as_str())
}

#[test]
fn validate_credential_name_rules() {
    assert!(validate_credential_name("test").is_ok());
    assert!(validate_credential_name("prod-2").is_ok());
    assert!(validate_credential_name("Test").is_ok());
    assert!(validate_credential_name("").is_err());
    assert!(validate_credential_name("  ").is_err());
    assert!(validate_credential_name("my env").is_err());
    assert!(validate_credential_name("a.b").is_err());
    assert!(validate_credential_name("中文").is_err());
}

#[test]
fn validate_project_aliases_rejects_empty() {
    let creds = vec![cred("acct-1", "user", Some("tok"), vec![proj("job-a", "")])];
    let e = validate_project_aliases(&creds).unwrap_err();
    assert!(e.contains("别名不能为空"), "实得: {}", e);
    assert!(e.contains("job-a"), "错误应指明是哪个 job: {}", e);
    let creds = vec![cred("acct-1", "user", Some("tok"), vec![proj("job-b", "  ")])];
    assert!(validate_project_aliases(&creds).is_err());
}

#[test]
fn validate_project_aliases_ok() {
    let creds = vec![cred(
        "acct-1",
        "user",
        Some("tok"),
        vec![proj("job-a", "质量系统"), proj("job-b", "人资")],
    )];
    assert!(validate_project_aliases(&creds).is_ok());
    assert!(validate_project_aliases(&vec![cred("acct-2", "u", None, vec![])]).is_ok());
}

#[test]
fn env_key_and_account_casing() {
    assert_eq!(env_key_prefix("Test"), "JENKINS_ENV_TEST_");
    assert_eq!(env_key_prefix("prod"), "JENKINS_ENV_PROD_");
    assert_eq!(token_keychain_account("Test"), "jenkins-test-token");
    assert_eq!(token_keychain_account("PROD"), "jenkins-prod-token");
}

#[test]
fn build_jenkins_config_env_shape() {
    let creds = vec![
        cred("test", "deploy-bot", Some("secret-t"), vec![]),
        cred("Prod", "prod-user", None, vec![]),
    ];
    let cfg = build_jenkins_server_config(
        r"D:\x\index.js",
        "http://jenkins.example.internal:8080/",
        &creds,
        true,
        Vec::new(),
    );
    assert_eq!(cfg.command, "node");
    assert_eq!(cfg.args, vec![r"D:\x\index.js".to_string()]);
    assert!(cfg.enabled);
    assert_eq!(lookup(&cfg.env, "JENKINS_ENV_TEST_URL").unwrap(), "http://jenkins.example.internal:8080/");
    assert_eq!(lookup(&cfg.env, "JENKINS_ENV_TEST_USERNAME").unwrap(), "deploy-bot");
    assert_eq!(lookup(&cfg.env, "JENKINS_ENV_TEST_TOKEN").unwrap(), "keychain:jenkins-test-token");
    assert_eq!(lookup(&cfg.env, "JENKINS_ENV_PROD_URL").unwrap(), "http://jenkins.example.internal:8080/");
    assert_eq!(lookup(&cfg.env, "JENKINS_ENV_PROD_USERNAME").unwrap(), "prod-user");
    assert_eq!(lookup(&cfg.env, "JENKINS_ENV_PROD_TOKEN").unwrap(), "keychain:jenkins-prod-token");
    assert_eq!(cfg.env.len(), 6);
}

#[test]
fn build_jenkins_config_empty_policy_gets_safe_default() {
    let cfg = build_jenkins_server_config(
        r"D:\x\index.js",
        "http://x",
        &vec![cred("acct-1", "u", Some("t"), vec![])],
        true,
        Vec::new(),
    );
    assert_eq!(lookup(&cfg.tool_policy, "trigger_build"), Some("confirm"));
    assert_eq!(lookup(&cfg.tool_policy, "cancel_build"), Some("confirm"));
    assert_eq!(lookup(&cfg.tool_policy, "*"), Some("auto"));
}

#[test]
fn build_jenkins_config_explicit_policy_preserved() {
    let explicit = vec![("*".to_string(), "confirm".to_string())];
    let cfg = build_jenkins_server_config(r"D:\x\index.js", "http://x", &Vec::new(), true, explicit);
    assert_eq!(lookup(&cfg.tool_policy, "*"), Some("confirm"));
    assert!(lookup(&cfg.tool_policy, "trigger_build").is_none());
}

#[test]
fn build_deploy_presets_shape() {
    let creds = vec![cred(
        "主账号",
        "zhang-san",
        Some("tok"),
        vec![proj("example-quality-web", "质量系统")],
    )];
    let out = build_deploy_presets("http://jenkins.example.internal:8080/", &creds);
    assert_eq!(out.jenkins_url, "http://jenkins.example.internal:8080/");
    assert_eq!(out.credentials.len(), 1);
    assert_eq!(out.credentials[0].name, "主账号");
    assert_eq!(out.credentials[0].username, "zhang-san");
    assert_eq!(out.credentials[0].token, "keychain:jenkins-主账号-token");
    assert_eq!(out.credentials[0].projects.len(), 1);
    assert_eq!(out.credentials[0].projects[0].job, "example-quality-web");
    assert_eq!(out.credentials[0].projects[0].alias, "质量系统");
}

#[test]
fn resolve_path_priority() {
    let old = McpServerConfig {
        command: "node".to_string(),
        args: vec!["D:\\old\\index.js".to_string()],
        env: Vec::new(),
        enabled: true,
        tool_policy: Vec::new(),
    };
    assert_eq!(resolve_jenkins_mcp_path(Some("D:\\new\\index.js"), Some(&old)), "D:\\new\\index.js");
    assert_eq!(resolve_jenkins_mcp_path(Some("   "), Some(&old)), "D:\\old\\index.js");
    assert_eq!(resolve_jenkins_mcp_path(None, Some(&old)), "D:\\old\\index.js");
    assert_eq!(
        resolve_jenkins_mcp_path(None, None),
        r"D:\coding\my-mcp-servers\jenkins-mcp\dist\index.js"
    );
}

#[test]
fn credential_names_from_json_parses() {
    let names = credential_names(&vec!["主账号".to_string(), "Prod".to_string()]);
    assert_eq!(names, vec!["prod".to_string(), "主账号".to_string()]);
}

#[test]
fn credential_names_from_json_empty() {
    let names = credential_names(&Vec::new());
    assert!(names.is_empty());
}

#[test]
fn jenkins_env_has_three_variables_per_distinct_name() {
    let creds = vec![
        cred("test", "a", None, vec![]),
        cred(" TEST ", "b", None, vec![]),
        cred("prod", "c", None, vec![]),
    ];
    let cfg = build_jenkins_server_config(r"D:\x\index.js", "http://x", &creds, true, Vec::new());
    assert_eq!(cfg.env.len(), 6);
    assert_eq!(lookup(&cfg.env, "JENKINS_ENV_TEST_USERNAME").unwrap(), "b");
}
