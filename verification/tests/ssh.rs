use ix::ssh::{build_label, parse_ssh_config, SshHost};

#[test]
fn test_parse_basic_config() {
    let config = r#"
Host prod
    HostName 10.0.0.1
    User admin
    Port 2222

Host staging
    HostName staging.example.com
    User deploy
"#;
    let hosts = parse_ssh_config(config);
    assert_eq!(hosts.len(), 2);
    assert_eq!(hosts[0].alias, "prod");
    assert_eq!(hosts[0].hostname.as_deref(), Some("10.0.0.1"));
    assert_eq!(hosts[0].user.as_deref(), Some("admin"));
    assert_eq!(hosts[0].port.as_deref(), Some("2222"));
    assert_eq!(hosts[1].alias, "staging");
    assert_eq!(hosts[1].hostname.as_deref(), Some("staging.example.com"));
}

#[test]
fn test_parse_skips_wildcards() {
    let config = r#"
Host *
    ServerAliveInterval 60

Host myserver
    HostName example.com
"#;
    let hosts = parse_ssh_config(config);
    assert_eq!(hosts.len(), 1);
    assert_eq!(hosts[0].alias, "myserver");
}

#[test]
fn test_parse_handles_equals_syntax() {
    let config = "Host box\nHostName=10.0.0.5\nUser=root\n";
    let hosts = parse_ssh_config(config);
    assert_eq!(hosts.len(), 1);
    assert_eq!(hosts[0].hostname.as_deref(), Some("10.0.0.5"));
    assert_eq!(hosts[0].user.as_deref(), Some("root"));
}

#[test]
fn test_build_label_full() {
    let h = SshHost {
        alias: "prod".into(),
        hostname: Some("10.0.0.1".into()),
        user: Some("admin".into()),
        port: Some("2222".into()),
    };
    assert_eq!(build_label(&h), "prod → admin@10.0.0.1:2222");
}

#[test]
fn test_build_label_no_port() {
    let h = SshHost {
        alias: "dev".into(),
        hostname: Some("dev.example.com".into()),
        user: Some("tom".into()),
        port: None,
    };
    assert_eq!(build_label(&h), "dev → tom@dev.example.com");
}

#[test]
fn test_build_label_no_extras() {
    let h = SshHost {
        alias: "simple".into(),
        hostname: None,
        user: None,
        port: None,
    };
    assert_eq!(build_label(&h), "simple");
}

#[test]
fn test_parse_comments_and_empty_lines() {
    let config = r#"
# This is a comment

Host myhost
    # Another comment
    HostName example.com

"#;
    let hosts = parse_ssh_config(config);
    assert_eq!(hosts.len(), 1);
    assert_eq!(hosts[0].alias, "myhost");
}

#[test]
fn parse_keys_ignore_case_and_crlf() {
    let config = "HOST a b\r\nhostNAME h\r\nPort 22\r\n";
    let hosts = parse_ssh_config(config);
    assert_eq!(hosts.len(), 1);
    assert_eq!(hosts[0].alias, "a");
    assert_eq!(hosts[0].hostname.as_deref(), Some("h"));
    assert_eq!(hosts[0].port.as_deref(), Some("22"));
}

#[test]
fn parse_first_plain_alias_and_settings_outside_hosts() {
    let config = "User nobody\nHost *.x web? real other\nUser me\n";
    let hosts = parse_ssh_config(config);
    assert_eq!(hosts.len(), 1);
    assert_eq!(hosts[0].alias, "real");
    assert_eq!(hosts[0].user.as_deref(), Some("me"));
}

#[test]
fn build_label_hostname_and_port_without_user() {
    let h = SshHost {
        alias: "db".into(),
        hostname: Some("db.local".into()),
        user: None,
        port: Some("5432".into()),
    };
    assert_eq!(build_label(&h), "db → db.local:5432");
}

#[test]
fn parse_skips_match_blocks() {
    let content = "Host a\n    HostName h1\nMatch host b\n    User root\n";
    let hosts = parse_ssh_config(content);
    assert_eq!(hosts.len(), 1);
    assert_eq!(hosts[0].alias, "a");
    assert_eq!(hosts[0].hostname.as_deref(), Some("h1"));
    assert_eq!(hosts[0].user, None);

    let content = "match all\n  User x\nHost b\n  User y\nMATCH exec true\n  Port 1\n";
    let hosts = parse_ssh_config(content);
    assert_eq!(hosts.len(), 1);
    assert_eq!(hosts[0].alias, "b");
    assert_eq!(hosts[0].user.as_deref(), Some("y"));
    assert_eq!(hosts[0].port, None);
}
