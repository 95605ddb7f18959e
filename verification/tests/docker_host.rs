use kerek::library::docker_host::{get, get_effective_url, UrlChoice, Variable};

#[test]
fn handles_invalid_url() {
    assert!(get("..".into()).is_err())
}

#[test]
fn handles_ssh_url() {
    let host = get("ssh://abc@example.com:123".into()).ok().unwrap();
    let ssh = host.ssh.unwrap();
    assert_eq!(ssh.hostname, "example.com");
    assert_eq!(ssh.port, Some(123));
    assert_eq!(ssh.user, Some("abc".to_owned()));
    assert_eq!(host.url, "ssh://abc@example.com:123");
}

#[test]
fn handles_other_url() {
    let host = get("unix:///tmp/a.sock".into()).ok().unwrap();
    assert!(host.ssh.is_none());
    assert_eq!(host.url, "unix:///tmp/a.sock");
}

#[test]
fn ssh_url_without_user_or_port() {
    let ssh = get("ssh://example.com".into()).ok().unwrap().ssh.unwrap();
    assert_eq!(ssh.hostname, "example.com");
    assert_eq!(ssh.port, None);
    assert_eq!(ssh.user, None);
}

#[test]
fn invalid_url_error_names_url() {
    let error = get("..".into()).err().unwrap();
    assert_eq!(error.url, "..");
    assert!(!error.reason.is_empty());
}

#[test]
fn effective_url_prefers_override_then_variable() {
    assert!(matches!(
        get_effective_url(Some("a".into()), Variable::Present("b".into())),
        UrlChoice::Url(u) if u == "a"
    ));
    assert!(matches!(
        get_effective_url(None, Variable::Present("b".into())),
        UrlChoice::Url(u) if u == "b"
    ));
    assert!(matches!(get_effective_url(None, Variable::NotPresent), UrlChoice::CurrentContext));
    assert!(matches!(
        get_effective_url(None, Variable::NotUnicode("x".into())),
        UrlChoice::NotUnicode(v) if v == "x"
    ));
}
