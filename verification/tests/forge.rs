use repoharbor::forge::{gitlab_host_trusted, gitlab_request, valid_host};

#[test]
fn valid_host_accepts_dns_names_and_rejects_unsafe() {
    assert!(valid_host("gitlab.com"));
    assert!(valid_host("gitlab.acme.io"));
    assert!(!valid_host("169.254.169.254"), "metadata IP");
    assert!(!valid_host("127.0.0.1"));
    assert!(!valid_host("localhost"), "no dot");
    assert!(!valid_host("gitlab.com:8080"), "port");
    assert!(!valid_host("evil.com/path"), "path");
    assert!(!valid_host("user@evil.com"), "credentials");
    assert!(!valid_host(""));
}

#[test]
fn gitlab_token_only_trusted_for_allowlisted_or_dot_com() {
    let allow = vec!["gitlab.acme.io".to_string(), "  Git.Internal.Corp ".to_string()];
    assert!(gitlab_host_trusted("gitlab.com", &[]));
    assert!(gitlab_host_trusted("GitLab.com", &[]));
    assert!(gitlab_host_trusted("gitlab.acme.io", &allow));
    assert!(gitlab_host_trusted("git.internal.corp", &allow));
    assert!(!gitlab_host_trusted("evil.com", &allow));
    assert!(!gitlab_host_trusted("gitlab.com.evil.com", &allow));
    assert!(!gitlab_host_trusted("169.254.169.254", &allow));
    assert!(!gitlab_host_trusted("gitlab.acme.io:22", &allow));
}

#[test]
fn gitlab_requests_encode_the_slug_and_send_the_token_only_to_trusted_hosts() {
    let token = Some("glpat-x".to_string());
    let (url, t) = gitlab_request("gitlab.com", "group/sub proj", token.clone(), &[]).unwrap();
    assert_eq!(url, "https://gitlab.com/api/v4/projects/group%2Fsub%20proj");
    assert_eq!(t, token);
    let (url, t) = gitlab_request("gitlab.acme.io", "a/b-c_d.e~f", token.clone(), &[]).unwrap();
    assert_eq!(url, "https://gitlab.acme.io/api/v4/projects/a%2Fb-c_d.e~f");
    assert_eq!(t, None);
    let (_, t) =
        gitlab_request("gitlab.acme.io", "a/b", token.clone(), &[" GitLab.Acme.io ".to_string()]).unwrap();
    assert_eq!(t, token);
    let (url, _) = gitlab_request("gitlab.com", "é/ü", None, &[]).unwrap();
    assert_eq!(url, "https://gitlab.com/api/v4/projects/%C3%A9%2F%C3%BC");
    assert_eq!(
        gitlab_request("169.254.169.254", "a/b", token, &[]),
        Err("refusing to query untrusted host: 169.254.169.254".to_string())
    );
}
