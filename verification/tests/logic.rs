use nixcp::closure::ClosureBuilder;
use nixcp::path_info::{signer_name, strip_version_suffix, PathInfo};
use nixcp::protocol::{response_for, Request, Response, Upload};
use nixcp::push::{admission_decision, Counters, Decision, Phase, Push, SkipReason};
use nixcp::store_path::StorePath;
use nixcp::PushArgs;

fn digest(c: char) -> String {
    std::iter::repeat(c).take(32).collect()
}

fn store_path(c: char, name: &str) -> StorePath {
    StorePath { digest: digest(c), name: name.to_string() }
}

fn descriptor(c: char, name: &str, sigs: &[&str], refs: &[StorePath]) -> PathInfo {
    PathInfo {
        path: store_path(c, name),
        signatures: sigs.iter().map(|s| s.to_string()).collect(),
        references: refs.iter().map(|r| r.clone()).collect(),
        nar_size: 1000,
    }
}

#[test]
fn parse_base_name_ok() {
    let base = format!("{}-hello-2.12.1", digest('a'));
    let sp = StorePath::parse_base_name(&base).unwrap();
    assert_eq!(sp.digest, digest('a'));
    assert_eq!(sp.name, "hello-2.12.1");
    assert_eq!(sp.base_name(), base);
}

#[test]
fn parse_base_name_rejects_bad_input() {
    assert!(StorePath::parse_base_name("too-short").is_err());
    // digest holds a forbidden letter
    let bad = format!("e{}-x", &digest('a')[..31]);
    assert!(StorePath::parse_base_name(&bad).is_err());
    // missing dash
    let nodash = format!("{}xhello", digest('a'));
    assert!(StorePath::parse_base_name(&nodash).is_err());
    // empty name
    let noname = format!("{}-", digest('a'));
    assert!(StorePath::parse_base_name(&noname).is_err());
    // bad character in name
    let badname = format!("{}-he llo", digest('a'));
    assert!(StorePath::parse_base_name(&badname).is_err());
}

#[test]
fn absolute_path_round_trip() {
    let sp = store_path('b', "gcc-13.2.0");
    let abs = sp.to_absolute_path();
    assert_eq!(abs, format!("/nix/store/{}-gcc-13.2.0", digest('b')));
    let back = StorePath::from_absolute_path(&abs).unwrap();
    assert_eq!(back.digest, sp.digest);
    assert_eq!(back.name, sp.name);
    assert!(StorePath::from_absolute_path("/var/store/xyz").is_err());
}

#[test]
fn strip_removes_version_suffix() {
    assert_eq!(strip_version_suffix("cache.nixos.org-1"), "cache.nixos.org");
    assert_eq!(strip_version_suffix("nix-community.cachix.org-1"), "nix-community.cachix.org");
    assert_eq!(strip_version_suffix("host-12345"), "host");
}

#[test]
fn strip_leaves_other_names_alone() {
    assert_eq!(strip_version_suffix("cache.nixos.org"), "cache.nixos.org");
    assert_eq!(strip_version_suffix("host-"), "host-");
    assert_eq!(strip_version_suffix("12345"), "12345");
    assert_eq!(strip_version_suffix(""), "");
    // only the last suffix goes
    assert_eq!(strip_version_suffix("a-1-2"), "a-1");
}

#[test]
fn signer_name_is_text_before_first_colon() {
    assert_eq!(signer_name("cache.nixos.org-1:c2ln"), Some("cache.nixos.org-1".to_string()));
    assert_eq!(signer_name("a:b:c"), Some("a".to_string()));
    assert_eq!(signer_name(":sig"), Some(String::new()));
    assert_eq!(signer_name("no-colon-here"), None);
}

#[test]
fn signature_check_matches_trusted_host() {
    let hosts = vec!["cache.nixos.org".to_string(), "example.org".to_string()];
    let signed = descriptor('a', "pkg", &["cache.nixos.org-1:c2lnbmF0dXJl"], &[]);
    assert!(signed.check_upstream_signature(&hosts));
    let other = descriptor('a', "pkg", &["someone-else:c2ln"], &[]);
    assert!(!other.check_upstream_signature(&hosts));
    let unsigned = descriptor('a', "pkg", &[], &[]);
    assert!(!unsigned.check_upstream_signature(&hosts));
    assert!(!signed.check_upstream_signature(&Vec::new()));
}

#[test]
fn narinfo_key_is_digest_dot_narinfo() {
    let p = descriptor('c', "pkg", &[], &[]);
    assert_eq!(p.narinfo_path(), format!("{}.narinfo", digest('c')));
}

#[test]
fn admission_checks_form_a_total_order() {
    let hosts = vec!["cache.nixos.org".to_string()];
    let signed = descriptor('a', "pkg", &["cache.nixos.org-1:c2ln"], &[]);
    let unsigned = descriptor('b', "pkg", &[], &[]);
    // the signature check wins even when both probes would also hit
    assert_eq!(
        admission_decision(&signed, &hosts, true, true),
        Decision::Skip(SkipReason::Signature)
    );
    assert_eq!(
        admission_decision(&unsigned, &hosts, true, true),
        Decision::Skip(SkipReason::Upstream)
    );
    assert_eq!(
        admission_decision(&unsigned, &hosts, false, true),
        Decision::Skip(SkipReason::AlreadyExists)
    );
    assert_eq!(admission_decision(&unsigned, &hosts, false, false), Decision::Proceed);
}

#[test]
fn counters_move_one_at_a_time() {
    let mut c = Counters::new();
    c.record(Decision::Skip(SkipReason::Signature));
    c.record(Decision::Skip(SkipReason::Upstream));
    c.record(Decision::Skip(SkipReason::AlreadyExists));
    c.record(Decision::Proceed);
    assert_eq!(c.signature_hits, 1);
    assert_eq!(c.upstream_hits, 1);
    assert_eq!(c.already_exists, 1);
    assert_eq!(c.uploaded, 0);
    c.record_uploaded();
    assert_eq!(c.uploaded, 1);
}

#[test]
fn three_member_closure_scenario() {
    // member A is already signed by a trusted upstream, member B hits an
    // upstream probe, member C is genuinely new
    let hosts = vec!["cache.nixos.org".to_string()];
    let a = descriptor('a', "a", &["cache.nixos.org-1:c2ln"], &[]);
    let b = descriptor('b', "b", &[], &[]);
    let c = descriptor('c', "c", &[], &[]);
    let mut counters = Counters::new();
    for (path, upstream_hit, exists) in [(&a, true, true), (&b, true, false), (&c, false, false)] {
        let d = admission_decision(path, &hosts, upstream_hit, exists);
        counters.record(d);
        if d == Decision::Proceed {
            counters.record_uploaded();
        }
    }
    assert_eq!(counters.signature_hits, 1);
    assert_eq!(counters.upstream_hits, 1);
    assert_eq!(counters.uploaded, 1);
    assert_eq!(counters.already_exists, 0);
}

#[test]
fn second_push_skips_every_member_as_already_present() {
    // pushing the same closure twice: the second run finds every member
    // in the destination and skips it as already existing
    let hosts: Vec<String> = Vec::new();
    let members =
        vec![descriptor('a', "a", &[], &[]), descriptor('b', "b", &[], &[]), descriptor('c', "c", &[], &[])];
    let mut destination: Vec<String> = Vec::new();
    let mut first = Counters::new();
    for m in &members {
        let d = admission_decision(m, &hosts, false, destination.contains(&m.narinfo_path()));
        first.record(d);
        if d == Decision::Proceed {
            destination.push(m.narinfo_path());
            first.record_uploaded();
        }
    }
    assert_eq!(first.uploaded, 3);
    assert_eq!(first.already_exists, 0);
    let mut second = Counters::new();
    for m in &members {
        let d = admission_decision(m, &hosts, false, destination.contains(&m.narinfo_path()));
        second.record(d);
        if d == Decision::Proceed {
            destination.push(m.narinfo_path());
            second.record_uploaded();
        }
    }
    assert_eq!(second.already_exists, 3);
    assert_eq!(second.uploaded, 0);
}

fn drive_closure(roots: Vec<StorePath>, graph: &[(char, Vec<char>)]) -> Vec<PathInfo> {
    let mut b = ClosureBuilder::new(&roots);
    while let Some(next) = b.next_query() {
        let (_, refs) = graph
            .iter()
            .find(|(g, _)| digest(*g) == next.digest)
            .expect("query for a path outside the graph");
        let refs: Vec<StorePath> = refs.iter().map(|r| store_path(*r, "pkg")).collect();
        let desc = PathInfo {
            path: StorePath { digest: next.digest.clone(), name: next.name.clone() },
            signatures: Vec::new(),
            references: refs,
            nar_size: 1,
        };
        b.resolved(desc);
    }
    b.members
}

#[test]
fn closure_contains_roots_and_is_transitively_closed() {
    // a -> b, c ; b -> c ; c -> (nothing)
    let graph = vec![('a', vec!['b', 'c']), ('b', vec!['c']), ('c', vec![])];
    let members = drive_closure(vec![store_path('a', "pkg")], &graph);
    let names: Vec<String> = members.iter().map(|m| m.path.base_name()).collect();
    assert_eq!(members.len(), 3);
    for c in ['a', 'b', 'c'] {
        assert!(names.contains(&store_path(c, "pkg").base_name()));
    }
    // transitively closed: every reference of every member is a member
    for m in &members {
        for r in &m.references {
            assert!(names.contains(&r.base_name()));
        }
    }
}

#[test]
fn closure_of_two_roots_is_their_union_without_duplicates() {
    let graph = vec![('a', vec!['c']), ('b', vec!['c']), ('c', vec![])];
    let members = drive_closure(vec![store_path('a', "pkg"), store_path('b', "pkg")], &graph);
    assert_eq!(members.len(), 3);
    let mut names: Vec<String> = members.iter().map(|m| m.path.base_name()).collect();
    names.sort();
    names.dedup();
    assert_eq!(names.len(), 3, "each dependency appears exactly once");
}

#[test]
fn push_config_collects_upstream_hosts() {
    let args = PushArgs {
        bucket: "cache".to_string(),
        upstreams: vec!["https://nixcache.example.com".to_string()],
        signing_key: "key.pem".to_string(),
        region: None,
        endpoint: None,
        no_default_upstream: false,
        paths: Vec::new(),
    };
    let p = Push::new(&args).unwrap();
    assert_eq!(
        p.upstream_caches,
        vec!["https://nixcache.example.com".to_string(), "https://cache.nixos.org".to_string()]
    );
    assert_eq!(
        p.upstream_hosts,
        vec!["nixcache.example.com".to_string(), "cache.nixos.org".to_string()]
    );
    assert!(matches!(p.phase, Phase::Idle));
}

#[test]
fn push_config_keeps_ip_upstream_without_trusted_host() {
    // an IP endpoint parses as a URL but has no domain: it stays an
    // upstream for probing and contributes no trusted host
    let args = PushArgs {
        bucket: "cache".to_string(),
        upstreams: vec!["https://127.0.0.1:8080".to_string()],
        signing_key: "key.pem".to_string(),
        region: None,
        endpoint: None,
        no_default_upstream: false,
        paths: Vec::new(),
    };
    let p = Push::new(&args).unwrap();
    assert_eq!(
        p.upstream_caches,
        vec!["https://127.0.0.1:8080".to_string(), "https://cache.nixos.org".to_string()]
    );
    assert_eq!(p.upstream_hosts, vec!["cache.nixos.org".to_string()]);
}

#[test]
fn push_config_rejects_bad_upstream() {
    let args = PushArgs {
        bucket: "cache".to_string(),
        upstreams: vec!["not a url at all".to_string()],
        signing_key: "key.pem".to_string(),
        region: None,
        endpoint: None,
        no_default_upstream: true,
        paths: Vec::new(),
    };
    assert!(Push::new(&args).is_err());
}

#[test]
fn push_config_honours_no_default_upstream() {
    let args = PushArgs {
        bucket: "cache".to_string(),
        upstreams: Vec::new(),
        signing_key: "key.pem".to_string(),
        region: None,
        endpoint: None,
        no_default_upstream: true,
        paths: Vec::new(),
    };
    let p = Push::new(&args).unwrap();
    assert!(p.upstream_caches.is_empty());
    assert!(p.upstream_hosts.is_empty());
}

#[test]
fn phases_advance_in_order() {
    let args = PushArgs {
        bucket: "cache".to_string(),
        upstreams: Vec::new(),
        signing_key: "key.pem".to_string(),
        region: None,
        endpoint: None,
        no_default_upstream: true,
        paths: Vec::new(),
    };
    let mut p = Push::new(&args).unwrap();
    let expected =
        [Phase::ResolvingClosure, Phase::Pipelining, Phase::Reporting, Phase::Done];
    for e in expected {
        p.advance_phase();
        assert_eq!(p.phase, e);
    }
    p.record_failure("/nix/store/x".to_string());
    assert_eq!(p.failures, vec!["/nix/store/x".to_string()]);
}

#[test]
fn report_lines_render_the_four_counts() {
    let args = PushArgs {
        bucket: "cache".to_string(),
        upstreams: Vec::new(),
        signing_key: "key.pem".to_string(),
        region: None,
        endpoint: None,
        no_default_upstream: true,
        paths: Vec::new(),
    };
    let mut p = Push::new(&args).unwrap();
    p.counters.record_uploaded();
    p.counters.record(Decision::Skip(SkipReason::Signature));
    p.counters.record(Decision::Skip(SkipReason::Signature));
    let lines = p.report_lines();
    assert_eq!(
        lines,
        vec![
            "uploaded: 1".to_string(),
            "skipped because of signature match: 2".to_string(),
            "skipped because of upstream hit: 0".to_string(),
            "skipped because already exist: 0".to_string(),
        ]
    );
}

#[test]
fn server_answers_requests() {
    assert_eq!(response_for(&Request::Ping), Response::Pong);
    let req = Request::Upload(Upload { path: "/nix/store/x".to_string() });
    assert_eq!(response_for(&req), Response::Upload);
}
