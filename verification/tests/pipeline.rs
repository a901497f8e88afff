use movey_resolver::manifest::{ManifestError, SchemeValue};
use movey_resolver::registry::{ResolveError, ResolvedDependency};
use movey_resolver::resolver::MovePackageResolver;

fn bv(s: &str) -> Vec<u8> {
    s.as_bytes().to_vec()
}

fn utf8(v: Vec<u8>) -> String {
    String::from_utf8(v).unwrap()
}

fn scheme_of(r: &MovePackageResolver, name: &str) -> Option<SchemeValue> {
    for d in &r.deps_map {
        if d.name == bv(name) {
            return Some(match &d.scheme {
                SchemeValue::Plain(v) => SchemeValue::Plain(v.clone()),
                SchemeValue::Structured(es) => SchemeValue::Structured(
                    es.iter()
                        .map(|e| movey_resolver::manifest::TableEntry {
                            key: e.key.clone(),
                            value: e.value.clone(),
                        })
                        .collect(),
                ),
            });
        }
    }
    None
}

fn record(name: &str, version: &str, url: &str, rev: &str, scheme: &str) -> ResolvedDependency {
    ResolvedDependency {
        name: bv(name),
        version: bv(version),
        repository_url: bv(url),
        rev: bv(rev),
        scheme: bv(scheme),
    }
}

#[test]
fn parse_deps_from_toml() {
    let toml_content = r#"
            [package]
            name = ""
            version = ""

            [dependencies]

            [dependencies.movey]
            resolver = "movey"

            [dependencies.movey.packages]
            MoveDemo = "movedemo-ea:1.0.0"
            MoveDemo2 = "movedemo-ea-02:0.5.0"
        "#;
    let mut result = MovePackageResolver::new();
    result.parse_deps_from_toml(toml_content.as_bytes()).unwrap();
    assert!(scheme_of(&result, "MoveDemo").is_some());

    let sui_deps = scheme_of(&result, "MoveDemo").unwrap();
    match sui_deps {
        SchemeValue::Plain(v) => assert!(utf8(v).contains("movedemo-ea:1.0.0")),
        SchemeValue::Structured(_) => panic!("expected a plain scheme"),
    }
}

#[test]
fn generate_lock_toml_content_works() {
    let mut resolver = MovePackageResolver::new();
    resolver.deps_resolved = vec![
        record("movedemo", "1.0.0", "repo_url", "rev1", "movedemo-ea"),
        record("movedemo", "0.5.0", "repo_url_02", "rev2", "movedemo-ea-02"),
    ];
    let lock_toml_content = utf8(resolver.generate_lock_toml_content());
    let expected_1 = r#"[[package]]
name = "movedemo"
version = "1.0.0"
repository_url = "repo_url"
rev = "rev1"
"#;
    let expected_2 = r#"[[package]]
name = "movedemo"
version = "0.5.0"
repository_url = "repo_url_02"
rev = "rev2"
"#;
    assert!(lock_toml_content.contains(expected_1));
    assert!(lock_toml_content.contains(expected_2));
}

#[test]
fn foreign_resolver_is_refused_before_any_request() {
    let toml_content = r#"
            [dependencies.movey]
            resolver = "someone-else"

            [dependencies.movey.packages]
            MoveDemo = "movedemo-ea:1.0.0"
        "#;
    let mut resolver = MovePackageResolver::new();
    let err = resolver
        .parse_deps_from_toml(toml_content.as_bytes())
        .unwrap_err();
    assert_eq!(err, ManifestError::UnsupportedResolver);
    assert_eq!(err.message(), "The CLI only resolve Movey dependencies.");
    assert!(resolver.deps_map.is_empty());
}

#[test]
fn missing_resolver_is_a_format_error() {
    let toml_content = r#"
            [dependencies.movey.packages]
            MoveDemo = "movedemo-ea:1.0.0"
        "#;
    let mut resolver = MovePackageResolver::new();
    let err = resolver
        .parse_deps_from_toml(toml_content.as_bytes())
        .unwrap_err();
    assert_eq!(err, ManifestError::BadFormat);
}

#[test]
fn garbage_inside_a_recognized_section_is_a_format_error() {
    let toml_content = r#"
            [dependencies.movey]
            resolver = "movey"

            [dependencies.movey.packages]
            this is not an entry
        "#;
    let mut resolver = MovePackageResolver::new();
    let err = resolver
        .parse_deps_from_toml(toml_content.as_bytes())
        .unwrap_err();
    assert_eq!(err, ManifestError::BadFormat);
}

#[test]
fn zero_declarations_resolve_to_an_empty_lock() {
    let toml_content = r#"
            [dependencies.movey]
            resolver = "movey"
        "#;
    let mut resolver = MovePackageResolver::new();
    resolver.parse_deps_from_toml(toml_content.as_bytes()).unwrap();
    assert!(resolver.deps_map.is_empty());
    assert_eq!(utf8(resolver.build_resolution_request()), r#"{"schemes":[]}"#);
    resolver.resolve_movey_deps(Some(b"{}")).unwrap();
    assert!(resolver.deps_resolved.is_empty());
    assert_eq!(utf8(resolver.generate_lock_toml_content()), "");
}

#[test]
fn lock_output_is_independent_of_record_order() {
    let a = record("movedemo", "1.0.0", "repo_url", "rev1", "movedemo-ea");
    let b = record("movedemo", "0.5.0", "repo_url_02", "rev2", "movedemo-ea-02");
    let c = record("alpha", "2.0.0", "repo_a", "rev3", "alpha-ea");
    let mut one = MovePackageResolver::new();
    one.deps_resolved = vec![
        record("movedemo", "1.0.0", "repo_url", "rev1", "movedemo-ea"),
        record("movedemo", "0.5.0", "repo_url_02", "rev2", "movedemo-ea-02"),
        record("alpha", "2.0.0", "repo_a", "rev3", "alpha-ea"),
    ];
    let mut two = MovePackageResolver::new();
    two.deps_resolved = vec![b, c, a];
    assert_eq!(
        one.generate_lock_toml_content(),
        two.generate_lock_toml_content()
    );
}

#[test]
fn resolving_a_fixed_set_twice_gives_byte_identical_lock_output() {
    let toml_content = r#"
            [dependencies.movey]
            resolver = "movey"

            [dependencies.movey.packages]
            MoveDemo = "movedemo-ea:1.0.0"
        "#;
    let body = br#"{"movedemo-ea": {"name": "movedemo", "version": "1.0.0", "repository_url": "repo_url", "rev": "rev1", "scheme": "movedemo-ea"}}"#;
    let mut first: Option<Vec<u8>> = None;
    for _ in 0..2 {
        let mut resolver = MovePackageResolver::new();
        resolver.parse_deps_from_toml(toml_content.as_bytes()).unwrap();
        resolver.resolve_movey_deps(Some(body)).unwrap();
        let out = resolver.generate_lock_toml_content();
        match &first {
            None => first = Some(out),
            Some(prev) => assert_eq!(prev, &out),
        }
    }
}

#[test]
fn name_declared_in_both_groups_takes_the_second_groups_value() {
    let toml_content = r#"
            [dependencies.movey]
            resolver = "movey"

            [dependencies.movey.packages]
            Shared = "offchain-scheme:1.0.0"
            OnlyOffchain = "other:2.0.0"

            [dependencies.movey.onchain]
            Shared = { addr = "0x2", chain = "sui/devnet" }
        "#;
    let mut resolver = MovePackageResolver::new();
    resolver.parse_deps_from_toml(toml_content.as_bytes()).unwrap();
    assert_eq!(resolver.deps_map.len(), 2);
    match scheme_of(&resolver, "Shared").unwrap() {
        SchemeValue::Structured(es) => {
            assert_eq!(es.len(), 2);
            assert_eq!(es[0].key, bv("addr"));
            assert_eq!(es[0].value, bv("0x2"));
            assert_eq!(es[1].key, bv("chain"));
            assert_eq!(es[1].value, bv("sui/devnet"));
        }
        SchemeValue::Plain(_) => panic!("the onchain declaration should have won"),
    }
    match scheme_of(&resolver, "OnlyOffchain").unwrap() {
        SchemeValue::Plain(v) => assert_eq!(v, bv("other:2.0.0")),
        SchemeValue::Structured(_) => panic!("expected a plain scheme"),
    }
}

#[test]
fn one_declared_package_round_trips_into_one_lock_block() {
    let toml_content = r#"
            [dependencies.movey]
            resolver = "movey"

            [dependencies.movey.packages]
            MoveDemo = "movedemo-ea:1.0.0"
        "#;
    let mut resolver = MovePackageResolver::new();
    resolver.parse_deps_from_toml(toml_content.as_bytes()).unwrap();
    assert_eq!(
        utf8(resolver.build_resolution_request()),
        r#"{"schemes":["movedemo-ea:1.0.0"]}"#
    );
    let body = br#"{"movedemo-ea": {"name": "movedemo", "version": "1.0.0", "repository_url": "repo_url", "rev": "rev1", "scheme": "movedemo-ea"}}"#;
    resolver.resolve_movey_deps(Some(body)).unwrap();
    let lock = utf8(resolver.generate_lock_toml_content());
    let expected = r#"[[package]]
name = "movedemo"
version = "1.0.0"
repository_url = "repo_url"
rev = "rev1"
"#;
    assert_eq!(lock, expected);
    assert!(!lock.contains("scheme"));
}

#[test]
fn transport_failure_reports_the_single_opaque_error() {
    let mut resolver = MovePackageResolver::new();
    resolver
        .parse_deps_from_toml(
            br#"
            [dependencies.movey]
            resolver = "movey"

            [dependencies.movey.packages]
            MoveDemo = "movedemo-ea:1.0.0"
        "#,
        )
        .unwrap();
    let err = resolver.resolve_movey_deps(None).unwrap_err();
    assert_eq!(err, ResolveError::Unexpected);
    assert_eq!(
        err.message(),
        "An unexpected error occurred. Please try again later"
    );
    assert!(resolver.deps_resolved.is_empty());
}

#[test]
fn undecodable_response_body_reports_the_same_opaque_error() {
    let mut resolver = MovePackageResolver::new();
    resolver
        .parse_deps_from_toml(
            br#"
            [dependencies.movey]
            resolver = "movey"

            [dependencies.movey.packages]
            MoveDemo = "movedemo-ea:1.0.0"
        "#,
        )
        .unwrap();
    let err = resolver
        .resolve_movey_deps(Some(b"<html>500 Internal Server Error</html>"))
        .unwrap_err();
    assert_eq!(err, ResolveError::Unexpected);
    assert_eq!(
        err.message(),
        "An unexpected error occurred. Please try again later"
    );
    assert!(resolver.deps_resolved.is_empty());
}

#[test]
fn response_missing_a_requested_scheme_is_a_shape_error() {
    let mut resolver = MovePackageResolver::new();
    resolver
        .parse_deps_from_toml(
            br#"
            [dependencies.movey]
            resolver = "movey"

            [dependencies.movey.packages]
            MoveDemo = "movedemo-ea:1.0.0"
        "#,
        )
        .unwrap();
    let err = resolver.resolve_movey_deps(Some(b"{}")).unwrap_err();
    assert_eq!(err, ResolveError::Unexpected);
}

#[test]
fn structured_onchain_scheme_passes_through_to_the_request_unchanged() {
    let toml_content = r#"
            [dependencies.movey]
            resolver = "movey"

            [dependencies.movey.onchain]
            Demo = { addr = "0x2", chain = "sui/devnet" }
        "#;
    let mut resolver = MovePackageResolver::new();
    resolver.parse_deps_from_toml(toml_content.as_bytes()).unwrap();
    assert_eq!(
        utf8(resolver.build_resolution_request()),
        r#"{"schemes":[{"addr":"0x2","chain":"sui/devnet"}]}"#
    );
}

#[test]
fn quotes_and_backslashes_are_escaped_in_request_and_lock() {
    let mut resolver = MovePackageResolver::new();
    resolver
        .parse_deps_from_toml(
            br#"
            [dependencies.movey]
            resolver = "movey"
        "#,
        )
        .unwrap();
    resolver.deps_resolved = vec![record("a", "1", "url", "re\"v", "s")];
    let lock = utf8(resolver.generate_lock_toml_content());
    assert!(lock.contains(r#"rev = "re\"v""#));
}

#[test]
fn not_found_keeps_its_package_root_hint() {
    assert_eq!(
        ManifestError::NotFound.message(),
        "Not in Move package root directory"
    );
    assert_eq!(
        ManifestError::BadFormat.message(),
        "Wrong Move.toml format for Movey dependencies"
    );
}
