use stayhydated::release::{
    cargo_publish_command, cargo_publish_needs_allow_dirty, is_publishable,
    output_mentions_existing_upload, packages_from, publish_step, release_order,
    decimal_string, release_order_lines, requires_clean_worktree_guard,
    text_mentions_existing_upload, BlockedPackage, DependencyInfo, DependencyKind, PackageInfo,
    PublishOptions, PublishStep, ReleaseError, ReleasePackage,
};

fn package(name: &str) -> ReleasePackage {
    ReleasePackage {
        id: format!("path+file:///workspace/{name}#0.1.0"),
        name: name.to_owned(),
        version: "0.1.0".to_owned(),
    }
}

fn options() -> PublishOptions {
    PublishOptions::new(false)
}

#[test]
fn cargo_hack_publish_allows_its_temporary_manifest_edits() {
    let command = cargo_publish_command(&package("public-crate"), &options());

    assert_eq!(
        command,
        [
            "cargo",
            "hack",
            "--no-dev-deps",
            "publish",
            "-p",
            "public-crate",
            "--allow-dirty",
        ]
    );
}

#[test]
fn cargo_hack_publish_guards_preexisting_dirty_changes_by_default() {
    assert!(requires_clean_worktree_guard(&options()));
}

#[test]
fn explicit_dirty_publish_disables_the_clean_worktree_guard() {
    let mut options = options();
    options.allow_dirty = true;

    assert!(!requires_clean_worktree_guard(&options));
}

#[test]
fn plain_cargo_publish_does_not_allow_dirty_by_default() {
    let mut options = options();
    options.include_dev_deps = true;

    let command = cargo_publish_command(&package("public-crate"), &options);

    assert_eq!(command, ["cargo", "publish", "-p", "public-crate"]);
}

#[test]
fn publish_options_defaults() {
    let o = PublishOptions::new(true);
    assert!(o.execute);
    assert_eq!(o.from, None);
    assert_eq!(o.registry, None);
    assert!(!o.allow_dirty && !o.skip_verify && !o.include_dev_deps && !o.skip_existing);
    assert_eq!(o.retries, 3);
    assert_eq!(o.retry_delay_seconds, 20);
}

#[test]
fn publish_options_setters_change_one_field() {
    let o = PublishOptions::new(false)
        .resume_from(Some("b".to_owned()))
        .registry(Some("r".to_owned()))
        .allow_dirty(true)
        .skip_verify(true)
        .include_dev_deps(true)
        .skip_existing(true)
        .retries(7)
        .retry_delay_seconds(1);
    assert_eq!(o.from.as_deref(), Some("b"));
    assert_eq!(o.registry.as_deref(), Some("r"));
    assert!(o.allow_dirty && o.skip_verify && o.include_dev_deps && o.skip_existing);
    assert_eq!(o.retries, 7);
    assert_eq!(o.retry_delay_seconds, 1);
    assert!(!o.execute);
}

#[test]
fn every_flag_lands_on_the_command() {
    let o = PublishOptions::new(true)
        .registry(Some("corp".to_owned()))
        .skip_verify(true)
        .include_dev_deps(true)
        .allow_dirty(true);
    assert_eq!(
        cargo_publish_command(&package("a"), &o),
        ["cargo", "publish", "-p", "a", "--registry", "corp", "--allow-dirty", "--no-verify"]
    );
    assert!(cargo_publish_needs_allow_dirty(&o));
    assert!(!requires_clean_worktree_guard(&o));
}

fn pkg(id: &str, name: &str, deps: &[(&str, DependencyKind)], publish: Option<Vec<String>>) -> PackageInfo {
    PackageInfo {
        id: id.to_owned(),
        name: name.to_owned(),
        version: "1.0.0".to_owned(),
        dependencies: deps
            .iter()
            .map(|(n, k)| DependencyInfo { name: (*n).to_owned(), kind: *k })
            .collect(),
        publish,
    }
}

fn names(order: &[ReleasePackage]) -> Vec<&str> {
    order.iter().map(|p| p.name.as_str()).collect()
}

#[test]
fn release_order_puts_dependencies_first() {
    let packages = vec![
        pkg("id-app", "app", &[("core", DependencyKind::Normal), ("macros", DependencyKind::Build)], None),
        pkg("id-core", "core", &[], None),
        pkg("id-macros", "macros", &[("core", DependencyKind::Normal)], None),
        pkg("id-serde", "serde", &[], None),
    ];
    let members = vec!["id-app".to_owned(), "id-core".to_owned(), "id-macros".to_owned()];
    let order = release_order(&packages, &members).unwrap();
    assert_eq!(names(&order), ["core", "macros", "app"]);
    assert_eq!(order[0].id, "id-core");
    assert_eq!(order[0].version, "1.0.0");
}

#[test]
fn release_order_prefers_workspace_order_among_free_packages() {
    let packages = vec![
        pkg("c", "c", &[], None),
        pkg("b", "b", &[("a", DependencyKind::Normal)], None),
        pkg("a", "a", &[], None),
    ];
    let members = vec!["b".to_owned(), "c".to_owned(), "a".to_owned()];
    let order = release_order(&packages, &members).unwrap();
    assert_eq!(names(&order), ["c", "a", "b"]);
}

#[test]
fn release_order_ignores_dev_dependencies_and_unpublished_members() {
    let packages = vec![
        pkg("a", "a", &[("b", DependencyKind::Development)], None),
        pkg("b", "b", &[("a", DependencyKind::Normal)], None),
        pkg("x", "xtask", &[("a", DependencyKind::Normal)], Some(vec![])),
        pkg("r", "private-reg", &[], Some(vec!["corp".to_owned()])),
    ];
    let members = vec!["a".to_owned(), "b".to_owned(), "x".to_owned(), "r".to_owned(), "missing".to_owned()];
    let order = release_order(&packages, &members).unwrap();
    assert_eq!(names(&order), ["a", "b", "private-reg"]);
}

#[test]
fn release_order_reports_cycles() {
    let packages = vec![
        pkg("a", "a", &[("b", DependencyKind::Normal)], None),
        pkg("b", "b", &[("a", DependencyKind::Normal)], None),
        pkg("c", "c", &[("b", DependencyKind::Normal)], None),
        pkg("d", "d", &[], None),
    ];
    let members = vec!["a".to_owned(), "b".to_owned(), "c".to_owned(), "d".to_owned()];
    let err = release_order(&packages, &members).unwrap_err();
    assert_eq!(
        err,
        ReleaseError::DependencyCycle {
            blocked: vec![
                BlockedPackage { name: "a".to_owned(), waits_on: vec!["b".to_owned()] },
                BlockedPackage { name: "b".to_owned(), waits_on: vec!["a".to_owned()] },
                BlockedPackage { name: "c".to_owned(), waits_on: vec!["b".to_owned()] },
            ],
        }
    );
    assert_eq!(
        err.message(),
        "workspace publish dependencies contain a cycle: a waits on b; b waits on a; c waits on b"
    );
}

#[test]
fn release_order_self_dependency_is_a_cycle() {
    let packages = vec![pkg("a", "a", &[("a", DependencyKind::Normal)], None)];
    let err = release_order(&packages, &vec!["a".to_owned()]).unwrap_err();
    assert_eq!(err.message(), "workspace publish dependencies contain a cycle: a waits on a");
}

#[test]
fn release_order_of_nothing_is_empty() {
    assert!(release_order(&vec![], &vec![]).unwrap().is_empty());
}

#[test]
fn publishable_unless_the_registry_list_is_empty() {
    assert!(is_publishable(&pkg("a", "a", &[], None)));
    assert!(is_publishable(&pkg("a", "a", &[], Some(vec!["crates-io".to_owned()]))));
    assert!(!is_publishable(&pkg("a", "a", &[], Some(vec![]))));
}

#[test]
fn packages_from_resumes_at_the_named_package() {
    let all = vec![package("a"), package("b"), package("c")];
    assert_eq!(names(packages_from(&all, None).unwrap()), ["a", "b", "c"]);
    assert_eq!(names(packages_from(&all, Some("b")).unwrap()), ["b", "c"]);
    let err = packages_from(&all, Some("z")).unwrap_err();
    assert_eq!(
        err.message(),
        "unknown release package `z`; expected one of: a, b, c"
    );
}

#[test]
fn publish_steps_follow_the_retry_budget() {
    let o = PublishOptions::new(true);
    assert_eq!(publish_step(&o, 0, true, false), PublishStep::Published);
    assert_eq!(publish_step(&o, 0, false, true), PublishStep::Retry);
    assert_eq!(publish_step(&o, 2, false, false), PublishStep::Retry);
    assert_eq!(publish_step(&o, 3, false, false), PublishStep::GiveUp);
    let skipping = PublishOptions::new(true).skip_existing(true);
    assert_eq!(publish_step(&skipping, 3, false, true), PublishStep::AlreadyUploaded);
}

#[test]
fn existing_uploads_are_recognised_in_any_case() {
    assert!(output_mentions_existing_upload(b"error: crate version `0.1.0` is ALREADY UPLOADED"));
    assert!(output_mentions_existing_upload(b"the package Already Exists on the index"));
    assert!(!output_mentions_existing_upload(b"network failure"));
    assert!(output_mentions_existing_upload(b"\xff already exists"));
}

#[test]
fn lowercase_text_mentions_are_matched_exactly() {
    assert!(text_mentions_existing_upload("error: crate version is already uploaded"));
    assert!(text_mentions_existing_upload("already exists"));
    assert!(!text_mentions_existing_upload("ALREADY EXISTS"));
    assert!(!text_mentions_existing_upload("already upload"));
}

#[test]
fn release_order_lines_right_align_positions() {
    let packages: Vec<ReleasePackage> = (0..10).map(|i| package(&format!("crate{i}"))).collect();
    let lines = release_order_lines(&packages);
    assert_eq!(lines.len(), 12);
    assert_eq!(lines[0], "Release publish order:");
    assert_eq!(lines[1], " 1. crate0 0.1.0");
    assert_eq!(lines[9], " 9. crate8 0.1.0");
    assert_eq!(lines[10], "10. crate9 0.1.0");
    assert_eq!(lines[11], "Order is computed from non-dev workspace dependencies.");
    for (index, package) in packages.iter().enumerate() {
        assert_eq!(
            lines[index + 1],
            format!("{:>2}. {} {}", index + 1, package.name, package.version)
        );
    }
    assert_eq!(release_order_lines(&[]), vec![
        "Release publish order:".to_owned(),
        "Order is computed from non-dev workspace dependencies.".to_owned(),
    ]);
}

#[test]
fn decimal_strings() {
    assert_eq!(decimal_string(0), "0");
    assert_eq!(decimal_string(7), "7");
    assert_eq!(decimal_string(100), "100");
    assert_eq!(decimal_string(1234567890), "1234567890");
}
