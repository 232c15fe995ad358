use sdk_lints::repo::{parse_vcs_output, RepoContext, RepoFile};

fn file(path: &str, in_index: bool) -> RepoFile {
    RepoFile { path: path.as_bytes().to_vec(), in_index }
}

fn context(root: &str, paths: &[&str]) -> RepoContext {
    RepoContext::new(
        root.as_bytes().to_vec(),
        paths.iter().map(|p| file(p, true)).collect(),
    )
}

#[test]
fn parse_vcs_output_trims_and_drops_blank_lines() {
    let indexed = b"README.md\n rust-runtime/inlineable/Cargo.toml \n\n";
    let changed = b"aws/rust-runtime/aws-config/src/lib.rs\n";
    let files = parse_vcs_output(indexed, changed);
    assert_eq!(files.len(), 3);
    assert_eq!(files[0].path, b"README.md".to_vec());
    assert!(files[0].in_index);
    assert_eq!(files[1].path, b"rust-runtime/inlineable/Cargo.toml".to_vec());
    assert!(files[1].in_index);
    assert_eq!(files[2].path, b"aws/rust-runtime/aws-config/src/lib.rs".to_vec());
    assert!(!files[2].in_index);
}

#[test]
fn repo_root_returns_the_configured_root() {
    let ctx = context("/work/repo", &[]);
    assert_eq!(ctx.repo_root(), &b"/work/repo".to_vec());
}

#[test]
fn is_crate_requires_a_manifest_in_the_inventory() {
    let ctx = context(
        "repo",
        &["repo/rust-runtime/foo/Cargo.toml", "repo/rust-runtime/foo/src/lib.rs"],
    );
    assert!(ctx.is_crate(b"repo/rust-runtime/foo"));
    assert!(!ctx.is_crate(b"repo/rust-runtime/bar"));
    assert!(!ctx.is_crate(b"repo/rust-runtime/foo/src"));
}

#[test]
fn smithy_rs_crates_lists_direct_children_once() {
    let ctx = context(
        "repo",
        &[
            "repo/rust-runtime/foo/Cargo.toml",
            "repo/rust-runtime/foo/src/lib.rs",
            "repo/rust-runtime/bar/Cargo.toml",
            // The same manifest appearing again must not duplicate the crate.
            "repo/rust-runtime/foo/Cargo.toml",
            // Nested manifests are not direct children.
            "repo/rust-runtime/deep/nested/Cargo.toml",
            // Other trees do not count.
            "repo/aws/rust-runtime/aws-config/Cargo.toml",
        ],
    );
    let crates = ctx.smithy_rs_crates();
    assert_eq!(
        crates,
        vec![b"repo/rust-runtime/foo".to_vec(), b"repo/rust-runtime/bar".to_vec()]
    );
}

#[test]
fn all_runtime_crates_lists_sdk_crates_first() {
    let ctx = context(
        "repo",
        &[
            "repo/rust-runtime/smithy-core/Cargo.toml",
            "repo/aws/rust-runtime/aws-config/Cargo.toml",
        ],
    );
    let crates = ctx.all_runtime_crates();
    assert_eq!(
        crates,
        vec![
            b"repo/aws/rust-runtime/aws-config".to_vec(),
            b"repo/rust-runtime/smithy-core".to_vec(),
        ]
    );
}

#[test]
fn all_cargo_tomls_appends_the_manifest_name() {
    let ctx = context(
        "repo",
        &[
            "repo/rust-runtime/smithy-core/Cargo.toml",
            "repo/aws/rust-runtime/aws-config/Cargo.toml",
        ],
    );
    let manifests = ctx.all_cargo_tomls();
    assert_eq!(
        manifests,
        vec![
            b"repo/aws/rust-runtime/aws-config/Cargo.toml".to_vec(),
            b"repo/rust-runtime/smithy-core/Cargo.toml".to_vec(),
        ]
    );
}
