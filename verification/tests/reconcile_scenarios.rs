use server_sync::classify::decode_text;
use server_sync::driver::{fetch_plan, Driver, GitStep};
use server_sync::errors::{run_exit_code, FileError, CONFIG_EXIT_CODE};
use server_sync::file_system::File;
use server_sync::config::ServerContext;
use server_sync::paths::backup_path;
use server_sync::reconcile::{plan_file, DestState, FileOutcome, FsOp};
use server_sync::render::render_template;
use server_sync::vars::VarMap;

fn s(x: &str) -> String {
    x.to_string()
}

fn web_vars() -> VarMap {
    let mut m = VarMap::new();
    m.insert(s("PORT"), s("8080"));
    m
}

fn plan_app_conf(dest: DestState) -> server_sync::reconcile::FilePlan {
    plan_file(
        "app.conf",
        &b"host={{server_name}}:{{PORT}}".to_vec(),
        &dest,
        &web_vars(),
        &s("web"),
        &b"/dst".to_vec(),
        &b"etc/app.conf".to_vec(),
    )
}

#[test]
fn fresh_install_writes_rendered_file() {
    let p = plan_app_conf(DestState::Missing);
    assert_eq!(p.outcome, FileOutcome::Written);
    assert_eq!(p.ops.len(), 3);
    match &p.ops[0] {
        FsOp::EnsureDir { path, mode } => {
            assert_eq!(path, &b"/dst/etc".to_vec());
            assert_eq!(*mode, 0o755);
        }
        _ => panic!("expected the ancestor directory first"),
    }
    match &p.ops[1] {
        FsOp::WriteFile { path, contents } => {
            assert_eq!(path, &b"/dst/etc/app.conf".to_vec());
            assert_eq!(contents, &b"host=web:8080".to_vec());
        }
        _ => panic!("expected the write after the directories"),
    }
    match &p.ops[2] {
        FsOp::SetMeta { path, mode } => {
            assert_eq!(path, &b"/dst/etc/app.conf".to_vec());
            assert_eq!(*mode, 0o644);
        }
        _ => panic!("expected the metadata normalization last"),
    }
}

#[test]
fn unchanged_rerun_is_a_no_op() {
    let p = plan_app_conf(DestState::IsFile(b"host=web:8080".to_vec()));
    assert_eq!(p.outcome, FileOutcome::Unchanged);
    // no backup, no write; only directories and metadata normalization
    for op in &p.ops {
        assert!(matches!(op, FsOp::EnsureDir { .. } | FsOp::SetMeta { .. }));
    }
    // the destination's mode is still normalized
    match p.ops.last().unwrap() {
        FsOp::SetMeta { path, mode } => {
            assert_eq!(path, &b"/dst/etc/app.conf".to_vec());
            assert_eq!(*mode, 0o644);
        }
        _ => panic!("an up-to-date file still gets its metadata normalized"),
    }
}

#[test]
fn drifted_destination_backed_up_then_overwritten() {
    let p = plan_app_conf(DestState::IsFile(b"host=web:9999".to_vec()));
    assert_eq!(p.outcome, FileOutcome::Written);
    let n = p.ops.len();
    assert_eq!(n, 4);
    // the rename that saves the drifted file precedes the write
    match &p.ops[n - 3] {
        FsOp::Rename { from, to } => {
            assert_eq!(from, &b"/dst/etc/app.conf".to_vec());
            assert_eq!(to, &b"/dst/etc/app.bak".to_vec());
        }
        _ => panic!("expected the backup rename before the write"),
    }
    match &p.ops[n - 2] {
        FsOp::WriteFile { path, contents } => {
            assert_eq!(path, &b"/dst/etc/app.conf".to_vec());
            assert_eq!(contents, &b"host=web:8080".to_vec());
        }
        _ => panic!("expected the write after the rename"),
    }
    assert!(matches!(&p.ops[n - 1], FsOp::SetMeta { .. }));
}

#[test]
fn opaque_bytes_copied_verbatim() {
    // invalid UTF-8, and holding what looks like template braces
    let blob = vec![0x00u8, 0xFF, 0x80, b'{', b'{', b'x', b'}', b'}'];
    let p = plan_file(
        "blob",
        &blob,
        &DestState::Missing,
        &VarMap::new(),
        &s("web"),
        &b"/dst".to_vec(),
        &b"bin/blob".to_vec(),
    );
    assert_eq!(p.outcome, FileOutcome::Written);
    let written = p.ops.iter().find_map(|op| match op {
        FsOp::WriteFile { contents, .. } => Some(contents.clone()),
        _ => None,
    });
    assert_eq!(written, Some(blob));
}

#[test]
fn missing_variable_fails_only_that_file() {
    let p = plan_file(
        "app.conf",
        &b"x={{MISSING}}".to_vec(),
        &DestState::Missing,
        &VarMap::new(),
        &s("web"),
        &b"/dst".to_vec(),
        &b"etc/app.conf".to_vec(),
    );
    assert_eq!(p.outcome, FileOutcome::Failed(FileError::Render));
    // ancestor directories were still ensured, nothing else
    for op in &p.ops {
        assert!(matches!(op, FsOp::EnsureDir { .. }));
    }
    // the run carries on and exits 1
    let mut d = Driver::new(1);
    d.begin_context();
    d.record_file(false);
    d.record_file(true);
    d.end_context();
    assert_eq!(d.exit_code(), 1);
}

#[test]
fn two_contexts_shared_path_last_writer_wins() {
    let root = b"/dst".to_vec();
    let rel = b"etc/app.conf".to_vec();
    let template = b"ctx={{server_name}}".to_vec();
    let vars = VarMap::new();

    let first = plan_file("app.conf", &template, &DestState::Missing, &vars, &s("a"), &root, &rel);
    let written_by_a = first
        .ops
        .iter()
        .find_map(|op| match op {
            FsOp::WriteFile { contents, .. } => Some(contents.clone()),
            _ => None,
        })
        .expect("context a should write");
    assert_eq!(written_by_a, b"ctx=a".to_vec());

    let second = plan_file(
        "app.conf",
        &template,
        &DestState::IsFile(written_by_a.clone()),
        &vars,
        &s("b"),
        &root,
        &rel,
    );
    assert_eq!(second.outcome, FileOutcome::Written);
    let n = second.ops.len();
    match &second.ops[n - 3] {
        FsOp::Rename { from, to } => {
            assert_eq!(from, &b"/dst/etc/app.conf".to_vec());
            assert_eq!(to, &b"/dst/etc/app.bak".to_vec());
        }
        _ => panic!("the rendering of a must be saved as the backup"),
    }
    match &second.ops[n - 2] {
        FsOp::WriteFile { contents, .. } => assert_eq!(contents, &b"ctx=b".to_vec()),
        _ => panic!("the rendering of b must land after the rename"),
    }
}

#[test]
fn classification_ignores_destination() {
    let source = b"v={{server_name}}".to_vec();
    let text_dest = plan_file(
        "f",
        &source,
        &DestState::IsFile(b"anything".to_vec()),
        &VarMap::new(),
        &s("c"),
        &b"/d".to_vec(),
        &b"f".to_vec(),
    );
    let binary_dest = plan_file(
        "f",
        &source,
        &DestState::IsFile(vec![0xFFu8, 0x00]),
        &VarMap::new(),
        &s("c"),
        &b"/d".to_vec(),
        &b"f".to_vec(),
    );
    let write_of = |p: &server_sync::reconcile::FilePlan| -> Vec<u8> {
        p.ops
            .iter()
            .find_map(|op| match op {
                FsOp::WriteFile { contents, .. } => Some(contents.clone()),
                _ => None,
            })
            .expect("a differing destination is rewritten")
    };
    let w1 = write_of(&text_dest);
    let w2 = write_of(&binary_dest);
    // same source, same rendering, whatever the destination held
    assert_eq!(w1, b"v=c".to_vec());
    assert_eq!(w1, w2);
}

#[test]
fn destination_that_is_not_a_file_fails_with_write_error() {
    let p = plan_file(
        "f",
        &b"text".to_vec(),
        &DestState::NotAFile,
        &VarMap::new(),
        &s("c"),
        &b"/d".to_vec(),
        &b"f".to_vec(),
    );
    assert_eq!(p.outcome, FileOutcome::Failed(FileError::Write));
}

#[test]
fn every_planned_path_stays_under_the_root() {
    let p = plan_app_conf(DestState::IsFile(b"old".to_vec()));
    for op in &p.ops {
        let paths: Vec<&Vec<u8>> = match op {
            FsOp::EnsureDir { path, .. } => vec![path],
            FsOp::Rename { from, to } => vec![from, to],
            FsOp::WriteFile { path, .. } => vec![path],
            FsOp::SetMeta { path, .. } => vec![path],
        };
        for path in paths {
            assert!(path.starts_with(b"/dst"));
        }
    }
}

#[test]
fn deep_relative_path_creates_all_ancestors() {
    let p = plan_file(
        "c",
        &b"x".to_vec(),
        &DestState::Missing,
        &VarMap::new(),
        &s("ctx"),
        &b"/dst".to_vec(),
        &b"a/b/c".to_vec(),
    );
    let dirs: Vec<Vec<u8>> = p
        .ops
        .iter()
        .filter_map(|op| match op {
            FsOp::EnsureDir { path, .. } => Some(path.clone()),
            _ => None,
        })
        .collect();
    assert_eq!(dirs, vec![b"/dst/a".to_vec(), b"/dst/a/b".to_vec()]);
}

#[test]
fn backup_paths_follow_the_extension_rule() {
    assert_eq!(backup_path(&b"/d/app.conf".to_vec()), b"/d/app.bak".to_vec());
    assert_eq!(backup_path(&b"/d/noext".to_vec()), b"/d/noext.bak".to_vec());
    assert_eq!(backup_path(&b"/d.d/noext".to_vec()), b"/d.d/noext.bak".to_vec());
    assert_eq!(backup_path(&b"/d/.hidden".to_vec()), b"/d/.hidden.bak".to_vec());
    assert_eq!(backup_path(&b"/d/a.tar.gz".to_vec()), b"/d/a.tar.bak".to_vec());
}

#[test]
fn render_expands_and_escapes_nothing() {
    let mut m = VarMap::new();
    m.insert(s("V"), s("<a&b>"));
    let out = render_template("t", "x={{V}}", &m).unwrap();
    assert_eq!(out, s("x=<a&b>"));
    assert!(render_template("t", "{{ABSENT}}", &m).is_none());
    assert!(render_template("t", "{{#broken", &m).is_none());
}

#[test]
fn classify_by_bytes() {
    assert_eq!(decode_text(&b"plain".to_vec()), Some(s("plain")));
    assert_eq!(decode_text(&"héllo".as_bytes().to_vec()), Some(s("héllo")));
    assert_eq!(decode_text(&vec![0x00u8, 0xFF, 0x80]), None);
}

#[test]
fn file_record_paths() {
    let ctx = ServerContext::new(s("web"), "/repo");
    let f = File::new(
        &ctx,
        b"etc/app.conf".to_vec(),
        b"data".to_vec(),
        DestState::Missing,
        &b"/dst".to_vec(),
    );
    assert_eq!(f.source, b"/repo/contexts/web/etc/app.conf".to_vec());
    assert_eq!(f.destination, b"/dst/etc/app.conf".to_vec());
    let p = f.reconcile("app.conf", &VarMap::new(), &s("web"), &b"/dst".to_vec());
    assert_eq!(p.outcome, FileOutcome::Written);
}

#[test]
fn fetch_plan_clone_or_pull_then_checkout() {
    let clone = fetch_plan(false, &s("git@example:conf"), &s("/tmp/server-sync"), &s("main"));
    assert!(matches!(&clone[0], GitStep::Clone { url, dir }
        if url == "git@example:conf" && dir == "/tmp/server-sync"));
    assert!(matches!(&clone[1], GitStep::Checkout { dir, branch }
        if dir == "/tmp/server-sync" && branch == "main"));

    let pull = fetch_plan(true, &s("git@example:conf"), &s("/tmp/server-sync"), &s("master"));
    assert!(matches!(&pull[0], GitStep::Pull { dir } if dir == "/tmp/server-sync"));
    assert!(matches!(&pull[1], GitStep::Checkout { dir, branch }
        if dir == "/tmp/server-sync" && branch == "master"));
}

#[test]
fn contexts_processed_in_order() {
    let mut d = Driver::new(3);
    let mut order = Vec::new();
    for _ in 0..3 {
        let idx = d.begin_context();
        order.push(idx);
        d.record_file(true);
        d.end_context();
    }
    assert_eq!(order, vec![0, 1, 2]);
    assert_eq!(d.exit_code(), 0);
}

#[test]
fn exit_codes() {
    assert_eq!(run_exit_code(0), 0);
    assert_eq!(run_exit_code(5), 1);
    assert_eq!(CONFIG_EXIT_CODE, 19);
}
