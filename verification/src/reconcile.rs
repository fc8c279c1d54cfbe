//! The per-file decision procedure.
//!
//! For one source file of one context, the reconciler produces a *plan*: the
//! ordered filesystem operations that materialize the file under the
//! destination root, and the outcome the run records for it.  The order is
//! normative: ancestor directories first, then — when the destination holds
//! different bytes — the rename that saves the old file at its backup path,
//! and only then the write of the candidate bytes.  A pre-existing file is
//! never truncated in place, nothing is written outside the destination
//! root, and a destination that already holds the candidate bytes is left
//! untouched.

use vstd::prelude::*;
use vstd::utf8::{decode_utf8, encode_utf8, valid_utf8};
use crate::bytes::{bytes_eq, subvec};
use crate::classify::decode_text;
use crate::errors::FileError;
use crate::paths::{
    ancestor_dirs, backup_path, join_under_root, lemma_ancestors_under_root,
    lemma_backup_under_root, lemma_join_prefix, spec_ancestor_dirs, spec_backup_path, spec_join,
};
use crate::render::{render_of, render_template};
use crate::vars::{server_name_key, VarMap};

verus! {

/// What the destination path holds before the file is reconciled.
pub enum DestState {
    /// Nothing exists at the destination path.
    Missing,
    /// A regular file with these bytes.
    IsFile(Vec<u8>),
    /// Something that is not a regular file (a directory, say).
    NotAFile,
}

/// One filesystem operation of a plan.  A shell that carries a plan out
/// performs the operations in order: `EnsureDir` creates the directory when
/// it does not exist and then applies the mode and ownership; `Rename`
/// atomically moves (replacing what the target held); `WriteFile` creates
/// the file fresh and writes the contents in full; `SetMeta` applies the
/// mode and the resolved ownership to the path, passing over symlinks.
pub enum FsOp {
    EnsureDir { path: Vec<u8>, mode: u32 },
    Rename { from: Vec<u8>, to: Vec<u8> },
    WriteFile { path: Vec<u8>, contents: Vec<u8> },
    SetMeta { path: Vec<u8>, mode: u32 },
}

/// The mathematical shape of one operation.
pub enum FsOpView {
    EnsureDir { path: Seq<u8>, mode: u32 },
    Rename { from: Seq<u8>, to: Seq<u8> },
    WriteFile { path: Seq<u8>, contents: Seq<u8> },
    SetMeta { path: Seq<u8>, mode: u32 },
}

impl View for FsOp {
    type V = FsOpView;

    open spec fn view(&self) -> FsOpView {
        match self {
            FsOp::EnsureDir { path, mode } => FsOpView::EnsureDir { path: path@, mode: *mode },
            FsOp::Rename { from, to } => FsOpView::Rename { from: from@, to: to@ },
            FsOp::WriteFile { path, contents } => FsOpView::WriteFile {
                path: path@,
                contents: contents@,
            },
            FsOp::SetMeta { path, mode } => FsOpView::SetMeta { path: path@, mode: *mode },
        }
    }
}

/// How the run records one file.
#[derive(Clone, Copy, PartialEq, Eq, Structural, Debug)]
pub enum FileOutcome {
    /// The destination already held the candidate bytes; nothing to do.
    Unchanged,
    /// The candidate bytes were (or are to be) written.
    Written,
    /// The file failed; the run records the error and continues.
    Failed(FileError),
}

/// The plan for one file: operations in execution order, and the outcome.
pub struct FilePlan {
    pub ops: Vec<FsOp>,
    pub outcome: FileOutcome,
}

/// The variable map a context renders with: the run's variables with
/// `server_name` bound to the context's name.
pub open spec fn server_named_vars(
    vars: Map<Seq<char>, Seq<char>>,
    context_name: Seq<char>,
) -> Map<Seq<char>, Seq<char>> {
    vars.insert(server_name_key(), context_name)
}

/// A variable the process environment defines reaches the renderer with the
/// process value, whatever the env-file said — except the reserved
/// `server_name`, which the current context always overrides.
pub proof fn lemma_render_vars_precedence(
    file_vars: Map<Seq<char>, Seq<char>>,
    env_vars: Map<Seq<char>, Seq<char>>,
    context_name: Seq<char>,
    key: Seq<char>,
)
    requires
        env_vars.contains_key(key),
        key != server_name_key(),
    ensures
        server_named_vars(file_vars.union_prefer_right(env_vars), context_name)[key]
            == env_vars[key],
        server_named_vars(file_vars.union_prefer_right(env_vars), context_name)[server_name_key()]
            == context_name,
{
}

/// The candidate bytes for a file: the strict render of a text source (as
/// UTF-8 bytes), the source bytes themselves for an opaque source, nothing
/// when the render fails.  `name` is what the template is registered under,
/// the file's basename; the engine's output can depend on it through
/// partial references.  The destination does not appear: whether templating
/// is applied is decided by the source bytes alone.
pub open spec fn spec_candidate(
    name: Seq<char>,
    source: Seq<u8>,
    vars: Map<Seq<char>, Seq<char>>,
    context_name: Seq<char>,
) -> Option<Seq<u8>> {
    if valid_utf8(source) {
        match render_of(name, decode_utf8(source), server_named_vars(vars, context_name)) {
            Some(text) => Some(encode_utf8(text)),
            None => None,
        }
    } else {
        Some(source)
    }
}

/// The outcome recorded for a file, given its candidate and what the
/// destination held.  The comparison is byte equality, which for a text
/// candidate coincides with comparing decoded texts: UTF-8 decoding and
/// encoding invert each other, so equal texts have equal bytes and a
/// destination that is not valid UTF-8 differs from every text candidate.
pub open spec fn spec_outcome(candidate: Option<Seq<u8>>, dest: DestState) -> FileOutcome {
    match candidate {
        None => FileOutcome::Failed(FileError::Render),
        Some(c) => match dest {
            DestState::Missing => FileOutcome::Written,
            DestState::IsFile(b) => if b@ == c {
                FileOutcome::Unchanged
            } else {
                FileOutcome::Written
            },
            DestState::NotAFile => FileOutcome::Failed(FileError::Write),
        },
    }
}

/// Comparing bytes is comparing texts: against a candidate that is valid
/// UTF-8, the destination bytes are equal exactly when they are valid UTF-8
/// themselves and decode to the same characters.  Decoding and encoding
/// invert each other, so the reconciler's byte comparison decides text
/// equality for text files.
pub proof fn lemma_byte_equality_is_text_equality(b: Seq<u8>, c: Seq<u8>)
    requires
        valid_utf8(c),
    ensures
        (b == c) <==> (valid_utf8(b) && decode_utf8(b) == decode_utf8(c)),
{
    if valid_utf8(b) && decode_utf8(b) == decode_utf8(c) {
        vstd::utf8::decode_utf8_encode_utf8(b);
        vstd::utf8::decode_utf8_encode_utf8(c);
    }
}

/// The ancestor-directory operations of a plan, root-to-leaf, each with the
/// directory mode.
pub open spec fn spec_dir_ops(root: Seq<u8>, rel: Seq<u8>) -> Seq<FsOpView> {
    spec_ancestor_dirs(root, rel).map_values(
        |d: Seq<u8>| FsOpView::EnsureDir { path: d, mode: 0o755u32 },
    )
}

/// The operations that follow the ancestor directories.  Every successful
/// reconciliation ends by normalizing the destination's mode and ownership,
/// whether or not anything was written; before that come the write for a
/// fresh destination, and the backup rename followed by the write when the
/// destination held different bytes.  A failed file gets nothing past the
/// directories.
pub open spec fn spec_tail_ops(
    root: Seq<u8>,
    rel: Seq<u8>,
    candidate: Option<Seq<u8>>,
    dest: DestState,
) -> Seq<FsOpView> {
    let dst = spec_join(root, rel);
    match candidate {
        None => Seq::empty(),
        Some(c) => match dest {
            DestState::Missing => seq![
                FsOpView::WriteFile { path: dst, contents: c },
                FsOpView::SetMeta { path: dst, mode: 0o644u32 },
            ],
            DestState::IsFile(b) => if b@ == c {
                seq![FsOpView::SetMeta { path: dst, mode: 0o644u32 }]
            } else {
                seq![
                    FsOpView::Rename { from: dst, to: spec_backup_path(dst) },
                    FsOpView::WriteFile { path: dst, contents: c },
                    FsOpView::SetMeta { path: dst, mode: 0o644u32 },
                ]
            },
            DestState::NotAFile => Seq::empty(),
        },
    }
}

/// The whole plan for one file, in execution order.
pub open spec fn spec_plan_ops(
    root: Seq<u8>,
    rel: Seq<u8>,
    candidate: Option<Seq<u8>>,
    dest: DestState,
) -> Seq<FsOpView> {
    spec_dir_ops(root, rel) + spec_tail_ops(root, rel, candidate, dest)
}

/// The shapes of a list of operations.
pub open spec fn ops_views(s: Seq<FsOp>) -> Seq<FsOpView> {
    s.map_values(|op: FsOp| op@)
}

proof fn lemma_ops_views_push(s: Seq<FsOp>, op: FsOp)
    ensures
        ops_views(s.push(op)) =~= ops_views(s).push(op@),
{
    assert forall|j: int| 0 <= j < s.len() + 1 implies ops_views(s.push(op))[j] == ops_views(
        s,
    ).push(op@)[j] by {
        if j < s.len() {
            assert(s.push(op)[j] == s[j]);
        } else {
            assert(s.push(op)[j] == op);
        }
    }
}

/// Whether every path an operation names lies under the root.
pub open spec fn op_paths_under(op: FsOpView, root: Seq<u8>) -> bool {
    match op {
        FsOpView::EnsureDir { path, mode } => root.is_prefix_of(path),
        FsOpView::Rename { from, to } => root.is_prefix_of(from) && root.is_prefix_of(to),
        FsOpView::WriteFile { path, contents } => root.is_prefix_of(path),
        FsOpView::SetMeta { path, mode } => root.is_prefix_of(path),
    }
}

/// Idempotence of a reconciliation: when the destination already holds the
/// candidate bytes — as it does on an immediate second run over an
/// unchanged source tree, the candidate being a function of the file's
/// name, source and variables alone — the plan holds no rename and no
/// write, only directory ops and the final metadata normalization.  No
/// backup appears, and the destination bytes stay as the first run left
/// them.
pub proof fn lemma_second_run_is_clean(root: Seq<u8>, rel: Seq<u8>, c: Seq<u8>, dest: DestState)
    requires
        dest matches DestState::IsFile(b) && b@ == c,
    ensures
        spec_outcome(Some(c), dest) == FileOutcome::Unchanged,
        forall|i: int|
            0 <= i < spec_plan_ops(root, rel, Some(c), dest).len() ==> ((#[trigger] spec_plan_ops(
                root,
                rel,
                Some(c),
                dest,
            )[i]) is EnsureDir || spec_plan_ops(root, rel, Some(c), dest)[i] is SetMeta),
{
    let ops = spec_plan_ops(root, rel, Some(c), dest);
    let dirs = spec_dir_ops(root, rel);
    let tail = spec_tail_ops(root, rel, Some(c), dest);
    assert(tail.len() == 1);
    assert forall|i: int| 0 <= i < ops.len() implies (ops[i] is EnsureDir
        || ops[i] is SetMeta) by {
        if i < dirs.len() {
            assert(ops[i] == dirs[i]);
            assert(dirs[i] == FsOpView::EnsureDir {
                path: spec_ancestor_dirs(root, rel)[i],
                mode: 0o755u32,
            });
        } else {
            assert(ops[i] == tail[0]);
        }
    }
}

/// No in-place truncation: when the destination exists with different
/// bytes, the plan renames it to its backup path immediately before the
/// only write; every earlier operation is a directory one and what follows
/// the write only sets metadata, so at the instant preceding the write the
/// old content stands in full at the backup path.
pub proof fn lemma_backup_precedes_write(root: Seq<u8>, rel: Seq<u8>, c: Seq<u8>, dest: DestState)
    requires
        dest matches DestState::IsFile(b) && b@ != c,
    ensures
        ({
            let ops = spec_plan_ops(root, rel, Some(c), dest);
            let dst = spec_join(root, rel);
            &&& ops.len() >= 3
            &&& ops[ops.len() - 3] == FsOpView::Rename { from: dst, to: spec_backup_path(dst) }
            &&& ops[ops.len() - 2] == FsOpView::WriteFile { path: dst, contents: c }
            &&& ops[ops.len() - 1] == FsOpView::SetMeta { path: dst, mode: 0o644u32 }
            &&& forall|i: int| 0 <= i < ops.len() - 3 ==> (#[trigger] ops[i]) is EnsureDir
            &&& forall|i: int| 0 <= i < ops.len() ==> ((#[trigger] ops[i]) is WriteFile ==> i
                == ops.len() - 2)
        }),
{
    let ops = spec_plan_ops(root, rel, Some(c), dest);
    let dirs = spec_dir_ops(root, rel);
    let tail = spec_tail_ops(root, rel, Some(c), dest);
    assert(tail.len() == 3);
    assert(ops[ops.len() - 3] == tail[0]);
    assert(ops[ops.len() - 2] == tail[1]);
    assert(ops[ops.len() - 1] == tail[2]);
    assert forall|i: int| 0 <= i < ops.len() - 3 implies ops[i] is EnsureDir by {
        assert(ops[i] == dirs[i]);
        assert(dirs[i] == FsOpView::EnsureDir {
            path: spec_ancestor_dirs(root, rel)[i],
            mode: 0o755u32,
        });
    }
    assert forall|i: int| 0 <= i < ops.len() implies (ops[i] is WriteFile ==> i == ops.len()
        - 2) by {
        if i < dirs.len() {
            assert(ops[i] == dirs[i]);
            assert(dirs[i] == FsOpView::EnsureDir {
                path: spec_ancestor_dirs(root, rel)[i],
                mode: 0o755u32,
            });
        } else {
            assert(ops[i] == tail[i - dirs.len()]);
        }
    }
}

/// Scope: every operation of every plan names only paths that have the
/// destination root as a prefix.  A run writes nowhere else.
pub proof fn lemma_plan_under_root(
    root: Seq<u8>,
    rel: Seq<u8>,
    candidate: Option<Seq<u8>>,
    dest: DestState,
)
    ensures
        forall|i: int|
            0 <= i < spec_plan_ops(root, rel, candidate, dest).len() ==> op_paths_under(
                #[trigger] spec_plan_ops(root, rel, candidate, dest)[i],
                root,
            ),
{
    let ops = spec_plan_ops(root, rel, candidate, dest);
    let dirs = spec_dir_ops(root, rel);
    let tail = spec_tail_ops(root, rel, candidate, dest);
    lemma_ancestors_under_root(root, rel);
    lemma_join_prefix(root, rel);
    lemma_backup_under_root(root, rel);
    assert forall|i: int| 0 <= i < ops.len() implies op_paths_under(ops[i], root) by {
        if i < dirs.len() {
            assert(ops[i] == dirs[i]);
            assert(dirs[i] == FsOpView::EnsureDir {
                path: spec_ancestor_dirs(root, rel)[i],
                mode: 0o755u32,
            });
        } else {
            assert(ops[i] == tail[i - dirs.len()]);
        }
    }
}

/// Classification is source-driven: the candidate — and with it whether
/// templating is applied at all — is computed from the file's name, the
/// source bytes and the variables alone, never from what the destination
/// holds.  An opaque source is copied verbatim; a text source is exactly
/// the strict render.
pub proof fn lemma_classification_source_driven(
    name: Seq<char>,
    source: Seq<u8>,
    vars: Map<Seq<char>, Seq<char>>,
    context_name: Seq<char>,
)
    ensures
        !valid_utf8(source) ==> spec_candidate(name, source, vars, context_name) == Some(source),
        valid_utf8(source) ==> spec_candidate(name, source, vars, context_name) == (match render_of(
            name,
            decode_utf8(source),
            server_named_vars(vars, context_name),
        ) {
            Some(text) => Some(encode_utf8(text)),
            None => None,
        }),
{
}

/// A failed render writes nothing: the file is recorded as failed, the
/// plan past the ancestor directories is empty, and in particular the
/// destination is neither renamed aside nor written.
pub proof fn lemma_failed_render_writes_nothing(root: Seq<u8>, rel: Seq<u8>, dest: DestState)
    ensures
        spec_outcome(None, dest) == FileOutcome::Failed(FileError::Render),
        forall|i: int|
            0 <= i < spec_plan_ops(root, rel, None, dest).len() ==> (#[trigger] spec_plan_ops(
                root,
                rel,
                None,
                dest,
            )[i]) is EnsureDir,
{
    let ops = spec_plan_ops(root, rel, None, dest);
    let dirs = spec_dir_ops(root, rel);
    assert(spec_tail_ops(root, rel, None, dest) =~= Seq::empty());
    assert(ops =~= dirs);
    assert forall|i: int| 0 <= i < ops.len() implies ops[i] is EnsureDir by {
        assert(dirs[i] == FsOpView::EnsureDir {
            path: spec_ancestor_dirs(root, rel)[i],
            mode: 0o755u32,
        });
    }
}

/// The directory operations of a plan really come root-to-leaf: each one's
/// path is a prefix of every later one's, one level at a time down from
/// the destination root.
pub proof fn lemma_dir_ops_root_to_leaf(root: Seq<u8>, rel: Seq<u8>)
    ensures
        forall|i: int, j: int|
            #![trigger spec_dir_ops(root, rel)[i], spec_dir_ops(root, rel)[j]]
            0 <= i <= j < spec_dir_ops(root, rel).len() ==> match (
                spec_dir_ops(root, rel)[i],
                spec_dir_ops(root, rel)[j],
            ) {
                (
                    FsOpView::EnsureDir { path: p1, mode: m1 },
                    FsOpView::EnsureDir { path: p2, mode: m2 },
                ) => p1.is_prefix_of(p2),
                _ => false,
            },
{
    let dirs = spec_dir_ops(root, rel);
    crate::paths::lemma_ancestors_root_to_leaf(root, rel);
    assert forall|i: int, j: int|
        #![trigger dirs[i], dirs[j]]
        0 <= i <= j < dirs.len() implies match (dirs[i], dirs[j]) {
        (
            FsOpView::EnsureDir { path: p1, mode: m1 },
            FsOpView::EnsureDir { path: p2, mode: m2 },
        ) => p1.is_prefix_of(p2),
        _ => false,
    } by {
        assert(dirs[i] == FsOpView::EnsureDir {
            path: spec_ancestor_dirs(root, rel)[i],
            mode: 0o755u32,
        });
        assert(dirs[j] == FsOpView::EnsureDir {
            path: spec_ancestor_dirs(root, rel)[j],
            mode: 0o755u32,
        });
        assert(spec_ancestor_dirs(root, rel)[i].is_prefix_of(spec_ancestor_dirs(root, rel)[j]));
    }
}

/// Permission normalization: every directory operation of every plan
/// carries mode `0755` and every metadata normalization mode `0644`, and
/// every successful reconciliation ends with a metadata normalization of
/// the destination, written or not; the shell applies the mode and the
/// resolved ownership when it performs the operation.
pub proof fn lemma_plan_modes(
    root: Seq<u8>,
    rel: Seq<u8>,
    candidate: Option<Seq<u8>>,
    dest: DestState,
)
    ensures
        forall|i: int|
            0 <= i < spec_plan_ops(root, rel, candidate, dest).len() ==> match #[trigger] spec_plan_ops(
                root,
                rel,
                candidate,
                dest,
            )[i] {
                FsOpView::EnsureDir { path, mode } => mode == 0o755u32,
                FsOpView::SetMeta { path, mode } => mode == 0o644u32 && path == spec_join(
                    root,
                    rel,
                ),
                FsOpView::WriteFile { path, contents } => true,
                FsOpView::Rename { from, to } => true,
            },
        !(spec_outcome(candidate, dest) is Failed) ==> spec_plan_ops(root, rel, candidate, dest)[
            spec_plan_ops(root, rel, candidate, dest).len() - 1
        ] == (FsOpView::SetMeta { path: spec_join(root, rel), mode: 0o644u32 }),
{
    let ops = spec_plan_ops(root, rel, candidate, dest);
    let dirs = spec_dir_ops(root, rel);
    let tail = spec_tail_ops(root, rel, candidate, dest);
    assert forall|i: int| 0 <= i < ops.len() implies match #[trigger] ops[i] {
        FsOpView::EnsureDir { path, mode } => mode == 0o755u32,
        FsOpView::SetMeta { path, mode } => mode == 0o644u32 && path == spec_join(root, rel),
        FsOpView::WriteFile { path, contents } => true,
        FsOpView::Rename { from, to } => true,
    } by {
        if i < dirs.len() {
            assert(ops[i] == dirs[i]);
            assert(dirs[i] == FsOpView::EnsureDir {
                path: spec_ancestor_dirs(root, rel)[i],
                mode: 0o755u32,
            });
        } else {
            assert(ops[i] == tail[i - dirs.len()]);
        }
    }
    if !(spec_outcome(candidate, dest) is Failed) {
        assert(tail.len() >= 1);
        assert(ops[ops.len() - 1] == tail[tail.len() - 1]);
        assert(tail[tail.len() - 1] == (FsOpView::SetMeta {
            path: spec_join(root, rel),
            mode: 0o644u32,
        }));
    }
}

/// A model of the regular files under the destination root: each file's
/// path mapped to its bytes.  Directories are not part of the model, so a
/// directory operation leaves it unchanged, and so does setting metadata,
/// which touches no contents; a rename moves an entry, replacing what the
/// target held; a write sets an entry.
pub open spec fn apply_op(fs: Map<Seq<u8>, Seq<u8>>, op: FsOpView) -> Map<Seq<u8>, Seq<u8>> {
    match op {
        FsOpView::EnsureDir { path, mode } => fs,
        FsOpView::Rename { from, to } => if fs.contains_key(from) {
            fs.remove(from).insert(to, fs[from])
        } else {
            fs
        },
        FsOpView::WriteFile { path, contents } => fs.insert(path, contents),
        FsOpView::SetMeta { path, mode } => fs,
    }
}

/// The model after a list of operations ran, in order.
pub open spec fn apply_ops(fs: Map<Seq<u8>, Seq<u8>>, ops: Seq<FsOpView>) -> Map<Seq<u8>, Seq<u8>>
    decreases ops.len(),
{
    if ops.len() == 0 {
        fs
    } else {
        apply_ops(apply_op(fs, ops[0]), ops.skip(1))
    }
}

/// Whether a destination state, as a reconciliation read it, agrees with
/// the model at a path.  The model does not track directories, so a
/// not-a-file state constrains nothing.
pub open spec fn dest_matches(fs: Map<Seq<u8>, Seq<u8>>, path: Seq<u8>, dest: DestState) -> bool {
    match dest {
        DestState::Missing => !fs.contains_key(path),
        DestState::IsFile(b) => fs.contains_key(path) && fs[path] == b@,
        DestState::NotAFile => true,
    }
}

proof fn lemma_apply_ops_concat(fs: Map<Seq<u8>, Seq<u8>>, a: Seq<FsOpView>, b: Seq<FsOpView>)
    ensures
        apply_ops(fs, a + b) == apply_ops(apply_ops(fs, a), b),
    decreases a.len(),
{
    if a.len() == 0 {
        assert(a + b =~= b);
    } else {
        assert((a + b)[0] == a[0]);
        assert((a + b).skip(1) =~= a.skip(1) + b);
        lemma_apply_ops_concat(apply_op(fs, a[0]), a.skip(1), b);
    }
}

proof fn lemma_dir_ops_leave_model(fs: Map<Seq<u8>, Seq<u8>>, ops: Seq<FsOpView>)
    requires
        forall|i: int| 0 <= i < ops.len() ==> (#[trigger] ops[i]) is EnsureDir,
    ensures
        apply_ops(fs, ops) == fs,
    decreases ops.len(),
{
    if ops.len() > 0 {
        assert(ops[0] is EnsureDir);
        assert forall|i: int| 0 <= i < ops.skip(1).len() implies (#[trigger] ops.skip(
            1,
        )[i]) is EnsureDir by {
            assert(ops.skip(1)[i] == ops[i + 1]);
        }
        lemma_dir_ops_leave_model(fs, ops.skip(1));
    }
}

proof fn lemma_dir_views_are_dirs(root: Seq<u8>, rel: Seq<u8>)
    ensures
        forall|i: int|
            0 <= i < spec_dir_ops(root, rel).len() ==> (#[trigger] spec_dir_ops(
                root,
                rel,
            )[i]) is EnsureDir,
{
    assert forall|i: int| 0 <= i < spec_dir_ops(root, rel).len() implies (#[trigger] spec_dir_ops(
        root,
        rel,
    )[i]) is EnsureDir by {
        assert(spec_dir_ops(root, rel)[i] == FsOpView::EnsureDir {
            path: spec_ancestor_dirs(root, rel)[i],
            mode: 0o755u32,
        });
    }
}

/// After a plan that writes runs on the model, the destination path holds
/// exactly the candidate bytes.
pub proof fn lemma_plan_establishes_candidate(
    fs: Map<Seq<u8>, Seq<u8>>,
    root: Seq<u8>,
    rel: Seq<u8>,
    c: Seq<u8>,
    dest: DestState,
)
    requires
        spec_outcome(Some(c), dest) == FileOutcome::Written,
    ensures
        apply_ops(fs, spec_plan_ops(root, rel, Some(c), dest)).contains_key(spec_join(root, rel)),
        apply_ops(fs, spec_plan_ops(root, rel, Some(c), dest))[spec_join(root, rel)] == c,
{
    let dst = spec_join(root, rel);
    let dirs = spec_dir_ops(root, rel);
    let tail = spec_tail_ops(root, rel, Some(c), dest);
    lemma_apply_ops_concat(fs, dirs, tail);
    lemma_dir_views_are_dirs(root, rel);
    lemma_dir_ops_leave_model(fs, dirs);
    assert(apply_ops(fs, spec_plan_ops(root, rel, Some(c), dest)) == apply_ops(fs, tail));
    match dest {
        DestState::Missing => {
            let fs1 = apply_op(fs, tail[0]);
            assert(apply_ops(fs, tail) == apply_ops(fs1, tail.skip(1)));
            assert(tail.skip(1) =~= seq![tail[1]]);
            let fs2 = apply_op(fs1, tail[1]);
            assert(apply_ops(fs1, seq![tail[1]]) == apply_ops(fs2, seq![tail[1]].skip(1)));
            assert(seq![tail[1]].skip(1) =~= Seq::<FsOpView>::empty());
            assert(apply_ops(fs2, Seq::<FsOpView>::empty()) == fs2);
            assert(tail[0] == FsOpView::WriteFile { path: dst, contents: c });
            assert(fs1 == fs.insert(dst, c));
            assert(tail[1] == FsOpView::SetMeta { path: dst, mode: 0o644u32 });
            assert(fs2 == fs1);
        },
        DestState::IsFile(b) => {
            let fs1 = apply_op(fs, tail[0]);
            assert(apply_ops(fs, tail) == apply_ops(fs1, tail.skip(1)));
            assert(tail.skip(1) =~= seq![tail[1], tail[2]]);
            let fs2 = apply_op(fs1, tail[1]);
            assert(apply_ops(fs1, seq![tail[1], tail[2]]) == apply_ops(
                fs2,
                seq![tail[1], tail[2]].skip(1),
            ));
            assert(seq![tail[1], tail[2]].skip(1) =~= seq![tail[2]]);
            let fs3 = apply_op(fs2, tail[2]);
            assert(apply_ops(fs2, seq![tail[2]]) == apply_ops(fs3, seq![tail[2]].skip(1)));
            assert(seq![tail[2]].skip(1) =~= Seq::<FsOpView>::empty());
            assert(apply_ops(fs3, Seq::<FsOpView>::empty()) == fs3);
            assert(tail[1] == FsOpView::WriteFile { path: dst, contents: c });
            assert(fs2 == fs1.insert(dst, c));
            assert(tail[2] == FsOpView::SetMeta { path: dst, mode: 0o644u32 });
            assert(fs3 == fs2);
        },
        DestState::NotAFile => {
            assert(false);
        },
    }
}

/// A clean plan — the destination already held the candidate — leaves the
/// model exactly as it was: no file appears, none changes; only metadata
/// is normalized.
pub proof fn lemma_clean_plan_leaves_model(
    fs: Map<Seq<u8>, Seq<u8>>,
    root: Seq<u8>,
    rel: Seq<u8>,
    c: Seq<u8>,
    dest: DestState,
)
    requires
        dest matches DestState::IsFile(b) && b@ == c,
    ensures
        apply_ops(fs, spec_plan_ops(root, rel, Some(c), dest)) == fs,
{
    let dirs = spec_dir_ops(root, rel);
    let tail = spec_tail_ops(root, rel, Some(c), dest);
    assert(tail.len() == 1);
    lemma_apply_ops_concat(fs, dirs, tail);
    lemma_dir_views_are_dirs(root, rel);
    lemma_dir_ops_leave_model(fs, dirs);
    let fs1 = apply_op(fs, tail[0]);
    assert(apply_ops(fs, tail) == apply_ops(fs1, tail.skip(1)));
    assert(tail.skip(1) =~= Seq::<FsOpView>::empty());
    assert(apply_ops(fs1, Seq::<FsOpView>::empty()) == fs1);
    assert(tail[0] == FsOpView::SetMeta { path: spec_join(root, rel), mode: 0o644u32 });
    assert(fs1 == fs);
}

/// At the instant immediately preceding the write — after every operation
/// before it has run — the old destination bytes stand in full at the
/// backup path.
pub proof fn lemma_old_bytes_at_backup_before_write(
    fs: Map<Seq<u8>, Seq<u8>>,
    root: Seq<u8>,
    rel: Seq<u8>,
    c: Seq<u8>,
    dest: DestState,
)
    requires
        dest matches DestState::IsFile(b) && b@ != c,
        dest_matches(fs, spec_join(root, rel), dest),
    ensures
        ({
            let ops = spec_plan_ops(root, rel, Some(c), dest);
            let before_write = apply_ops(fs, ops.take(ops.len() - 2));
            let bak = spec_backup_path(spec_join(root, rel));
            &&& ops[ops.len() - 2] == FsOpView::WriteFile {
                path: spec_join(root, rel),
                contents: c,
            }
            &&& before_write.contains_key(bak)
            &&& before_write[bak] == (dest->IsFile_0)@
        }),
{
    let dst = spec_join(root, rel);
    let dirs = spec_dir_ops(root, rel);
    let tail = spec_tail_ops(root, rel, Some(c), dest);
    let ops = spec_plan_ops(root, rel, Some(c), dest);
    assert(tail.len() == 3);
    assert(ops[ops.len() - 2] == tail[1]);
    assert(ops.take(ops.len() - 2) =~= dirs + seq![tail[0]]);
    lemma_apply_ops_concat(fs, dirs, seq![tail[0]]);
    lemma_dir_views_are_dirs(root, rel);
    lemma_dir_ops_leave_model(fs, dirs);
    let fs1 = apply_op(fs, tail[0]);
    assert(apply_ops(fs, seq![tail[0]]) == apply_ops(fs1, seq![tail[0]].skip(1)));
    assert(seq![tail[0]].skip(1) =~= Seq::<FsOpView>::empty());
    assert(apply_ops(fs1, Seq::<FsOpView>::empty()) == fs1);
    assert(tail[0] == FsOpView::Rename { from: dst, to: spec_backup_path(dst) });
    assert(fs.contains_key(dst));
    assert(fs1 == fs.remove(dst).insert(spec_backup_path(dst), fs[dst]));
}

/// Idempotence, put together: when a reconciliation succeeded — it wrote,
/// or found the destination already right — and a second reconciliation of
/// the same file reads its destination state from the model the first one
/// left, the second is clean: nothing is renamed, nothing is written, the
/// bytes stay as the first run left them.  The candidate is the same both
/// times because it is a function of the file's name, source bytes and
/// variables alone, and a file keeps its name across runs.
pub proof fn lemma_second_run_is_a_no_op(
    fs: Map<Seq<u8>, Seq<u8>>,
    root: Seq<u8>,
    rel: Seq<u8>,
    c: Seq<u8>,
    dest1: DestState,
    dest2: DestState,
)
    requires
        dest_matches(fs, spec_join(root, rel), dest1),
        spec_outcome(Some(c), dest1) == FileOutcome::Written || spec_outcome(Some(c), dest1)
            == FileOutcome::Unchanged,
        dest_matches(
            apply_ops(fs, spec_plan_ops(root, rel, Some(c), dest1)),
            spec_join(root, rel),
            dest2,
        ),
        !(dest2 is NotAFile),
    ensures
        spec_outcome(Some(c), dest2) == FileOutcome::Unchanged,
        forall|i: int|
            0 <= i < spec_plan_ops(root, rel, Some(c), dest2).len() ==> ((#[trigger] spec_plan_ops(
                root,
                rel,
                Some(c),
                dest2,
            )[i]) is EnsureDir || spec_plan_ops(root, rel, Some(c), dest2)[i] is SetMeta),
{
    let dst = spec_join(root, rel);
    let fs_after = apply_ops(fs, spec_plan_ops(root, rel, Some(c), dest1));
    if spec_outcome(Some(c), dest1) == FileOutcome::Written {
        lemma_plan_establishes_candidate(fs, root, rel, c, dest1);
    } else {
        lemma_clean_plan_leaves_model(fs, root, rel, c, dest1);
    }
    assert(fs_after.contains_key(dst) && fs_after[dst] == c);
    match dest2 {
        DestState::Missing => {
            assert(false);
        },
        DestState::IsFile(b2) => {
            assert(b2@ == c);
            lemma_second_run_is_clean(root, rel, c, dest2);
        },
        DestState::NotAFile => {
            assert(false);
        },
    }
}

/// Compute the candidate bytes for one file.  `file_name` is the name the
/// template is registered under, the file's basename; the rendered output
/// can depend on it, so it is part of the candidate's arguments.
pub fn candidate_bytes(
    file_name: &str,
    source: &Vec<u8>,
    vars: &VarMap,
    context_name: &String,
) -> (r: Option<Vec<u8>>)
    requires
        vars.wf(),
    ensures
        match r {
            Some(c) => spec_candidate(file_name@, source@, vars@, context_name@) == Some(c@),
            None => spec_candidate(file_name@, source@, vars@, context_name@) is None,
        },
{
    match decode_text(source) {
        Some(text) => {
            let render_vars = vars.vars_for_context(context_name);
            match render_template(file_name, text.as_str(), &render_vars) {
                Some(rendered) => {
                    let bytes = vstd::slice::slice_to_vec(rendered.as_str().as_bytes());
                    Some(bytes)
                },
                None => None,
            }
        },
        None => {
            let copy = subvec(source, 0, source.len());
            Some(copy)
        },
    }
}

/// Plan one file: ancestor directories, then the comparison of candidate
/// against destination, then — only when they differ — the backup rename
/// before the write, and last the metadata normalization of the
/// destination.
pub fn plan_file(
    file_name: &str,
    source: &Vec<u8>,
    dest: &DestState,
    vars: &VarMap,
    context_name: &String,
    dest_root: &Vec<u8>,
    rel_path: &Vec<u8>,
) -> (p: FilePlan)
    requires
        vars.wf(),
    ensures
        p.outcome == spec_outcome(spec_candidate(file_name@, source@, vars@, context_name@), *dest),
        ops_views(p.ops@) == spec_plan_ops(
            dest_root@,
            rel_path@,
            spec_candidate(file_name@, source@, vars@, context_name@),
            *dest,
        ),
{
    let ghost cand_spec = spec_candidate(file_name@, source@, vars@, context_name@);
    let ghost dir_views = spec_dir_ops(dest_root@, rel_path@);
    let mut ops: Vec<FsOp> = Vec::new();
    let dirs = ancestor_dirs(dest_root, rel_path);
    let n = dirs.len();
    let mut i: usize = 0;
    proof {
        assert(ops_views(ops@) =~= dir_views.take(0));
    }
    while i < n
        invariant
            n == dirs@.len(),
            i <= n,
            dirs.deep_view() == spec_ancestor_dirs(dest_root@, rel_path@),
            dir_views == spec_dir_ops(dest_root@, rel_path@),
            ops_views(ops@) =~= dir_views.take(i as int),
        decreases n - i,
    {
        let path = subvec(&dirs[i], 0, dirs[i].len());
        proof {
            assert(dirs@[i as int]@.subrange(0, dirs@[i as int]@.len() as int) =~= dirs@[
                i as int
            ]@);
        }
        let ghost prev = ops@;
        ops.push(FsOp::EnsureDir { path, mode: 0o755 });
        proof {
            lemma_ops_views_push(prev, ops@.last());
            assert(dirs.deep_view()[i as int] == dirs@[i as int]@);
            assert(dir_views[i as int] == FsOpView::EnsureDir {
                path: spec_ancestor_dirs(dest_root@, rel_path@)[i as int],
                mode: 0o755u32,
            });
            assert(ops@.last()@ == dir_views[i as int]);
            assert(dir_views.take(i + 1) =~= dir_views.take(i as int).push(dir_views[i as int]));
            assert(ops_views(ops@) =~= dir_views.take(i + 1));
        }
        i = i + 1;
    }
    proof {
        assert(dir_views.take(n as int) =~= dir_views);
    }
    let candidate = candidate_bytes(file_name, source, vars, context_name);
    match candidate {
        None => {
            proof {
                assert(ops_views(ops@) =~= spec_plan_ops(dest_root@, rel_path@, cand_spec, *dest));
            }
            FilePlan { ops, outcome: FileOutcome::Failed(FileError::Render) }
        },
        Some(c) => {
            match dest {
                DestState::Missing => {
                    let dst = join_under_root(dest_root, rel_path);
                    let dst_meta = join_under_root(dest_root, rel_path);
                    let ghost prev1 = ops@;
                    ops.push(FsOp::WriteFile { path: dst, contents: c });
                    proof {
                        lemma_ops_views_push(prev1, ops@.last());
                    }
                    let ghost prev2 = ops@;
                    ops.push(FsOp::SetMeta { path: dst_meta, mode: 0o644 });
                    proof {
                        lemma_ops_views_push(prev2, ops@.last());
                        assert(ops_views(ops@) =~= spec_plan_ops(
                            dest_root@,
                            rel_path@,
                            cand_spec,
                            *dest,
                        ));
                    }
                    FilePlan { ops, outcome: FileOutcome::Written }
                },
                DestState::IsFile(b) => {
                    if bytes_eq(b, &c) {
                        let dst_meta = join_under_root(dest_root, rel_path);
                        let ghost prev = ops@;
                        ops.push(FsOp::SetMeta { path: dst_meta, mode: 0o644 });
                        proof {
                            lemma_ops_views_push(prev, ops@.last());
                            assert(ops_views(ops@) =~= spec_plan_ops(
                                dest_root@,
                                rel_path@,
                                cand_spec,
                                *dest,
                            ));
                        }
                        FilePlan { ops, outcome: FileOutcome::Unchanged }
                    } else {
                        let dst = join_under_root(dest_root, rel_path);
                        let bak = backup_path(&dst);
                        let dst_again = join_under_root(dest_root, rel_path);
                        let dst_meta = join_under_root(dest_root, rel_path);
                        let ghost prev1 = ops@;
                        ops.push(FsOp::Rename { from: dst, to: bak });
                        proof {
                            lemma_ops_views_push(prev1, ops@.last());
                        }
                        let ghost prev2 = ops@;
                        ops.push(FsOp::WriteFile { path: dst_again, contents: c });
                        proof {
                            lemma_ops_views_push(prev2, ops@.last());
                        }
                        let ghost prev3 = ops@;
                        ops.push(FsOp::SetMeta { path: dst_meta, mode: 0o644 });
                        proof {
                            lemma_ops_views_push(prev3, ops@.last());
                            assert(ops_views(ops@) =~= spec_plan_ops(
                                dest_root@,
                                rel_path@,
                                cand_spec,
                                *dest,
                            ));
                        }
                        FilePlan { ops, outcome: FileOutcome::Written }
                    }
                },
                DestState::NotAFile => {
                    proof {
                        assert(ops_views(ops@) =~= spec_plan_ops(
                            dest_root@,
                            rel_path@,
                            cand_spec,
                            *dest,
                        ));
                    }
                    FilePlan { ops, outcome: FileOutcome::Failed(FileError::Write) }
                },
            }
        },
    }
}

} // verus!
