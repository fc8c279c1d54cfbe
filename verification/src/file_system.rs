//! The per-file record the enumerator fills and the reconciler consumes.

use vstd::prelude::*;
use crate::config::ServerContext;
use crate::paths::{join_under_root, spec_join};
use crate::reconcile::{plan_file, spec_candidate, spec_outcome, spec_plan_ops, ops_views,
    DestState, FilePlan};
use crate::vars::VarMap;

verus! {

/// One traversed source file: its bytes, what the destination held when it
/// was read, and where it comes from and goes to.  The paths are derived
/// from the context and the relative path; the record lives for one
/// reconciliation step.
pub struct File {
    pub source_bytes: Vec<u8>,
    pub existing: DestState,
    pub relative_path: Vec<u8>,
    pub source: Vec<u8>,
    pub destination: Vec<u8>,
}

impl File {
    /// Build the record for one file of one context.  The destination is
    /// the destination root joined with the relative path — and therefore
    /// always under the root.
    pub fn new(
        context: &ServerContext,
        relative_path: Vec<u8>,
        source_bytes: Vec<u8>,
        existing: DestState,
        destination_root: &Vec<u8>,
    ) -> (r: File)
        ensures
            r.source_bytes == source_bytes,
            r.existing == existing,
            r.relative_path == relative_path,
            r.source@ == spec_join(context.source_root@, relative_path@),
            r.destination@ == spec_join(destination_root@, relative_path@),
            destination_root@.is_prefix_of(r.destination@),
    {
        let source = join_under_root(&context.source_root, &relative_path);
        let destination = join_under_root(destination_root, &relative_path);
        File { source_bytes, existing, relative_path, source, destination }
    }

    /// Plan this record: the decision procedure of the reconciler, on the
    /// record's own bytes and destination state.
    pub fn reconcile(
        &self,
        file_name: &str,
        vars: &VarMap,
        context_name: &String,
        destination_root: &Vec<u8>,
    ) -> (p: FilePlan)
        requires
            vars.wf(),
        ensures
            p.outcome == spec_outcome(
                spec_candidate(file_name@, self.source_bytes@, vars@, context_name@),
                self.existing,
            ),
            ops_views(p.ops@) == spec_plan_ops(
                destination_root@,
                self.relative_path@,
                spec_candidate(file_name@, self.source_bytes@, vars@, context_name@),
                self.existing,
            ),
    {
        plan_file(
            file_name,
            &self.source_bytes,
            &self.existing,
            vars,
            context_name,
            destination_root,
            &self.relative_path,
        )
    }
}

} // verus!
