//! The destructive single-item operations: permanent deletion and the
//! move to the trash bin. The decision — whether the request is valid,
//! which removal primitive applies, and the exact messages reported —
//! is made here; performing the removal is the caller's part, and a
//! failure there is reported under the prepared prefix.

use vstd::prelude::*;

verus! {

/// How an entry is removed: a file by a plain unlink, a directory with
/// everything under it.
#[derive(Debug)]
pub enum RemovalOp {
    RemoveFile,
    RemoveDirAll,
}

/// A validated removal request: which primitive to run, the message to
/// report on success, and the prefix under which to report a failure.
#[derive(Debug)]
pub struct RemovalPlan {
    pub op: RemovalOp,
    pub success_message: String,
    pub failure_prefix: String,
}

/// The word naming an entry's kind in messages.
pub open spec fn spec_kind_label(is_dir: bool) -> Seq<char> {
    if is_dir {
        "directory"@
    } else {
        "file"@
    }
}

fn kind_label(is_dir: bool) -> (r: &'static str)
    ensures
        r@ == spec_kind_label(is_dir),
{
    if is_dir {
        "directory"
    } else {
        "file"
    }
}

/// Validates a permanent-deletion request. A missing entry is refused
/// with the exact message the caller reports; an existing entry yields
/// the plan: directories are removed recursively, files unlinked.
pub fn plan_delete(exists: bool, is_dir: bool, path: &str) -> (r: Result<RemovalPlan, String>)
    ensures
        r is Ok <==> exists,
        !exists ==> r->Err_0@ == "File or directory does not exist"@,
        exists ==> ((r->Ok_0.op is RemoveDirAll) <==> is_dir),
        exists ==> r->Ok_0.success_message@ == "Successfully deleted "@ + spec_kind_label(is_dir)
            + " '"@ + path@ + "'"@,
        exists ==> r->Ok_0.failure_prefix@ == "Failed to delete "@ + spec_kind_label(is_dir)
            + ": "@,
{
    if !exists {
        return Result::Err(String::from_str("File or directory does not exist"));
    }
    let label = kind_label(is_dir);
    let mut success = String::from_str("Successfully deleted ");
    success.append(label);
    success.append(" '");
    success.append(path);
    success.append("'");
    let mut failure = String::from_str("Failed to delete ");
    failure.append(label);
    failure.append(": ");
    let op = if is_dir {
        RemovalOp::RemoveDirAll
    } else {
        RemovalOp::RemoveFile
    };
    Result::Ok(RemovalPlan { op, success_message: success, failure_prefix: failure })
}

/// Validates a move-to-trash request, with the same existence check and
/// the messages the trash operation reports.
pub fn plan_trash(exists: bool, is_dir: bool, path: &str) -> (r: Result<RemovalPlan, String>)
    ensures
        r is Ok <==> exists,
        !exists ==> r->Err_0@ == "File or directory does not exist"@,
        exists ==> ((r->Ok_0.op is RemoveDirAll) <==> is_dir),
        exists ==> r->Ok_0.success_message@ == "Successfully moved "@ + spec_kind_label(is_dir)
            + " '"@ + path@ + "' to trash"@,
        exists ==> r->Ok_0.failure_prefix@ == "Failed to move "@ + spec_kind_label(is_dir)
            + " to trash: "@,
{
    if !exists {
        return Result::Err(String::from_str("File or directory does not exist"));
    }
    let label = kind_label(is_dir);
    let mut success = String::from_str("Successfully moved ");
    success.append(label);
    success.append(" '");
    success.append(path);
    success.append("' to trash");
    let mut failure = String::from_str("Failed to move ");
    failure.append(label);
    failure.append(" to trash: ");
    let op = if is_dir {
        RemovalOp::RemoveDirAll
    } else {
        RemovalOp::RemoveFile
    };
    Result::Ok(RemovalPlan { op, success_message: success, failure_prefix: failure })
}

} // verus!
