use crate::prelude::{hex_lower, to_hex_lower};
use crate::sync::context::Context;
use vstd::bytes::*;
use vstd::prelude::*;
use vstd::string::*;

verus! {

/// A path with one more component behind a slash.
pub open spec fn joined(base: Seq<char>, part: Seq<char>) -> Seq<char> {
    base + "/"@ + part
}

/// An identifier as a file name: its sixteen bytes, most significant first,
/// in lower-case hexadecimal.
pub open spec fn id_text(id: u128) -> Seq<char> {
    hex_lower(spec_u128_to_le_bytes(id).reverse())
}

fn join(base: String, part: &str) -> (path: String)
    ensures
        path@ == joined(base@, part@),
{
    let mut path = base;
    path.append("/");
    path.append(part);
    path
}

/// The file name of an identifier.
pub fn id_file_name(id: u128) -> (name: String)
    ensures
        name@ == id_text(id),
{
    let le = u128_to_le_bytes(id);
    let mut be: Vec<u8> = Vec::new();
    let mut i: usize = le.len();
    while i > 0
        invariant
            i <= le.len(),
            be@.len() == le.len() - i,
            forall|k: int| 0 <= k < be@.len() ==> be@[k] == le@[le.len() - 1 - k],
        decreases i,
    {
        i -= 1;
        be.push(le[i]);
    }
    assert(be@ =~= le@.reverse());
    to_hex_lower(be.as_slice())
}

/// The file of one storage object.
pub fn storage_object_path(ctx: &Context, storage_id: &str, object_id: u128) -> (path: String)
    ensures
        path@ == joined(
            joined(joined(ctx.db_root_path@, "storage_data"@), storage_id@),
            id_text(object_id),
        ),
{
    let name = id_file_name(object_id);
    join(join(join(ctx.db_root_path.clone(), "storage_data"), storage_id), name.as_str())
}

/// The file that describes one storage.
pub fn storage_details_path(ctx: &Context, storage_id: &str) -> (path: String)
    ensures
        path@ == joined(joined(ctx.db_root_path@, "storage_details"@), storage_id@),
{
    join(join(ctx.db_root_path.clone(), "storage_details"), storage_id)
}

/// The directory of the commit logs.
pub fn commit_log(ctx: &Context) -> (path: String)
    ensures
        path@ == joined(ctx.db_root_path@, "commit_log"@),
{
    join(ctx.db_root_path.clone(), "commit_log")
}

/// The log of commits that were not published yet.
pub fn commit_local_log(ctx: &Context) -> (path: String)
    ensures
        path@ == joined(joined(ctx.db_root_path@, "commit_log"@), "local"@),
{
    join(commit_log(ctx), "local")
}

/// The log of commits that the server accepted.
pub fn commit_remote_log(ctx: &Context) -> (path: String)
    ensures
        path@ == joined(joined(ctx.db_root_path@, "commit_log"@), "remote"@),
{
    join(commit_log(ctx), "remote")
}

/// The record of the last commit of each log.
pub fn commit_index(ctx: &Context) -> (path: String)
    ensures
        path@ == joined(joined(ctx.db_root_path@, "commit_log"@), "index"@),
{
    join(commit_log(ctx), "index")
}

/// The record that says how the replica takes part.
pub fn repo_details(ctx: &Context) -> (path: String)
    ensures
        path@ == joined(ctx.db_root_path@, "repo_details"@),
{
    join(ctx.db_root_path.clone(), "repo_details")
}

} // verus!
