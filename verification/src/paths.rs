//! Filesystem paths held as `/`-separated text, joined the way a Unix `PathBuf` joins them.
use vstd::prelude::*;
use crate::text::{concat2, concat3, ends_with_char};

verus! {

/// `base` joined with `path`: an absolute `path` replaces `base`; otherwise `path` follows
/// `base`, with a `/` between them unless `base` is empty or already ends with one.
pub open spec fn spec_join_path(base: Seq<char>, path: Seq<char>) -> Seq<char> {
    if path.len() > 0 && path[0] == '/' {
        path
    } else if base.len() == 0 || base.last() == '/' {
        base + path
    } else {
        base + seq!['/'] + path
    }
}

/// `base` joined with `path` (`Path::join` on Unix).
pub fn join_path(base: &str, path: &str) -> (r: String)
    ensures
        r@ == spec_join_path(base@, path@),
{
    proof {
        reveal_strlit("/");
    }
    if path.unicode_len() > 0 && path.get_char(0) == '/' {
        path.to_owned()
    } else if base.unicode_len() == 0 || ends_with_char(base, '/') {
        concat2(base, path)
    } else {
        concat3(base, "/", path)
    }
}

/// What `Path::parent` gives for the path `p`: the path without its final component, or
/// nothing for a root or an empty path.
pub uninterp spec fn parent_path(p: Seq<char>) -> Option<Seq<char>>;

/// `Path::parent` on the path `p`; the contract names the result and claims nothing more
/// of it (the parent of a path made from text is text again).
#[verifier::external_body]
fn path_parent(p: &str) -> (r: Option<String>)
    ensures
        match r {
            Some(q) => parent_path(p@) == Some(q@),
            None => parent_path(p@) is None,
        },
{
    std::path::Path::new(p).parent().and_then(|q| q.to_str()).map(|q| q.to_owned())
}

/// The workspace root of an xtask crate: the parent of its manifest directory.
pub fn workspace_root_from_xtask_manifest_dir(manifest_dir: &str) -> (r: Result<String, String>)
    ensures
        match r {
            Ok(root) => parent_path(manifest_dir@) == Some(root@),
            Err(message) => parent_path(manifest_dir@) is None
                && message@ == "failed to resolve workspace root from xtask manifest directory"@,
        },
{
    match path_parent(manifest_dir) {
        Some(root) => Ok(root),
        None => Err("failed to resolve workspace root from xtask manifest directory".to_owned()),
    }
}

/// Joining a relative path that does not start with `/` onto a non-empty base keeps the
/// base as a prefix, so every such join stays under the base directory.
pub proof fn lemma_join_relative_stays_under(base: Seq<char>, path: Seq<char>)
    requires
        base.len() > 0,
        path.len() == 0 || path[0] != '/',
    ensures
        spec_join_path(base, path).len() >= base.len(),
        spec_join_path(base, path).take(base.len() as int) == base,
{
    let r = spec_join_path(base, path);
    if base.last() == '/' {
        assert((base + path).take(base.len() as int) =~= base);
    } else {
        assert((base + seq!['/'] + path).take(base.len() as int) =~= base);
    }
}

} // verus!
