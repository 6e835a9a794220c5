//! What a configuration file refers to outside of itself.

use crate::term::key::Key;
use crate::text::{from_chars, has_prefix, to_chars};
use vstd::prelude::*;

verus! {

/// Where a file is, and what the names in it stand for.
pub struct CfgCx {
    /// The directory of the file.
    pub dir: String,
    /// Keys, by the names that they have in the file.
    pub keys: Vec<(String, Key)>,
    /// The variables that environment files define, by the paths of the files.
    pub env_files: Vec<(String, Vec<(String, String)>)>,
}

impl CfgCx {
    /// A file that refers to nothing but its directory.
    pub fn new(dir: String) -> (r: Self)
        ensures
            r.dir == dir,
            r.keys@ == Seq::<(String, Key)>::empty(),
            r.env_files@ == Seq::<(String, Vec<(String, String)>)>::empty(),
    {
        CfgCx { dir, keys: Vec::new(), env_files: Vec::new() }
    }
}

/// A path in which `<CONFIG_DIR>` leads to the directory of the file.
pub open spec fn config_path(dir: Seq<char>, path: Seq<char>) -> Seq<char> {
    if "<CONFIG_DIR>"@.is_prefix_of(path) {
        dir + path.skip("<CONFIG_DIR>"@.len() as int)
    } else {
        path
    }
}

pub fn resolve_config_path(dir: &str, path: &str) -> (r: String)
    ensures
        r@ == config_path(dir@, path@),
{
    let cs = to_chars(path);
    if !has_prefix(&cs, "<CONFIG_DIR>") {
        return path.to_owned();
    }
    let from: usize = to_chars("<CONFIG_DIR>").len();
    let rest = from_chars(&cs, from, cs.len());
    let mut out = dir.to_owned();
    out.append(rest.as_str());
    proof {
        assert(out@ =~= config_path(dir@, path@));
    }
    out
}

} // verus!
