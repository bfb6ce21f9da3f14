use vstd::prelude::*;
use vstd::string::StrSliceExecFns;
use vstd::string::StringExecFns;

verus! {

/// `name` appended to the directory `dir`, with a separator inserted unless
/// `dir` already ends with one.
pub open spec fn joined_path(dir: Seq<char>, name: Seq<char>) -> Seq<char> {
    if dir.len() > 0 && dir.last() == '/' {
        dir + name
    } else {
        dir + "/"@ + name
    }
}

/// Composes the path of the entry `name` inside the directory `dir`.
pub fn join_path(dir: &str, name: &str) -> (r: String)
    ensures
        r@ == joined_path(dir@, name@),
{
    let mut joined = dir.to_owned();
    let n = dir.unicode_len();
    if n == 0 || dir.get_char(n - 1) != '/' {
        joined.append("/");
    }
    joined.append(name);
    joined
}

/// Relies on `std::path::Path::exists` to probe the filesystem; what it
/// returns depends on the disk, so nothing is promised of the result.
#[verifier::external_body]
pub(crate) fn path_exists(path: &str) -> bool {
    std::path::Path::new(path).exists()
}

} // verus!
