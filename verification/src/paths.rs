//! Best-effort startup check that a corpus file path names an existing file.
//!
//! This is only a sanity check for bootstrapping: it does NOT guarantee the
//! file will still exist when it is later opened for reading. The check and
//! the open are separate operations, a race between them is expected, and a
//! loss of the file in between must surface as an open failure there, never
//! be treated as impossible here.

use vstd::prelude::*;

verus! {

/// Relies on `std::path::Path::exists`: whether the path points at an
/// existing entity on disk. The answer depends on the state of the
/// filesystem at the moment of the call, so nothing is promised of it.
#[verifier::external_body]
fn path_exists(s: &str) -> bool {
    std::path::Path::new(s).exists()
}

/// Relies on `std::path::Path::is_file`: whether the path points at a
/// regular file on disk. The answer depends on the state of the filesystem
/// at the moment of the call, so nothing is promised of it.
#[verifier::external_body]
fn path_is_file(s: &str) -> bool {
    std::path::Path::new(s).is_file()
}

/// Decides the verdict of the startup check from the filesystem's two
/// answers about the path `s`: exactly when the path exists and is a
/// regular file, the path is handed back; otherwise the error message
/// names the path.
pub fn classify_hash_file(exists: bool, is_file: bool, s: &str) -> (r: Result<String, String>)
    ensures
        exists && is_file ==> r is Ok && r->Ok_0@ == s@,
        !(exists && is_file) ==> r is Err && r->Err_0@ == s@ + " not found"@,
{
    if exists && is_file {
        Ok(s.to_owned())
    } else {
        let mut msg = s.to_owned();
        msg.append(" not found");
        Err(msg)
    }
}

/// Checks that `s` currently names an existing regular file. The two
/// filesystem answers are taken at call time and [`classify_hash_file`]
/// decides the verdict from them: the path is handed back on success, and
/// on failure the error message names the path. Whatever the filesystem
/// answered, the result carries the path itself.
pub fn does_hash_file_exist(s: &str) -> (r: Result<String, String>)
    ensures
        match r {
            Ok(t) => t@ == s@,
            Err(e) => e@ == s@ + " not found"@,
        },
{
    let exists = path_exists(s);
    let is_file = if exists {
        path_is_file(s)
    } else {
        false
    };
    classify_hash_file(exists, is_file, s)
}

} // verus!
