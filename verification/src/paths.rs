//! Filesystem locations derived from the executable's directory.
//!
//! The sidecar configuration file and the output directory both live next
//! to the executable. Finding the executable's directory is I/O and happens
//! outside the library; these functions do the pure part, appending the
//! fixed names to that directory.

use vstd::prelude::*;
use vstd::string::StringExecFns;

verus! {

/// The path of the sidecar configuration file under `exe_dir`.
pub fn sidecar_path(exe_dir: &str) -> (r: String)
    ensures
        r@ == exe_dir@ + "/image_manip_config.json"@,
{
    let mut r = String::from_str(exe_dir);
    r.append("/image_manip_config.json");
    r
}

/// The path of the directory under `exe_dir` that receives every converted
/// image.
pub fn conversion_dir(exe_dir: &str) -> (r: String)
    ensures
        r@ == exe_dir@ + "/image_manip_convert"@,
{
    let mut r = String::from_str(exe_dir);
    r.append("/image_manip_convert");
    r
}

} // verus!
