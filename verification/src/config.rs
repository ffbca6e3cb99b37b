//! Run configuration: where the addon and its script sources live.
use vstd::prelude::*;

verus! {

use vstd::string::StringExecFns;

/// The configuration a run is driven by; every field has a conventional
/// default.
#[derive(Debug)]
pub struct TetanusConfig {
    pub enable_rotation_filter: bool,
    pub enable_office: bool,
    pub rp_path: String,
    pub bp_path: String,
    pub data_path: String,
    pub script_path: String,
    pub base_path: String,
    pub main_file: String,
}

impl TetanusConfig {
    /// The script directory: the script path under the base path.
    pub fn real_script_dir(&self) -> (r: String)
        ensures
            r@ == crate::paths::spec_path_join(self.base_path@, self.script_path@),
    {
        self.base_path.as_str().to_owned().concat("/").concat(self.script_path.as_str())
    }

    /// The entry file: the main file name with its source extension.
    pub fn real_main(&self) -> (r: String)
        ensures
            r@ == self.main_file@ + ".ts"@,
    {
        self.main_file.as_str().to_owned().concat(".ts")
    }
}

} // verus!
