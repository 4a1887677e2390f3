//! The switcher itself: where the Battle.net configuration lives and where
//! saved configurations are kept.
use vstd::prelude::*;

verus! {

/// The switcher's view of the file system: the Battle.net configuration
/// directory, the directory that holds one saved configuration per account,
/// and the active configuration file.
pub struct BattleNetCore {
    app_data_path: String,
    data_dir: String,
    config_file_path: String,
}

impl BattleNetCore {
    pub closed spec fn spec_app_data_path(&self) -> Seq<char> {
        self.app_data_path@
    }

    pub closed spec fn spec_data_dir(&self) -> Seq<char> {
        self.data_dir@
    }

    pub closed spec fn spec_config_file_path(&self) -> Seq<char> {
        self.config_file_path@
    }

    /// A switcher over the given locations.
    pub fn new(app_data_path: String, data_dir: String, config_file_path: String) -> (r: Self)
        ensures
            r.spec_app_data_path() == app_data_path@,
            r.spec_data_dir() == data_dir@,
            r.spec_config_file_path() == config_file_path@,
    {
        BattleNetCore { app_data_path, data_dir, config_file_path }
    }

    pub fn app_data_path(&self) -> (r: &str)
        ensures
            r@ == self.spec_app_data_path(),
    {
        self.app_data_path.as_str()
    }

    pub fn data_dir(&self) -> (r: &str)
        ensures
            r@ == self.spec_data_dir(),
    {
        self.data_dir.as_str()
    }

    pub fn config_file_path(&self) -> (r: &str)
        ensures
            r@ == self.spec_config_file_path(),
    {
        self.config_file_path.as_str()
    }
}

} // verus!
