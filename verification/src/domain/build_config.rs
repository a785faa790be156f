//! Install-dir / product-name resolution. The resolved value is threaded
//! explicitly through every templating/action call.

use vstd::prelude::*;
use crate::text::{join_path, path_join};

verus! {

pub struct BuildConfig {
    pub name: String,
    /// The install directory, as a filesystem path.
    pub install_dir: String,
}

impl BuildConfig {
    /// The defaults: the product name and install directory baked in when the
    /// package was built (`BUILD_ARKIME_NAME`, `BUILD_ARKIME_INSTALL_DIR`,
    /// handed in by the caller), else product `arkime` under `/opt/arkime`.
    pub fn defaults(build_name: Option<&str>, build_install_dir: Option<&str>) -> (b: BuildConfig)
        ensures
            b.name@ == match build_name {
                Some(n) => n@,
                None => "arkime"@,
            },
            b.install_dir@ == match build_install_dir {
                Some(d) => d@,
                None => "/opt/arkime"@,
            },
    {
        let name = match build_name {
            Some(n) => n,
            None => "arkime",
        };
        let dir = match build_install_dir {
            Some(d) => d,
            None => "/opt/arkime",
        };
        BuildConfig { name: name.to_owned(), install_dir: dir.to_owned() }
    }

    /// `<install_dir>/etc`.
    pub fn etc_dir(&self) -> (p: String)
        ensures
            p@ == path_join(self.install_dir@, "etc"@),
    {
        join_path(self.install_dir.as_str(), "etc")
    }
}

} // verus!
