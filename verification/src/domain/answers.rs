//! Everything the wizard collects from the admin, read by the templating
//! (native) and docker generators.

use vstd::prelude::*;
use crate::domain::es_backend::EsBackend;

verus! {

pub struct Answers {
    /// Semicolon-separated interface list, matching Arkime's `interface=` value.
    pub interfaces: String,
    /// OpenSearch/Elasticsearch server URL.
    pub elasticsearch: String,
    /// Optional ES user (empty = no basic auth).
    pub es_user: String,
    /// Optional ES password (only meaningful when `es_user` is set).
    pub es_password: String,
    /// S2S / encryption secret (`passwordSecret`).
    pub s2s_password: String,
    /// Which single-node datastore to stand up (or None = external cluster).
    pub es_backend: EsBackend,
    /// Host data directory for the docker single-node backend.
    pub es_data_dir: String,
    /// Whether to download GeoIP files (native mode only).
    pub download_geoip: bool,
    /// MaxMind account ID (for generating GeoIP.conf). Empty = skip.
    pub maxmind_account: String,
    /// MaxMind license key (for generating GeoIP.conf).
    pub maxmind_key: String,
    /// Whether the viewer should allow PCAP uploads (sets `uploadCommand`).
    pub enable_uploads: bool,
    /// Native only: initialize the OpenSearch/ES database (db.pl init).
    pub init_db: bool,
    /// Native only: create an admin viewer user after setup.
    pub create_admin: bool,
    /// Admin user id/name (when `create_admin`).
    pub admin_user: String,
    /// Admin password (when `create_admin`).
    pub admin_password: String,
    /// `;`-separated capture plugin list. Empty means none.
    pub plugins: String,
    /// `;`-separated viewer plugin list (`viewerPlugins=`).
    pub viewer_plugins: String,
    /// External WISE service URL. Empty means unset.
    pub wise_url: String,
}

/// Default ES URL used when the admin leaves the field blank.
pub const DEFAULT_ES_URL: &'static str = "https://localhost:9200";

/// Default WISE URL suggested when configuring an external WISE service.
pub const DEFAULT_WISE_URL: &'static str = "http://127.0.0.1:8081";

/// Default host data dir for the docker single-node Elasticsearch.
pub const DEFAULT_ES_DATA_DIR: &'static str = "/arkime/esdata";

/// Default admin user id.
pub const DEFAULT_ADMIN_USER: &'static str = "admin";

/// URL the arkime containers use to reach the single-node ES (host net,
/// security disabled).
pub const SINGLE_NODE_ES_URL: &'static str = "http://localhost:9200";

/// The viewer `uploadCommand` enabled when the user opts into uploads. The
/// `{NODE}`/`{TMPFILE}`/`{TAGS}` placeholders are substituted by Arkime.
pub const UPLOAD_COMMAND: &'static str = "/opt/arkime/bin/capture --copy -n {NODE} -r {TMPFILE} {TAGS}";

pub fn empty_string() -> (s: String)
    ensures
        s@ == Seq::<char>::empty(),
{
    String::new()
}

impl Default for Answers {
    fn default() -> (a: Answers)
        ensures
            a.interfaces@.len() == 0,
            a.elasticsearch@.len() == 0,
            a.es_user@.len() == 0,
            a.es_password@.len() == 0,
            a.s2s_password@.len() == 0,
            a.es_backend == EsBackend::External,
            a.es_data_dir@.len() == 0,
            !a.download_geoip,
            a.maxmind_account@.len() == 0,
            a.maxmind_key@.len() == 0,
            !a.enable_uploads,
            !a.init_db,
            !a.create_admin,
            a.admin_user@.len() == 0,
            a.admin_password@.len() == 0,
            a.plugins@.len() == 0,
            a.viewer_plugins@.len() == 0,
            a.wise_url@.len() == 0,
    {
        Answers {
            interfaces: empty_string(),
            elasticsearch: empty_string(),
            es_user: empty_string(),
            es_password: empty_string(),
            s2s_password: empty_string(),
            es_backend: EsBackend::External,
            es_data_dir: empty_string(),
            download_geoip: false,
            maxmind_account: empty_string(),
            maxmind_key: empty_string(),
            enable_uploads: false,
            init_db: false,
            create_admin: false,
            admin_user: empty_string(),
            admin_password: empty_string(),
            plugins: empty_string(),
            viewer_plugins: empty_string(),
            wise_url: empty_string(),
        }
    }
}

impl Answers {
    pub open spec fn spec_has_es_user(&self) -> bool {
        self.es_user@.len() > 0
    }

    pub fn has_es_user(&self) -> (b: bool)
        ensures
            b == self.spec_has_es_user(),
    {
        !self.es_user.as_str().is_empty()
    }

    /// The ES URL, with the default for an empty entry.
    pub open spec fn spec_elasticsearch_or_default(&self) -> Seq<char> {
        if self.elasticsearch@.len() == 0 {
            DEFAULT_ES_URL@
        } else {
            self.elasticsearch@
        }
    }

    /// Resolve the ES URL, applying the default for an empty entry.
    pub fn elasticsearch_or_default(&self) -> (s: &str)
        ensures
            s@ == self.spec_elasticsearch_or_default(),
    {
        if self.elasticsearch.as_str().is_empty() {
            DEFAULT_ES_URL
        } else {
            self.elasticsearch.as_str()
        }
    }
}

} // verus!
