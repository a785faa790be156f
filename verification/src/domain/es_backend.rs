//! The datastore Arkime talks to: an existing/external cluster, or a single-node
//! OpenSearch or Elasticsearch that the setup stands up.

use vstd::prelude::*;
use crate::text::str_eq;

verus! {

#[derive(Debug, Clone, Copy, PartialEq, Eq, Structural)]
pub enum EsBackend {
    /// Use an existing/external cluster at the entered URL.
    External,
    OpenSearch,
    Elasticsearch,
}

impl Default for EsBackend {
    fn default() -> (b: EsBackend)
        ensures
            b == EsBackend::External,
    {
        EsBackend::External
    }
}

impl EsBackend {
    /// Whether a single-node backend is stood up (vs an external one).
    pub fn is_some(self) -> (b: bool)
        ensures
            b == (self != EsBackend::External),
    {
        !matches!(self, EsBackend::External)
    }

    pub open spec fn spec_cycle(self) -> EsBackend {
        match self {
            EsBackend::External => EsBackend::OpenSearch,
            EsBackend::OpenSearch => EsBackend::Elasticsearch,
            EsBackend::Elasticsearch => EsBackend::External,
        }
    }

    /// Cycle None -> OpenSearch -> Elasticsearch -> None.
    pub fn cycle(self) -> (b: EsBackend)
        ensures
            b == self.spec_cycle(),
    {
        match self {
            EsBackend::External => EsBackend::OpenSearch,
            EsBackend::OpenSearch => EsBackend::Elasticsearch,
            EsBackend::Elasticsearch => EsBackend::External,
        }
    }

    pub open spec fn spec_label(self) -> Seq<char> {
        match self {
            EsBackend::External => "none — use an existing/external cluster"@,
            EsBackend::OpenSearch => "OpenSearch — run a single-node one"@,
            EsBackend::Elasticsearch => "Elasticsearch — run a single-node one"@,
        }
    }

    pub fn label(self) -> (s: &'static str)
        ensures
            s@ == self.spec_label(),
    {
        match self {
            EsBackend::External => "none — use an existing/external cluster",
            EsBackend::OpenSearch => "OpenSearch — run a single-node one",
            EsBackend::Elasticsearch => "Elasticsearch — run a single-node one",
        }
    }

    pub open spec fn spec_short(self) -> Seq<char> {
        match self {
            EsBackend::External => "none"@,
            EsBackend::OpenSearch => "opensearch"@,
            EsBackend::Elasticsearch => "elasticsearch"@,
        }
    }

    pub fn short(self) -> (s: &'static str)
        ensures
            s@ == self.spec_short(),
    {
        match self {
            EsBackend::External => "none",
            EsBackend::OpenSearch => "opensearch",
            EsBackend::Elasticsearch => "elasticsearch",
        }
    }

    pub open spec fn spec_service_name(self) -> Option<Seq<char>> {
        match self {
            EsBackend::External => None,
            EsBackend::OpenSearch => Some("opensearch"@),
            EsBackend::Elasticsearch => Some("elasticsearch"@),
        }
    }

    /// The compose service name (also the container_name).
    pub fn service_name(self) -> (s: Option<&'static str>)
        ensures
            s is None <==> self.spec_service_name() is None,
            s matches Some(n) ==> self.spec_service_name() == Some(n@),
    {
        match self {
            EsBackend::External => None,
            EsBackend::OpenSearch => Some("opensearch"),
            EsBackend::Elasticsearch => Some("elasticsearch"),
        }
    }

    pub open spec fn spec_data_path(self) -> Option<Seq<char>> {
        match self {
            EsBackend::External => None,
            EsBackend::OpenSearch => Some("/usr/share/opensearch/data"@),
            EsBackend::Elasticsearch => Some("/usr/share/elasticsearch/data"@),
        }
    }

    /// The container data directory to bind-mount.
    pub fn data_path(self) -> (s: Option<&'static str>)
        ensures
            s is None <==> self.spec_data_path() is None,
            s matches Some(n) ==> self.spec_data_path() == Some(n@),
    {
        match self {
            EsBackend::External => None,
            EsBackend::OpenSearch => Some("/usr/share/opensearch/data"),
            EsBackend::Elasticsearch => Some("/usr/share/elasticsearch/data"),
        }
    }

    pub open spec fn spec_from_service(name: Seq<char>) -> EsBackend {
        if name == "opensearch"@ {
            EsBackend::OpenSearch
        } else if name == "elasticsearch"@ {
            EsBackend::Elasticsearch
        } else {
            EsBackend::External
        }
    }

    /// Recover the backend from a compose service name.
    pub fn from_service(name: &str) -> (b: EsBackend)
        ensures
            b == EsBackend::spec_from_service(name@),
    {
        if str_eq(name, "opensearch") {
            EsBackend::OpenSearch
        } else if str_eq(name, "elasticsearch") {
            EsBackend::Elasticsearch
        } else {
            EsBackend::External
        }
    }
}

/// Cycling three times comes back to the start, through every backend.
pub proof fn lemma_cycle_visits_all(b: EsBackend)
    ensures
        b.spec_cycle().spec_cycle().spec_cycle() == b,
        b.spec_cycle() != b,
        b.spec_cycle().spec_cycle() != b,
{
}

} // verus!
