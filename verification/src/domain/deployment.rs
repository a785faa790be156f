//! Native (systemd/rc.d + `.ini` files) vs Docker (compose + `ARKIME__*` env).

use vstd::prelude::*;

verus! {

#[derive(Debug, Clone, Copy, PartialEq, Eq, Structural)]
pub enum Deployment {
    Native,
    Docker,
}

impl Deployment {
    pub open spec fn spec_label(self) -> Seq<char> {
        match self {
            Deployment::Native => "Native (systemd / rc.d, writes config.ini)"@,
            Deployment::Docker => "Docker (docker-compose.yml + ARKIME__* env)"@,
        }
    }

    pub fn label(self) -> (s: &'static str)
        ensures
            s@ == self.spec_label(),
    {
        match self {
            Deployment::Native => "Native (systemd / rc.d, writes config.ini)",
            Deployment::Docker => "Docker (docker-compose.yml + ARKIME__* env)",
        }
    }
}

} // verus!
