//! The set of Arkime components the admin chose to configure. Any combination
//! can be enabled; later prompts are the union of what the enabled components
//! require.

use vstd::prelude::*;

verus! {

#[derive(Debug, Clone, Copy, PartialEq, Eq, Structural)]
pub enum Component {
    Capture,
    Viewer,
    Wise,
    Parliament,
    Cont3xt,
}

/// All components, in display order.
pub open spec fn all_components() -> Seq<Component> {
    seq![
        Component::Capture,
        Component::Viewer,
        Component::Wise,
        Component::Parliament,
        Component::Cont3xt,
    ]
}

impl Component {
    /// All components, in display order.
    pub fn all() -> (v: Vec<Component>)
        ensures
            v@ == all_components(),
    {
        vec![
            Component::Capture,
            Component::Viewer,
            Component::Wise,
            Component::Parliament,
            Component::Cont3xt,
        ]
    }

    pub open spec fn spec_label(self) -> Seq<char> {
        match self {
            Component::Capture => "capture"@,
            Component::Viewer => "viewer"@,
            Component::Wise => "wise"@,
            Component::Parliament => "parliament"@,
            Component::Cont3xt => "cont3xt"@,
        }
    }

    /// The component's name, as used for the container command and the
    /// compose service suffix.
    pub fn label(self) -> (s: &'static str)
        ensures
            s@ == self.spec_label(),
    {
        match self {
            Component::Capture => "capture",
            Component::Viewer => "viewer",
            Component::Wise => "wise",
            Component::Parliament => "parliament",
            Component::Cont3xt => "cont3xt",
        }
    }

    pub open spec fn spec_service_name(self) -> Seq<char> {
        match self {
            Component::Capture => "arkimecapture"@,
            Component::Viewer => "arkimeviewer"@,
            Component::Wise => "arkimewise"@,
            Component::Parliament => "arkimeparliament"@,
            Component::Cont3xt => "arkimecont3xt"@,
        }
    }

    /// systemd/rc.d service unit name (matches the units shipped by Arkime).
    pub fn service_name(self) -> (s: &'static str)
        ensures
            s@ == self.spec_service_name(),
    {
        match self {
            Component::Capture => "arkimecapture",
            Component::Viewer => "arkimeviewer",
            Component::Wise => "arkimewise",
            Component::Parliament => "arkimeparliament",
            Component::Cont3xt => "arkimecont3xt",
        }
    }
}

#[derive(Debug, Clone, Copy, PartialEq, Eq, Structural)]
pub struct Components {
    pub capture: bool,
    pub viewer: bool,
    pub wise: bool,
    pub parliament: bool,
    pub cont3xt: bool,
}

impl Default for Components {
    fn default() -> (c: Components)
        ensures
            c == Components::none(),
    {
        Components { capture: false, viewer: false, wise: false, parliament: false, cont3xt: false }
    }
}

impl Components {
    /// The empty selection.
    pub open spec fn none() -> Components {
        Components { capture: false, viewer: false, wise: false, parliament: false, cont3xt: false }
    }

    pub open spec fn has(self, c: Component) -> bool {
        match c {
            Component::Capture => self.capture,
            Component::Viewer => self.viewer,
            Component::Wise => self.wise,
            Component::Parliament => self.parliament,
            Component::Cont3xt => self.cont3xt,
        }
    }

    pub fn contains(&self, c: Component) -> (b: bool)
        ensures
            b == self.has(c),
    {
        match c {
            Component::Capture => self.capture,
            Component::Viewer => self.viewer,
            Component::Wise => self.wise,
            Component::Parliament => self.parliament,
            Component::Cont3xt => self.cont3xt,
        }
    }

    /// Flip one component on or off, leaving the others as they were.
    pub fn toggle(&mut self, c: Component)
        ensures
            final(self).has(c) == !old(self).has(c),
            forall|d: Component| d != c ==> final(self).has(d) == old(self).has(d),
    {
        match c {
            Component::Capture => self.capture = !self.capture,
            Component::Viewer => self.viewer = !self.viewer,
            Component::Wise => self.wise = !self.wise,
            Component::Parliament => self.parliament = !self.parliament,
            Component::Cont3xt => self.cont3xt = !self.cont3xt,
        }
    }

    pub open spec fn spec_any(self) -> bool {
        self.capture || self.viewer || self.wise || self.parliament || self.cont3xt
    }

    pub fn any(&self) -> (b: bool)
        ensures
            b == self.spec_any(),
    {
        self.capture || self.viewer || self.wise || self.parliament || self.cont3xt
    }

    /// The enabled components, in display order.
    pub open spec fn spec_enabled(self) -> Seq<Component> {
        all_components().filter(|c: Component| self.has(c))
    }

    pub fn enabled(&self) -> (v: Vec<Component>)
        ensures
            v@ == self.spec_enabled(),
    {
        let all = Component::all();
        let mut out: Vec<Component> = Vec::new();
        let mut i: usize = 0;
        while i < all.len()
            invariant
                all@ == all_components(),
                i <= all.len(),
                out@ == all@.take(i as int).filter(|c: Component| self.has(c)),
            decreases all.len() - i,
        {
            let c = all[i];
            proof {
                reveal(Seq::filter);
                assert(all@.take(i + 1).drop_last() == all@.take(i as int));
            }
            if self.contains(c) {
                out.push(c);
            }
            i += 1;
        }
        proof {
            assert(all@.take(all@.len() as int) == all@);
        }
        out
    }

    /// Only capture actually sniffs an interface.
    pub fn needs_interfaces(&self) -> (b: bool)
        ensures
            b == self.capture,
    {
        self.capture
    }

    /// Anything that talks to an OpenSearch/Elasticsearch backend.
    pub fn needs_elasticsearch(&self) -> (b: bool)
        ensures
            b == (self.capture || self.viewer || self.cont3xt),
    {
        self.capture || self.viewer || self.cont3xt
    }

    /// Components that read the shared S2S/encryption secret.
    pub fn needs_s2s_password(&self) -> (b: bool)
        ensures
            b == (self.capture || self.viewer || self.cont3xt),
    {
        self.capture || self.viewer || self.cont3xt
    }
}

} // verus!
