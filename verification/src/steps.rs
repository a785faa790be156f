//! The wizard step sequence and its conditional branching.
//!
//! `required_steps` is the single source of truth: given the deployment,
//! component set, and whether an external WISE URL is needed, it produces the
//! ordered list of steps to show. `next`/`prev` walk that list.

use vstd::prelude::*;
use crate::domain::components::Components;
use crate::domain::deployment::Deployment;

verus! {

#[derive(Debug, Clone, Copy, PartialEq, Eq, Structural)]
pub enum WizardStep {
    /// First screen: docker/native × new/load.
    StartSelect,
    /// Path to the file being loaded (load modes only).
    LoadPath,
    /// Choose, add or delete the compose service-name prefix set (docker only).
    PrefixSelect,
    /// Multi-select toggles for capture/viewer/wise/parliament/cont3xt.
    ComponentsSelect,
    /// Interfaces to monitor (capture only).
    Interfaces,
    /// ES URL/user/password + single-node toggle.
    Elasticsearch,
    /// S2S / encryption secret.
    S2sPassword,
    /// Viewer upload toggle (viewer only).
    ViewerUploads,
    /// Capture plugin selection (capture only).
    Plugins,
    /// External WISE URL (wise.so enabled without the wise component).
    WiseUrl,
    /// GeoIP download prompt (native + capture only).
    GeoIp,
    /// Suggested host bind mounts (docker only).
    DockerMounts,
    /// Summary + confirm.
    Review,
    /// Applying actions, live log.
    Progress,
    /// Terminal state.
    Done,
}

/// `s` followed by `x` when `b` holds.
pub open spec fn push_if(s: Seq<WizardStep>, b: bool, x: WizardStep) -> Seq<WizardStep> {
    if b {
        s.push(x)
    } else {
        s
    }
}

/// The ordered steps for the current selections.
pub open spec fn spec_required_steps(
    deployment: Option<Deployment>,
    is_load: bool,
    c: Components,
    wise_url_needed: bool,
) -> Seq<WizardStep> {
    let s = seq![WizardStep::StartSelect];
    let s = push_if(s, is_load, WizardStep::LoadPath);
    let s = push_if(s, deployment == Some(Deployment::Docker), WizardStep::PrefixSelect);
    let s = s.push(WizardStep::ComponentsSelect);
    let s = push_if(s, c.capture, WizardStep::Interfaces);
    let s = push_if(s, c.capture || c.viewer || c.cont3xt, WizardStep::Elasticsearch);
    let s = push_if(s, c.capture || c.viewer || c.cont3xt, WizardStep::S2sPassword);
    let s = push_if(s, c.viewer, WizardStep::ViewerUploads);
    let s = push_if(s, c.capture, WizardStep::Plugins);
    let s = push_if(s, wise_url_needed, WizardStep::WiseUrl);
    let s = push_if(s, deployment == Some(Deployment::Native) && c.capture, WizardStep::GeoIp);
    let s = push_if(
        s,
        deployment == Some(Deployment::Docker) && c.spec_any(),
        WizardStep::DockerMounts,
    );
    s.push(WizardStep::Review).push(WizardStep::Progress).push(WizardStep::Done)
}

/// Compute the ordered steps for the current selections. `deployment` is `None`
/// only before the first screen is answered.
pub fn required_steps(
    deployment: Option<Deployment>,
    is_load: bool,
    components: &Components,
    wise_url_needed: bool,
) -> (steps: Vec<WizardStep>)
    ensures
        steps@ == spec_required_steps(deployment, is_load, *components, wise_url_needed),
{
    let mut steps = vec![WizardStep::StartSelect];
    push_step_if(&mut steps, is_load, WizardStep::LoadPath);
    // Every docker flow manages a service-name prefix set.
    let docker = deployment == Some(Deployment::Docker);
    push_step_if(&mut steps, docker, WizardStep::PrefixSelect);
    steps.push(WizardStep::ComponentsSelect);
    push_step_if(&mut steps, components.needs_interfaces(), WizardStep::Interfaces);
    push_step_if(&mut steps, components.needs_elasticsearch(), WizardStep::Elasticsearch);
    push_step_if(&mut steps, components.needs_s2s_password(), WizardStep::S2sPassword);
    // Viewer-only: offer PCAP uploads.
    push_step_if(&mut steps, components.viewer, WizardStep::ViewerUploads);
    // Plugins are loaded by capture, in both deployments.
    push_step_if(&mut steps, components.capture, WizardStep::Plugins);
    // External WISE endpoint: wise.so enabled but no local wise component.
    push_step_if(&mut steps, wise_url_needed, WizardStep::WiseUrl);
    // GeoIP is a native-only action, and only relevant when capturing.
    let geo = deployment == Some(Deployment::Native) && components.capture;
    push_step_if(&mut steps, geo, WizardStep::GeoIp);
    // Suggested bind mounts only apply to the docker deployment.
    let mounts = deployment == Some(Deployment::Docker) && components.any();
    push_step_if(&mut steps, mounts, WizardStep::DockerMounts);
    steps.push(WizardStep::Review);
    steps.push(WizardStep::Progress);
    steps.push(WizardStep::Done);
    steps
}

fn push_step_if(steps: &mut Vec<WizardStep>, b: bool, x: WizardStep)
    ensures
        final(steps)@ == push_if(old(steps)@, b, x),
{
    if b {
        steps.push(x);
    }
}

/// `i` is the first position of `x` in `s`.
pub open spec fn first_pos(s: Seq<WizardStep>, x: WizardStep, i: int) -> bool {
    0 <= i < s.len() && s[i] == x && forall|m: int| 0 <= m < i ==> s[m] != x
}

/// `i` is the first position of `s` holding a step that comes after `current`
/// in flow order.
pub open spec fn first_later(s: Seq<WizardStep>, current: WizardStep, i: int) -> bool {
    0 <= i < s.len() && rank(s[i]) > rank(current) && forall|m: int| 0 <= m < i ==> rank(#[trigger] s[m]) <= rank(current)
}

/// The step after the first occurrence of `current`, or `current` itself when
/// it is last. When `current` is not listed (the selections changed under
/// it), the first listed step that comes after it in flow order, or
/// `current` itself when there is none.
pub open spec fn spec_step_after(s: Seq<WizardStep>, current: WizardStep) -> WizardStep {
    if exists|i: int| first_pos(s, current, i) {
        let i = choose|i: int| first_pos(s, current, i);
        if i + 1 < s.len() {
            s[i + 1]
        } else {
            current
        }
    } else if exists|i: int| first_later(s, current, i) {
        s[choose|i: int| first_later(s, current, i)]
    } else {
        current
    }
}

/// The step before the first occurrence of `current`, or `current` itself when
/// it is first or absent.
pub open spec fn spec_step_before(s: Seq<WizardStep>, current: WizardStep) -> WizardStep {
    if exists|i: int| first_pos(s, current, i) {
        let i = choose|i: int| first_pos(s, current, i);
        if i > 0 {
            s[i - 1]
        } else {
            current
        }
    } else {
        current
    }
}

/// The first position of `x` in `s`, if any.
fn position(s: &Vec<WizardStep>, x: WizardStep) -> (r: Option<usize>)
    ensures
        r matches Some(i) ==> first_pos(s@, x, i as int),
        r is None ==> forall|i: int| 0 <= i < s@.len() ==> s@[i] != x,
{
    let mut i: usize = 0;
    while i < s.len()
        invariant
            i <= s.len(),
            forall|m: int| 0 <= m < i ==> s@[m] != x,
        decreases s.len() - i,
    {
        if s[i] == x {
            return Some(i);
        }
        i += 1;
    }
    None
}

/// The flow-order rank of a step.
fn step_rank(s: WizardStep) -> (r: u8)
    ensures
        r == rank(s),
{
    match s {
        WizardStep::StartSelect => 0,
        WizardStep::LoadPath => 1,
        WizardStep::PrefixSelect => 2,
        WizardStep::ComponentsSelect => 3,
        WizardStep::Interfaces => 4,
        WizardStep::Elasticsearch => 5,
        WizardStep::S2sPassword => 6,
        WizardStep::ViewerUploads => 7,
        WizardStep::Plugins => 8,
        WizardStep::WiseUrl => 9,
        WizardStep::GeoIp => 10,
        WizardStep::DockerMounts => 11,
        WizardStep::Review => 12,
        WizardStep::Progress => 13,
        WizardStep::Done => 14,
    }
}

/// The first position holding a step after `x` in flow order, if any.
fn first_later_position(s: &Vec<WizardStep>, x: WizardStep) -> (r: Option<usize>)
    ensures
        r matches Some(i) ==> first_later(s@, x, i as int),
        r is None ==> forall|i: int| 0 <= i < s@.len() ==> rank(#[trigger] s@[i]) <= rank(x),
{
    let rx = step_rank(x);
    let mut i: usize = 0;
    while i < s.len()
        invariant
            i <= s.len(),
            rx == rank(x),
            forall|m: int| 0 <= m < i ==> rank(#[trigger] s@[m]) <= rank(x),
        decreases s.len() - i,
    {
        if step_rank(s[i]) > rx {
            return Some(i);
        }
        i += 1;
    }
    None
}

proof fn lemma_first_later_unique(s: Seq<WizardStep>, x: WizardStep, i: int, j: int)
    requires
        first_later(s, x, i),
        first_later(s, x, j),
    ensures
        i == j,
{
    if i < j {
        assert(rank(s[i]) <= rank(x));
    }
    if j < i {
        assert(rank(s[j]) <= rank(x));
    }
}

proof fn lemma_first_pos_unique(s: Seq<WizardStep>, x: WizardStep, i: int, j: int)
    requires
        first_pos(s, x, i),
        first_pos(s, x, j),
    ensures
        i == j,
{
    if i < j {
        assert(s[i] != x);
    }
    if j < i {
        assert(s[j] != x);
    }
}

/// Step after `current`, honoring the active selections. Returns `current` if
/// it is the last step. When `current` is no longer part of the flow, the
/// first step of the flow after it, or `current` when there is none.
pub fn next(
    current: WizardStep,
    deployment: Option<Deployment>,
    is_load: bool,
    components: &Components,
    wise_url_needed: bool,
) -> (n: WizardStep)
    ensures
        n == spec_step_after(
            spec_required_steps(deployment, is_load, *components, wise_url_needed),
            current,
        ),
{
    let steps = required_steps(deployment, is_load, components, wise_url_needed);
    match position(&steps, current) {
        Some(i) => {
            proof {
                let k = choose|k: int| first_pos(steps@, current, k);
                lemma_first_pos_unique(steps@, current, i as int, k);
            }
            if i + 1 < steps.len() {
                steps[i + 1]
            } else {
                current
            }
        },
        None => {
            proof {
                assert(!exists|k: int| first_pos(steps@, current, k));
            }
            match first_later_position(&steps, current) {
                Some(j) => {
                    proof {
                        let k = choose|k: int| first_later(steps@, current, k);
                        lemma_first_later_unique(steps@, current, j as int, k);
                    }
                    steps[j]
                },
                None => {
                    proof {
                        assert(!exists|k: int| first_later(steps@, current, k));
                    }
                    current
                },
            }
        },
    }
}

/// Step before `current`. Returns `current` if it is the first step (or not
/// part of the flow).
pub fn prev(
    current: WizardStep,
    deployment: Option<Deployment>,
    is_load: bool,
    components: &Components,
    wise_url_needed: bool,
) -> (p: WizardStep)
    ensures
        p == spec_step_before(
            spec_required_steps(deployment, is_load, *components, wise_url_needed),
            current,
        ),
{
    let steps = required_steps(deployment, is_load, components, wise_url_needed);
    match position(&steps, current) {
        Some(i) => {
            proof {
                let k = choose|k: int| first_pos(steps@, current, k);
                lemma_first_pos_unique(steps@, current, i as int, k);
            }
            if i > 0 {
                steps[i - 1]
            } else {
                current
            }
        },
        None => current,
    }
}

// ---------------------------------------------------------------------------
// Laws of the flow
// ---------------------------------------------------------------------------

/// The declaration order of the steps.
pub open spec fn rank(s: WizardStep) -> int {
    match s {
        WizardStep::StartSelect => 0,
        WizardStep::LoadPath => 1,
        WizardStep::PrefixSelect => 2,
        WizardStep::ComponentsSelect => 3,
        WizardStep::Interfaces => 4,
        WizardStep::Elasticsearch => 5,
        WizardStep::S2sPassword => 6,
        WizardStep::ViewerUploads => 7,
        WizardStep::Plugins => 8,
        WizardStep::WiseUrl => 9,
        WizardStep::GeoIp => 10,
        WizardStep::DockerMounts => 11,
        WizardStep::Review => 12,
        WizardStep::Progress => 13,
        WizardStep::Done => 14,
    }
}

pub open spec fn strictly_ranked(s: Seq<WizardStep>) -> bool {
    forall|i: int, j: int| 0 <= i < j < s.len() ==> rank(#[trigger] s[i]) < rank(#[trigger] s[j])
}

proof fn lemma_push_ranked(s: Seq<WizardStep>, x: WizardStep)
    requires
        strictly_ranked(s),
        s.len() > 0,
        rank(s.last()) < rank(x),
    ensures
        strictly_ranked(s.push(x)),
        s.push(x).last() == x,
{
    assert forall|i: int, j: int| 0 <= i < j < s.push(x).len() implies rank(
        #[trigger] s.push(x)[i],
    ) < rank(#[trigger] s.push(x)[j]) by {
        if j == s.len() {
            if i < s.len() - 1 {
                assert(rank(s[i]) < rank(s[s.len() - 1]));
            }
        }
    }
}

proof fn lemma_push_if_ranked(s: Seq<WizardStep>, b: bool, x: WizardStep, bound: int)
    requires
        strictly_ranked(s),
        s.len() > 0,
        rank(s.last()) < rank(x),
        rank(x) <= bound,
    ensures
        strictly_ranked(push_if(s, b, x)),
        push_if(s, b, x).len() > 0,
        rank(push_if(s, b, x).last()) <= bound,
{
    if b {
        lemma_push_ranked(s, x);
    }
}

/// Every flow lists its steps in declaration order, each at most once.
pub proof fn lemma_steps_strictly_ranked(
    deployment: Option<Deployment>,
    is_load: bool,
    c: Components,
    w: bool,
)
    ensures
        strictly_ranked(spec_required_steps(deployment, is_load, c, w)),
{
    let s0 = seq![WizardStep::StartSelect];
    let s1 = push_if(s0, is_load, WizardStep::LoadPath);
    lemma_push_if_ranked(s0, is_load, WizardStep::LoadPath, 1);
    let dk = deployment == Some(Deployment::Docker);
    let s1p = push_if(s1, dk, WizardStep::PrefixSelect);
    lemma_push_if_ranked(s1, dk, WizardStep::PrefixSelect, 2);
    let s2 = s1p.push(WizardStep::ComponentsSelect);
    lemma_push_ranked(s1p, WizardStep::ComponentsSelect);
    let s3 = push_if(s2, c.capture, WizardStep::Interfaces);
    lemma_push_if_ranked(s2, c.capture, WizardStep::Interfaces, 4);
    let e = c.capture || c.viewer || c.cont3xt;
    let s4 = push_if(s3, e, WizardStep::Elasticsearch);
    lemma_push_if_ranked(s3, e, WizardStep::Elasticsearch, 5);
    let s5 = push_if(s4, e, WizardStep::S2sPassword);
    lemma_push_if_ranked(s4, e, WizardStep::S2sPassword, 6);
    let s6 = push_if(s5, c.viewer, WizardStep::ViewerUploads);
    lemma_push_if_ranked(s5, c.viewer, WizardStep::ViewerUploads, 7);
    let s7 = push_if(s6, c.capture, WizardStep::Plugins);
    lemma_push_if_ranked(s6, c.capture, WizardStep::Plugins, 8);
    let s8 = push_if(s7, w, WizardStep::WiseUrl);
    lemma_push_if_ranked(s7, w, WizardStep::WiseUrl, 9);
    let g = deployment == Some(Deployment::Native) && c.capture;
    let s9 = push_if(s8, g, WizardStep::GeoIp);
    lemma_push_if_ranked(s8, g, WizardStep::GeoIp, 10);
    let d = deployment == Some(Deployment::Docker) && c.spec_any();
    let s10 = push_if(s9, d, WizardStep::DockerMounts);
    lemma_push_if_ranked(s9, d, WizardStep::DockerMounts, 11);
    lemma_push_ranked(s10, WizardStep::Review);
    lemma_push_ranked(s10.push(WizardStep::Review), WizardStep::Progress);
    lemma_push_ranked(s10.push(WizardStep::Review).push(WizardStep::Progress), WizardStep::Done);
}

/// Every flow starts at the start screen and ends with Review, Progress, Done.
pub proof fn lemma_flow_starts_and_ends(
    deployment: Option<Deployment>,
    is_load: bool,
    c: Components,
    w: bool,
)
    ensures
        ({
            let s = spec_required_steps(deployment, is_load, c, w);
            &&& s.len() >= 5
            &&& s[0] == WizardStep::StartSelect
            &&& s[s.len() - 3] == WizardStep::Review
            &&& s[s.len() - 2] == WizardStep::Progress
            &&& s[s.len() - 1] == WizardStep::Done
        }),
{
}

/// Walking forward from a step and back again returns to it: for consecutive
/// steps of a flow, `next` of the first is the second and `prev` of the second
/// is the first. The ends are fixed points: `prev` of the first step and
/// `next` of the last step return the step itself.
pub proof fn lemma_next_prev_inverse(
    deployment: Option<Deployment>,
    is_load: bool,
    c: Components,
    w: bool,
    i: int,
)
    requires
        0 <= i < spec_required_steps(deployment, is_load, c, w).len(),
    ensures
        ({
            let s = spec_required_steps(deployment, is_load, c, w);
            &&& i + 1 < s.len() ==> spec_step_after(s, s[i]) == s[i + 1]
            &&& i + 1 < s.len() ==> spec_step_before(s, s[i + 1]) == s[i]
            &&& spec_step_before(s, s[0]) == s[0]
            &&& spec_step_after(s, s[s.len() - 1]) == s[s.len() - 1]
        }),
{
    let s = spec_required_steps(deployment, is_load, c, w);
    lemma_steps_strictly_ranked(deployment, is_load, c, w);
    assert forall|k: int| 0 <= k < s.len() implies first_pos(s, #[trigger] s[k], k) by {
        assert forall|m: int| 0 <= m < k implies #[trigger] s[m] != s[k] by {
            assert(rank(s[m]) < rank(s[k]));
        }
    }
    assert(first_pos(s, s[i], i));
    let k = choose|k: int| first_pos(s, s[i], k);
    lemma_first_pos_unique(s, s[i], i, k);
    if i + 1 < s.len() {
        let x = s[i + 1];
        assert(first_pos(s, x, i + 1));
        let k2 = choose|k: int| first_pos(s, x, k);
        lemma_first_pos_unique(s, x, i + 1, k2);
    }
    assert(first_pos(s, s[0], 0));
    let k0 = choose|k: int| first_pos(s, s[0], k);
    lemma_first_pos_unique(s, s[0], 0, k0);
    let last = s.len() - 1;
    let y = s[last];
    assert(first_pos(s, y, last));
    let kl = choose|k: int| first_pos(s, y, k);
    lemma_first_pos_unique(s, y, last, kl);
}

proof fn lemma_push_contains(s: Seq<WizardStep>, x: WizardStep)
    ensures
        forall|y: WizardStep| #[trigger] s.push(x).contains(y) <==> (s.contains(y) || x == y),
{
    assert forall|y: WizardStep| #[trigger] s.push(x).contains(y) <==> (s.contains(y) || x == y) by {
        if s.contains(y) {
            let i = choose|i: int| 0 <= i < s.len() && s[i] == y;
            assert(s.push(x)[i] == y);
        }
        if x == y {
            assert(s.push(x)[s.len() as int] == y);
        }
        if s.push(x).contains(y) {
            let i = choose|i: int| 0 <= i < s.push(x).len() && s.push(x)[i] == y;
            if i < s.len() {
                assert(s[i] == y);
            }
        }
    }
}

proof fn lemma_push_if_contains(s: Seq<WizardStep>, b: bool, x: WizardStep)
    ensures
        forall|y: WizardStep| #[trigger] push_if(s, b, x).contains(y) <==> (s.contains(y) || (b && x == y)),
{
    lemma_push_contains(s, x);
}

/// Which screens a flow shows: the start screen, the components, Review,
/// Progress and Done always; the load screen in load modes; the service
/// prefix screen in docker; the interfaces and capture plugins with
/// capture; the datastore and encryption password with capture, viewer or
/// cont3xt; viewer uploads with the viewer, in either deployment; the WISE
/// URL when it is needed; GeoIP for a native capture; the docker mounts in
/// docker with any component.
pub proof fn lemma_flow_membership(d: Option<Deployment>, is_load: bool, c: Components, w: bool)
    ensures
        ({
            let s = spec_required_steps(d, is_load, c, w);
            &&& s.contains(WizardStep::StartSelect)
            &&& s.contains(WizardStep::LoadPath) <==> is_load
            &&& s.contains(WizardStep::PrefixSelect) <==> d == Some(Deployment::Docker)
            &&& s.contains(WizardStep::ComponentsSelect)
            &&& s.contains(WizardStep::Interfaces) <==> c.capture
            &&& s.contains(WizardStep::Elasticsearch) <==> (c.capture || c.viewer || c.cont3xt)
            &&& s.contains(WizardStep::S2sPassword) <==> (c.capture || c.viewer || c.cont3xt)
            &&& s.contains(WizardStep::ViewerUploads) <==> c.viewer
            &&& s.contains(WizardStep::Plugins) <==> c.capture
            &&& s.contains(WizardStep::WiseUrl) <==> w
            &&& s.contains(WizardStep::GeoIp) <==> (d == Some(Deployment::Native) && c.capture)
            &&& s.contains(WizardStep::DockerMounts) <==> (d == Some(Deployment::Docker) && (c.capture || c.viewer
                || c.wise || c.parliament || c.cont3xt))
            &&& s.contains(WizardStep::Review)
            &&& s.contains(WizardStep::Progress)
            &&& s.contains(WizardStep::Done)
        }),
{
    let s0 = seq![WizardStep::StartSelect];
    assert forall|y: WizardStep| #[trigger] s0.contains(y) <==> y == WizardStep::StartSelect by {
        if y == WizardStep::StartSelect {
            assert(s0[0] == y);
        }
    }
    let s1 = push_if(s0, is_load, WizardStep::LoadPath);
    lemma_push_if_contains(s0, is_load, WizardStep::LoadPath);
    let dk = d == Some(Deployment::Docker);
    let s2 = push_if(s1, dk, WizardStep::PrefixSelect);
    lemma_push_if_contains(s1, dk, WizardStep::PrefixSelect);
    let s3 = s2.push(WizardStep::ComponentsSelect);
    lemma_push_contains(s2, WizardStep::ComponentsSelect);
    let s4 = push_if(s3, c.capture, WizardStep::Interfaces);
    lemma_push_if_contains(s3, c.capture, WizardStep::Interfaces);
    let e = c.capture || c.viewer || c.cont3xt;
    let s5 = push_if(s4, e, WizardStep::Elasticsearch);
    lemma_push_if_contains(s4, e, WizardStep::Elasticsearch);
    let s6 = push_if(s5, e, WizardStep::S2sPassword);
    lemma_push_if_contains(s5, e, WizardStep::S2sPassword);
    let s7 = push_if(s6, c.viewer, WizardStep::ViewerUploads);
    lemma_push_if_contains(s6, c.viewer, WizardStep::ViewerUploads);
    let s8 = push_if(s7, c.capture, WizardStep::Plugins);
    lemma_push_if_contains(s7, c.capture, WizardStep::Plugins);
    let s9 = push_if(s8, w, WizardStep::WiseUrl);
    lemma_push_if_contains(s8, w, WizardStep::WiseUrl);
    let g = d == Some(Deployment::Native) && c.capture;
    let s10 = push_if(s9, g, WizardStep::GeoIp);
    lemma_push_if_contains(s9, g, WizardStep::GeoIp);
    let m = d == Some(Deployment::Docker) && c.spec_any();
    let s11 = push_if(s10, m, WizardStep::DockerMounts);
    lemma_push_if_contains(s10, m, WizardStep::DockerMounts);
    let s12 = s11.push(WizardStep::Review);
    lemma_push_contains(s11, WizardStep::Review);
    let s13 = s12.push(WizardStep::Progress);
    lemma_push_contains(s12, WizardStep::Progress);
    lemma_push_contains(s13, WizardStep::Done);
    assert(spec_required_steps(d, is_load, c, w) == s13.push(WizardStep::Done));
}

} // verus!
