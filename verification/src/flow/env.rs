//! The environment of a background node, step by step: plain without the gap, and behind a proxy
//! and a sandbox with it.

use vstd::prelude::*;
use vstd::string::*;

use crate::agent_env::{agent_env, law_gapped_panes_go_through_their_proxy, proxy_names, proxy_url, AgentEnvExtras, ExtrasView};
use crate::command::{env_of, env_pairs};
use crate::flow::graph::Text;
use crate::flow::launch::{wrap_view, SandboxWrap, WrapView};
use crate::json::Json;
use crate::pty::{gap_by_default, pane_env, seatbelt, seatbelt_view, setting_gaps, HostOs, SandboxStrategy};
use crate::strmap::{text_map, StrMap};
use crate::text::{copy_texts, texts};

verus! {

/// What is known of the environment of a node. A fact that is `None` was not found out yet.
pub struct EnvFacts {
    pub gapped: bool,
    pub host_os: HostOs,
    pub strategy: SandboxStrategy,
    /// The path of the bridge's socket; none where the node's pane id cannot be part of one.
    pub socket: Option<Option<String>>,
    /// How making the socket's directory went: the error, if there was one.
    pub socket_dir: Option<Option<String>>,
    pub shim: Option<Result<String, String>>,
    pub proxy: Option<Result<u16, String>>,
}

pub enum EnvStep {
    FindSocket,
    MakeSocketDir,
    FindShim,
    OpenProxy,
    Fail(String),
    /// The environment stands: with the proxy's port, where there is a proxy.
    Ready(Option<u16>),
}

pub enum EnvStepView {
    FindSocket,
    MakeSocketDir,
    FindShim,
    OpenProxy,
    Fail(Text),
    Ready(Option<u16>),
}

impl View for EnvStep {
    type V = EnvStepView;

    open spec fn view(&self) -> EnvStepView {
        match self {
            EnvStep::FindSocket => EnvStepView::FindSocket,
            EnvStep::MakeSocketDir => EnvStepView::MakeSocketDir,
            EnvStep::FindShim => EnvStepView::FindShim,
            EnvStep::OpenProxy => EnvStepView::OpenProxy,
            EnvStep::Fail(e) => EnvStepView::Fail(e@),
            EnvStep::Ready(p) => EnvStepView::Ready(*p),
        }
    }
}

/// The next step: without the gap there is none to take; with it, everything that can be refused
/// is refused before the proxy is opened.
pub open spec fn env_step(f: EnvFacts) -> EnvStepView {
    let opened = match f.proxy {
        None => EnvStepView::OpenProxy,
        Some(Err(e)) => EnvStepView::Fail(e@),
        Some(Ok(port)) => EnvStepView::Ready(Some(port)),
    };
    if !f.gapped {
        EnvStepView::Ready(None)
    } else {
        match f.host_os {
            HostOs::MacOs => opened,
            HostOs::Linux => match (f.strategy, f.socket, f.socket_dir, f.shim) {
                (SandboxStrategy::Refuse { reason }, _, _, _) => EnvStepView::Fail(reason@),
                (_, None, _, _) => EnvStepView::FindSocket,
                (_, Some(None), _, _) => EnvStepView::Fail(
                    "gapped flow node refused: pane id is not a valid loopback-bridge socket path component"@,
                ),
                (_, _, None, _) => EnvStepView::MakeSocketDir,
                (_, _, Some(Some(e)), _) => EnvStepView::Fail(e@),
                (_, _, _, None) => EnvStepView::FindShim,
                (_, _, _, Some(Err(e))) => EnvStepView::Fail(e@),
                _ => opened,
            },
            HostOs::Other => EnvStepView::Fail(
                "gapped flow nodes are only supported on macOS and Linux — refusing to spawn unenforced on this OS"@,
            ),
        }
    }
}

/// What the environment of a node takes next.
pub fn build_production_agent_env(f: &EnvFacts) -> (r: EnvStep)
    ensures
        r@ == env_step(*f),
{
    if !f.gapped {
        return EnvStep::Ready(None);
    }
    match f.host_os {
        HostOs::MacOs => {},
        HostOs::Other => {
            return EnvStep::Fail(
                "gapped flow nodes are only supported on macOS and Linux — refusing to spawn unenforced on this OS".to_owned(),
            );
        },
        HostOs::Linux => {
            if let SandboxStrategy::Refuse { reason } = &f.strategy {
                return EnvStep::Fail(reason.clone());
            }
            match &f.socket {
                None => return EnvStep::FindSocket,
                Some(None) => {
                    return EnvStep::Fail(
                        "gapped flow node refused: pane id is not a valid loopback-bridge socket path component".to_owned(),
                    );
                },
                Some(Some(_)) => {},
            }
            match &f.socket_dir {
                None => return EnvStep::MakeSocketDir,
                Some(Some(e)) => return EnvStep::Fail(e.clone()),
                Some(None) => {},
            }
            match &f.shim {
                None => return EnvStep::FindShim,
                Some(Err(e)) => return EnvStep::Fail(e.clone()),
                Some(Ok(_)) => {},
            }
        },
    }
    match &f.proxy {
        None => EnvStep::OpenProxy,
        Some(Err(e)) => EnvStep::Fail(e.clone()),
        Some(Ok(port)) => EnvStep::Ready(Some(*port)),
    }
}

/// A gapped node never gets an environment without a live proxy on a system with a sandbox.
pub proof fn law_gapped_nodes_are_proxied(f: EnvFacts)
    requires
        f.gapped,
        env_step(f) is Ready,
    ensures
        f.proxy matches Some(Ok(port)) && env_step(f) == EnvStepView::Ready(Some(port)),
        f.host_os != HostOs::Other,
        f.host_os == HostOs::Linux ==> !(f.strategy is Refuse),
{
}

/// A node that is refused for want of a sandbox is refused before a proxy is opened for it.
pub proof fn law_no_proxy_for_a_refused_node(f: EnvFacts)
    requires
        f.host_os == HostOs::Other || (f.host_os == HostOs::Linux && f.strategy is Refuse),
    ensures
        env_step(f) != EnvStepView::OpenProxy,
{
}

// ---- the environment itself ----

/// The environment of a node: its variables, and the sandbox around its process.
pub struct BuiltEnv {
    pub env: Vec<(String, String)>,
    pub sandbox: Option<SandboxWrap>,
}

/// What is added to a node's variables: a node is an agent, has no workspace of its own, and is
/// sent to the proxy that came up for it.
pub open spec fn node_extras(f: EnvFacts, secrets: Map<Text, Text>) -> ExtrasView {
    ExtrasView { is_agent: true, secrets, brain_path: None, core_vault_root: None, proxy_port: env_step(f)->Ready_0 }
}

/// The sandbox of a node: none without the gap; with it the profile on macOS, and on Linux the
/// command line of the strategy.
pub open spec fn node_sandbox(f: EnvFacts, profile: Text, bwrap: Seq<Text>, self_unshare: Seq<Text>) -> Option<WrapView> {
    if !f.gapped {
        None
    } else {
        match (f.host_os, f.strategy) {
            (HostOs::MacOs, _) => Some(seatbelt_view(profile)),
            (HostOs::Linux, SandboxStrategy::Bwrap) => Some(WrapView::Full { argv: bwrap }),
            (HostOs::Linux, SandboxStrategy::SelfUnshare) => Some(WrapView::Full { argv: self_unshare }),
            _ => None,
        }
    }
}

/// The environment of a node, once nothing is left to find out. `profile` is the profile for the
/// proxy's port, `bwrap` and `self_unshare` are the command lines of the two strategies.
pub fn built_env(
    f: &EnvFacts,
    process_env: StrMap<String>,
    login_path: &str,
    allowed: &Vec<String>,
    secrets: StrMap<String>,
    profile: &str,
    bwrap: &Vec<String>,
    self_unshare: &Vec<String>,
) -> (r: BuiltEnv)
    requires
        env_step(*f) is Ready,
    ensures
        env_of(env_pairs(r.env@)) == agent_env(
            text_map(process_env@).insert("PATH"@, login_path@),
            texts(allowed@),
            node_extras(*f, text_map(secrets@)),
        ),
        env_pairs(r.env@).map_values(|e: (Text, Text)| e.0).no_duplicates(),
        wrap_view(r.sandbox) == node_sandbox(*f, profile@, texts(bwrap@), texts(self_unshare@)),
{
    let proxy_port = match (f.gapped, &f.proxy) {
        (true, Some(Ok(port))) => Some(*port),
        _ => None,
    };
    let extras = AgentEnvExtras { is_agent: true, secrets, brain_path: None, core_vault_root: None, proxy_port };
    let env = pane_env(process_env, login_path, allowed, &extras);
    let sandbox = if !f.gapped {
        None
    } else {
        match (f.host_os, &f.strategy) {
            (HostOs::MacOs, _) => Some(seatbelt(profile)),
            (HostOs::Linux, SandboxStrategy::Bwrap) => Some(SandboxWrap::Full { argv: copy_texts(bwrap) }),
            (HostOs::Linux, SandboxStrategy::SelfUnshare) => Some(SandboxWrap::Full { argv: copy_texts(self_unshare) }),
            _ => None,
        }
    };
    BuiltEnv { env, sandbox }
}

/// No gapped node comes up with nothing that enforces the gap: whenever its environment stands it
/// has a sandbox, a proxy is up for it, and every variable that names a proxy names that one.
pub proof fn law_gapped_nodes_are_sandboxed(
    f: EnvFacts,
    profile: Text,
    bwrap: Seq<Text>,
    self_unshare: Seq<Text>,
    base: Map<Text, Text>,
    allowed: Seq<Text>,
    secrets: Map<Text, Text>,
    name: Text,
)
    requires
        f.gapped,
        env_step(f) is Ready,
        proxy_names().contains(name),
    ensures
        node_sandbox(f, profile, bwrap, self_unshare) is Some,
        f.proxy matches Some(Ok(port)) && agent_env(base, allowed, node_extras(f, secrets)).contains_key(name)
            && agent_env(base, allowed, node_extras(f, secrets))[name] == proxy_url(port),
{
    law_gapped_panes_go_through_their_proxy(base, allowed, node_extras(f, secrets), name);
}

/// A node without the gap has no sandbox, and no proxy was opened for it.
pub proof fn law_open_nodes_are_plain(f: EnvFacts, profile: Text, bwrap: Seq<Text>, self_unshare: Seq<Text>, secrets: Map<Text, Text>)
    requires
        !f.gapped,
    ensures
        env_step(f) == EnvStepView::Ready(None),
        node_sandbox(f, profile, bwrap, self_unshare) is None,
        node_extras(f, secrets).proxy_port is None,
{
}

// ---- whether a run is gapped ----

/// Where a run takes its gap from.
pub enum GapDefault {
    /// From the setting.
    Setting,
    /// From nowhere: it is fixed.
    Frozen(bool),
}

pub open spec fn gap_of(d: GapDefault, setting: Json) -> bool {
    match d {
        GapDefault::Setting => setting_gaps(setting),
        GapDefault::Frozen(b) => b,
    }
}

/// A gap that no setting changes.
pub fn frozen_airgap_default(value: bool) -> (r: GapDefault)
    ensures
        r == GapDefault::Frozen(value),
{
    GapDefault::Frozen(value)
}

impl GapDefault {
    /// Whether a run that starts now is gapped.
    pub fn gapped(&self, setting: &Json) -> (r: bool)
        ensures
            r == gap_of(*self, *setting),
    {
        match self {
            GapDefault::Setting => gap_by_default(setting),
            GapDefault::Frozen(b) => *b,
        }
    }
}

/// The host can hold the node, and the bridge to its proxy stands.
pub open spec fn bridged(f: EnvFacts) -> bool {
    &&& !(f.strategy is Refuse)
    &&& f.socket is Some && f.socket->0 is Some
    &&& f.socket_dir is Some && f.socket_dir->0 is None
    &&& f.shim is Some && f.shim->0 is Ok
}

/// A node is ready as soon as nothing is left to ask: one without the gap at once and without a
/// proxy, a gapped one with the port of the proxy that was opened for it.
pub proof fn law_good_answers_make_ready(f: EnvFacts)
    ensures
        !f.gapped ==> env_step(f) is Ready && env_step(f)->Ready_0 is None,
        f.gapped && (f.host_os is MacOs || (f.host_os is Linux && bridged(f))) && f.proxy is Some && f.proxy->0 is Ok ==> env_step(f) is Ready
            && env_step(f)->Ready_0 == Some(f.proxy->0->Ok_0),
{
}

/// The questions of a gapped node come one at a time: what has not been looked at is looked at as
/// soon as everything before it went well.
pub proof fn law_questions_come_in_turn(f: EnvFacts)
    requires
        f.gapped,
    ensures
        f.host_os is MacOs && f.proxy is None ==> env_step(f) is OpenProxy,
        f.host_os is Linux && !(f.strategy is Refuse) ==> {
            &&& f.socket is None ==> env_step(f) is FindSocket
            &&& f.socket is Some && f.socket->0 is Some && f.socket_dir is None ==> env_step(f) is MakeSocketDir
            &&& f.socket is Some && f.socket->0 is Some && f.socket_dir is Some && f.socket_dir->0 is None && f.shim is None
                ==> env_step(f) is FindShim
            &&& bridged(f) && f.proxy is None ==> env_step(f) is OpenProxy
        },
{
}

/// What went wrong is what is told: the host's own reason where it refuses, and the error of the
/// step that failed.
pub proof fn law_failures_are_told(f: EnvFacts)
    requires
        f.gapped,
    ensures
        f.host_os is Other ==> env_step(f) is Fail,
        f.host_os is Linux && f.strategy is Refuse ==> env_step(f) is Fail && env_step(f)->Fail_0 == f.strategy->reason@,
        f.host_os is MacOs && f.proxy is Some && f.proxy->0 is Err ==> env_step(f) is Fail && env_step(f)->Fail_0 == f.proxy->0->Err_0@,
        f.host_os is Linux && bridged(f) && f.proxy is Some && f.proxy->0 is Err ==> env_step(f) is Fail && env_step(f)->Fail_0
            == f.proxy->0->Err_0@,
        f.host_os is Linux && !(f.strategy is Refuse) && f.socket is Some && f.socket->0 is None ==> env_step(f) is Fail,
        f.host_os is Linux && !(f.strategy is Refuse) && f.socket is Some && f.socket->0 is Some && f.socket_dir is Some
            && f.socket_dir->0 is Some ==> env_step(f) is Fail && env_step(f)->Fail_0 == f.socket_dir->0->0@,
{
}

/// Nodes are agents: each gets its secrets and the port of its own proxy, and neither a notebook nor
/// a vault.
pub proof fn law_nodes_get_their_secrets(f: EnvFacts, secrets: Map<Text, Text>)
    ensures
        node_extras(f, secrets).is_agent,
        node_extras(f, secrets).secrets == secrets,
        node_extras(f, secrets).brain_path is None,
        node_extras(f, secrets).core_vault_root is None,
        !f.gapped ==> node_extras(f, secrets).proxy_port is None,
        env_step(f) is Ready && f.gapped ==> node_extras(f, secrets).proxy_port == Some(f.proxy->0->Ok_0),
{
}

/// What holds a node is what the host's strategy names: the one Linux command line or the other,
/// whole, and on macOS a run of the sandbox under the profile.
pub proof fn law_nodes_run_in_what_was_made(f: EnvFacts, profile: Text, bwrap: Seq<Text>, self_unshare: Seq<Text>)
    requires
        f.gapped,
    ensures
        f.host_os is Linux && f.strategy is Bwrap ==> node_sandbox(f, profile, bwrap, self_unshare) == Some(WrapView::Full { argv: bwrap }),
        f.host_os is Linux && f.strategy is SelfUnshare ==> node_sandbox(f, profile, bwrap, self_unshare) == Some(
            WrapView::Full { argv: self_unshare },
        ),
        f.host_os is MacOs ==> {
            let held = node_sandbox(f, profile, bwrap, self_unshare);
            &&& held is Some && held->0 is Prefix
            &&& held->0->cmd == "/usr/bin/sandbox-exec"@
            &&& held->0->args.len() == 2 && held->0->args[0] == "-p"@ && held->0->args[1] == profile
        },
{
}

/// The air gap is on unless the setting says false: nothing else turns it off, and a run that froze
/// its own keeps it whatever the setting says.
pub proof fn law_only_false_opens_the_gap(setting: Json, frozen: bool)
    ensures
        !gap_of(GapDefault::Setting, setting) <==> setting == Json::Bool(false),
        gap_of(GapDefault::Frozen(frozen), setting) == frozen,
{
}

}
