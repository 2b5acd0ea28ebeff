//! Bringing up a pane, step by step: what to do next, given what is known so far. No gapped pane
//! comes up without real enforcement behind it, no other one without a fresh unlock where one is
//! set, and a proxy that came up never outlives a spawn that failed.

use vstd::prelude::*;
use vstd::string::*;

use crate::auth::{reauth_next, settled, ReauthStep, ReauthStepView};
use crate::flow::graph::Text;
use crate::flow::launch::{wrap_view, SandboxWrap, WrapView};
use crate::json::JsonView;
use crate::pty::{seatbelt, seatbelt_view, HostOs, SandboxStrategy};
use crate::text::{copy_texts, texts};

verus! {

/// What is known of a pane that is to come up. A fact that is `None` was not found out yet.
pub struct PaneFacts {
    /// The kind is a terminal or a vetted agent.
    pub known_kind: bool,
    pub gapped: bool,
    /// Where the unlock ceremony stands.
    pub reauth: ReauthStep,
    pub host_os: HostOs,
    pub strategy: SandboxStrategy,
    /// The path of the bridge's socket; none where the pane's id cannot be part of one.
    pub socket: Option<Option<String>>,
    /// How making the socket's directory went: the error, if there was one.
    pub socket_dir: Option<Option<String>>,
    pub shim: Option<Result<String, String>>,
    pub proxy: Option<Result<u16, String>>,
    /// The command line that holds the process, on Linux.
    pub wrap: Option<Result<Vec<String>, String>>,
    /// How the spawn went: the error, if there was one.
    pub spawned: Option<Option<String>>,
}

pub enum PaneStep {
    /// Nothing comes up, and that is no error.
    Ignore,
    Reauth(ReauthStep),
    FindSocket,
    MakeSocketDir,
    FindShim,
    OpenProxy,
    BuildWrap,
    Spawn,
    Register,
    /// Gives up: `blocked` goes to the event log, and the pane's proxy is closed where `close`
    /// says so.
    Fail { error: String, blocked: Option<String>, close: bool },
}

pub enum PaneStepView {
    Ignore,
    Reauth(ReauthStepView),
    FindSocket,
    MakeSocketDir,
    FindShim,
    OpenProxy,
    BuildWrap,
    Spawn,
    Register,
    Fail { error: Text, blocked: Option<Text>, close: bool },
}

impl View for PaneStep {
    type V = PaneStepView;

    open spec fn view(&self) -> PaneStepView {
        match self {
            PaneStep::Ignore => PaneStepView::Ignore,
            PaneStep::Reauth(s) => PaneStepView::Reauth(s@),
            PaneStep::FindSocket => PaneStepView::FindSocket,
            PaneStep::MakeSocketDir => PaneStepView::MakeSocketDir,
            PaneStep::FindShim => PaneStepView::FindShim,
            PaneStep::OpenProxy => PaneStepView::OpenProxy,
            PaneStep::BuildWrap => PaneStepView::BuildWrap,
            PaneStep::Spawn => PaneStepView::Spawn,
            PaneStep::Register => PaneStepView::Register,
            PaneStep::Fail { error, blocked, close } => PaneStepView::Fail {
                error: error@,
                blocked: match blocked {
                    Some(b) => Some(b@),
                    None => None,
                },
                close: *close,
            },
        }
    }
}

/// A failure that leaves nothing to close.
pub open spec fn plain_fail(error: Text) -> PaneStepView {
    PaneStepView::Fail { error, blocked: None, close: false }
}

/// What enforcing the gap takes next; `None` once it is in place.
pub open spec fn gap_step(f: PaneFacts) -> Option<PaneStepView> {
    match f.host_os {
        HostOs::Other => Some(
            PaneStepView::Fail {
                error: "gapped panes are only supported on macOS and Linux — refusing to spawn unenforced on this OS"@,
                blocked: Some("gapped panes are only supported on macOS and Linux"@),
                close: false,
            },
        ),
        HostOs::MacOs => match f.proxy {
            None => Some(PaneStepView::OpenProxy),
            Some(Err(e)) => Some(plain_fail(e@)),
            Some(Ok(_)) => None,
        },
        HostOs::Linux => match f.strategy {
            SandboxStrategy::Refuse { reason } => Some(PaneStepView::Fail { error: reason@, blocked: Some(reason@), close: false }),
            _ => match (f.socket, f.socket_dir, f.shim, f.proxy, f.wrap) {
                (None, _, _, _, _) => Some(PaneStepView::FindSocket),
                (Some(None), _, _, _, _) => Some(
                    plain_fail("gapped pane refused: pane id is not a valid loopback-bridge socket path component"@),
                ),
                (_, None, _, _, _) => Some(PaneStepView::MakeSocketDir),
                (_, Some(Some(e)), _, _, _) => Some(plain_fail(e@)),
                (_, _, None, _, _) => Some(PaneStepView::FindShim),
                (_, _, Some(Err(e)), _, _) => Some(plain_fail(e@)),
                (_, _, _, None, _) => Some(PaneStepView::OpenProxy),
                (_, _, _, Some(Err(e)), _) => Some(plain_fail(e@)),
                (_, _, _, _, None) => Some(PaneStepView::BuildWrap),
                (_, _, _, _, Some(Err(e))) => Some(PaneStepView::Fail { error: e@, blocked: None, close: true }),
                _ => None,
            },
        },
    }
}

/// The spawn itself, and what follows it.
pub open spec fn spawn_step(f: PaneFacts) -> PaneStepView {
    match f.spawned {
        None => PaneStepView::Spawn,
        Some(Some(e)) => PaneStepView::Fail { error: e@, blocked: None, close: true },
        Some(None) => PaneStepView::Register,
    }
}

/// The next step for a pane.
pub open spec fn pane_step(f: PaneFacts) -> PaneStepView {
    if !f.known_kind {
        PaneStepView::Ignore
    } else if f.gapped {
        match gap_step(f) {
            Some(s) => s,
            None => spawn_step(f),
        }
    } else if f.reauth is Cleared {
        spawn_step(f)
    } else {
        PaneStepView::Reauth(f.reauth@)
    }
}

fn fail(error: String) -> (r: PaneStep)
    ensures
        r@ == plain_fail(error@),
{
    PaneStep::Fail { error, blocked: None, close: false }
}

fn next_gap_step(f: &PaneFacts) -> (r: Option<PaneStep>)
    ensures
        match r {
            Some(s) => gap_step(*f) == Some(s@),
            None => gap_step(*f) is None,
        },
{
    match f.host_os {
        HostOs::Other => {
            return Some(
                PaneStep::Fail {
                    error: "gapped panes are only supported on macOS and Linux — refusing to spawn unenforced on this OS".to_owned(),
                    blocked: Some("gapped panes are only supported on macOS and Linux".to_owned()),
                    close: false,
                },
            );
        },
        HostOs::MacOs => {
            return match &f.proxy {
                None => Some(PaneStep::OpenProxy),
                Some(Err(e)) => Some(fail(e.clone())),
                Some(Ok(_)) => None,
            };
        },
        HostOs::Linux => {},
    }
    if let SandboxStrategy::Refuse { reason } = &f.strategy {
        return Some(PaneStep::Fail { error: reason.clone(), blocked: Some(reason.clone()), close: false });
    }
    match &f.socket {
        None => return Some(PaneStep::FindSocket),
        Some(None) => {
            return Some(fail("gapped pane refused: pane id is not a valid loopback-bridge socket path component".to_owned()));
        },
        Some(Some(_)) => {},
    }
    match &f.socket_dir {
        None => return Some(PaneStep::MakeSocketDir),
        Some(Some(e)) => return Some(fail(e.clone())),
        Some(None) => {},
    }
    match &f.shim {
        None => return Some(PaneStep::FindShim),
        Some(Err(e)) => return Some(fail(e.clone())),
        Some(Ok(_)) => {},
    }
    match &f.proxy {
        None => return Some(PaneStep::OpenProxy),
        Some(Err(e)) => return Some(fail(e.clone())),
        Some(Ok(_)) => {},
    }
    match &f.wrap {
        None => Some(PaneStep::BuildWrap),
        Some(Err(e)) => Some(PaneStep::Fail { error: e.clone(), blocked: None, close: true }),
        Some(Ok(_)) => None,
    }
}

fn copy_step(s: &ReauthStep) -> (r: ReauthStep)
    ensures
        r@ == s@,
{
    match s {
        ReauthStep::Cleared => ReauthStep::Cleared,
        ReauthStep::Ask(None) => ReauthStep::Ask(None),
        ReauthStep::Ask(Some(m)) => ReauthStep::Ask(Some(m.clone())),
        ReauthStep::CheckCode(c) => ReauthStep::CheckCode(c.clone()),
        ReauthStep::CheckPassphrase(p) => ReauthStep::CheckPassphrase(p.clone()),
        ReauthStep::Reject => ReauthStep::Reject,
    }
}

/// What to do next about a pane that is to come up.
pub fn pty_create(f: &PaneFacts) -> (r: PaneStep)
    ensures
        r@ == pane_step(*f),
{
    if !f.known_kind {
        return PaneStep::Ignore;
    }
    if f.gapped {
        if let Some(s) = next_gap_step(f) {
            return s;
        }
    } else {
        match &f.reauth {
            ReauthStep::Cleared => {},
            other => return PaneStep::Reauth(copy_step(other)),
        }
    }
    match &f.spawned {
        None => PaneStep::Spawn,
        Some(Some(e)) => PaneStep::Fail { error: e.clone(), blocked: None, close: true },
        Some(None) => PaneStep::Register,
    }
}

/// What holds the process of a pane that is to be spawned: nothing without the gap; with it the
/// sandbox with its profile on macOS, and on Linux the command line that was built for it.
pub open spec fn sandbox_of(f: PaneFacts, profile: Text) -> Option<WrapView> {
    if !f.gapped {
        None
    } else {
        match (f.host_os, f.wrap) {
            (HostOs::MacOs, _) => Some(seatbelt_view(profile)),
            (HostOs::Linux, Some(Ok(argv))) => Some(WrapView::Full { argv: texts(argv@) }),
            _ => None,
        }
    }
}

/// The sandbox of a pane that is to be spawned; `profile` is the profile for its proxy's port.
pub fn pane_sandbox(f: &PaneFacts, profile: &str) -> (r: Option<SandboxWrap>)
    requires
        pane_step(*f) == PaneStepView::Spawn,
    ensures
        wrap_view(r) == sandbox_of(*f, profile@),
        r is Some <==> f.gapped,
{
    if !f.gapped {
        return None;
    }
    match (f.host_os, &f.wrap) {
        (HostOs::MacOs, _) => Some(seatbelt(profile)),
        (HostOs::Linux, Some(Ok(argv))) => Some(SandboxWrap::Full { argv: copy_texts(argv) }),
        _ => None,
    }
}

// ---- laws ----

/// The gap is enforced: there is a live proxy, and a sandbox holds the process.
pub open spec fn enforced(f: PaneFacts, profile: Text) -> bool {
    &&& f.proxy matches Some(Ok(_))
    &&& sandbox_of(f, profile) is Some
    &&& f.host_os == HostOs::Linux ==> !(f.strategy is Refuse)
}

/// A gapped pane is spawned only behind real enforcement, never silently without.
pub proof fn law_gapped_panes_are_enforced(f: PaneFacts, profile: Text)
    requires
        f.gapped,
        pane_step(f) == PaneStepView::Spawn || pane_step(f) == PaneStepView::Register,
    ensures
        enforced(f, profile),
{
}

/// A pane without the gap is spawned only once the unlock ceremony is cleared.
pub proof fn law_open_panes_are_cleared(f: PaneFacts)
    requires
        !f.gapped,
        pane_step(f) == PaneStepView::Spawn || pane_step(f) == PaneStepView::Register,
    ensures
        f.reauth is Cleared,
{
}

/// Of a pane without the gap, with a passphrase set and no throttle: without a payload nothing is
/// spawned, the credentials are asked for and no failure is noted; with a wrong one nothing is
/// spawned either, they are asked for again and one failure is noted; what is spawned was checked
/// and noted as a success.
pub proof fn law_unchecked_panes_spawn_nothing(f: PaneFacts, totp: bool, auth: Option<JsonView>, verified: bool)
    requires
        f.known_kind,
        !f.gapped,
        f.reauth@ == settled(reauth_next(false, true, 0, totp, auth), verified).step,
    ensures
        ({
            let end = settled(reauth_next(false, true, 0, totp, auth), verified);
            &&& auth is None ==> pane_step(f) == PaneStepView::Reauth(ReauthStepView::Ask(None)) && end.recorded is None
            &&& auth is Some && !verified ==> pane_step(f) == PaneStepView::Reauth(
                ReauthStepView::Ask(Some("Incorrect passphrase or code."@)),
            ) && end.recorded == Some(false)
            &&& !(pane_step(f) is Reauth) ==> verified && end.recorded == Some(true)
        }),
{
}

/// A gapped pane never meets the ceremony.
pub proof fn law_gapped_panes_meet_no_ceremony(f: PaneFacts)
    requires
        f.gapped,
    ensures
        !(pane_step(f) is Reauth),
{
}

/// Whatever fails after the proxy came up closes it.
pub proof fn law_no_proxy_outlives_a_failure(f: PaneFacts)
    requires
        f.gapped,
        f.known_kind,
        f.proxy matches Some(Ok(_)),
        f.host_os == HostOs::MacOs || (f.host_os == HostOs::Linux && !(f.strategy is Refuse) && (f.socket matches Some(Some(_))) && (f.socket_dir matches Some(None))
            && (f.shim matches Some(Ok(_)))),
        pane_step(f) is Fail,
    ensures
        pane_step(f)->close,
{
}

/// The proxy is opened before the process is spawned, and only after everything that can be
/// refused without it was.
pub proof fn law_refusals_come_before_the_proxy(f: PaneFacts)
    requires
        pane_step(f) == PaneStepView::OpenProxy,
    ensures
        f.gapped,
        f.known_kind,
        f.host_os != HostOs::Other,
        f.host_os == HostOs::Linux ==> !(f.strategy is Refuse) && (f.socket matches Some(Some(_))) && (f.shim matches Some(Ok(_))),
{
}

/// An unknown kind of pane brings nothing up, whatever else is known.
pub proof fn law_unknown_kinds_are_ignored(f: PaneFacts)
    requires
        !f.known_kind,
    ensures
        pane_step(f) == PaneStepView::Ignore,
{
}

/// Every question that the pane's spawn raises has been answered well.
pub open spec fn all_well(f: PaneFacts) -> bool {
    if !f.gapped {
        f.reauth is Cleared
    } else {
        &&& f.proxy is Some && f.proxy->0 is Ok
        &&& f.host_os is MacOs || (f.host_os is Linux && bridged(f) && f.wrap is Some && f.wrap->0 is Ok)
    }
}

/// The host can hold the pane, and the bridge to its proxy stands.
pub open spec fn bridged(f: PaneFacts) -> bool {
    &&& !(f.strategy is Refuse)
    &&& f.socket is Some && f.socket->0 is Some
    &&& f.socket_dir is Some && f.socket_dir->0 is None
    &&& f.shim is Some && f.shim->0 is Ok
}

/// Good answers spawn the pane: a known pane whose every question was answered well is spawned, is
/// registered once it came up, and fails with the spawn's own error where it did not.
pub proof fn law_good_answers_spawn(f: PaneFacts)
    requires
        f.known_kind,
        all_well(f),
    ensures
        f.spawned is None ==> pane_step(f) is Spawn,
        f.spawned is Some && f.spawned->0 is None ==> pane_step(f) is Register,
        f.spawned is Some && f.spawned->0 is Some ==> pane_step(f) is Fail && pane_step(f)->error == f.spawned->0->0@,
{
}

/// The questions of a gapped pane come one at a time: what has not been looked at is looked at as
/// soon as everything before it went well.
pub proof fn law_questions_come_in_turn(f: PaneFacts)
    requires
        f.known_kind,
        f.gapped,
    ensures
        f.host_os is MacOs && f.proxy is None ==> pane_step(f) is OpenProxy,
        f.host_os is Linux && !(f.strategy is Refuse) ==> {
            &&& f.socket is None ==> pane_step(f) is FindSocket
            &&& f.socket is Some && f.socket->0 is Some && f.socket_dir is None ==> pane_step(f) is MakeSocketDir
            &&& f.socket is Some && f.socket->0 is Some && f.socket_dir is Some && f.socket_dir->0 is None && f.shim is None
                ==> pane_step(f) is FindShim
            &&& bridged(f) && f.proxy is None ==> pane_step(f) is OpenProxy
            &&& bridged(f) && f.proxy is Some && f.proxy->0 is Ok && f.wrap is None ==> pane_step(f) is BuildWrap
        },
{
}

/// What went wrong is what is told: the error of the step that failed, and the host's own reason
/// where it refuses.
pub proof fn law_failures_are_told(f: PaneFacts)
    requires
        f.known_kind,
        f.gapped,
    ensures
        f.host_os is Linux && f.strategy is Refuse ==> pane_step(f) is Fail && pane_step(f)->error == f.strategy->reason@
            && pane_step(f)->blocked == Some(f.strategy->reason@),
        f.host_os is MacOs && f.proxy is Some && f.proxy->0 is Err ==> pane_step(f) is Fail && pane_step(f)->error == f.proxy->0->Err_0@,
        f.host_os is Linux && bridged(f) && f.proxy is Some && f.proxy->0 is Err ==> pane_step(f) is Fail && pane_step(f)->error
            == f.proxy->0->Err_0@,
        f.host_os is Linux && bridged(f) && f.proxy is Some && f.proxy->0 is Ok && f.wrap is Some && f.wrap->0 is Err ==> pane_step(f) is Fail
            && pane_step(f)->error == f.wrap->0->Err_0@,
{
}

/// What holds a pane is what was made for it: on Linux the command line that was built, whole, on
/// macOS a run of the sandbox under the profile, and nothing for a pane that is not gapped.
pub proof fn law_panes_run_in_what_was_made(f: PaneFacts, profile: Text)
    ensures
        !f.gapped ==> sandbox_of(f, profile) is None,
        f.gapped && f.host_os is Linux && f.wrap is Some && f.wrap->0 is Ok ==> sandbox_of(f, profile) == Some(
            WrapView::Full { argv: texts(f.wrap->0->Ok_0@) },
        ),
        f.gapped && f.host_os is MacOs ==> {
            let held = sandbox_of(f, profile);
            &&& held is Some && held->0 is Prefix
            &&& held->0->cmd == "/usr/bin/sandbox-exec"@
            &&& held->0->args.len() == 2 && held->0->args[0] == "-p"@ && held->0->args[1] == profile
        },
{
}

}
