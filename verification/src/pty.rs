//! Panes: how a terminal or an agent comes up, behind the air gap or after a fresh unlock.

use portable_pty::CommandBuilder;
use vstd::prelude::*;
use vstd::string::*;

use crate::agent_env::{agent_env, compose_agent_env, env_list, AgentEnvExtras};
use crate::command::{
    clear_env, command_argv, command_cwd, command_env, env_of, env_pairs, new_command, push_arg, set_cwd, set_env,
};
use crate::flow::confine::{parent_parts, spelled};
use crate::flow::graph::Text;
use crate::flow::launch::{spawn_command, wrapped, SandboxWrap, WrapView};
use crate::json::{as_text, Json};
use crate::parse::{filled, keep_filled};
use crate::paths::{join_path, law_joined_names_are_inside, path_join, path_parts, plain_name, Part};
use crate::strmap::{lemma_text_insert, text_map, StrMap};
use crate::text::{copy_texts, join2, opt_str, opt_text, same, split, split_char, texts};

verus! {

/// What a pane is asked for with.
pub struct PtyCreateOpts {
    pub id: String,
    pub kind: String,
    pub cwd: Option<String>,
    pub egress: Option<bool>,
    pub ws: Option<String>,
    pub model: Option<String>,
    pub auth: Option<Json>,
}

pub struct AgentEntry {
    pub id: String,
    pub bin: String,
    pub custom: bool,
}

/// Whether `kind` is one of the vetted agents.
pub fn is_agent_kind(agents: &Vec<AgentEntry>, kind: &str) -> (r: bool)
    ensures
        r == exists|i: int| 0 <= i < agents@.len() && (#[trigger] agents@[i]).id@ == kind@,
{
    let mut i: usize = 0;
    while i < agents.len()
        invariant
            i <= agents@.len(),
            forall|j: int| 0 <= j < i ==> (#[trigger] agents@[j]).id@ != kind@,
        decreases agents@.len() - i,
    {
        if same(&agents[i].id, kind) {
            return true;
        }
        i += 1;
    }
    false
}

/// The kind is a plain terminal or one of the vetted agents.
pub open spec fn kind_known(agents: Seq<AgentEntry>, kind: Text) -> bool {
    kind == "terminal"@ || exists|i: int| 0 <= i < agents.len() && (#[trigger] agents[i]).id@ == kind
}

/// Whether a pane of this kind can come up at all.
pub fn known_kind(agents: &Vec<AgentEntry>, kind: &str) -> (r: bool)
    ensures
        r == kind_known(agents@, kind@),
{
    same(kind, "terminal") || is_agent_kind(agents, kind)
}

/// The setting gaps unless it says `false` to the letter: a missing setting, or anything else in
/// its place, gaps.
pub open spec fn setting_gaps(setting: Json) -> bool {
    !(setting matches Json::Bool(b) && !b)
}

/// Whether the setting gaps.
pub fn gap_by_default(setting: &Json) -> (r: bool)
    ensures
        r == setting_gaps(*setting),
{
    match setting {
        Json::Bool(b) => *b,
        _ => true,
    }
}

/// Whether a pane is gapped: who asks for it may ask for the gap where the setting has none, and
/// never for less than the setting.
pub fn effective_gap(asked: bool, setting: &Json) -> (r: bool)
    ensures
        r == (asked || setting_gaps(*setting)),
{
    asked || gap_by_default(setting)
}

// ---- the sandbox ----

#[derive(Clone, Copy, PartialEq, Eq, Structural)]
pub enum HostOs {
    MacOs,
    Linux,
    Other,
}

/// How a gapped process is held on Linux, or why it cannot be.
pub enum SandboxStrategy {
    Bwrap,
    SelfUnshare,
    Refuse { reason: String },
}

pub enum GappedSpawnDecision {
    Sandbox { cmd: String, args: Vec<String> },
    Linux(SandboxStrategy),
    RefuseUnsupportedOs,
}

/// The sandbox of macOS, with a profile.
pub open spec fn seatbelt_view(profile: Text) -> WrapView {
    WrapView::Prefix { cmd: "/usr/bin/sandbox-exec"@, args: seq!["-p"@, profile] }
}

pub fn seatbelt(profile: &str) -> (r: SandboxWrap)
    ensures
        r@ == seatbelt_view(profile@),
{
    let args = vec!["-p".to_owned(), profile.to_owned()];
    assert(texts(args@) =~= seq!["-p"@, profile@]);
    SandboxWrap::Prefix { cmd: "/usr/bin/sandbox-exec".to_owned(), args }
}

/// The enforcement behind a gapped pane, by system: the sandbox wrapper with the given profile
/// on macOS, the strategy as probed on Linux, nothing anywhere else.
pub fn resolve_gapped_spawn(host_os: HostOs, profile: &str, linux_strategy: SandboxStrategy) -> (r: GappedSpawnDecision)
    ensures
        match host_os {
            HostOs::MacOs => r matches GappedSpawnDecision::Sandbox { cmd, args } && cmd@ == "/usr/bin/sandbox-exec"@ && texts(args@)
                == seq!["-p"@, profile@],
            HostOs::Linux => r == GappedSpawnDecision::Linux(linux_strategy),
            HostOs::Other => r is RefuseUnsupportedOs,
        },
{
    match host_os {
        HostOs::MacOs => {
            let mut args: Vec<String> = Vec::new();
            args.push("-p".to_owned());
            args.push(profile.to_owned());
            assert(texts(args@) =~= seq!["-p"@, profile@]);
            GappedSpawnDecision::Sandbox { cmd: "/usr/bin/sandbox-exec".to_owned(), args }
        },
        HostOs::Linux => GappedSpawnDecision::Linux(linux_strategy),
        HostOs::Other => GappedSpawnDecision::RefuseUnsupportedOs,
    }
}

/// The command line that holds a gapped process on Linux: the one built for the strategy, or
/// the reason there is none.
pub fn build_linux_wrap_argv(strategy: &SandboxStrategy, bwrap: &Vec<String>, self_unshare: &Vec<String>) -> (r: Result<Vec<String>, String>)
    ensures
        match *strategy {
            SandboxStrategy::Bwrap => r matches Ok(argv) && texts(argv@) == texts(bwrap@),
            SandboxStrategy::SelfUnshare => r matches Ok(argv) && texts(argv@) == texts(self_unshare@),
            SandboxStrategy::Refuse { reason } => r matches Err(e) && e@ == reason@,
        },
{
    match strategy {
        SandboxStrategy::Bwrap => Ok(copy_texts(bwrap)),
        SandboxStrategy::SelfUnshare => Ok(copy_texts(self_unshare)),
        SandboxStrategy::Refuse { reason } => Err(reason.clone()),
    }
}

/// The wrap a decision comes to; `bwrap` and `self_unshare` are the command lines built for the
/// two strategies.
pub fn sandbox_wrap(decision: &GappedSpawnDecision, bwrap: &Vec<String>, self_unshare: &Vec<String>) -> (r: Result<SandboxWrap, String>)
    ensures
        match *decision {
            GappedSpawnDecision::Sandbox { cmd, args } => r matches Ok(SandboxWrap::Prefix { cmd: c, args: a }) && c@ == cmd@ && texts(a@)
                == texts(args@),
            GappedSpawnDecision::Linux(SandboxStrategy::Bwrap) => r matches Ok(SandboxWrap::Full { argv }) && texts(argv@) == texts(bwrap@),
            GappedSpawnDecision::Linux(SandboxStrategy::SelfUnshare) => r matches Ok(SandboxWrap::Full { argv }) && texts(argv@) == texts(
                self_unshare@,
            ),
            GappedSpawnDecision::Linux(SandboxStrategy::Refuse { reason }) => r matches Err(e) && e@ == reason@,
            GappedSpawnDecision::RefuseUnsupportedOs => r matches Err(e) && e@
                == "gapped panes are only supported on macOS and Linux — refusing to spawn unenforced on this OS"@,
        },
{
    match decision {
        GappedSpawnDecision::Sandbox { cmd, args } => Ok(SandboxWrap::Prefix { cmd: cmd.clone(), args: copy_texts(args) }),
        GappedSpawnDecision::Linux(strategy) => match build_linux_wrap_argv(strategy, bwrap, self_unshare) {
            Ok(argv) => Ok(SandboxWrap::Full { argv }),
            Err(e) => Err(e),
        },
        GappedSpawnDecision::RefuseUnsupportedOs => Err(
            "gapped panes are only supported on macOS and Linux — refusing to spawn unenforced on this OS".to_owned(),
        ),
    }
}

// ---- the command line ----

/// A login shell, bare or running one command.
pub open spec fn login_argv(shell: Text, agent_cmd: Option<Text>) -> Seq<Text> {
    match agent_cmd {
        Some(cmd) => seq![shell, "-l"@, "-c"@, cmd],
        None => seq![shell, "-l"@],
    }
}

/// The command line of a login shell.
pub fn login_shell_argv(shell: &str, agent_cmd: Option<&str>) -> (r: Vec<String>)
    ensures
        texts(r@) == login_argv(shell@, opt_str(agent_cmd)),
{
    let mut argv: Vec<String> = Vec::new();
    argv.push(shell.to_owned());
    argv.push("-l".to_owned());
    if let Some(cmd) = agent_cmd {
        argv.push("-c".to_owned());
        argv.push(cmd.to_owned());
    }
    assert(texts(argv@) =~= login_argv(shell@, opt_str(agent_cmd)));
    argv
}

/// The command a pane runs: the login shell inside its sandbox, in its directory, with exactly
/// the environment given and nothing of this process's own.
pub fn build_pty_command(shell: &str, agent_cmd: Option<&str>, cwd: &str, env: &Vec<(String, String)>, sandbox: &Option<SandboxWrap>) -> (r: CommandBuilder)
    requires
        wrapped(login_argv(shell@, opt_str(agent_cmd)), *sandbox).len() > 0,
    ensures
        command_argv(r) == wrapped(login_argv(shell@, opt_str(agent_cmd)), *sandbox),
        command_cwd(r) == Some(cwd@),
        command_env(r) == env_of(env_pairs(env@)),
{
    let inner = login_shell_argv(shell, agent_cmd);
    let (program, args) = spawn_command(&inner, sandbox);
    let ghost goal = seq![program@] + texts(args@);
    let mut cmd = new_command(&program);
    let mut i: usize = 0;
    assert(command_argv(cmd) =~= goal.take(1));
    while i < args.len()
        invariant
            i <= args@.len(),
            goal == seq![program@] + texts(args@),
            command_argv(cmd) == goal.take(i + 1),
        decreases args@.len() - i,
    {
        push_arg(&mut cmd, &args[i]);
        assert(goal.take(i + 2) =~= goal.take(i + 1).push(args@[i as int]@));
        i += 1;
    }
    assert(goal.take(goal.len() as int) =~= goal);
    set_cwd(&mut cmd, cwd);
    clear_env(&mut cmd);
    let ghost all = env_pairs(env@);
    let mut k: usize = 0;
    assert(all.take(0) =~= Seq::<(Text, Text)>::empty());
    assert(command_env(cmd) =~= env_of(all.take(0)));
    while k < env.len()
        invariant
            k <= env@.len(),
            all == env_pairs(env@),
            command_argv(cmd) == goal,
            command_cwd(cmd) == Some(cwd@),
            command_env(cmd) == env_of(all.take(k as int)),
        decreases env@.len() - k,
    {
        assert(all.take(k + 1).drop_last() =~= all.take(k as int));
        assert(all.take(k + 1).last() == (env@[k as int].0@, env@[k as int].1@));
        set_env(&mut cmd, &env[k].0, &env[k].1);
        k += 1;
    }
    assert(all.take(all.len() as int) =~= all);
    cmd
}

// ---- the environment ----

/// The environment of a pane: this process's, with the `PATH` of the login shell in place of its
/// own, through [`compose_agent_env`].
pub fn pane_env(process_env: StrMap<String>, login_path: &str, allowed: &Vec<String>, extras: &AgentEnvExtras) -> (r: Vec<(String, String)>)
    ensures
        env_of(env_pairs(r@)) == agent_env(
            text_map(process_env@).insert("PATH"@, login_path@),
            texts(allowed@),
            extras@,
        ),
        env_pairs(r@).map_values(|e: (Text, Text)| e.0).no_duplicates(),
{
    let mut base = process_env;
    let path = login_path.to_owned();
    proof { lemma_text_insert(base@, "PATH"@, path); }
    base.set("PATH", path);
    env_list(&compose_agent_env(&base, allowed, extras))
}

/// The entries of a search path that are not empty.
pub fn path_entries(path: &str) -> (r: Vec<String>)
    ensures
        texts(r@) == filled(split(path@, ':')),
{
    let pieces = split_char(path, ':');
    keep_filled(&pieces)
}

/// The root of the core vault: the one that is stored, where it is not empty and can be read.
pub fn resolve_core_vault_root(stored: Option<&str>, readable: bool) -> (r: Option<String>)
    ensures
        r is Some <==> stored is Some && stored->0@.len() > 0 && readable,
        r matches Some(root) ==> root@ == stored->0@,
{
    match stored {
        Some(root) => if !root.is_empty() && readable {
            Some(root.to_owned())
        } else {
            None
        },
        None => None,
    }
}

/// The vaults that a pane of a workspace is told of: the workspace's own, which is made where it
/// is not there yet, and the core one. `brain` is where the first is, or why it could not be made.
pub fn resolve_brain_env(brain: Result<String, String>, stored: &Json, readable: bool) -> (r: Result<(Option<String>, Option<String>), String>)
    ensures
        match brain {
            Err(e) => (r matches Err(x) && x@ == e@),
            Ok(path) => {
                &&& r is Ok
                &&& opt_text((r->Ok_0).0) == Some(path@)
                &&& opt_text((r->Ok_0).1) == match as_text(stored.model()) {
                    Some(root) => if root.len() > 0 && readable {
                        Some(root)
                    } else {
                        None
                    },
                    None => None,
                }
            },
        },
{
    let path = match brain {
        Ok(path) => path,
        Err(e) => return Err(e),
    };
    let core = match stored {
        Json::Text(root) => resolve_core_vault_root(Some(root), readable),
        _ => None,
    };
    Ok((Some(path), core))
}

// ---- the sidecar ----

/// The sidecar binary in `dir`: bundled ones carry the target triple.
pub fn shim_path_in(dir: &str, target_triple: Option<&str>) -> (r: String)
    ensures
        r@ == path_join(dir@, match target_triple {
            Some(triple) => "tome-shim-"@ + triple@,
            None => "tome-shim"@,
        }),
{
    match target_triple {
        Some(triple) => {
            let name = join2("tome-shim-", triple);
            join_path(dir, &name)
        },
        None => join_path(dir, "tome-shim"),
    }
}

pub open spec fn shim_result(exe: Result<Text, Text>, dev: bool, triple: Result<Text, Text>) -> Result<Text, Text> {
    match exe {
        Err(e) => Err("resolve tome-shim sidecar: could not determine this process's own binary path: "@ + e),
        Ok(p) => match parent_parts(path_parts(p)) {
            None => Err("resolve tome-shim sidecar: this process's own binary path has no parent directory"@),
            Some(up) => if dev {
                Ok(path_join(spelled(up), "tome-shim"@))
            } else {
                match triple {
                    Err(e) => Err("resolve tome-shim sidecar: could not determine this platform's target triple: "@ + e),
                    Ok(t) => Ok(path_join(spelled(up), "tome-shim-"@ + t)),
                }
            },
        },
    }
}

pub open spec fn result_view(r: Result<String, String>) -> Result<Text, Text> {
    match r {
        Ok(s) => Ok(s@),
        Err(e) => Err(e@),
    }
}

/// The path of the sidecar, beside this process's own binary.
pub fn resolve_shim_path(exe: &Result<String, String>, dev: bool, triple: &Result<String, String>) -> (r: Result<String, String>)
    ensures
        result_view(r) == shim_result(result_view(*exe), dev, result_view(*triple)),
{
    let path = match exe {
        Ok(p) => p,
        Err(e) => return Err(join2("resolve tome-shim sidecar: could not determine this process's own binary path: ", e)),
    };
    let dir = match crate::flow::confine::parent_of(path) {
        Some(d) => d,
        None => return Err("resolve tome-shim sidecar: this process's own binary path has no parent directory".to_owned()),
    };
    if dev {
        Ok(shim_path_in(&dir, None))
    } else {
        match triple {
            Ok(t) => Ok(shim_path_in(&dir, Some(t))),
            Err(e) => Err(join2("resolve tome-shim sidecar: could not determine this platform's target triple: ", e)),
        }
    }
}

/// A terminal and every vetted agent is known, and nothing else is.
pub proof fn law_only_vetted_kinds_are_known(agents: Seq<AgentEntry>, kind: Text)
    ensures
        kind_known(agents, "terminal"@),
        forall|i: int| 0 <= i < agents.len() ==> kind_known(agents, (#[trigger] agents[i]).id@),
        kind != "terminal"@ && (forall|i: int| 0 <= i < agents.len() ==> (#[trigger] agents[i]).id@ != kind) ==> !kind_known(agents, kind),
{
}

/// A pane runs the login shell, and an agent's command inside it: the shell comes first, as a login
/// shell, and the command last, as one argument.
pub proof fn law_commands_run_in_the_login_shell(shell: Text, cmd: Text)
    ensures
        login_argv(shell, None)[0] == shell && login_argv(shell, Some(cmd))[0] == shell,
        login_argv(shell, None)[1] == "-l"@ && login_argv(shell, Some(cmd))[1] == "-l"@,
        login_argv(shell, None).len() == 2,
        login_argv(shell, Some(cmd)).len() == 4 && login_argv(shell, Some(cmd))[2] == "-c"@ && login_argv(shell, Some(cmd)).last() == cmd,
{
}

/// The bridge's program lies beside this one, whatever this one is called: under its plain name in a
/// development build, under the name of its target in a packaged one.
pub proof fn law_the_bridge_lies_beside_this_program(dir: Text, name: Text, triple: Text, e: Text)
    requires
        plain_name(name),
    ensures
        shim_result(Ok(path_join(dir, name)), true, Ok(triple)) == Ok::<Text, Text>(path_join(spelled(path_parts(dir)), "tome-shim"@)),
        shim_result(Ok(path_join(dir, name)), true, Err(e)) == Ok::<Text, Text>(path_join(spelled(path_parts(dir)), "tome-shim"@)),
        shim_result(Ok(path_join(dir, name)), false, Ok(triple)) == Ok::<Text, Text>(
            path_join(spelled(path_parts(dir)), "tome-shim-"@ + triple),
        ),
        shim_result(Ok(path_join(dir, name)), false, Err(e)) is Err,
        shim_result(Err(e), true, Ok(triple)) is Err && shim_result(Err(e), false, Ok(triple)) is Err,
{
    law_joined_names_are_inside(dir, name);
    let v = path_parts(dir).push(Part::Name(name));
    assert(v.last() == Part::Name(name));
    assert(v.drop_last() =~= path_parts(dir));
}

}
