//! What a pane's environment is put together from: the allowed part of this process's own, the
//! keys that only agents get, the vaults, and the proxy of a gapped pane.

use vstd::prelude::*;
use vstd::string::*;

use crate::command::{env_of, env_pairs};
use crate::flow::graph::Text;
use crate::strmap::{lemma_text_insert, text_map, StrMap};
use crate::text::{contains_text, decimal, decimal_u64, join2, opt_text, texts};

verus! {

/// What comes on top of the allowed part of this process's environment.
pub struct AgentEnvExtras {
    pub is_agent: bool,
    /// The keys of the login shell. Only an agent gets them.
    pub secrets: StrMap<String>,
    pub brain_path: Option<String>,
    pub core_vault_root: Option<String>,
    /// The port of the pane's proxy, where the pane is gapped.
    pub proxy_port: Option<u16>,
}

pub struct ExtrasView {
    pub is_agent: bool,
    pub secrets: Map<Text, Text>,
    pub brain_path: Option<Text>,
    pub core_vault_root: Option<Text>,
    pub proxy_port: Option<u16>,
}

impl View for AgentEnvExtras {
    type V = ExtrasView;

    open spec fn view(&self) -> ExtrasView {
        ExtrasView {
            is_agent: self.is_agent,
            secrets: text_map(self.secrets@),
            brain_path: opt_text(self.brain_path),
            core_vault_root: opt_text(self.core_vault_root),
            proxy_port: self.proxy_port,
        }
    }
}

impl Default for AgentEnvExtras {
    /// A plain terminal without a workspace and without the gap.
    fn default() -> (r: Self)
        ensures
            r@ == (ExtrasView {
                is_agent: false,
                secrets: Map::empty(),
                brain_path: None,
                core_vault_root: None,
                proxy_port: None,
            }),
    {
        let r = AgentEnvExtras {
            is_agent: false,
            secrets: StrMap::new(),
            brain_path: None,
            core_vault_root: None,
            proxy_port: None,
        };
        assert(text_map(r.secrets@) =~= Map::<Text, Text>::empty());
        r
    }
}

// ---- the layers ----

/// The part of an environment whose names are allowed.
pub open spec fn allowed_part(base: Map<Text, Text>, allowed: Seq<Text>) -> Map<Text, Text> {
    base.restrict(allowed.to_set())
}

/// The terminal that every pane is.
pub open spec fn with_term(env: Map<Text, Text>) -> Map<Text, Text> {
    env.insert("TERM"@, "xterm-256color"@).insert("COLORTERM"@, "truecolor"@)
}

pub open spec fn with_value(env: Map<Text, Text>, name: Text, value: Option<Text>) -> Map<Text, Text> {
    match value {
        Some(v) => env.insert(name, v),
        None => env,
    }
}

/// Where the proxy on a port of this machine is reached.
pub open spec fn proxy_url(port: u16) -> Text {
    "http://127.0.0.1:"@ + decimal(port as nat)
}

/// What is reached without the proxy.
pub open spec fn proxy_exempt() -> Text {
    "localhost,127.0.0.1"@
}

pub open spec fn with_proxy(env: Map<Text, Text>, port: Option<u16>) -> Map<Text, Text> {
    match port {
        Some(p) => env.insert("HTTP_PROXY"@, proxy_url(p)).insert("HTTPS_PROXY"@, proxy_url(p)).insert(
            "http_proxy"@,
            proxy_url(p),
        ).insert("https_proxy"@, proxy_url(p)).insert("NO_PROXY"@, proxy_exempt()).insert("no_proxy"@, proxy_exempt()),
        None => env,
    }
}

/// The environment of a pane. What comes later replaces what was there: the proxy comes last.
pub open spec fn agent_env(base: Map<Text, Text>, allowed: Seq<Text>, x: ExtrasView) -> Map<Text, Text> {
    let plain = with_term(allowed_part(base, allowed));
    let keyed = if x.is_agent {
        plain.union_prefer_right(x.secrets)
    } else {
        plain
    };
    let told = with_value(with_value(keyed, "TOME_BRAIN"@, x.brain_path), "TOME_CORE_VAULT"@, x.core_vault_root);
    with_proxy(told, x.proxy_port)
}

// ---- putting it together ----

/// One more key taken is one more key in the set.
proof fn lemma_take_set(keys: Seq<Text>, i: int)
    requires
        0 <= i < keys.len(),
    ensures
        keys.take(i + 1).to_set() == keys.take(i).to_set().insert(keys[i]),
{
    let before = keys.take(i).to_set();
    let more = keys.take(i + 1);
    assert forall|k: Text| #[trigger] more.to_set().contains(k) == before.insert(keys[i]).contains(k) by {
        if before.contains(k) {
            let j = choose|j: int| 0 <= j < i && keys.take(i)[j] == k;
            assert(more[j] == k);
        }
        if k == keys[i] {
            assert(more[i] == k);
        }
        if more.contains(k) {
            let j = choose|j: int| 0 <= j < more.len() && more[j] == k;
            if j < i {
                assert(keys.take(i)[j] == k);
            }
        }
    }
    assert(more.to_set() =~= before.insert(keys[i]));
}

/// Puts a copy of each entry of `from` into `env`, or of those alone whose names are allowed.
fn carry(env: &mut StrMap<String>, from: &StrMap<String>, allowed: Option<&Vec<String>>)
    ensures
        text_map(final(env)@) == text_map(old(env)@).union_prefer_right(
            match allowed {
                Some(names) => allowed_part(text_map(from@), texts(names@)),
                None => text_map(from@),
            },
        ),
{
    let names = from.keys();
    let ghost keys = texts(names@);
    let ghost wanted = match allowed {
        Some(v) => allowed_part(text_map(from@), texts(v@)),
        None => text_map(from@),
    };
    let ghost start = text_map(env@);
    assert(keys.take(0).to_set() =~= Set::<Text>::empty());
    assert(start =~= start.union_prefer_right(wanted.restrict(keys.take(0).to_set())));
    let mut i: usize = 0;
    while i < names.len()
        invariant
            i <= names@.len(),
            keys == texts(names@),
            keys.to_set() == from@.dom(),
            wanted == (match allowed {
                Some(v) => allowed_part(text_map(from@), texts(v@)),
                None => text_map(from@),
            }),
            start == text_map(old(env)@),
            text_map(env@) == start.union_prefer_right(wanted.restrict(keys.take(i as int).to_set())),
        decreases names@.len() - i,
    {
        let name = &names[i];
        assert(keys[i as int] == name@);
        assert(keys.to_set().contains(name@));
        let taken = match allowed {
            Some(v) => contains_text(v, name),
            None => true,
        };
        let ghost before = keys.take(i as int).to_set();
        proof { lemma_take_set(keys, i as int); }
        if taken {
            if let Some(value) = from.get(name) {
                let copy = value.clone();
                proof {
                    lemma_text_insert(env@, name@, copy);
                    assert(start.union_prefer_right(wanted.restrict(before)).insert(name@, copy@)
                        =~= start.union_prefer_right(wanted.restrict(before.insert(name@))));
                }
                env.set(name, copy);
            }
        } else {
            assert(wanted.restrict(before.insert(name@)) =~= wanted.restrict(before));
        }
        i += 1;
    }
    assert(keys.take(keys.len() as int) =~= keys);
    assert(wanted.restrict(keys.to_set()) =~= wanted);
}

fn put(env: &mut StrMap<String>, name: &str, value: String)
    ensures
        text_map(final(env)@) == text_map(old(env)@).insert(name@, value@),
{
    proof { lemma_text_insert(env@, name@, value); }
    env.set(name, value);
}

fn put_proxy(env: &mut StrMap<String>, port: u16)
    ensures
        text_map(final(env)@) == with_proxy(text_map(old(env)@), Some(port)),
{
    let url = join2("http://127.0.0.1:", &decimal_u64(port as u64));
    put(env, "HTTP_PROXY", url.clone());
    put(env, "HTTPS_PROXY", url.clone());
    put(env, "http_proxy", url.clone());
    put(env, "https_proxy", url);
    put(env, "NO_PROXY", "localhost,127.0.0.1".to_owned());
    put(env, "no_proxy", "localhost,127.0.0.1".to_owned());
}

/// The environment of a pane: the entries of `base` whose names are `allowed`, the terminal, and
/// what `extras` adds. Keys are added for an agent alone, the proxy for a gapped pane alone.
pub fn compose_agent_env(base: &StrMap<String>, allowed: &Vec<String>, extras: &AgentEnvExtras) -> (r: StrMap<String>)
    ensures
        text_map(r@) == agent_env(text_map(base@), texts(allowed@), extras@),
{
    let mut env: StrMap<String> = StrMap::new();
    assert(text_map(env@) =~= Map::<Text, Text>::empty());
    carry(&mut env, base, Some(allowed));
    assert(text_map(env@) =~= allowed_part(text_map(base@), texts(allowed@)));
    put(&mut env, "TERM", "xterm-256color".to_owned());
    put(&mut env, "COLORTERM", "truecolor".to_owned());
    if extras.is_agent {
        carry(&mut env, &extras.secrets, None);
    }
    if let Some(path) = &extras.brain_path {
        put(&mut env, "TOME_BRAIN", path.clone());
    }
    if let Some(root) = &extras.core_vault_root {
        put(&mut env, "TOME_CORE_VAULT", root.clone());
    }
    if let Some(port) = extras.proxy_port {
        put_proxy(&mut env, port);
    }
    env
}

/// The variables of an environment, each once.
pub fn env_list(env: &StrMap<String>) -> (r: Vec<(String, String)>)
    ensures
        env_of(env_pairs(r@)) == text_map(env@),
        env_pairs(r@).map_values(|e: (Text, Text)| e.0) == env.key_seq(),
        env.key_seq().no_duplicates(),
{
    let names = env.keys();
    let ghost keys = texts(names@);
    let ghost all = text_map(env@);
    let mut out: Vec<(String, String)> = Vec::new();
    let mut i: usize = 0;
    assert(keys.take(0).to_set() =~= Set::<Text>::empty());
    assert(env_of(env_pairs(out@)) =~= all.restrict(keys.take(0).to_set()));
    while i < names.len()
        invariant
            i <= names@.len(),
            keys == texts(names@),
            keys.to_set() == env@.dom(),
            all == text_map(env@),
            out@.len() == i,
            forall|j: int| 0 <= j < i ==> (#[trigger] out@[j]).0@ == keys[j],
            env_of(env_pairs(out@)) == all.restrict(keys.take(i as int).to_set()),
        decreases names@.len() - i,
    {
        let name = &names[i];
        assert(keys[i as int] == name@);
        assert(keys.to_set().contains(name@));
        if let Some(value) = env.get(name) {
            let ghost before = out@;
            out.push((name.clone(), value.clone()));
            proof {
                assert(env_pairs(out@).drop_last() =~= env_pairs(before));
                let known = keys.take(i as int).to_set();
                lemma_take_set(keys, i as int);
                assert(all.restrict(known).insert(name@, value@) =~= all.restrict(known.insert(name@)));
            }
        }
        i += 1;
    }
    assert(keys.take(keys.len() as int) =~= keys);
    assert(all.restrict(keys.to_set()) =~= all);
    assert(env_pairs(out@).map_values(|e: (Text, Text)| e.0) =~= env.key_seq());
    out
}

// ---- what holds of every pane ----

/// The names that this library itself puts into an environment.
pub open spec fn own_names() -> Set<Text> {
    set![
        "TERM"@,
        "COLORTERM"@,
        "TOME_BRAIN"@,
        "TOME_CORE_VAULT"@,
        "HTTP_PROXY"@,
        "HTTPS_PROXY"@,
        "http_proxy"@,
        "https_proxy"@,
        "NO_PROXY"@,
        "no_proxy"@,
    ]
}

/// The names by which a program finds the proxy.
pub open spec fn proxy_names() -> Set<Text> {
    set!["HTTP_PROXY"@, "HTTPS_PROXY"@, "http_proxy"@, "https_proxy"@]
}

/// A variable of a pane is one of the library's own, an allowed one of this process, or a key
/// that an agent gets: nothing else is carried over.
pub proof fn law_nothing_else_is_carried(base: Map<Text, Text>, allowed: Seq<Text>, x: ExtrasView, name: Text)
    requires
        agent_env(base, allowed, x).contains_key(name),
        !own_names().contains(name),
    ensures
        ({
            ||| x.is_agent && x.secrets.contains_key(name) && agent_env(base, allowed, x)[name] == x.secrets[name]
            ||| allowed.contains(name) && base.contains_key(name) && agent_env(base, allowed, x)[name] == base[name]
        }),
{
}

/// A plain terminal is never given a key, whatever the keys are.
pub proof fn law_plain_terminals_get_no_keys(base: Map<Text, Text>, allowed: Seq<Text>, x: ExtrasView, secrets: Map<Text, Text>)
    requires
        !x.is_agent,
    ensures
        agent_env(base, allowed, x) == agent_env(base, allowed, ExtrasView { secrets, ..x }),
        forall|name: Text|
            #![trigger agent_env(base, allowed, x).contains_key(name)]
            !allowed.contains(name) && !own_names().contains(name) ==> !agent_env(base, allowed, x).contains_key(name),
{
}

/// A gapped pane's programs are all sent to its proxy, whatever this process's environment and the
/// keys say.
pub proof fn law_gapped_panes_go_through_their_proxy(base: Map<Text, Text>, allowed: Seq<Text>, x: ExtrasView, name: Text)
    requires
        x.proxy_port is Some,
        proxy_names().contains(name),
    ensures
        agent_env(base, allowed, x).contains_key(name),
        agent_env(base, allowed, x)[name] == proxy_url(x.proxy_port->0),
{
    reveal_strlit("HTTP_PROXY");
    reveal_strlit("HTTPS_PROXY");
    reveal_strlit("http_proxy");
    reveal_strlit("https_proxy");
    reveal_strlit("NO_PROXY");
    reveal_strlit("no_proxy");
    assert("NO_PROXY"@.len() == 8 && "no_proxy"@.len() == 8);
    assert(name.len() == 10 || name.len() == 11);
}

/// A pane without the gap is told of no proxy, unless this process or the keys name one that may be
/// carried over.
pub proof fn law_open_panes_get_no_proxy(base: Map<Text, Text>, allowed: Seq<Text>, x: ExtrasView, name: Text)
    requires
        x.proxy_port is None,
        proxy_names().contains(name),
        !allowed.contains(name) || !base.contains_key(name),
        !x.is_agent || !x.secrets.contains_key(name),
    ensures
        !agent_env(base, allowed, x).contains_key(name),
{
    reveal_strlit("HTTP_PROXY");
    reveal_strlit("HTTPS_PROXY");
    reveal_strlit("http_proxy");
    reveal_strlit("https_proxy");
    reveal_strlit("TERM");
    reveal_strlit("COLORTERM");
    reveal_strlit("TOME_BRAIN");
    reveal_strlit("TOME_CORE_VAULT");
    assert(name.len() == 10 || name.len() == 11);
    assert("TOME_BRAIN"@[0] == 'T');
    assert(name[0] == 'H' || name[0] == 'h');
}

/// An agent gets every key, gapped or not: a key under any name that the library does not set
/// itself is in the agent's environment as it is.
pub proof fn law_agents_get_every_key(base: Map<Text, Text>, allowed: Seq<Text>, x: ExtrasView, name: Text)
    requires
        x.is_agent,
        x.secrets.contains_key(name),
        !own_names().contains(name),
    ensures
        agent_env(base, allowed, x).contains_key(name),
        agent_env(base, allowed, x)[name] == x.secrets[name],
{
}

/// Every allowed variable of this process is carried over as it is, gapped or not, agent or not,
/// unless the library sets it itself or a key of an agent has the same name.
pub proof fn law_allowed_variables_are_carried(base: Map<Text, Text>, allowed: Seq<Text>, x: ExtrasView, name: Text)
    requires
        base.contains_key(name),
        allowed.contains(name),
        !own_names().contains(name),
        !x.is_agent || !x.secrets.contains_key(name),
    ensures
        agent_env(base, allowed, x).contains_key(name),
        agent_env(base, allowed, x)[name] == base[name],
{
}

/// Every name that the library sets is set where there is something to set it to: the terminal
/// always, a vault where there is one, the proxy behind the gap, and never to anything else.
pub proof fn law_own_names_are_set(base: Map<Text, Text>, allowed: Seq<Text>, x: ExtrasView, name: Text)
    requires
        own_names().contains(name),
        !x.is_agent || !x.secrets.contains_key(name),
    ensures
        ({
            let env = agent_env(base, allowed, x);
            &&& x.brain_path is Some && x.core_vault_root is Some && x.proxy_port is Some ==> env.contains_key(name)
            &&& name == "TERM"@ ==> env.contains_key(name) && env[name] == "xterm-256color"@
            &&& name == "COLORTERM"@ ==> env.contains_key(name) && env[name] == "truecolor"@
            &&& name == "TOME_BRAIN"@ && x.brain_path is Some ==> env.contains_key(name) && Some(env[name]) == x.brain_path
            &&& name == "TOME_CORE_VAULT"@ && x.core_vault_root is Some ==> env.contains_key(name) && Some(env[name]) == x.core_vault_root
            &&& (name == "NO_PROXY"@ || name == "no_proxy"@) && x.proxy_port is Some ==> env.contains_key(name) && env[name]
                == "localhost,127.0.0.1"@
            &&& (name == "HTTP_PROXY"@ || name == "HTTPS_PROXY"@ || name == "http_proxy"@ || name == "https_proxy"@)
                && x.proxy_port is Some ==> env.contains_key(name) && env[name] == "http://127.0.0.1:"@ + decimal(x.proxy_port->0 as nat)
        }),
{
    reveal_strlit("TERM");
    reveal_strlit("COLORTERM");
    reveal_strlit("TOME_BRAIN");
    reveal_strlit("TOME_CORE_VAULT");
    reveal_strlit("HTTP_PROXY");
    reveal_strlit("HTTPS_PROXY");
    reveal_strlit("http_proxy");
    reveal_strlit("https_proxy");
    reveal_strlit("NO_PROXY");
    reveal_strlit("no_proxy");
    assert("TERM"@.len() == 4 && "COLORTERM"@.len() == 9 && "TOME_CORE_VAULT"@.len() == 15);
    assert("TOME_BRAIN"@.len() == 10 && "HTTP_PROXY"@.len() == 10 && "http_proxy"@.len() == 10);
    assert("HTTPS_PROXY"@.len() == 11 && "https_proxy"@.len() == 11);
    assert("NO_PROXY"@.len() == 8 && "no_proxy"@.len() == 8);
    assert("TOME_BRAIN"@[0] == 'T' && "HTTP_PROXY"@[0] == 'H' && "http_proxy"@[0] == 'h');
    assert("HTTPS_PROXY"@[0] == 'H' && "https_proxy"@[0] == 'h' && "NO_PROXY"@[0] == 'N' && "no_proxy"@[0] == 'n');
}

}
