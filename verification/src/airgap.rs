//! The gap around a pane: which panes have one, which of them were opened for a while, and the
//! timers that close them again. Every change says what is to be done about it outside: to the
//! pane's live proxy, to its timer, to the log and to those who watch.

use vstd::prelude::*;
use vstd::string::*;

use crate::auth::{wait_message, wait_text, Answer, AnswerView};
use crate::flow::graph::Text;
use crate::json::{entries, object, put, with_field, Json, JsonView};
use crate::strmap::StrMap;
use crate::text::{copy_texts, decimal, decimal_u64, opt_text, texts};

verus! {

/// What a gapped pane may reach: the providers alone, or everything.
#[derive(PartialEq, Eq, Structural, Clone, Copy, Debug)]
pub enum PaneMode {
    Providers,
    Open,
}

/// What a change asks of the world outside, in this order.
#[derive(PartialEq, Eq, Structural, Clone, Copy, Debug)]
pub enum GateEffect {
    UnlockProxy,
    RelockProxy,
    ShutDownProxy,
    AbortTimer,
    /// Start a timer that reports back with `generation` after `sleep_ms`.
    ArmTimer { generation: u64, sleep_ms: u64 },
    LogUnlock { minutes: i64 },
    LogRelock,
    PushState,
}

/// The gapped panes: the mode on file for each, the mode of its live proxy, and the generation
/// of the timer that is armed for it. Generations are handed out once each.
pub struct Gateway {
    modes: StrMap<PaneMode>,
    proxies: StrMap<PaneMode>,
    timers: StrMap<u64>,
    minted: u64,
}

#[verifier::ext_equal]
pub struct GatewayView {
    pub modes: Map<Text, PaneMode>,
    pub proxies: Map<Text, PaneMode>,
    pub timers: Map<Text, u64>,
    pub minted: int,
}

impl View for Gateway {
    type V = GatewayView;

    closed spec fn view(&self) -> GatewayView {
        GatewayView { modes: self.modes@, proxies: self.proxies@, timers: self.timers@, minted: self.minted as int }
    }
}

// ---- the changes ----

/// No pane, no proxy, no timer.
pub open spec fn no_panes() -> GatewayView {
    GatewayView { modes: Map::empty(), proxies: Map::empty(), timers: Map::empty(), minted: 0 }
}

/// `pane` is put on file, closed.
pub open spec fn registered(g: GatewayView, pane: Text) -> GatewayView {
    GatewayView { modes: g.modes.insert(pane, PaneMode::Providers), ..g }
}

/// `pane` gets a fresh proxy and is put on file.
pub open spec fn with_proxy(g: GatewayView, pane: Text) -> GatewayView {
    registered(GatewayView { proxies: g.proxies.insert(pane, PaneMode::Providers), ..g }, pane)
}

/// The modes with that of `pane` turned to `mode`, where it has one.
pub open spec fn turned(m: Map<Text, PaneMode>, pane: Text, mode: PaneMode) -> Map<Text, PaneMode> {
    if m.contains_key(pane) {
        m.insert(pane, mode)
    } else {
        m
    }
}

/// `pane` is opened until a timer of a fresh generation closes it. A pane that is not on file,
/// or a time that is no valid choice, changes nothing.
pub open spec fn unlocked(g: GatewayView, pane: Text, valid: bool) -> GatewayView {
    if valid && g.modes.contains_key(pane) {
        GatewayView {
            modes: g.modes.insert(pane, PaneMode::Open),
            proxies: turned(g.proxies, pane, PaneMode::Open),
            timers: g.timers.insert(pane, (g.minted + 1) as u64),
            minted: g.minted + 1,
        }
    } else {
        g
    }
}

/// `pane` is closed again.
pub open spec fn relocked(g: GatewayView, pane: Text) -> GatewayView {
    if g.modes.contains_key(pane) {
        GatewayView { modes: g.modes.insert(pane, PaneMode::Providers), proxies: turned(g.proxies, pane, PaneMode::Providers), ..g }
    } else {
        g
    }
}

pub open spec fn without_timer(g: GatewayView, pane: Text) -> GatewayView {
    GatewayView { timers: g.timers.remove(pane), ..g }
}

/// Whether the timer of `generation` is the one that is armed for `pane`.
pub open spec fn current(g: GatewayView, pane: Text, generation: u64) -> bool {
    g.timers.contains_key(pane) && g.timers[pane] == generation
}

/// A timer went off: it closes its pane where it is the one that is armed, else it does nothing.
pub open spec fn fired(g: GatewayView, pane: Text, generation: u64) -> GatewayView {
    if current(g, pane, generation) {
        relocked(without_timer(g, pane), pane)
    } else {
        g
    }
}

/// Nothing is left of `pane`.
pub open spec fn closed(g: GatewayView, pane: Text) -> GatewayView {
    GatewayView { modes: g.modes.remove(pane), proxies: g.proxies.remove(pane), timers: g.timers.remove(pane), minted: g.minted }
}

// ---- what the changes ask for ----

pub open spec fn when(b: bool, e: GateEffect) -> Seq<GateEffect> {
    if b {
        seq![e]
    } else {
        seq![]
    }
}

pub open spec fn sleep_ms(deadline: int, now: int) -> int {
    if deadline > now {
        deadline - now
    } else {
        0
    }
}

pub open spec fn unlock_effects(g: GatewayView, pane: Text, minutes: i64, deadline: Option<i64>, now: i64) -> Seq<GateEffect> {
    if deadline is Some && g.modes.contains_key(pane) {
        when(g.proxies.contains_key(pane), GateEffect::UnlockProxy)
            + when(g.timers.contains_key(pane), GateEffect::AbortTimer)
            + seq![
            GateEffect::ArmTimer { generation: (g.minted + 1) as u64, sleep_ms: sleep_ms(deadline->0 as int, now as int) as u64 },
            GateEffect::LogUnlock { minutes },
            GateEffect::PushState,
        ]
    } else {
        seq![]
    }
}

pub open spec fn relock_effects(g: GatewayView, pane: Text) -> Seq<GateEffect> {
    if g.modes.contains_key(pane) {
        when(g.proxies.contains_key(pane), GateEffect::RelockProxy) + seq![GateEffect::LogRelock, GateEffect::PushState]
    } else {
        seq![]
    }
}

pub open spec fn close_effects(g: GatewayView, pane: Text) -> Seq<GateEffect> {
    when(g.timers.contains_key(pane), GateEffect::AbortTimer)
        + when(g.proxies.contains_key(pane), GateEffect::ShutDownProxy)
        + when(g.modes.contains_key(pane), GateEffect::PushState)
}

impl Gateway {
    /// A gateway with no pane.
    pub fn new() -> (r: Self)
        ensures
            r@ == no_panes(),
    {
        Gateway { modes: StrMap::new(), proxies: StrMap::new(), timers: StrMap::new(), minted: 0 }
    }

    /// The mode on file for `pane`.
    pub fn pane_mode(&self, pane: &str) -> (r: Option<PaneMode>)
        ensures
            r is Some <==> self@.modes.contains_key(pane@),
            r is Some ==> r->0 == self@.modes[pane@],
    {
        match self.modes.get(pane) {
            Some(m) => Some(*m),
            None => None,
        }
    }

    /// The mode of the live proxy of `pane`.
    pub fn proxy_mode(&self, pane: &str) -> (r: Option<PaneMode>)
        ensures
            r is Some <==> self@.proxies.contains_key(pane@),
            r is Some ==> r->0 == self@.proxies[pane@],
    {
        match self.proxies.get(pane) {
            Some(m) => Some(*m),
            None => None,
        }
    }

    /// The generation of the timer that is armed for `pane`.
    pub fn timer(&self, pane: &str) -> (r: Option<u64>)
        ensures
            r is Some <==> self@.timers.contains_key(pane@),
            r is Some ==> r->0 == self@.timers[pane@],
    {
        match self.timers.get(pane) {
            Some(g) => Some(*g),
            None => None,
        }
    }

    /// The panes that have a live proxy.
    pub fn proxied_panes(&self) -> (r: Vec<String>)
        ensures
            texts(r@).no_duplicates(),
            texts(r@).to_set() == self@.proxies.dom(),
    {
        self.proxies.keys()
    }

    /// Puts `pane` on file, closed.
    pub fn register_pane(&mut self, pane: &str)
        ensures
            final(self)@ == registered(old(self)@, pane@),
    {
        self.modes.set(pane, PaneMode::Providers);
    }

    /// Takes note of a proxy that came up for `pane`.
    pub fn create_gapped_pane_proxy(&mut self, pane: &str) -> (r: Vec<GateEffect>)
        ensures
            final(self)@ == with_proxy(old(self)@, pane@),
            r@ == seq![GateEffect::PushState],
    {
        self.proxies.set(pane, PaneMode::Providers);
        self.register_pane(pane);
        vec![GateEffect::PushState]
    }

    /// Opens `pane` for `minutes`, which end at `deadline`: `None` where they are no valid choice.
    pub fn schedule_unlock(&mut self, pane: &str, minutes: i64, deadline: Option<i64>, now: i64) -> (r: Vec<GateEffect>)
        requires
            old(self)@.minted < u64::MAX,
            deadline is Some ==> i64::MIN <= deadline->0 - now <= i64::MAX,
        ensures
            final(self)@ == unlocked(old(self)@, pane@, deadline is Some),
            r@ == unlock_effects(old(self)@, pane@, minutes, deadline, now),
    {
        let mut effects: Vec<GateEffect> = Vec::new();
        let end: i64 = match deadline {
            Some(d) => d,
            None => return effects,
        };
        if !self.modes.contains(pane) {
            return effects;
        }
        self.modes.set(pane, PaneMode::Open);
        if self.proxies.contains(pane) {
            self.proxies.set(pane, PaneMode::Open);
            effects.push(GateEffect::UnlockProxy);
        }
        self.minted = self.minted + 1;
        if self.timers.contains(pane) {
            effects.push(GateEffect::AbortTimer);
        }
        self.timers.set(pane, self.minted);
        let sleep_ms: u64 = if end > now {
            (end - now) as u64
        } else {
            0
        };
        effects.push(GateEffect::ArmTimer { generation: self.minted, sleep_ms });
        effects.push(GateEffect::LogUnlock { minutes });
        effects.push(GateEffect::PushState);
        assert(effects@ =~= unlock_effects(old(self)@, pane@, minutes, deadline, now));
        effects
    }

    /// Takes the armed timer of `pane` off, where it is the one of `generation`.
    pub fn claim_timer_if_current(&mut self, pane: &str, generation: u64) -> (r: bool)
        ensures
            r == current(old(self)@, pane@, generation),
            final(self)@ == if r { without_timer(old(self)@, pane@) } else { old(self)@ },
    {
        let is_current = match self.timers.get(pane) {
            Some(g) => *g == generation,
            None => false,
        };
        if is_current {
            self.timers.remove(pane);
        }
        is_current
    }

    /// Closes `pane`.
    pub fn relock_now(&mut self, pane: &str) -> (r: Vec<GateEffect>)
        ensures
            final(self)@ == relocked(old(self)@, pane@),
            r@ == relock_effects(old(self)@, pane@),
    {
        let mut effects: Vec<GateEffect> = Vec::new();
        if !self.modes.contains(pane) {
            return effects;
        }
        self.modes.set(pane, PaneMode::Providers);
        if self.proxies.contains(pane) {
            self.proxies.set(pane, PaneMode::Providers);
            effects.push(GateEffect::RelockProxy);
        }
        effects.push(GateEffect::LogRelock);
        effects.push(GateEffect::PushState);
        assert(effects@ =~= relock_effects(old(self)@, pane@));
        effects
    }

    /// The timer of `generation` went off for `pane`.
    pub fn timer_fired(&mut self, pane: &str, generation: u64) -> (r: Vec<GateEffect>)
        ensures
            final(self)@ == fired(old(self)@, pane@, generation),
            r@ == if current(old(self)@, pane@, generation) { relock_effects(old(self)@, pane@) } else { seq![] },
    {
        if self.claim_timer_if_current(pane, generation) {
            self.relock_now(pane)
        } else {
            Vec::new()
        }
    }

    /// Closes `pane` by hand: its timer is taken off first.
    pub fn airgap_relock(&mut self, pane: &str) -> (r: Vec<GateEffect>)
        ensures
            final(self)@ == relocked(without_timer(old(self)@, pane@), pane@),
            r@ == when(old(self)@.timers.contains_key(pane@), GateEffect::AbortTimer) + relock_effects(old(self)@, pane@),
    {
        let mut effects: Vec<GateEffect> = Vec::new();
        if self.timers.remove(pane).is_some() {
            effects.push(GateEffect::AbortTimer);
        }
        let mut rest = self.relock_now(pane);
        effects.append(&mut rest);
        assert(effects@ =~= when(old(self)@.timers.contains_key(pane@), GateEffect::AbortTimer) + relock_effects(old(self)@, pane@));
        effects
    }

    /// Takes down what is left of `pane`. A pane that never had a gap is told to nobody.
    pub fn close_pane_and_proxy(&mut self, pane: &str) -> (r: Vec<GateEffect>)
        ensures
            final(self)@ == closed(old(self)@, pane@),
            r@ == close_effects(old(self)@, pane@),
    {
        let mut effects: Vec<GateEffect> = Vec::new();
        if self.timers.remove(pane).is_some() {
            effects.push(GateEffect::AbortTimer);
        }
        if self.proxies.remove(pane).is_some() {
            effects.push(GateEffect::ShutDownProxy);
        }
        if self.modes.remove(pane).is_some() {
            effects.push(GateEffect::PushState);
        }
        assert(effects@ =~= close_effects(old(self)@, pane@));
        effects
    }
}

/// What going down takes: the panes whose timers are to be stopped, and those whose proxies are
/// to be shut down.
pub struct CloseAll {
    pub timers: Vec<String>,
    pub proxies: Vec<String>,
}

impl Gateway {
    /// Takes everything down. Nobody is told any more.
    pub fn close_all(&mut self) -> (r: CloseAll)
        ensures
            final(self)@ == (GatewayView { minted: old(self)@.minted, ..no_panes() }),
            texts(r.timers@).no_duplicates() && texts(r.timers@).to_set() == old(self)@.timers.dom(),
            texts(r.proxies@).no_duplicates() && texts(r.proxies@).to_set() == old(self)@.proxies.dom(),
    {
        let timers = self.timers.keys();
        let proxies = self.proxies.keys();
        self.timers = StrMap::new();
        self.proxies = StrMap::new();
        self.modes = StrMap::new();
        CloseAll { timers, proxies }
    }
}

// ---- what holds of the changes ----

/// A live proxy lets through what its pane's mode says, a timer is armed for panes on file only
/// and with a generation that was handed out, and an open pane has a timer that will close it.
pub open spec fn sound(g: GatewayView) -> bool {
    &&& forall|p: Text| #[trigger] g.proxies.contains_key(p) ==> g.modes.contains_key(p) && g.modes[p] == g.proxies[p]
    &&& forall|p: Text| #[trigger] g.timers.contains_key(p) ==> g.modes.contains_key(p) && g.timers[p] <= g.minted
    &&& forall|p: Text| #[trigger] g.modes.contains_key(p) && g.modes[p] is Open ==> g.timers.contains_key(p)
}

/// Every change keeps a gateway sound: in particular no pane is ever open without a timer that
/// will close it, and no proxy lets through more than is on file for its pane.
pub proof fn law_changes_keep_the_gateway_sound(g: GatewayView, pane: Text, valid: bool, generation: u64)
    requires
        sound(g),
        0 <= g.minted < u64::MAX,
    ensures
        sound(no_panes()),
        sound(with_proxy(g, pane)),
        sound(unlocked(g, pane, valid)),
        sound(fired(g, pane, generation)),
        sound(relocked(without_timer(g, pane), pane)),
        sound(closed(g, pane)),
{
}

/// Once a pane was opened anew, no timer of an earlier generation closes it or touches anything.
pub proof fn law_stale_timers_do_nothing(g: GatewayView, pane: Text, stale: u64)
    requires
        0 <= g.minted < u64::MAX,
        stale <= g.minted,
        g.modes.contains_key(pane),
    ensures
        !current(unlocked(g, pane, true), pane, stale),
        fired(unlocked(g, pane, true), pane, stale) == unlocked(g, pane, true),
        unlocked(g, pane, true).modes[pane] == PaneMode::Open,
{
}

/// The timer that an unlock arms closes the pane when it goes off, once.
pub proof fn law_the_armed_timer_closes_its_pane(g: GatewayView, pane: Text)
    requires
        0 <= g.minted < u64::MAX,
        g.modes.contains_key(pane),
    ensures
        ({
            let generation = (g.minted + 1) as u64;
            let after = fired(unlocked(g, pane, true), pane, generation);
            &&& after.modes[pane] == PaneMode::Providers
            &&& after.proxies.contains_key(pane) ==> after.proxies[pane] == PaneMode::Providers
            &&& !after.timers.contains_key(pane)
            &&& fired(after, pane, generation) == after
        }),
{
}

/// A request to open a pane that is not on file, or for a time that is no valid choice, changes
/// nothing and asks for nothing.
pub proof fn law_refused_unlocks_touch_nothing(g: GatewayView, pane: Text, minutes: i64, deadline: Option<i64>, now: i64)
    requires
        deadline is None || !g.modes.contains_key(pane),
    ensures
        unlocked(g, pane, deadline is Some) == g,
        unlock_effects(g, pane, minutes, deadline, now) == Seq::<GateEffect>::empty(),
{
}

/// Nothing but an unlock opens a pane.
pub proof fn law_only_an_unlock_opens(g: GatewayView, pane: Text, generation: u64, p: Text)
    requires
        !(g.modes.contains_key(p) && g.modes[p] is Open),
    ensures
        ({
            let opens = |h: GatewayView| h.modes.contains_key(p) && h.modes[p] is Open;
            &&& !opens(registered(g, pane))
            &&& !opens(with_proxy(g, pane))
            &&& !opens(unlocked(g, pane, false))
            &&& !opens(fired(g, pane, generation))
            &&& !opens(relocked(without_timer(g, pane), pane))
            &&& !opens(closed(g, pane))
        }),
{
}

/// What is done to one pane is done to no other.
pub proof fn law_other_panes_are_left_alone(g: GatewayView, pane: Text, valid: bool, generation: u64, other: Text)
    requires
        other != pane,
    ensures
        ({
            let kept = |h: GatewayView|
                {
                    &&& h.modes.contains_key(other) == g.modes.contains_key(other)
                    &&& h.modes.contains_key(other) ==> h.modes[other] == g.modes[other]
                    &&& h.proxies.contains_key(other) == g.proxies.contains_key(other)
                    &&& h.proxies.contains_key(other) ==> h.proxies[other] == g.proxies[other]
                    &&& h.timers.contains_key(other) == g.timers.contains_key(other)
                    &&& h.timers.contains_key(other) ==> h.timers[other] == g.timers[other]
                };
            &&& kept(registered(g, pane))
            &&& kept(with_proxy(g, pane))
            &&& kept(unlocked(g, pane, valid))
            &&& kept(fired(g, pane, generation))
            &&& kept(relocked(without_timer(g, pane), pane))
            &&& kept(closed(g, pane))
        }),
{
}

/// Closing a pane a second time changes nothing and asks for nothing.
pub proof fn law_closing_twice_is_closing_once(g: GatewayView, pane: Text)
    ensures
        closed(closed(g, pane), pane) == closed(g, pane),
        close_effects(closed(g, pane), pane) == Seq::<GateEffect>::empty(),
{
    assert(closed(closed(g, pane), pane) =~= closed(g, pane));
}

// ---- for how long ----

/// A pane is opened for a quarter of an hour, half an hour or an hour.
pub open spec fn offered(minutes: i64) -> bool {
    minutes == 15 || minutes == 30 || minutes == 60
}

/// When a pane that is opened now for so many minutes closes again; none for a time that is not
/// offered.
pub fn unlock_deadline(minutes: i64, now: i64) -> (r: Option<i64>)
    requires
        now <= i64::MAX - 3_600_000,
    ensures
        match r {
            Some(d) => offered(minutes) && d == now + minutes * 60_000,
            None => !offered(minutes),
        },
{
    if minutes == 15 || minutes == 30 || minutes == 60 {
        Some(now + minutes * 60_000)
    } else {
        None
    }
}

/// A pane that was opened for an offered time gets a timer of exactly that time; one for any other
/// time is not opened.
pub proof fn law_panes_close_after_the_offered_time(g: GatewayView, pane: Text, minutes: i64, deadline: Option<i64>, now: i64)
    requires
        g.modes.contains_key(pane),
        match deadline {
            Some(d) => offered(minutes) && d == now + minutes * 60_000,
            None => !offered(minutes),
        },
    ensures
        offered(minutes) ==> unlock_effects(g, pane, minutes, deadline, now).contains(
            GateEffect::ArmTimer { generation: (g.minted + 1) as u64, sleep_ms: (minutes * 60_000) as u64 },
        ),
        !offered(minutes) ==> unlock_effects(g, pane, minutes, deadline, now) == Seq::<GateEffect>::empty() && unlocked(
            g,
            pane,
            deadline is Some,
        ) == g,
{
    if offered(minutes) {
        let all = unlock_effects(g, pane, minutes, deadline, now);
        let k = all.len() - 3;
        assert(all[k] == GateEffect::ArmTimer { generation: (g.minted + 1) as u64, sleep_ms: (minutes * 60_000) as u64 });
    }
}

// ---- what panes may reach ----

/// The hosts that a closed pane may reach: those that every pane may, then those that the open
/// repositories were granted.
pub fn effective_allow_patterns(defaults: &Vec<String>, repo_hosts: &Vec<String>) -> (r: Vec<String>)
    ensures
        texts(r@) == texts(defaults@) + texts(repo_hosts@),
{
    let mut out = copy_texts(defaults);
    let mut more = copy_texts(repo_hosts);
    out.append(&mut more);
    assert(texts(out@) =~= texts(defaults@) + texts(repo_hosts@));
    out
}

/// A live proxy and the hosts that it lets through.
pub struct ProxyAllow {
    pub pane: String,
    pub allowed: Vec<String>,
}

/// Gives every live proxy the hosts that are allowed now.
pub fn recompile_all_proxies(gateway: &Gateway, defaults: &Vec<String>, repo_hosts: &Vec<String>) -> (r: Vec<ProxyAllow>)
    ensures
        r@.map_values(|p: ProxyAllow| p.pane@).no_duplicates(),
        r@.map_values(|p: ProxyAllow| p.pane@).to_set() == gateway@.proxies.dom(),
        forall|i: int| 0 <= i < r@.len() ==> texts((#[trigger] r@[i]).allowed@) == texts(defaults@) + texts(repo_hosts@),
{
    let panes = gateway.proxied_panes();
    let patterns = effective_allow_patterns(defaults, repo_hosts);
    let mut out: Vec<ProxyAllow> = Vec::new();
    let mut i: usize = 0;
    while i < panes.len()
        invariant
            i <= panes@.len(),
            out@.len() == i,
            texts(patterns@) == texts(defaults@) + texts(repo_hosts@),
            forall|j: int| 0 <= j < i ==> (#[trigger] out@[j]).pane@ == panes@[j]@ && texts(out@[j].allowed@) == texts(patterns@),
        decreases panes@.len() - i,
    {
        out.push(ProxyAllow { pane: panes[i].clone(), allowed: copy_texts(&patterns) });
        i += 1;
    }
    assert(out@.map_values(|p: ProxyAllow| p.pane@) =~= texts(panes@));
    out
}

// ---- what the log and the callers are told ----

/// What the log is told of a host that a closed pane was kept from: the count only where the
/// host was tried more than once.
pub open spec fn blocked_entry(pane: Text, host: Text, count: nat) -> Seq<(Text, JsonView)> {
    let base = seq![("paneId"@, JsonView::Text(pane)), ("host"@, JsonView::Text(host))];
    if count <= 1 {
        base
    } else {
        base.push(("count"@, JsonView::Number(decimal(count))))
    }
}

pub fn blocked_fields(pane: &str, host: &str, count: u64) -> (r: Vec<(String, Json)>)
    ensures
        entries(r@) == blocked_entry(pane@, host@, count as nat),
{
    let mut out: Vec<(String, Json)> = Vec::new();
    out.push(("paneId".to_owned(), Json::Text(pane.to_owned())));
    out.push(("host".to_owned(), Json::Text(host.to_owned())));
    if count > 1 {
        out.push(("count".to_owned(), Json::Number(decimal_u64(count))));
    }
    assert(entries(out@) =~= blocked_entry(pane@, host@, count as nat));
    out
}

/// The state of the panes with that of the lock beside it: where there is no lock, one that is
/// neither set up nor has a second factor.
pub fn airgap_state(snapshot: Vec<(String, Json)>, auth: Option<(bool, bool)>) -> (r: Vec<(String, Json)>)
    ensures
        entries(r@) == with_field(entries(snapshot@), "auth"@, auth_entry(auth)),
{
    let (configured, totp) = match auth {
        Some(p) => p,
        None => (false, false),
    };
    let mut status: Vec<(String, Json)> = Vec::new();
    status.push(("configured".to_owned(), Json::Bool(configured)));
    status.push(("totp".to_owned(), Json::Bool(totp)));
    assert(entries(status@) =~= seq![("configured"@, JsonView::Bool(configured)), ("totp"@, JsonView::Bool(totp))]);
    let mut out = snapshot;
    put(&mut out, "auth", object(status));
    out
}

pub open spec fn auth_entry(auth: Option<(bool, bool)>) -> JsonView {
    let (configured, totp) = match auth {
        Some(p) => p,
        None => (false, false),
    };
    JsonView::Object(seq![("configured"@, JsonView::Bool(configured)), ("totp"@, JsonView::Bool(totp))])
}

/// How a request to open a pane goes on.
pub enum UnlockCheck {
    Refused(String),
    CheckCode(String),
    CheckPassphrase(String),
    /// The credential that is asked for was not given: a failed attempt.
    Missing,
}

pub enum UnlockCheckView {
    Refused(Text),
    CheckCode(Text),
    CheckPassphrase(Text),
    Missing,
}

impl View for UnlockCheck {
    type V = UnlockCheckView;

    open spec fn view(&self) -> UnlockCheckView {
        match self {
            UnlockCheck::Refused(e) => UnlockCheckView::Refused(e@),
            UnlockCheck::CheckCode(c) => UnlockCheckView::CheckCode(c@),
            UnlockCheck::CheckPassphrase(c) => UnlockCheckView::CheckPassphrase(c@),
            UnlockCheck::Missing => UnlockCheckView::Missing,
        }
    }
}

/// A throttle comes first; then the code where a second factor is set up, else the passphrase.
pub open spec fn unlock_next(wait_ms: int, totp: bool, code: Option<Text>, passphrase: Option<Text>) -> UnlockCheckView {
    if wait_ms > 0 {
        UnlockCheckView::Refused(wait_text(wait_ms))
    } else if totp {
        match code {
            Some(c) => UnlockCheckView::CheckCode(c),
            None => UnlockCheckView::Missing,
        }
    } else {
        match passphrase {
            Some(p) => UnlockCheckView::CheckPassphrase(p),
            None => UnlockCheckView::Missing,
        }
    }
}

/// What a request to open a pane is checked for.
pub fn unlock_check(wait_ms: u64, totp_active: bool, code: Option<String>, passphrase: Option<String>) -> (r: UnlockCheck)
    ensures
        r@ == unlock_next(wait_ms as int, totp_active, opt_text(code), opt_text(passphrase)),
{
    if wait_ms > 0 {
        UnlockCheck::Refused(wait_message(wait_ms))
    } else if totp_active {
        match code {
            Some(c) => UnlockCheck::CheckCode(c),
            None => UnlockCheck::Missing,
        }
    } else {
        match passphrase {
            Some(p) => UnlockCheck::CheckPassphrase(p),
            None => UnlockCheck::Missing,
        }
    }
}

/// What a request to open a pane comes to: the answer, and whether the throttle takes note of a
/// success or of a failure.
pub struct UnlockOutcome {
    pub answer: Answer,
    pub recorded: Option<bool>,
}

/// A failed or missing credential is one failure; a request during a throttle is no attempt.
pub open spec fn unlock_answer(check: UnlockCheckView, totp: bool, verified: bool) -> (AnswerView, Option<bool>) {
    let wrong = AnswerView::Refused(if totp { "Wrong 2FA code."@ } else { "Wrong passphrase."@ });
    match check {
        UnlockCheckView::Refused(e) => (AnswerView::Refused(e), None),
        UnlockCheckView::CheckCode(_) | UnlockCheckView::CheckPassphrase(_) => if verified {
            (AnswerView::Done, Some(true))
        } else {
            (wrong, Some(false))
        },
        UnlockCheckView::Missing => (wrong, Some(false)),
    }
}

/// What follows the check; `verified` says how the credential fared that it names, if it names
/// one. A pane is opened after a good one only.
pub fn airgap_unlock(check: UnlockCheck, totp_active: bool, verified: bool) -> (r: UnlockOutcome)
    ensures
        (r.answer@, r.recorded) == unlock_answer(check@, totp_active, verified),
{
    let good = match check {
        UnlockCheck::Refused(e) => return UnlockOutcome { answer: Answer::Refused(e), recorded: None },
        UnlockCheck::CheckCode(_) => verified,
        UnlockCheck::CheckPassphrase(_) => verified,
        UnlockCheck::Missing => false,
    };
    if good {
        UnlockOutcome { answer: Answer::Done, recorded: Some(true) }
    } else if totp_active {
        UnlockOutcome { answer: Answer::Refused("Wrong 2FA code.".to_owned()), recorded: Some(false) }
    } else {
        UnlockOutcome { answer: Answer::Refused("Wrong passphrase.".to_owned()), recorded: Some(false) }
    }
}

/// A pane is opened only after the one credential that is active was given and checked: the code
/// where a second factor is set up, whatever the passphrase, else the passphrase. Everything else
/// outside a throttle is one failure, and during one nothing is noted.
pub proof fn law_unlocks_are_checked(wait_ms: int, totp: bool, code: Option<Text>, passphrase: Option<Text>, verified: bool)
    ensures
        ({
            let (answer, recorded) = unlock_answer(unlock_next(wait_ms, totp, code, passphrase), totp, verified);
            let good = (if totp { code is Some } else { passphrase is Some }) && verified;
            &&& wait_ms > 0 ==> answer is Refused && recorded is None
            &&& wait_ms <= 0 ==> recorded == Some(good) && (answer == AnswerView::Done <==> good)
        }),
{
}

/// The answer to the first passphrase: `stored` is how storing it went, where it got that far. A
/// lock that is set up already is never set up again; after a passphrase was stored the session
/// counts as unlocked.
pub fn airgap_setup(configured: bool, stored: Option<Result<(), String>>) -> (r: Option<Answer>)
    ensures
        configured ==> (r matches Some(a) && a@ == AnswerView::Refused("Already configured."@)),
        !configured ==> match stored {
            None => r is None,
            Some(Err(e)) => (r matches Some(a) && a@ == AnswerView::Refused(e@)),
            Some(Ok(_)) => (r matches Some(a) && a@ == AnswerView::Done),
        },
{
    if configured {
        return Some(Answer::Refused("Already configured.".to_owned()));
    }
    match stored {
        None => None,
        Some(Err(e)) => Some(Answer::Refused(e)),
        Some(Ok(_)) => Some(Answer::Done),
    }
}

/// How agreeing to a repository's hosts went: those that count now and those that were refused,
/// or why none do.
pub enum ConsentOutcome {
    Applied { applied: Vec<String>, rejected: Vec<String> },
    Refused(String),
}

/// Agreeing to a repository's hosts: where it went well, every live proxy gets the hosts that are
/// allowed now.
pub fn airgap_consent_repo_allowlist(
    gateway: &Gateway,
    outcome: &ConsentOutcome,
    defaults: &Vec<String>,
    repo_hosts: &Vec<String>,
) -> (r: Result<Vec<ProxyAllow>, String>)
    ensures
        match r {
            Err(e) => (outcome matches ConsentOutcome::Refused(x) && e@ == x@),
            Ok(v) => {
                &&& outcome is Applied
                &&& v@.map_values(|p: ProxyAllow| p.pane@).to_set() == gateway@.proxies.dom()
                &&& forall|i: int| 0 <= i < v@.len() ==> texts((#[trigger] v@[i]).allowed@) == texts(defaults@) + texts(repo_hosts@)
            },
        },
{
    match outcome {
        ConsentOutcome::Applied { .. } => Ok(recompile_all_proxies(gateway, defaults, repo_hosts)),
        ConsentOutcome::Refused(e) => Err(e.clone()),
    }
}

/// An unlock opens the pane that it was given for: the mode on file and the live proxy both, with a
/// timer of a new generation behind them.
pub proof fn law_unlocks_open_their_pane(g: GatewayView, pane: Text)
    requires
        g.modes.contains_key(pane),
        0 <= g.minted < u64::MAX,
    ensures
        ({
            let after = unlocked(g, pane, true);
            &&& after.modes[pane] is Open
            &&& g.proxies.contains_key(pane) ==> after.proxies[pane] is Open
            &&& after.timers.contains_key(pane) && after.timers[pane] > g.minted
            &&& after.minted == after.timers[pane]
        }),
{
}

/// A pane starts closed, and a relock closes it again, its live proxy with it; a pane that is closed
/// for good leaves nothing behind.
pub proof fn law_panes_start_and_end_closed(g: GatewayView, pane: Text)
    ensures
        registered(g, pane).modes[pane] is Providers,
        with_proxy(g, pane).modes[pane] is Providers && with_proxy(g, pane).proxies[pane] is Providers,
        g.modes.contains_key(pane) ==> relocked(g, pane).modes[pane] is Providers,
        g.modes.contains_key(pane) && g.proxies.contains_key(pane) ==> relocked(g, pane).proxies[pane] is Providers,
        !closed(g, pane).modes.contains_key(pane) && !closed(g, pane).proxies.contains_key(pane) && !closed(g, pane).timers.contains_key(pane),
        no_panes().modes.dom().is_empty() && no_panes().proxies.dom().is_empty() && no_panes().timers.dom().is_empty(),
{
}

/// What an unlock has done outside is what it changed: the live proxy is opened where there is one,
/// the older timer is stopped where there is one, the timer that is armed is the one on file and
/// sleeps until the deadline, and nothing is done where nothing changes.
pub proof fn law_unlocks_act_as_they_change(g: GatewayView, pane: Text, minutes: i64, deadline: Option<i64>, now: i64)
    requires
        0 <= g.minted < u64::MAX,
        0 <= now,
    ensures
        ({
            let acts = unlock_effects(g, pane, minutes, deadline, now);
            let after = unlocked(g, pane, deadline is Some);
            &&& deadline is None || !g.modes.contains_key(pane) ==> acts.len() == 0
            &&& deadline is Some && g.modes.contains_key(pane) ==> {
                &&& acts.contains(GateEffect::UnlockProxy) <==> g.proxies.contains_key(pane)
                &&& acts.contains(GateEffect::AbortTimer) <==> g.timers.contains_key(pane)
                &&& deadline->0 > now ==> acts.contains(
                    GateEffect::ArmTimer { generation: after.timers[pane], sleep_ms: (deadline->0 - now) as u64 },
                )
                &&& acts.contains(GateEffect::LogUnlock { minutes })
                &&& acts.contains(GateEffect::PushState)
            }
        }),
{
    if deadline is Some && g.modes.contains_key(pane) {
        let acts = unlock_effects(g, pane, minutes, deadline, now);
        let a = when(g.proxies.contains_key(pane), GateEffect::UnlockProxy);
        let b = when(g.timers.contains_key(pane), GateEffect::AbortTimer);
        let n: int = (a.len() + b.len()) as int;
        if g.proxies.contains_key(pane) {
            assert(acts[0] == GateEffect::UnlockProxy);
        }
        if g.timers.contains_key(pane) {
            assert(acts[a.len() as int] == GateEffect::AbortTimer);
        }
        assert(acts.len() == n + 3);
        assert(acts[n] is ArmTimer && acts[n + 1] is LogUnlock && acts[n + 2] is PushState);
        assert(acts[n + 1] == GateEffect::LogUnlock { minutes });
        if acts.contains(GateEffect::UnlockProxy) {
            let i = choose|i: int| 0 <= i < acts.len() && acts[i] == GateEffect::UnlockProxy;
            if i < n && i >= a.len() {
                assert(acts[i] == b[i - a.len()]);
            }
        }
        if acts.contains(GateEffect::AbortTimer) {
            let i = choose|i: int| 0 <= i < acts.len() && acts[i] == GateEffect::AbortTimer;
            if i < a.len() {
                assert(acts[i] == a[i]);
            }
        }
    }
}

/// What a relock and a close have done outside is what they changed: the live proxy is closed or
/// shut down where there is one, a close stops the timer, and the change is shown.
pub proof fn law_relocks_and_closes_act_as_they_change(g: GatewayView, pane: Text)
    ensures
        ({
            let acts = relock_effects(g, pane);
            &&& !g.modes.contains_key(pane) ==> acts.len() == 0
            &&& g.modes.contains_key(pane) ==> {
                &&& acts.contains(GateEffect::RelockProxy) <==> g.proxies.contains_key(pane)
                &&& acts.contains(GateEffect::LogRelock)
                &&& acts.contains(GateEffect::PushState)
            }
        }),
        close_effects(g, pane).contains(GateEffect::ShutDownProxy) <==> g.proxies.contains_key(pane),
        close_effects(g, pane).contains(GateEffect::AbortTimer) <==> g.timers.contains_key(pane),
        close_effects(g, pane).contains(GateEffect::PushState) <==> g.modes.contains_key(pane),
{
    let acts = relock_effects(g, pane);
    if g.modes.contains_key(pane) {
        let n: int = when(g.proxies.contains_key(pane), GateEffect::RelockProxy).len() as int;
        assert(acts[n] == GateEffect::LogRelock && acts[n + 1] == GateEffect::PushState);
        if g.proxies.contains_key(pane) {
            assert(acts[0] == GateEffect::RelockProxy);
        }
    }
    let ends = close_effects(g, pane);
    let a = when(g.timers.contains_key(pane), GateEffect::AbortTimer);
    let b = when(g.proxies.contains_key(pane), GateEffect::ShutDownProxy);
    let c = when(g.modes.contains_key(pane), GateEffect::PushState);
    assert(forall|i: int| 0 <= i < a.len() ==> ends[i] == a[i]);
    assert(forall|i: int| 0 <= i < b.len() ==> ends[a.len() + i] == b[i]);
    assert(forall|i: int| 0 <= i < c.len() ==> ends[a.len() + b.len() + i] == c[i]);
    if g.timers.contains_key(pane) {
        assert(ends[0] == a[0]);
    }
    if g.proxies.contains_key(pane) {
        assert(ends[a.len() as int] == b[0]);
    }
    if g.modes.contains_key(pane) {
        assert(ends[(a.len() + b.len()) as int] == c[0]);
    }
}

/// Three spans are offered, a quarter of an hour, half an hour and an hour, and no other.
pub proof fn law_three_spans_are_offered(minutes: i64)
    ensures
        offered(15) && offered(30) && offered(60),
        offered(minutes) ==> 15 <= minutes <= 60 && minutes % 15 == 0 && minutes != 45,
{
}

/// What is told of a blocked request names its pane and its host, and the number of times it was
/// made where it was made more than once.
pub proof fn law_blocked_requests_are_told(pane: Text, host: Text, count: nat)
    ensures
        blocked_entry(pane, host, count).contains(("paneId"@, JsonView::Text(pane))),
        blocked_entry(pane, host, count).contains(("host"@, JsonView::Text(host))),
        count > 1 ==> blocked_entry(pane, host, count).contains(("count"@, JsonView::Number(decimal(count)))),
        count <= 1 ==> blocked_entry(pane, host, count).len() == 2,
{
    let o = blocked_entry(pane, host, count);
    assert(o[0] == ("paneId"@, JsonView::Text(pane)) && o[1] == ("host"@, JsonView::Text(host)));
    if count > 1 {
        assert(o[2] == ("count"@, JsonView::Number(decimal(count))));
    }
}

/// What is told of the lock is how it stands, and that there is none where it cannot be read.
pub proof fn law_the_lock_is_shown_as_it_stands(configured: bool, totp: bool)
    ensures
        auth_entry(Some((configured, totp))) is Object,
        auth_entry(Some((configured, totp)))->Object_0.contains(("configured"@, JsonView::Bool(configured))),
        auth_entry(Some((configured, totp)))->Object_0.contains(("totp"@, JsonView::Bool(totp))),
        auth_entry(None) == auth_entry(Some((false, false))),
{
    let o = auth_entry(Some((configured, totp)))->Object_0;
    assert(o[0] == ("configured"@, JsonView::Bool(configured)) && o[1] == ("totp"@, JsonView::Bool(totp)));
}

/// A credential that was given is the one that is checked, the code where there is a second factor
/// and the passphrase where there is none; one that is right unlocks, and one that is wrong or
/// missing is refused and counted.
pub proof fn law_given_credentials_are_checked(code: Option<Text>, passphrase: Option<Text>, given: Text, verified: bool)
    ensures
        unlock_next(0, true, Some(given), passphrase) == UnlockCheckView::CheckCode(given),
        unlock_next(0, false, code, Some(given)) == UnlockCheckView::CheckPassphrase(given),
        unlock_next(0, true, None, passphrase) is Missing && unlock_next(0, false, code, None) is Missing,
        unlock_answer(UnlockCheckView::CheckCode(given), true, verified).0 is Done <==> verified,
        unlock_answer(UnlockCheckView::CheckPassphrase(given), false, verified).0 is Done <==> verified,
        unlock_answer(UnlockCheckView::CheckCode(given), true, verified).1 == Some(verified),
        unlock_answer(UnlockCheckView::CheckPassphrase(given), false, verified).1 == Some(verified),
        unlock_answer(UnlockCheckView::Missing, true, verified) == unlock_answer(UnlockCheckView::CheckCode(given), true, false),
        unlock_answer(UnlockCheckView::Missing, false, verified) == unlock_answer(UnlockCheckView::CheckPassphrase(given), false, false),
        unlock_answer(UnlockCheckView::Refused(given), true, verified) == (AnswerView::Refused(given), None::<bool>),
{
}

}
