//! Starting up and going down: the screenshot mode, the lock at start, windows that were torn
//! off, and the way out.

use vstd::prelude::*;
use vstd::string::*;

use crate::auth::Session;
use crate::flow::graph::Text;
use crate::parse::law_decimals_read_back;
use crate::strmap::{drop_text, lemma_without_other, without};
use crate::text::{begins, contains_text, decimal, decimal_u64, ends, join2, same, starts_with, strip_suffix, texts};

verus! {

// ---- starting ----

/// Whether a variable is set, and to something.
pub fn truthy_env(value: Option<&str>) -> (r: bool)
    ensures
        r == (value matches Some(v) && v@.len() > 0),
{
    match value {
        Some(v) => v.unicode_len() > 0,
        None => false,
    }
}

/// Screenshot mode takes both variables and a development build.
pub open spec fn shot_mode(shot: bool, shot_ack: bool, dev: bool) -> bool {
    shot && shot_ack && dev
}

/// Whether screenshot mode is on.
pub fn shot_mode_gate(shot: bool, shot_ack: bool, dev: bool) -> (r: bool)
    ensures
        r == shot_mode(shot, shot_ack, dev),
{
    shot && shot_ack && dev
}

/// What is said about screenshot mode at start.
pub enum ShotNotice {
    /// It is on, and the lock is off.
    Active,
    /// It was asked for by half, and is off.
    Ignored,
    Nothing,
}

pub fn warn_shot_mode(active: bool, shot: bool) -> (r: ShotNotice)
    ensures
        r is Active <==> active,
        r is Ignored <==> !active && shot,
        r is Nothing <==> !active && !shot,
{
    if active {
        ShotNotice::Active
    } else if shot {
        ShotNotice::Ignored
    } else {
        ShotNotice::Nothing
    }
}

/// A session starts locked where a passphrase is set, unless screenshot mode is on. Where the
/// folder of the lock cannot be found, `configured` is none, and nothing is locked.
pub open spec fn locked_at_start(configured: Option<bool>, shot_mode: bool) -> bool {
    configured == Some(true) && !shot_mode
}

/// The session at start.
pub fn boot_session(configured: Option<bool>, shot_mode: bool) -> (r: Session)
    ensures
        r == (Session { locked: locked_at_start(configured, shot_mode), auth_unlocked: false }),
{
    let set_up = match configured {
        Some(b) => b,
        None => false,
    };
    Session { locked: set_up && !shot_mode, auth_unlocked: false }
}

/// Where a passphrase is set, a packaged build always starts locked, whatever the variables say,
/// and so does a development build with only one of them.
pub proof fn law_the_lock_stands_in_packaged_builds(shot: bool, ack: bool, dev: bool)
    ensures
        locked_at_start(Some(true), shot_mode(shot, ack, false)),
        locked_at_start(Some(true), shot_mode(shot, false, dev)),
        locked_at_start(Some(true), shot_mode(false, ack, dev)),
{
}

// ---- windows that were torn off ----

/// A window other than the main one that holds panes.
pub open spec fn is_popout(label: Text) -> bool {
    begins(label, "popout"@)
}

pub fn popout_label(label: &str) -> (r: bool)
    ensures
        r == is_popout(label@),
{
    starts_with(label, "popout")
}

/// Whether a navigation tears a window off, and is to be stopped where it was asked for: only the
/// main window tears windows off, by going to the page made for them.
pub fn tears_off(window: &str, path: &str) -> (r: bool)
    ensures
        r == (window@ == "main"@ && ends(path@, "/popout.html"@)),
{
    same(window, "main") && strip_suffix(path, "/popout.html").is_some()
}

/// The windows that were torn off: how many there were so far, which of them may close, and
/// whether everything is on its way out.
pub struct Popouts {
    pub opened: u64,
    pub approved: Vec<String>,
    pub quitting: bool,
}

pub struct PopoutsView {
    pub opened: int,
    pub approved: Seq<Text>,
    pub quitting: bool,
}

impl View for Popouts {
    type V = PopoutsView;

    open spec fn view(&self) -> PopoutsView {
        PopoutsView { opened: self.opened as int, approved: texts(self.approved@), quitting: self.quitting }
    }
}

/// The label of the `n`th window.
pub open spec fn label_of(n: int) -> Text {
    "popout-"@ + decimal(n as nat)
}

/// What becomes of a window that is to close.
pub enum CloseAnswer {
    /// It closes.
    Close,
    /// It stays, and the main window asks.
    Ask,
}

/// A torn-off window stays until it may close; once everything goes down, or there is no main
/// window left to ask in, it closes at once.
pub open spec fn closes(p: PopoutsView, label: Text, main_alive: bool) -> bool {
    !is_popout(label) || p.quitting || p.approved.contains(label) || !main_alive
}

impl Popouts {
    /// No window was torn off yet.
    pub fn new() -> (r: Self)
        ensures
            r@.opened == 0,
            r@.approved == Seq::<Text>::empty(),
            !r@.quitting,
    {
        let r = Popouts { opened: 0, approved: Vec::new(), quitting: false };
        assert(texts(r.approved@) =~= Seq::<Text>::empty());
        r
    }

    /// A window is torn off; its label.
    pub fn open(&mut self) -> (r: String)
        requires
            old(self)@.opened < u64::MAX,
        ensures
            r@ == label_of(old(self)@.opened),
            final(self)@ == (PopoutsView { opened: old(self)@.opened + 1, ..old(self)@ }),
    {
        let n = decimal_u64(self.opened);
        self.opened = self.opened + 1;
        join2("popout-", &n)
    }

    /// A window is asked to close. That it may is good for once.
    pub fn close_requested(&mut self, label: &str, main_alive: bool) -> (r: CloseAnswer)
        ensures
            r is Close <==> closes(old(self)@, label@, main_alive),
            final(self)@ == if is_popout(label@) && !old(self)@.quitting {
                PopoutsView { approved: without(old(self)@.approved, label@), ..old(self)@ }
            } else {
                old(self)@
            },
    {
        if !popout_label(label) || self.quitting {
            return CloseAnswer::Close;
        }
        let allowed = contains_text(&self.approved, label);
        self.approved = drop_text(&self.approved, label);
        if allowed || !main_alive {
            CloseAnswer::Close
        } else {
            CloseAnswer::Ask
        }
    }

    /// A window is gone: nothing is kept about it.
    pub fn destroyed(&mut self, label: &str)
        ensures
            final(self)@ == if is_popout(label@) {
                PopoutsView { approved: without(old(self)@.approved, label@), ..old(self)@ }
            } else {
                old(self)@
            },
    {
        if popout_label(label) {
            self.approved = drop_text(&self.approved, label);
        }
    }

    /// The answer was to close the window `id`: whether there is one to close. No other window
    /// than a torn-off one is closed this way.
    pub fn popout_close(&mut self, id: &str, alive: bool) -> (r: Result<bool, String>)
        ensures
            match r {
                Err(e) => !is_popout(id@) && e@ == "popout:close: not a popout window: "@ + id@ && final(self)@ == old(self)@,
                Ok(b) => {
                    &&& is_popout(id@)
                    &&& b == alive
                    &&& final(self)@ == if alive && !old(self)@.approved.contains(id@) {
                        PopoutsView { approved: old(self)@.approved.push(id@), ..old(self)@ }
                    } else {
                        old(self)@
                    }
                },
            },
    {
        if !popout_label(id) {
            return Err(join2("popout:close: not a popout window: ", id));
        }
        if alive && !contains_text(&self.approved, id) {
            let ghost before = texts(self.approved@);
            self.approved.push(id.to_owned());
            assert(texts(self.approved@) =~= before.push(id@));
        }
        Ok(alive)
    }

    /// The main window is asked to close: whether the way out starts now. It starts once.
    pub fn quit_requested(&mut self) -> (r: bool)
        ensures
            r == !old(self)@.quitting,
            final(self)@ == (PopoutsView { quitting: true, ..old(self)@ }),
    {
        let first = !self.quitting;
        self.quitting = true;
        first
    }
}

/// What is done on the way out, after the panes had their moment to be saved.
#[derive(PartialEq, Eq, Structural, Clone, Copy, Debug)]
pub enum QuitStep {
    ShutDownProxies,
    AbortTicker,
    KillRuns,
    ShutDownServers,
    Exit,
}

/// The steps of the way out: no scheduled run starts after the runs were killed.
pub fn quit_steps() -> (r: Vec<QuitStep>)
    ensures
        r@ == seq![
            QuitStep::ShutDownProxies,
            QuitStep::AbortTicker,
            QuitStep::KillRuns,
            QuitStep::ShutDownServers,
            QuitStep::Exit,
        ],
{
    let v = vec![
        QuitStep::ShutDownProxies,
        QuitStep::AbortTicker,
        QuitStep::KillRuns,
        QuitStep::ShutDownServers,
        QuitStep::Exit,
    ];
    assert(v@ =~= seq![
        QuitStep::ShutDownProxies,
        QuitStep::AbortTicker,
        QuitStep::KillRuns,
        QuitStep::ShutDownServers,
        QuitStep::Exit,
    ]);
    v
}

/// The milliseconds that the panes have for it at most.
pub const QUIT_WAIT_MS: u64 = 1500;

/// A torn-off window never closes while the app runs unless that was the answer to being asked;
/// one answer closes it once, and never the main window.
pub proof fn law_windows_close_when_told_to(p: PopoutsView, label: Text)
    requires
        !p.quitting,
        is_popout(label),
    ensures
        !p.approved.contains(label) ==> !closes(p, label, true),
        closes(PopoutsView { approved: p.approved.push(label), ..p }, label, true),
        !closes(PopoutsView { approved: without(p.approved.push(label), label), ..p }, label, true),
        !is_popout("main"@),
{
    assert(p.approved.push(label)[p.approved.len() as int] == label);
    lemma_without_other(p.approved.push(label), label, label);
    reveal_strlit("main");
    reveal_strlit("popout");
}

/// Every window that is popped out is known as one by its label, and no two have the same.
pub proof fn law_labels_tell_windows_apart(m: nat, n: nat)
    ensures
        is_popout(label_of(m as int)),
        m != n ==> label_of(m as int) != label_of(n as int),
{
    reveal_strlit("popout-");
    reveal_strlit("popout");
    let a = label_of(m as int);
    let b = label_of(n as int);
    assert(a.take(6) =~= "popout"@);
    law_decimals_read_back(m);
    law_decimals_read_back(n);
    assert(a.skip(7) =~= decimal(m));
    assert(b.skip(7) =~= decimal(n));
}

/// A popped-out window closes once it is approved, once the app quits, or once the main window is
/// gone, and at no other time; any other window closes at once.
pub proof fn law_windows_close_in_these_cases(p: PopoutsView, label: Text, main_alive: bool)
    ensures
        !is_popout(label) ==> closes(p, label, main_alive),
        p.quitting ==> closes(p, label, main_alive),
        !main_alive ==> closes(p, label, main_alive),
        p.approved.contains(label) ==> closes(p, label, main_alive),
        is_popout(label) && !p.quitting && main_alive && !p.approved.contains(label) ==> !closes(p, label, main_alive),
{
}

/// Screenshots are taken only where all of it was asked for: the mode, the word that it was meant, and
/// a development build.
pub proof fn law_screenshots_need_every_word(shot: bool, ack: bool, dev: bool)
    ensures
        shot_mode(true, true, true),
        !shot || !ack || !dev ==> !shot_mode(shot, ack, dev),
{
}

/// The app starts locked where a lock is configured, and only there.
pub proof fn law_configured_locks_hold(shot: bool)
    ensures
        locked_at_start(Some(true), false),
        !locked_at_start(Some(true), true),
        !locked_at_start(Some(false), shot),
        !locked_at_start(None, shot),
{
}

}
