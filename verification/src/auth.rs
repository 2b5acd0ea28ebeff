//! The lock: what an attempt to open it, or to spawn something unrestricted, is answered.

use vstd::prelude::*;
use vstd::string::*;

use crate::flow::graph::Text;
use crate::json::{as_text, part, text_of, Json, JsonView};
use crate::text::{decimal, decimal_u64, join3};

verus! {

/// Whole seconds that cover `ms` milliseconds.
pub open spec fn seconds_up(ms: int) -> int {
    (ms + 999) / 1000
}

/// Rounds milliseconds up to whole seconds.
pub fn ceil_seconds(ms: u64) -> (r: u64)
    ensures
        r == seconds_up(ms as int),
{
    if ms % 1000 == 0 {
        ms / 1000
    } else {
        ms / 1000 + 1
    }
}

/// The seconds cover the time, and no second more than needed.
pub proof fn law_seconds_cover_the_wait(ms: int)
    requires
        ms >= 0,
    ensures
        ms <= 1000 * seconds_up(ms) < ms + 1000,
{
}

/// What an attempt during a throttle is told.
pub open spec fn throttle_text(wait_ms: int) -> Text {
    "Too many attempts. Wait "@ + decimal(seconds_up(wait_ms) as nat) + "s."@
}

pub fn throttle_message(wait_ms: u64) -> (r: String)
    ensures
        r@ == throttle_text(wait_ms as int),
{
    let n = decimal_u64(ceil_seconds(wait_ms));
    join3("Too many attempts. Wait ", &n, "s.")
}

// ---- the session ----

/// What a request is answered.
pub enum Answer {
    Done,
    Refused(String),
}

pub enum AnswerView {
    Done,
    Refused(Text),
}

impl View for Answer {
    type V = AnswerView;

    open spec fn view(&self) -> AnswerView {
        match self {
            Answer::Done => AnswerView::Done,
            Answer::Refused(e) => AnswerView::Refused(e@),
        }
    }
}

/// What a login or a request to open a pane is told during a throttle.
pub open spec fn wait_text(wait_ms: int) -> Text {
    "Too many attempts — try again in "@ + decimal(seconds_up(wait_ms) as nat) + "s."@
}

pub fn wait_message(wait_ms: u64) -> (r: String)
    ensures
        r@ == wait_text(wait_ms as int),
{
    let n = decimal_u64(ceil_seconds(wait_ms));
    join3("Too many attempts — try again in ", &n, "s.")
}

/// Whether the session is locked. Both are turned together, and never back.
#[derive(PartialEq, Eq, Structural, Clone, Copy, Debug)]
pub struct Session {
    pub locked: bool,
    pub auth_unlocked: bool,
}

impl Session {
    /// A session as it starts where no passphrase is set: not locked, and nobody logged in.
    pub fn new() -> (r: Self)
        ensures
            r == (Session { locked: false, auth_unlocked: false }),
    {
        Session { locked: false, auth_unlocked: false }
    }
}

/// Turns the session unlocked.
pub fn mark_unlocked(session: &mut Session)
    ensures
        *final(session) == (Session { locked: false, auth_unlocked: true }),
{
    session.auth_unlocked = true;
    session.locked = false;
}

/// What a login comes to: the answer, and whether the throttle takes note of a success or of a
/// failure.
pub struct LoginOutcome {
    pub answer: Answer,
    pub recorded: Option<bool>,
}

/// The passphrase is right, and so is the code where a second factor is set up.
pub open spec fn login_good(pass_ok: bool, totp: bool, code_ok: Option<bool>) -> bool {
    pass_ok && (!totp || code_ok == Some(true))
}

pub open spec fn login_answer(wait_ms: int, pass_ok: bool, totp: bool, code_ok: Option<bool>) -> AnswerView {
    if wait_ms > 0 {
        AnswerView::Refused(wait_text(wait_ms))
    } else if login_good(pass_ok, totp, code_ok) {
        AnswerView::Done
    } else if pass_ok {
        AnswerView::Refused("Wrong 2FA code."@)
    } else {
        AnswerView::Refused("Wrong passphrase."@)
    }
}

/// A login. `code_ok` says how the code fared, where one was given.
pub fn auth_login(session: &mut Session, wait_ms: u64, pass_ok: bool, totp_active: bool, code_ok: Option<bool>) -> (r: LoginOutcome)
    ensures
        r.answer@ == login_answer(wait_ms as int, pass_ok, totp_active, code_ok),
        r.recorded == if wait_ms > 0 { None } else { Some(login_good(pass_ok, totp_active, code_ok)) },
        *final(session) == if r.answer@ == AnswerView::Done { (Session { locked: false, auth_unlocked: true }) } else { *old(session) },
{
    if wait_ms > 0 {
        return LoginOutcome { answer: Answer::Refused(wait_message(wait_ms)), recorded: None };
    }
    let totp_ok = !totp_active || match code_ok {
        Some(b) => b,
        None => false,
    };
    if !pass_ok || !totp_ok {
        let error = if pass_ok {
            "Wrong 2FA code."
        } else {
            "Wrong passphrase."
        };
        return LoginOutcome { answer: Answer::Refused(error.to_owned()), recorded: Some(false) };
    }
    mark_unlocked(session);
    LoginOutcome { answer: Answer::Done, recorded: Some(true) }
}

/// The lock as it is shown. Fingerprints are not supported.
#[derive(PartialEq, Eq, Structural, Clone, Copy, Debug)]
pub struct AuthStatus {
    pub configured: bool,
    pub totp: bool,
    pub unlocked: bool,
    pub touch_id: bool,
}

/// `lock` holds whether a passphrase and whether a second factor is set up, where there is a lock.
pub fn auth_status(lock: Option<(bool, bool)>, session: &Session) -> (r: AuthStatus)
    ensures
        r == (AuthStatus {
            configured: lock is Some && (lock->0).0,
            totp: lock is Some && (lock->0).1,
            unlocked: session.auth_unlocked,
            touch_id: false,
        }),
{
    let (configured, totp) = match lock {
        Some(p) => p,
        None => (false, false),
    };
    AuthStatus { configured, totp, unlocked: session.auth_unlocked, touch_id: false }
}

/// The answer to a fingerprint.
pub fn auth_touchid() -> (r: Answer)
    ensures
        r@ == AnswerView::Refused("Touch ID is not available in this build yet."@),
{
    Answer::Refused("Touch ID is not available in this build yet.".to_owned())
}

/// A session is unlocked by a login with the right passphrase, outside a throttle, and with the
/// right code where a second factor is set up; by no other.
pub proof fn law_logins_unlock_with_every_factor(wait_ms: int, pass_ok: bool, totp: bool, code_ok: Option<bool>)
    ensures
        login_answer(wait_ms, pass_ok, totp, code_ok) == AnswerView::Done <==> wait_ms <= 0 && pass_ok && (totp ==> code_ok == Some(true)),
{
}

// ---- the ceremony before an unrestricted spawn ----

/// A spawn without the gap is a shell with the user's full rights and an open network: once a
/// passphrase is set, it takes a fresh one. A gapped spawn never does.
pub fn unrestricted_spawn_needs_reauth(gapped: bool, auth_configured: bool) -> (r: bool)
    ensures
        r == (!gapped && auth_configured),
{
    !gapped && auth_configured
}

pub enum ReauthOutcome {
    NeedsCredentials,
    Rejected,
    Verified,
}

/// What the ceremony comes to.
pub fn evaluate_reauth(payload_supplied: bool, verified: bool) -> (r: ReauthOutcome)
    ensures
        r is NeedsCredentials <==> !payload_supplied,
        r is Rejected <==> payload_supplied && !verified,
        r is Verified <==> payload_supplied && verified,
{
    if !payload_supplied {
        ReauthOutcome::NeedsCredentials
    } else if verified {
        ReauthOutcome::Verified
    } else {
        ReauthOutcome::Rejected
    }
}

/// The next step of the ceremony.
pub enum ReauthStep {
    /// The spawn may go ahead.
    Cleared,
    /// Ask for credentials, with what went wrong before, if anything did.
    Ask(Option<String>),
    /// Check the one-time code.
    CheckCode(String),
    /// Check the passphrase.
    CheckPassphrase(String),
    /// The payload holds no credential of the kind that is asked for: a failed attempt.
    Reject,
}

pub enum ReauthStepView {
    Cleared,
    Ask(Option<Text>),
    CheckCode(Text),
    CheckPassphrase(Text),
    Reject,
}

impl View for ReauthStep {
    type V = ReauthStepView;

    open spec fn view(&self) -> ReauthStepView {
        match self {
            ReauthStep::Cleared => ReauthStepView::Cleared,
            ReauthStep::Ask(m) => ReauthStepView::Ask(match m {
                Some(s) => Some(s@),
                None => None,
            }),
            ReauthStep::CheckCode(s) => ReauthStepView::CheckCode(s@),
            ReauthStep::CheckPassphrase(s) => ReauthStepView::CheckPassphrase(s@),
            ReauthStep::Reject => ReauthStepView::Reject,
        }
    }
}

pub open spec fn payload_view(auth: Option<&Json>) -> Option<JsonView> {
    match auth {
        Some(j) => Some(j.model()),
        None => None,
    }
}

/// A throttle comes first, then the payload; of the payload only the credential that is active
/// is looked at.
pub open spec fn reauth_next(gapped: bool, configured: bool, wait_ms: int, totp: bool, auth: Option<JsonView>) -> ReauthStepView {
    if gapped || !configured {
        ReauthStepView::Cleared
    } else if wait_ms > 0 {
        ReauthStepView::Ask(Some(throttle_text(wait_ms)))
    } else {
        match auth {
            None => ReauthStepView::Ask(None),
            Some(p) => if totp {
                match as_text(part(p, "code"@)) {
                    Some(c) => ReauthStepView::CheckCode(c),
                    None => ReauthStepView::Reject,
                }
            } else {
                match as_text(part(p, "passphrase"@)) {
                    Some(c) => ReauthStepView::CheckPassphrase(c),
                    None => ReauthStepView::Reject,
                }
            },
        }
    }
}

/// What the ceremony before an unrestricted spawn asks for next.
pub fn reauth_step(gapped: bool, auth_configured: bool, wait_ms: u64, totp_active: bool, auth: Option<&Json>) -> (r: ReauthStep)
    ensures
        r@ == reauth_next(gapped, auth_configured, wait_ms as int, totp_active, payload_view(auth)),
{
    if !unrestricted_spawn_needs_reauth(gapped, auth_configured) {
        return ReauthStep::Cleared;
    }
    if wait_ms > 0 {
        return ReauthStep::Ask(Some(throttle_message(wait_ms)));
    }
    match auth {
        None => ReauthStep::Ask(None),
        Some(p) => {
            if totp_active {
                match text_of(p, "code") {
                    Some(c) => ReauthStep::CheckCode(c.clone()),
                    None => ReauthStep::Reject,
                }
            } else {
                match text_of(p, "passphrase") {
                    Some(c) => ReauthStep::CheckPassphrase(c.clone()),
                    None => ReauthStep::Reject,
                }
            }
        },
    }
}

/// What a ceremony comes to: cleared or asked again, and whether the throttle takes note of a
/// success or of a failure.
pub struct Ceremony {
    pub step: ReauthStep,
    pub recorded: Option<bool>,
}

pub struct CeremonyView {
    pub step: ReauthStepView,
    pub recorded: Option<bool>,
}

impl View for Ceremony {
    type V = CeremonyView;

    open spec fn view(&self) -> CeremonyView {
        CeremonyView { step: self.step@, recorded: self.recorded }
    }
}

/// What a step comes to, once the credential it asks to check was checked: a good one clears the
/// spawn, a bad one is a failed attempt and is asked for again. Where nothing is to be checked
/// there is no attempt.
pub open spec fn settled(step: ReauthStepView, verified: bool) -> CeremonyView {
    let failed = CeremonyView { step: ReauthStepView::Ask(Some("Incorrect passphrase or code."@)), recorded: Some(false) };
    match step {
        ReauthStepView::Cleared | ReauthStepView::Ask(_) => CeremonyView { step, recorded: None },
        ReauthStepView::CheckCode(_) | ReauthStepView::CheckPassphrase(_) => if verified {
            CeremonyView { step: ReauthStepView::Cleared, recorded: Some(true) }
        } else {
            failed
        },
        ReauthStepView::Reject => failed,
    }
}

/// What follows a step. `verified` says how the credential fared that it asks to check, if it
/// asks for one.
pub fn reauth_checked(step: ReauthStep, verified: bool) -> (r: Ceremony)
    ensures
        r@ == settled(step@, verified),
{
    let good = match step {
        ReauthStep::Cleared => return Ceremony { step: ReauthStep::Cleared, recorded: None },
        ReauthStep::Ask(m) => return Ceremony { step: ReauthStep::Ask(m), recorded: None },
        ReauthStep::CheckCode(_) => verified,
        ReauthStep::CheckPassphrase(_) => verified,
        ReauthStep::Reject => false,
    };
    if good {
        Ceremony { step: ReauthStep::Cleared, recorded: Some(true) }
    } else {
        Ceremony { step: ReauthStep::Ask(Some("Incorrect passphrase or code.".to_owned())), recorded: Some(false) }
    }
}

/// The credential that is active is in the payload: the code where a second factor is set up, else
/// the passphrase.
pub open spec fn credential_given(totp: bool, payload: JsonView) -> bool {
    as_text(part(payload, if totp { "code"@ } else { "passphrase"@ })) is Some
}

/// Of an unrestricted spawn with a passphrase set, outside a throttle: without a payload the
/// credentials are asked for and no attempt is noted; with one, a good credential clears the spawn
/// and is noted as a success, and anything else is asked for again and noted as one failure. A
/// throttled attempt is noted as nothing.
pub proof fn law_attempts_are_noted(wait_ms: int, totp: bool, payload: JsonView, verified: bool)
    ensures
        wait_ms > 0 ==> settled(reauth_next(false, true, wait_ms, totp, Some(payload)), verified) == (CeremonyView {
            step: ReauthStepView::Ask(Some(throttle_text(wait_ms))),
            recorded: None,
        }),
        wait_ms <= 0 ==> settled(reauth_next(false, true, wait_ms, totp, None), verified) == (CeremonyView {
            step: ReauthStepView::Ask(None),
            recorded: None,
        }),
        wait_ms <= 0 ==> settled(reauth_next(false, true, wait_ms, totp, Some(payload)), verified) == if credential_given(totp, payload) && verified {
            CeremonyView { step: ReauthStepView::Cleared, recorded: Some(true) }
        } else {
            CeremonyView { step: ReauthStepView::Ask(Some("Incorrect passphrase or code."@)), recorded: Some(false) }
        },
{
}

/// While an attempt is throttled, no credential is looked at, good or bad.
pub proof fn law_throttle_comes_first(wait_ms: int, totp: bool, auth: Option<JsonView>)
    requires
        wait_ms > 0,
    ensures
        reauth_next(false, true, wait_ms, totp, auth) == ReauthStepView::Ask(Some(throttle_text(wait_ms))),
{
}

/// With a passphrase set, nothing clears an unrestricted spawn but the check of a credential.
pub proof fn law_unrestricted_spawns_are_checked(wait_ms: int, totp: bool, auth: Option<JsonView>)
    ensures
        reauth_next(false, true, wait_ms, totp, auth) != ReauthStepView::Cleared,
{
}

/// A credential that was given is the one that is checked, the code where there is a second factor
/// and the passphrase where there is none; without any the spawn asks for one, and where nothing
/// guards it nothing is asked.
pub proof fn law_given_credentials_are_checked(payload: JsonView, given: Text, wait_ms: int, totp: bool, auth: Option<JsonView>)
    ensures
        part(payload, "code"@) == JsonView::Text(given) ==> reauth_next(false, true, 0, true, Some(payload)) == ReauthStepView::CheckCode(given),
        part(payload, "passphrase"@) == JsonView::Text(given) ==> reauth_next(false, true, 0, false, Some(payload))
            == ReauthStepView::CheckPassphrase(given),
        !(part(payload, "code"@) is Text) ==> reauth_next(false, true, 0, true, Some(payload)) is Reject,
        !(part(payload, "passphrase"@) is Text) ==> reauth_next(false, true, 0, false, Some(payload)) is Reject,
        reauth_next(false, true, 0, totp, None) == ReauthStepView::Ask(None),
        reauth_next(true, true, wait_ms, totp, auth) is Cleared,
        reauth_next(false, false, wait_ms, totp, auth) is Cleared,
{
}

/// A check that went well clears the spawn, and one that did not asks again; both are noted, and
/// what was not checked is not.
pub proof fn law_checks_decide(given: Text, asked: Option<Text>, verified: bool)
    ensures
        settled(ReauthStepView::CheckCode(given), verified).step is Cleared <==> verified,
        settled(ReauthStepView::CheckPassphrase(given), verified).step is Cleared <==> verified,
        settled(ReauthStepView::CheckCode(given), verified).recorded == Some(verified),
        settled(ReauthStepView::CheckPassphrase(given), verified).recorded == Some(verified),
        settled(ReauthStepView::CheckCode(given), false).step == ReauthStepView::Ask(Some("Incorrect passphrase or code."@)),
        settled(ReauthStepView::Reject, verified) == settled(ReauthStepView::CheckCode(given), false),
        settled(ReauthStepView::Cleared, verified).step is Cleared && settled(ReauthStepView::Cleared, verified).recorded is None,
        settled(ReauthStepView::Ask(asked), verified).step == ReauthStepView::Ask(asked),
        settled(ReauthStepView::Ask(asked), verified).recorded is None,
{
}

/// A login that fails says which factor was wrong, the passphrase before the code, and one that is
/// held back says for how many seconds.
pub proof fn law_failed_logins_say_what_was_wrong(wait_ms: int, totp: bool, code_ok: Option<bool>)
    ensures
        login_answer(0, false, totp, code_ok) == AnswerView::Refused("Wrong passphrase."@),
        code_ok != Some(true) ==> login_answer(0, true, true, code_ok) == AnswerView::Refused("Wrong 2FA code."@),
        login_answer(0, true, false, code_ok) is Done,
        login_answer(0, true, true, Some(true)) is Done,
        wait_ms > 0 ==> login_answer(wait_ms, true, totp, code_ok) is Refused && login_answer(wait_ms, true, totp, code_ok)->Refused_0
            == "Too many attempts — try again in "@ + decimal(((wait_ms + 999) / 1000) as nat) + "s."@,
{
}

/// A spawn that is held back says for how many seconds, rounded up.
pub proof fn law_held_spawns_say_how_long(seconds: nat, over: int, totp: bool, auth: Option<JsonView>)
    requires
        seconds > 0,
        0 <= over < 1000,
    ensures
        reauth_next(false, true, seconds * 1000 - over, totp, auth) == ReauthStepView::Ask(
            Some("Too many attempts. Wait "@ + decimal(seconds) + "s."@),
        ),
{
    assert((seconds * 1000 - over + 999) / 1000 == seconds) by (nonlinear_arith)
        requires
            0 <= over < 1000,
    ;
}

}
