//! Starting a run in the background, which is as much of a spawn as a pane is.

use vstd::prelude::*;
use vstd::string::*;

use crate::auth::{credential_given, payload_view, reauth_next, reauth_step, settled, ReauthStep, ReauthStepView};
use crate::json::{Json, JsonView};

verus! {

/// What the ceremony before a run asks for next: that before an unrestricted spawn, but where it
/// would ask for credentials the run is refused with a reason, as nothing is there to collect
/// them.
pub open spec fn run_next(gapped: bool, configured: bool, wait_ms: int, totp: bool, auth: Option<JsonView>) -> ReauthStepView {
    match reauth_next(gapped, configured, wait_ms, totp, auth) {
        ReauthStepView::Ask(None) => ReauthStepView::Ask(
            Some(
                "refused: this run would be unsandboxed and needs a fresh passphrase or code, which this pane can't collect yet — turn the air gap back on to run flows in the background"@,
            ),
        ),
        other => other,
    }
}

/// What the ceremony before a run asks for next; [`crate::auth::reauth_checked`] settles it.
pub fn runs_start(gapped: bool, auth_configured: bool, wait_ms: u64, totp_active: bool, auth: Option<&Json>) -> (r: ReauthStep)
    ensures
        r@ == run_next(gapped, auth_configured, wait_ms as int, totp_active, payload_view(auth)),
{
    match reauth_step(gapped, auth_configured, wait_ms, totp_active, auth) {
        ReauthStep::Ask(None) => ReauthStep::Ask(
            Some(
                "refused: this run would be unsandboxed and needs a fresh passphrase or code, which this pane can't collect yet — turn the air gap back on to run flows in the background".to_owned(),
            ),
        ),
        other => other,
    }
}

/// With a passphrase set, no unsandboxed run starts without the check of a credential, and every
/// refusal before one gives its reason; a gapped run always starts.
pub proof fn law_unsandboxed_runs_are_checked(wait_ms: int, totp: bool, auth: Option<JsonView>, configured: bool)
    ensures
        run_next(false, true, wait_ms, totp, auth) != ReauthStepView::Cleared,
        run_next(false, true, wait_ms, totp, auth) != ReauthStepView::Ask(None),
        run_next(true, configured, wait_ms, totp, auth) == ReauthStepView::Cleared,
{
}

/// Of a run that would be unsandboxed: only a payload is an attempt, a good credential is noted as
/// a success and starts the run, anything else is noted as one failure and starts nothing. What is
/// refused before the payload is looked at is noted as nothing.
pub proof fn law_run_attempts_are_noted(wait_ms: int, totp: bool, auth: Option<JsonView>, verified: bool)
    ensures
        ({
            let end = settled(run_next(false, true, wait_ms, totp, auth), verified);
            &&& wait_ms > 0 || auth is None ==> end.recorded is None && end.step is Ask
            &&& wait_ms <= 0 && auth is Some ==> {
                let good = credential_given(totp, auth->0) && verified;
                &&& end.recorded == Some(good)
                &&& end.step == if good {
                    ReauthStepView::Cleared
                } else {
                    ReauthStepView::Ask(Some("Incorrect passphrase or code."@))
                }
            }
        }),
{
}

}
