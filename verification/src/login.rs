//! The decision core of the interactive login flow: what to do after each
//! sign-in attempt. The surrounding loop performs the attempts and hands
//! their outcomes back.

use vstd::prelude::*;

verus! {

/// What one sign-in attempt came back with.
pub enum SignInOutcome {
    /// Signed in.
    Success,
    /// The account asks for its password as a second factor.
    PasswordRequired,
    /// The code was wrong; another can be entered.
    InvalidCode,
    /// Any other sign-in error.
    OtherError,
}

/// What the login loop must do next.
#[derive(Clone, Copy, Debug, PartialEq, Eq, Structural)]
pub enum LoginAction {
    /// Save the session and finish.
    Done,
    /// Check the configured password, then finish.
    CheckPassword,
    /// Fail: a password is required and none is configured.
    FailPasswordRequired,
    /// Tell the user the code was invalid and wait for another.
    AskCodeAgain,
    /// Fail with the sign-in error.
    FailSignIn,
}

pub open spec fn login_step_spec(outcome: SignInOutcome, has_password: bool) -> LoginAction {
    match outcome {
        SignInOutcome::Success => LoginAction::Done,
        SignInOutcome::PasswordRequired => if has_password {
            LoginAction::CheckPassword
        } else {
            LoginAction::FailPasswordRequired
        },
        SignInOutcome::InvalidCode => LoginAction::AskCodeAgain,
        SignInOutcome::OtherError => LoginAction::FailSignIn,
    }
}

/// Decides the next step of the login loop from the last attempt's
/// outcome and whether a second-factor password is configured.
pub fn login_step(outcome: &SignInOutcome, has_password: bool) -> (r: LoginAction)
    ensures
        r == login_step_spec(*outcome, has_password),
{
    match outcome {
        SignInOutcome::Success => LoginAction::Done,
        SignInOutcome::PasswordRequired => {
            if has_password {
                LoginAction::CheckPassword
            } else {
                LoginAction::FailPasswordRequired
            }
        },
        SignInOutcome::InvalidCode => LoginAction::AskCodeAgain,
        SignInOutcome::OtherError => LoginAction::FailSignIn,
    }
}

} // verus!
