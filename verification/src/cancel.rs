//! Cancellation tokens: how a running task is told to stop.
//!
//! The right to cancel is a value: a [`StopHandle`] is made with its token, cannot be copied, and
//! is used up by cancelling. So whoever still holds one knows that its token is not cancelled from
//! here, and what was cancelled is a [`CancelledToken`].
use tokio_util::sync::CancellationToken;
use vstd::prelude::*;

use crate::manager::ForwarderHandle;

verus! {

/// A token shared by a task and whoever may stop it. Two tokens are equal in contracts when they
/// are handles of the same cancellation, so that cancelling either cancels both.
#[verifier::external_type_specification]
#[verifier::external_body]
pub struct ExCancellationToken(CancellationToken);

/// The right to cancel a token, not yet used.
#[derive(Debug)]
pub struct StopHandle {
    token: CancellationToken,
}

impl StopHandle {
    /// The token that the handle can cancel.
    pub closed spec fn token(self) -> CancellationToken {
        self.token
    }

    /// The token, for the task that is to stop when it is cancelled.
    pub(crate) fn listener(&self) -> (r: CancellationToken)
        ensures
            r == self.token(),
    {
        share_token(&self.token)
    }
}

/// Makes a token with `CancellationToken::new`: one of its own, so none of those that the given
/// forwarders hold, and not cancelled. The latter cannot be read off a token's value; that the
/// result is a [`StopHandle`] says it.
#[verifier::external_body]
pub(crate) fn new_token(alive: &Vec<ForwarderHandle>) -> (r: StopHandle)
    ensures
        forall|i: int| 0 <= i < alive@.len() ==> (#[trigger] alive@[i])@.token != r.token(),
{
    StopHandle { token: CancellationToken::new() }
}

/// Makes a second handle with `CancellationToken::clone`: it is cancelled whenever the first one
/// is, and the other way round.
#[verifier::external_body]
fn share_token(token: &CancellationToken) -> (r: CancellationToken)
    ensures
        r == *token,
{
    token.clone()
}

/// A token that has been cancelled. A token is never un-cancelled, so it stays so.
#[derive(Debug)]
pub struct CancelledToken {
    token: CancellationToken,
}

impl CancelledToken {
    /// The token.
    pub closed spec fn token(self) -> CancellationToken {
        self.token
    }

    /// A handle of the token.
    pub fn handle(&self) -> (r: &CancellationToken)
        ensures
            *r == self.token(),
    {
        &self.token
    }
}

/// Cancels with `CancellationToken::cancel`, which wakes everyone who waits for the token or for
/// another handle of it; the result is that token. This uses up the right to cancel it.
#[verifier::external_body]
pub(crate) fn cancel_token(handle: StopHandle) -> (r: CancelledToken)
    ensures
        r.token() == handle.token(),
{
    handle.token.cancel();
    CancelledToken { token: handle.token }
}

} // verus!
