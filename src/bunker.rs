//! The remote signer's handling of one request: decrypt, dispatch, ask the
//! user where the policy says so, execute, respond.

use vstd::prelude::*;

verus! {

/// The methods of the remote-signing protocol.
#[derive(Debug, Clone, Copy, PartialEq, Eq, Structural)]
pub enum RequestKind {
    Connect,
    GetPublicKey,
    SignEvent,
    Nip04Encrypt,
    Nip04Decrypt,
    Nip44Encrypt,
    Nip44Decrypt,
    Ping,
}

/// How a request is approved.
#[derive(Debug, Clone, Copy, PartialEq, Eq, Structural)]
pub enum Approval {
    /// Without asking: nothing sensitive is involved.
    Automatic,
    /// Only by the user's explicit answer; `default_yes` is what the prompt
    /// offers.
    Ask { default_yes: bool },
}

/// Where the handling of one request stands.
#[derive(Debug, Clone, Copy, PartialEq, Eq, Structural)]
pub enum Stage {
    /// An event addressed to the signer arrived.
    Received,
    /// Its envelope was decrypted.
    Decrypted,
    /// A request was read and waits for the user's answer.
    Dispatched(RequestKind),
    /// The request may run.
    Approved(RequestKind),
    /// The user refused the request.
    Denied,
    /// The request ran, well or not.
    Executed,
    /// The response was published.
    Responded,
    /// The event was dropped without an answer.
    Dropped,
}

/// What happened since the last step.
#[derive(Debug, Clone, Copy, PartialEq, Eq, Structural)]
pub enum Input {
    /// The envelope decrypted.
    Opened,
    /// The envelope did not decrypt.
    Unreadable,
    /// The payload is a request of this method.
    Request(RequestKind),
    /// The payload is not a request.
    NotRequest,
    /// The user's answer; none when the prompt failed.
    Decision(Option<bool>),
    /// The request ran.
    Finished,
    /// The response went out.
    Published,
}

/// What the driver of the signer does next.
#[derive(Debug, Clone, Copy, PartialEq, Eq, Structural)]
pub enum Action {
    /// Read the decrypted payload.
    Parse,
    /// Forget the event; nothing is sent.
    Drop,
    /// Ask the user, offering `default_yes`.
    Ask { default_yes: bool },
    /// Run the request; the signing key is loaded only where `uses_key`.
    Execute { kind: RequestKind, uses_key: bool },
    /// Send an error response with the fixed denial message.
    RespondDenied,
    /// Send the result of the run, or its error, as the response.
    Respond,
    /// Nothing: the request is done, or the input does not apply.
    Idle,
}

/// The methods that need the custodied signing key.
pub open spec fn needs_key(kind: RequestKind) -> bool {
    !(kind is Connect || kind is GetPublicKey || kind is Ping)
}

/// The policy: `get-public-key` and `ping` go through without asking;
/// `connect` is asked with "no" offered, every cryptographic method with
/// "yes" offered.
pub open spec fn approval_spec(kind: RequestKind) -> Approval {
    if kind is GetPublicKey || kind is Ping {
        Approval::Automatic
    } else {
        Approval::Ask { default_yes: !(kind is Connect) }
    }
}

/// One step of the handling of a request.
pub open spec fn transition(stage: Stage, input: Input) -> (Stage, Action) {
    match (stage, input) {
        (Stage::Received, Input::Opened) => (Stage::Decrypted, Action::Parse),
        (Stage::Received, Input::Unreadable) => (Stage::Dropped, Action::Drop),
        (Stage::Decrypted, Input::NotRequest) => (Stage::Dropped, Action::Drop),
        (Stage::Decrypted, Input::Request(kind)) => match approval_spec(kind) {
            Approval::Automatic => (
                Stage::Approved(kind),
                Action::Execute { kind, uses_key: needs_key(kind) },
            ),
            Approval::Ask { default_yes } => (Stage::Dispatched(kind), Action::Ask { default_yes }),
        },
        (Stage::Dispatched(kind), Input::Decision(answer)) => if answer == Some(true) {
            (Stage::Approved(kind), Action::Execute { kind, uses_key: needs_key(kind) })
        } else {
            (Stage::Denied, Action::RespondDenied)
        },
        (Stage::Approved(_), Input::Finished) => (Stage::Executed, Action::Respond),
        (Stage::Denied, Input::Published) => (Stage::Responded, Action::Idle),
        (Stage::Executed, Input::Published) => (Stage::Responded, Action::Idle),
        _ => (stage, Action::Idle),
    }
}

/// Whether a method needs the custodied signing key.
pub fn uses_key(kind: RequestKind) -> (r: bool)
    ensures
        r == needs_key(kind),
{
    match kind {
        RequestKind::Connect | RequestKind::GetPublicKey | RequestKind::Ping => false,
        _ => true,
    }
}

/// How a request of this method is approved.
pub fn approval_for(kind: RequestKind) -> (r: Approval)
    ensures
        r == approval_spec(kind),
{
    match kind {
        RequestKind::GetPublicKey | RequestKind::Ping => Approval::Automatic,
        RequestKind::Connect => Approval::Ask { default_yes: false },
        _ => Approval::Ask { default_yes: true },
    }
}

/// Whether a request goes ahead, given the user's answer where one was
/// asked for (none when the prompt failed, which counts as a refusal).
pub fn should_approve(kind: RequestKind, answer: Option<bool>) -> (r: bool)
    ensures
        r == (approval_spec(kind) is Automatic || answer == Some(true)),
{
    match approval_for(kind) {
        Approval::Automatic => true,
        Approval::Ask { .. } => match answer {
            Some(yes) => yes,
            None => false,
        },
    }
}

/// The next stage and action, from the current stage and what happened.
pub fn step(stage: Stage, input: Input) -> (r: (Stage, Action))
    ensures
        r == transition(stage, input),
{
    match (stage, input) {
        (Stage::Received, Input::Opened) => (Stage::Decrypted, Action::Parse),
        (Stage::Received, Input::Unreadable) => (Stage::Dropped, Action::Drop),
        (Stage::Decrypted, Input::NotRequest) => (Stage::Dropped, Action::Drop),
        (Stage::Decrypted, Input::Request(kind)) => match approval_for(kind) {
            Approval::Automatic => (
                Stage::Approved(kind),
                Action::Execute { kind, uses_key: uses_key(kind) },
            ),
            Approval::Ask { default_yes } => (Stage::Dispatched(kind), Action::Ask { default_yes }),
        },
        (Stage::Dispatched(kind), Input::Decision(answer)) => match answer {
            Some(true) => (Stage::Approved(kind), Action::Execute { kind, uses_key: uses_key(kind) }),
            _ => (Stage::Denied, Action::RespondDenied),
        },
        (Stage::Approved(_), Input::Finished) => (Stage::Executed, Action::Respond),
        (Stage::Denied, Input::Published) => (Stage::Responded, Action::Idle),
        (Stage::Executed, Input::Published) => (Stage::Responded, Action::Idle),
        _ => (stage, Action::Idle),
    }
}

/// The text of the error response to a refused request.
pub fn denial_message() -> (r: String)
    ensures
        r@ == "Request denied by user"@,
{
    proof {
        reveal_strlit("Request denied by user");
    }
    String::from_str("Request denied by user")
}

/// A refused `connect` is answered with the denial and runs nothing: no
/// key is loaded for it.
pub proof fn lemma_denied_connect(answer: Option<bool>)
    requires
        answer != Some(true),
    ensures
        transition(Stage::Decrypted, Input::Request(RequestKind::Connect)) == (
            Stage::Dispatched(RequestKind::Connect),
            Action::Ask { default_yes: false },
        ),
        transition(Stage::Dispatched(RequestKind::Connect), Input::Decision(answer)) == (
            Stage::Denied,
            Action::RespondDenied,
        ),
        transition(Stage::Denied, Input::Published) == (Stage::Responded, Action::Idle),
{
}

/// The signing key is loaded only for a method that needs it, and only once
/// the user said yes to that very request.
pub proof fn lemma_key_only_after_consent(stage: Stage, input: Input)
    ensures
        ({
            let (next, action) = transition(stage, input);
            match action {
                Action::Execute { kind, uses_key } => uses_key ==> {
                    &&& needs_key(kind)
                    &&& stage == Stage::Dispatched(kind)
                    &&& input == Input::Decision(Some(true))
                    &&& next == Stage::Approved(kind)
                },
                _ => true,
            }
        }),
{
}

/// An approved `sign-event` runs with the signing key, and its outcome is
/// sent back as the response.
pub proof fn lemma_approved_sign_event()
    ensures
        transition(Stage::Decrypted, Input::Request(RequestKind::SignEvent)) == (
            Stage::Dispatched(RequestKind::SignEvent),
            Action::Ask { default_yes: true },
        ),
        transition(Stage::Dispatched(RequestKind::SignEvent), Input::Decision(Some(true))) == (
            Stage::Approved(RequestKind::SignEvent),
            Action::Execute { kind: RequestKind::SignEvent, uses_key: true },
        ),
        transition(Stage::Approved(RequestKind::SignEvent), Input::Finished) == (
            Stage::Executed,
            Action::Respond,
        ),
{
}

} // verus!
