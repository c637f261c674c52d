//! How the local user is asked about a certified peer.
//!
//! A prompt decides; its caller runs the programs. The desktop notification
//! comes first, a dialog stands in where notifications cannot be answered, and
//! the local authorization policy has the last word.
use crate::codec::text_from_utf8;
use crate::error::{outcome, SyncError};
use crate::text::{trim, trimmed};
use crate::trust::AuthorizationGrant;
use vstd::prelude::*;
use vstd::utf8::{decode_utf8, valid_utf8};

verus! {

/// What stands above the question.
pub const PROMPT_SUMMARY: &'static str = "OmarchySync pairing request";

/// The answer of the notification that means consent.
pub const PAIR_ANSWER: &'static str = "pair";

/// The marker of an approval by the local authorization policy.
pub const POLICY_MARKER: &'static str = "pkcheck-approved";

/// What is to be run.
pub enum Prompt {
    /// The desktop notification with its two actions.
    Notification,
    /// The dialog with a question.
    Dialog,
    /// The check against the local authorization policy.
    Policy,
}

/// What became of a program.
pub enum Ran {
    /// It is not installed, or did not start.
    NotStarted,
    /// It ended in failure.
    Failed,
    /// It succeeded, and printed this.
    Succeeded(Vec<u8>),
}

/// The mathematical model of what became of a program.
pub enum RanView {
    NotStarted,
    Failed,
    Succeeded(Seq<u8>),
}

impl View for Ran {
    type V = RanView;

    open spec fn view(&self) -> RanView {
        match self {
            Ran::NotStarted => RanView::NotStarted,
            Ran::Failed => RanView::Failed,
            Ran::Succeeded(output) => RanView::Succeeded(output@),
        }
    }
}

/// What comes next.
pub enum Asked {
    /// Something more is to be run.
    Next(Prompt),
    /// The decision has been made.
    Decided(Result<AuthorizationGrant, SyncError>),
}

/// The mathematical model of what comes next.
pub enum AskedView {
    Next(Prompt),
    Decided(Result<Seq<char>, SyncError>),
}

impl View for Asked {
    type V = AskedView;

    open spec fn view(&self) -> AskedView {
        match self {
            Asked::Next(prompt) => AskedView::Next(*prompt),
            Asked::Decided(decision) => AskedView::Decided(outcome(*decision)),
        }
    }
}

/// Whether a character is another one, or its ASCII capital.
pub open spec fn in_either_case(c: char, small: char) -> bool {
    c == small || (0x41 <= c as int <= 0x5a && c as int + 0x20 == small as int)
}

/// Whether a printed answer means consent: the word itself, in any case and with
/// any white space around it.
pub open spec fn consents(output: Seq<u8>) -> bool {
    let answer = trimmed(decode_utf8(output));
    &&& valid_utf8(output)
    &&& answer.len() == PAIR_ANSWER@.len()
    &&& forall|i: int|
        0 <= i < answer.len() ==> in_either_case(#[trigger] answer[i], PAIR_ANSWER@[i])
}

/// What follows from what became of a program. A notification that was answered
/// or dismissed is final: the dialog is asked only where notifications fail.
pub open spec fn prompted(prompt: Prompt, ran: RanView) -> AskedView {
    match prompt {
        Prompt::Notification => match ran {
            RanView::Succeeded(output) => if consents(output) {
                AskedView::Next(Prompt::Policy)
            } else {
                AskedView::Decided(Err(SyncError::AuthorizationNotSelected))
            },
            _ => AskedView::Next(Prompt::Dialog),
        },
        Prompt::Dialog => match ran {
            RanView::Succeeded(_) => AskedView::Next(Prompt::Policy),
            _ => AskedView::Decided(Err(SyncError::AuthorizationNotSelected)),
        },
        Prompt::Policy => match ran {
            RanView::Succeeded(_) => AskedView::Decided(Ok(POLICY_MARKER@)),
            RanView::Failed => AskedView::Decided(Err(SyncError::AuthorizationDenied)),
            RanView::NotStarted => AskedView::Decided(Err(SyncError::AuthorizationUnavailable)),
        },
    }
}

/// The question about a peer.
pub fn prompt_body(device_name: &str, device_id: &str) -> (result: String)
    ensures
        result@ == "Sync with certified device "@ + device_name@ + " ("@ + device_id@ + ")?"@,
{
    String::from_str("Sync with certified device ").concat(device_name).concat(" (").concat(
        device_id,
    ).concat(")?")
}

/// Whether a printed answer means consent.
fn is_consent(output: &[u8]) -> (result: bool)
    ensures
        result == consents(output@),
{
    let text: String = match text_from_utf8(output) {
        Some(text) => text,
        None => return false,
    };
    let answer: &str = trim(text.as_str());
    let length: usize = answer.unicode_len();
    if length != PAIR_ANSWER.unicode_len() {
        return false;
    }
    let mut i: usize = 0;
    while i < length
        invariant
            i <= length,
            answer@ == trimmed(decode_utf8(output@)),
            length == answer@.len(),
            length == PAIR_ANSWER@.len(),
            forall|j: int| 0 <= j < i ==> in_either_case(#[trigger] answer@[j], PAIR_ANSWER@[j]),
        decreases length - i,
    {
        let c: char = answer.get_char(i);
        let small: char = PAIR_ANSWER.get_char(i);
        let code: u32 = c as u32;
        if c != small && !(0x41 <= code && code <= 0x5a && code + 0x20 == small as u32) {
            assert(!in_either_case(answer@[i as int], PAIR_ANSWER@[i as int]));
            return false;
        }
        i = i + 1;
    }
    true
}

/// What follows from what became of a program.
pub fn next_prompt(prompt: &Prompt, ran: &Ran) -> (result: Asked)
    ensures
        result@ == prompted(*prompt, ran@),
{
    match prompt {
        Prompt::Notification => match ran {
            Ran::Succeeded(output) => if is_consent(output.as_slice()) {
                Asked::Next(Prompt::Policy)
            } else {
                Asked::Decided(Err(SyncError::AuthorizationNotSelected))
            },
            _ => Asked::Next(Prompt::Dialog),
        },
        Prompt::Dialog => match ran {
            Ran::Succeeded(_) => Asked::Next(Prompt::Policy),
            _ => Asked::Decided(Err(SyncError::AuthorizationNotSelected)),
        },
        Prompt::Policy => match ran {
            Ran::Succeeded(_) => Asked::Decided(
                Ok(AuthorizationGrant { user_presence: String::from_str(POLICY_MARKER) }),
            ),
            Ran::Failed => Asked::Decided(Err(SyncError::AuthorizationDenied)),
            Ran::NotStarted => Asked::Decided(Err(SyncError::AuthorizationUnavailable)),
        },
    }
}

/// The decision that follows from what becomes of the three programs, as far as
/// they are run.
pub open spec fn decision(
    notification: RanView,
    dialog: RanView,
    policy: RanView,
) -> Result<Seq<char>, SyncError> {
    match prompted(Prompt::Notification, notification) {
        AskedView::Decided(decided) => decided,
        AskedView::Next(Prompt::Dialog) => match prompted(Prompt::Dialog, dialog) {
            AskedView::Decided(decided) => decided,
            AskedView::Next(_) => prompted(Prompt::Policy, policy)->Decided_0,
        },
        AskedView::Next(_) => prompted(Prompt::Policy, policy)->Decided_0,
    }
}

/// A peer is approved exactly if the user consents to it, in the notification or
/// else in the dialog, and the local authorization policy approves then.
pub proof fn approval_is_chosen_and_authorized(
    notification: RanView,
    dialog: RanView,
    policy: RanView,
)
    ensures
        decision(notification, dialog, policy) is Ok <==> {
            &&& policy is Succeeded
            &&& match notification {
                RanView::Succeeded(output) => consents(output),
                _ => dialog is Succeeded,
            }
        },
{
}

} // verus!
