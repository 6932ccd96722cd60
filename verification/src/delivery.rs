//! What is handed to the relay platform for a message from a network, and
//! how often the hand-over is tried.

use crate::number::{decimal, decimal_bytes};
use crate::outside::{captures_view, groups_view};
use crate::text::{ascii, ascii_bytes};
use crate::trim::{trim, trim_bytes};
use vstd::prelude::*;
use vstd::string::*;

verus! {

/// How often the delivery of one message is tried.
pub const MAX_ATTEMPTS: u32 = 3;

/// How long to wait after a failed delivery, in milliseconds.
pub const RETRY_DELAY_MS: u64 = 100;

/// What to do after one attempt to deliver a message.
#[derive(Debug, PartialEq, Eq, Structural, Clone, Copy)]
pub enum Retry {
    /// The message is delivered.
    Done,
    /// Wait, then try again; `failures` attempts have failed so far.
    Again { failures: u32, wait_ms: u64 },
    /// Wait, then drop the message and report it.
    GiveUp { wait_ms: u64 },
}

/// The expression that finds a narrated action in a text.
pub open spec fn action_pattern() -> Seq<char> {
    "\x01ACTION([^\x01]+)\x01"@
}

/// The text with a narrated action made into an emphasis: where group 1 of
/// the match took part, the text is what that group holds, without the
/// white space around it and between two `*`. Else it stays as it is.
pub open spec fn action_text(content: Seq<u8>, found: Option<Seq<Option<Seq<u8>>>>) -> Seq<u8> {
    match found {
        Some(groups) => if groups.len() > 1 && groups[1] is Some {
            ascii("*") + trim(groups[1]->0) + ascii("*")
        } else {
            content
        },
        None => content,
    }
}

/// The token that addresses the owner on the relay platform.
pub open spec fn mention_prefix(owner: u64) -> Seq<u8> {
    ascii("<@") + decimal(owner as nat) + ascii("> ")
}

/// The text that is delivered for a message: its narrated action made into
/// an emphasis, behind the owner's address if the message mentions the
/// local identity.
pub open spec fn relay_text(
    content: Seq<u8>,
    ping: bool,
    owner: u64,
    found: Option<Seq<Option<Seq<u8>>>>,
) -> Seq<u8> {
    if ping {
        mention_prefix(owner) + action_text(content, found)
    } else {
        action_text(content, found)
    }
}

/// What follows an attempt, after `failures` failed ones before it.
pub open spec fn retry_step(failures: u32, delivered: bool) -> Retry {
    if delivered {
        Retry::Done
    } else if failures + 1 < MAX_ATTEMPTS {
        Retry::Again { failures: (failures + 1) as u32, wait_ms: RETRY_DELAY_MS }
    } else {
        Retry::GiveUp { wait_ms: RETRY_DELAY_MS }
    }
}

/// How many attempts are made when the `k`-th attempt is delivered exactly
/// if `outcomes[k]` says so, after `failures` failed ones.
pub open spec fn attempts_made(failures: u32, outcomes: Seq<bool>) -> nat
    decreases outcomes.len(),
{
    if outcomes.len() == 0 {
        0
    } else {
        match retry_step(failures, outcomes[0]) {
            Retry::Again { failures: f, wait_ms: _ } => 1 + attempts_made(
                f,
                outcomes.drop_first(),
            ),
            _ => 1,
        }
    }
}

/// Whether the attempts end with the message delivered, when the `k`-th
/// attempt is delivered exactly if `outcomes[k]` says so, after `failures`
/// failed ones.
pub open spec fn ends_delivered(failures: u32, outcomes: Seq<bool>) -> bool
    decreases outcomes.len(),
{
    if outcomes.len() == 0 {
        false
    } else {
        match retry_step(failures, outcomes[0]) {
            Retry::Done => true,
            Retry::Again { failures: f, wait_ms: _ } => ends_delivered(f, outcomes.drop_first()),
            Retry::GiveUp { wait_ms: _ } => false,
        }
    }
}

/// A message whose first three attempts fail is tried exactly three times
/// and then given up, whatever a fourth attempt would have brought.
pub proof fn lemma_three_failures_give_up(outcomes: Seq<bool>)
    requires
        outcomes.len() >= 3,
        !outcomes[0],
        !outcomes[1],
        !outcomes[2],
    ensures
        attempts_made(0, outcomes) == MAX_ATTEMPTS,
        !ends_delivered(0, outcomes),
        retry_step(0, false) == (Retry::Again { failures: 1, wait_ms: RETRY_DELAY_MS }),
        retry_step(1, false) == (Retry::Again { failures: 2, wait_ms: RETRY_DELAY_MS }),
        retry_step(2, false) == (Retry::GiveUp { wait_ms: RETRY_DELAY_MS }),
{
    reveal_with_fuel(attempts_made, 4);
    reveal_with_fuel(ends_delivered, 4);
    let second = outcomes.drop_first();
    let third = second.drop_first();
    assert(second[0] == outcomes[1]);
    assert(third[0] == outcomes[2]);
}

/// A message whose attempt number `k + 1` is the first to succeed, among
/// the three it may have, is tried exactly `k + 1` times and ends
/// delivered.
pub proof fn lemma_success_ends_the_attempts(failures: u32, outcomes: Seq<bool>, k: int)
    requires
        0 <= k < outcomes.len(),
        failures + k < MAX_ATTEMPTS,
        outcomes[k],
        forall|j: int| 0 <= j < k ==> !outcomes[j],
    ensures
        attempts_made(failures, outcomes) == k + 1,
        ends_delivered(failures, outcomes),
    decreases k,
{
    if k > 0 {
        let rest = outcomes.drop_first();
        assert(rest[k - 1] == outcomes[k]);
        assert forall|j: int| 0 <= j < k - 1 implies !rest[j] by {
            assert(rest[j] == outcomes[j + 1]);
        }
        lemma_success_ends_the_attempts((failures + 1) as u32, rest, k - 1);
    }
}

/// Whatever the outcomes, a message is tried at most `MAX_ATTEMPTS` times in
/// all.
pub proof fn lemma_attempts_bounded(failures: u32, outcomes: Seq<bool>)
    requires
        failures < MAX_ATTEMPTS,
    ensures
        failures + attempts_made(failures, outcomes) <= MAX_ATTEMPTS,
    decreases outcomes.len(),
{
    if outcomes.len() > 0 {
        match retry_step(failures, outcomes[0]) {
            Retry::Again { failures: f, wait_ms: _ } => {
                lemma_attempts_bounded(f, outcomes.drop_first());
            },
            _ => {},
        }
    }
}

/// Decides what follows an attempt to deliver a message, after
/// `transmission_attempts` failed ones before it.
pub fn after_attempt(transmission_attempts: u32, delivered: bool) -> (next: Retry)
    ensures
        next == retry_step(transmission_attempts, delivered),
{
    if delivered {
        Retry::Done
    } else if transmission_attempts < MAX_ATTEMPTS - 1 {
        Retry::Again { failures: transmission_attempts + 1, wait_ms: RETRY_DELAY_MS }
    } else {
        Retry::GiveUp { wait_ms: RETRY_DELAY_MS }
    }
}

/// Makes a narrated action into an emphasis, given what the action
/// expression captured in the text.
pub fn rewrite_action(content: Vec<u8>, found: &Option<Vec<Option<Vec<u8>>>>) -> (text: Vec<u8>)
    ensures
        text@ == action_text(content@, captures_view(*found)),
{
    proof {
        reveal_strlit("*");
    }
    match found {
        Some(groups) => {
            if groups.len() > 1 {
                assert(groups_view(groups@)[1] == match groups@[1] {
                    Some(g) => Some(g@),
                    None => None,
                });
                match &groups[1] {
                    Some(action) => {
                        let kept = trim_bytes(action.as_slice());
                        let mut text = ascii_bytes("*");
                        text.extend_from_slice(kept.as_slice());
                        text.push(42u8);
                        text
                    },
                    None => content,
                }
            } else {
                content
            }
        },
        None => content,
    }
}

/// The text that is delivered for a message, given what the action
/// expression captured in it.
pub fn transform_content(
    content: Vec<u8>,
    ping: bool,
    owner: u64,
    found: &Option<Vec<Option<Vec<u8>>>>,
) -> (text: Vec<u8>)
    ensures
        text@ == relay_text(content@, ping, owner, captures_view(*found)),
{
    proof {
        reveal_strlit("<@");
        reveal_strlit("> ");
    }
    let body = rewrite_action(content, found);
    if ping {
        let mut text = ascii_bytes("<@");
        let number = decimal_bytes(owner);
        text.extend_from_slice(number.as_slice());
        let close = ascii_bytes("> ");
        text.extend_from_slice(close.as_slice());
        text.extend_from_slice(body.as_slice());
        text
    } else {
        body
    }
}

} // verus!
