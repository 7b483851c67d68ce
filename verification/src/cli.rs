//! Decisions of the command-line front end: what a line typed into the chat
//! means, whether a configuration with errors may still start the bot, and which
//! process a bot lock file names.
use vstd::prelude::*;

use crate::agent::decimal;
use crate::text::{chars_of, str_eq, trim, trim_window};

verus! {

/// What a line typed into the interactive chat asks for.
#[derive(Debug, Clone, PartialEq, Eq)]
pub enum ChatInput {
    /// A blank line: prompt again.
    Empty,
    /// `/quit`, `/exit` or `/q`.
    Quit,
    /// `/clear`: forget the session's history.
    Clear,
    /// `/status`: show the configuration.
    Status,
    /// Anything else: a message for the agent, trimmed.
    Message(String),
}

/// The command that a trimmed line names, if it is one.
pub open spec fn command_of(t: Seq<char>) -> Option<ChatInput> {
    if t.len() == 0 {
        Some(ChatInput::Empty)
    } else if t == "/quit"@ || t == "/exit"@ || t == "/q"@ {
        Some(ChatInput::Quit)
    } else if t == "/clear"@ {
        Some(ChatInput::Clear)
    } else if t == "/status"@ {
        Some(ChatInput::Status)
    } else {
        None
    }
}

/// Classify a line read from the terminal.
pub fn classify_chat_input(line: &str) -> (r: ChatInput)
    ensures
        match command_of(trim(line@)) {
            Some(c) => r == c,
            None => r matches ChatInput::Message(m) && m@ == trim(line@),
        },
{
    let v = chars_of(line);
    let n = v.len();
    assert(v@.subrange(0, n as int) =~= v@);
    let (a, b) = trim_window(&v, 0, n);
    let t = line.substring_char(a, b);
    if a == b {
        ChatInput::Empty
    } else if str_eq(t, "/quit") || str_eq(t, "/exit") || str_eq(t, "/q") {
        ChatInput::Quit
    } else if str_eq(t, "/clear") {
        ChatInput::Clear
    } else if str_eq(t, "/status") {
        ChatInput::Status
    } else {
        ChatInput::Message(t.to_owned())
    }
}

/// Whether a configuration may be used.
#[derive(Debug, Clone, PartialEq, Eq)]
pub enum ConfigGate {
    /// No errors.
    Valid,
    /// Errors, but a chat channel is set up: start in setup mode.
    SetupMode,
    /// Errors and no channel: refuse, with this message.
    Invalid(String),
}

/// The message that refuses a configuration with `count` errors.
pub open spec fn refusal_text(count: nat) -> Seq<char> {
    "Fix the above "@ + decimal(count) + " error(s) in config.json"@
}

/// A channel is ready when it is enabled and has a token.
pub open spec fn channel_ready(enabled: bool, token: Seq<char>) -> bool {
    enabled && token.len() > 0
}

/// Whether a channel can start: it is enabled and has a token.
pub fn is_channel_ready(enabled: bool, token: &str) -> (r: bool)
    ensures
        r == channel_ready(enabled, token@),
{
    enabled && !token.is_empty()
}

/// Decide whether to go on with a configuration that has `error_count` errors.
pub fn config_gate(error_count: usize, telegram_ready: bool, discord_ready: bool) -> (r: ConfigGate)
    ensures
        error_count == 0 ==> r == ConfigGate::Valid,
        error_count > 0 && (telegram_ready || discord_ready) ==> r == ConfigGate::SetupMode,
        error_count > 0 && !(telegram_ready || discord_ready) ==> (r matches ConfigGate::Invalid(m)
            && m@ == refusal_text(error_count as nat)),
{
    if error_count == 0 {
        ConfigGate::Valid
    } else if telegram_ready || discord_ready {
        ConfigGate::SetupMode
    } else {
        let mut m = "Fix the above ".to_owned();
        crate::agent::push_decimal(&mut m, error_count);
        m.append(" error(s) in config.json");
        ConfigGate::Invalid(m)
    }
}

/// An ASCII decimal digit.
pub open spec fn is_digit(c: char) -> bool {
    48 <= (c as u32) <= 57
}

/// The digits of a number: the text after an optional leading `+`.
pub open spec fn unsigned_digits(s: Seq<char>) -> Seq<char> {
    if s.len() > 0 && s[0] == '+' {
        s.drop_first()
    } else {
        s
    }
}

/// The number that a string of decimal digits denotes.
pub open spec fn digits_value(s: Seq<char>) -> nat
    decreases s.len(),
{
    if s.len() == 0 {
        0
    } else {
        digits_value(s.drop_last()) * 10 + ((s.last() as u32) - 48) as nat
    }
}

/// `u32::from_str`: an optional `+`, then one or more decimal digits whose value
/// fits in a `u32`.
pub open spec fn parse_u32(s: Seq<char>) -> Option<u32> {
    let d = unsigned_digits(s);
    if d.len() == 0 || !(forall|i: int| 0 <= i < d.len() ==> is_digit(#[trigger] d[i])) {
        None
    } else if digits_value(d) > u32::MAX {
        None
    } else {
        Some(digits_value(d) as u32)
    }
}

proof fn lemma_digits_value_grows(s: Seq<char>, k: int)
    requires
        0 <= k <= s.len(),
        forall|i: int| 0 <= i < s.len() ==> is_digit(#[trigger] s[i]),
    ensures
        digits_value(s) >= digits_value(s.take(k)),
    decreases s.len(),
{
    if k < s.len() {
        let p = s.drop_last();
        assert(p.take(k) =~= s.take(k));
        assert forall|i: int| 0 <= i < p.len() implies is_digit(#[trigger] p[i]) by {
            assert(p[i] == s[i]);
        }
        lemma_digits_value_grows(p, k);
        assert(digits_value(s) >= digits_value(p)) by (nonlinear_arith)
            requires
                digits_value(s) == digits_value(p) * 10 + ((s.last() as u32) - 48) as nat,
        ;
    } else {
        assert(s.take(k) =~= s);
    }
}

/// The process id that a bot lock file holds: its trimmed text as a `u32`.
pub fn lock_pid(content: &str) -> (r: Option<u32>)
    ensures
        r == parse_u32(trim(content@)),
{
    let v = chars_of(content);
    let n = v.len();
    assert(v@.subrange(0, n as int) =~= v@);
    let (a, b) = trim_window(&v, 0, n);
    let ghost t = v@.subrange(a as int, b as int);
    let start = if a < b && v[a] == '+' {
        a + 1
    } else {
        a
    };
    let ghost d = v@.subrange(start as int, b as int);
    assert(d =~= unsigned_digits(t));
    if start == b {
        return None;
    }
    let mut acc: u64 = 0;
    let mut i = start;
    assert(d.take(0) =~= Seq::<char>::empty());
    while i < b
        invariant
            start <= i <= b <= v.len(),
            d == v@.subrange(start as int, b as int),
            d == unsigned_digits(trim(content@)),
            forall|j: int| 0 <= j < i - start ==> is_digit(#[trigger] d[j]),
            acc == digits_value(d.take(i - start)),
            acc <= u32::MAX,
        decreases b - i,
    {
        let c = v[i];
        let u = c as u32;
        if u < 48 || u > 57 {
            assert(!is_digit(d[i - start]));
            return None;
        }
        proof {
            assert(d.take(i + 1 - start).drop_last() =~= d.take(i - start));
            assert(d.take(i + 1 - start).last() == c);
        }
        acc = acc * 10 + (u - 48) as u64;
        if acc > 4294967295 {
            proof {
                if forall|k: int| 0 <= k < d.len() ==> is_digit(#[trigger] d[k]) {
                    lemma_digits_value_grows(d, i + 1 - start);
                }
            }
            return None;
        }
        i = i + 1;
    }
    assert(d.take(b - start) =~= d);
    Some(acc as u32)
}

} // verus!
