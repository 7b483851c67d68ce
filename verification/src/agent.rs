//! The decisions of the agent loop: where a session's replies go, how much
//! history fits the token budget, when the tool loop must stop, how a request
//! that was too large is cut down, how the final reply's confirm-buy marker
//! becomes buttons, and what progress message announces a round of tool calls.
use vstd::prelude::*;

use crate::text::{
    chars_of, find, find_in_window, is_ws, join, lemma_find_from_first, lemma_join_push, occurs_at,
    strip_leading, strip_trailing, trim, trim_window, views, ws,
};

verus! {

#[verifier::external_type_specification]
#[verifier::external_body]
pub struct ExAnyhowError(anyhow::Error);

/// A button offered with a reply.
#[derive(Debug, Clone)]
pub struct Button {
    pub text: String,
    pub data: Option<String>,
    pub url: Option<String>,
}

/// What a [`Button`] holds, with its strings as character sequences.
pub struct ButtonView {
    pub text: Seq<char>,
    pub data: Option<Seq<char>>,
    pub url: Option<Seq<char>>,
}

pub open spec fn opt_seq(o: Option<String>) -> Option<Seq<char>> {
    match o {
        Some(s) => Some(s@),
        None => None,
    }
}

impl View for Button {
    type V = ButtonView;

    open spec fn view(&self) -> ButtonView {
        ButtonView { text: self.text@, data: opt_seq(self.data), url: opt_seq(self.url) }
    }
}

pub open spec fn buttons_view(b: Seq<Button>) -> Seq<ButtonView> {
    b.map_values(|x: Button| x@)
}

/// Structured result from the agent loop.
#[derive(Debug, Clone)]
pub struct AgentResult {
    pub content: String,
    pub buttons: Option<Vec<Button>>,
}

/// Typed error returned by the agent loop.
///
/// Callers can pattern-match to distinguish quota/rate-limit errors from
/// iteration-limit hits and generic provider failures.
#[derive(Debug)]
pub enum AgentError {
    /// The LLM provider returned an error (network, auth, rate-limit, quota…).
    Provider(anyhow::Error),
    /// The agent executed `max_iterations` tool rounds without a final response.
    MaxIterationsExceeded(u32),
    /// A session I/O error (disk full, corrupt JSONL, etc.).
    Session(anyhow::Error),
}

/// The channel and chat id of a session key `channel:chat_id`: the channel is the
/// text before the first `:`, the chat id the text after it (`direct` without one).
pub open spec fn route_of(key: Seq<char>) -> (Seq<char>, Seq<char>) {
    match find(key, seq![':']) {
        Some(i) => (key.take(i as int), key.skip(i as int + 1)),
        None => (key, "direct"@),
    }
}

/// Split a session key into the channel and the chat id that replies go to.
pub fn session_route(session_key: &str) -> (r: (String, String))
    ensures
        r.0@ == route_of(session_key@).0,
        r.1@ == route_of(session_key@).1,
{
    let v = chars_of(session_key);
    let n = v.len();
    let colon = vec![':'];
    assert(colon@ =~= seq![':']);
    assert(v@.subrange(0, n as int) =~= v@);
    match find_in_window(&v, 0, n, &colon) {
        Some(i) => {
            proof {
                lemma_find_from_first(v@, seq![':'], 0);
            }
            let channel = session_key.substring_char(0, i).to_owned();
            let chat_id = session_key.substring_char(i + 1, n).to_owned();
            assert(v@.subrange(0, i as int) =~= v@.take(i as int));
            assert(v@.subrange(i + 1, n as int) =~= v@.skip(i + 1));
            (channel, chat_id)
        },
        None => (session_key.to_owned(), "direct".to_owned()),
    }
}

/// `s` contains `p`.
pub open spec fn contains_text(s: Seq<char>, p: Seq<char>) -> bool {
    find(s, p) is Some
}

/// Whether `v` contains `p`.
fn vec_contains(v: &Vec<char>, p: &str) -> (r: bool)
    ensures
        r == contains_text(v@, p@),
{
    let pv = chars_of(p);
    let n = v.len();
    assert(v@.subrange(0, n as int) =~= v@);
    find_in_window(v, 0, n, &pv).is_some()
}

/// A provider error whose message mentions `413` or `Payload Too Large` means the
/// request was too large.
pub open spec fn too_large(message: Seq<char>) -> bool {
    contains_text(message, "413"@) || contains_text(message, "Payload Too Large"@)
}

/// Whether a provider error (given by its message) asks for a retry with a
/// trimmed history rather than failing the request.
pub fn is_payload_too_large(message: &str) -> (r: bool)
    ensures
        r == too_large(message@),
{
    let v = chars_of(message);
    vec_contains(&v, "413") || vec_contains(&v, "Payload Too Large")
}

/// The status line of the token discovery service shown to the model.
pub open spec fn discovery_status(active_chat_id: Option<Seq<char>>) -> Seq<char> {
    match active_chat_id {
        Some(id) => "Pump.fun Discovery: ACTIVE (sending to "@ + id + ")"@,
        None => "Pump.fun Discovery: INACTIVE"@,
    }
}

/// Describe whether token discovery is running and where it reports to.
pub fn service_status(active_chat_id: Option<&str>) -> (r: String)
    ensures
        r@ == discovery_status(match active_chat_id {
            Some(id) => Some(id@),
            None => None,
        }),
{
    match active_chat_id {
        Some(id) => {
            let mut s = "Pump.fun Discovery: ACTIVE (sending to ".to_owned();
            s.append(id);
            s.append(")");
            s
        },
        None => "Pump.fun Discovery: INACTIVE".to_owned(),
    }
}

/// Tokens left for conversation history: the budget less the estimated tokens
/// (bytes / 4) of the system prompt and of the current message and a margin of
/// 50, or 0 when they exceed it.
pub open spec fn history_budget_spec(max_context_tokens: int, prompt_bytes: int, content_bytes: int) -> int {
    let overhead = prompt_bytes / 4 + content_bytes / 4 + 50;
    if max_context_tokens >= overhead {
        max_context_tokens - overhead
    } else {
        0
    }
}

/// Estimate how many tokens of history fit beside the system prompt and the
/// current message.
pub fn history_budget(max_context_tokens: usize, system_prompt: &str, content: &str) -> (r: usize)
    ensures
        r == history_budget_spec(
            max_context_tokens as int,
            system_prompt.len() as int,
            content.len() as int,
        ),
{
    let system_prompt_tokens = system_prompt.len() / 4;
    let current_msg_tokens = content.len() / 4;
    let overhead = system_prompt_tokens + current_msg_tokens + 50;
    max_context_tokens.saturating_sub(overhead)
}

/// Count one more round of the tool loop: `Ok` with the new count while it stays
/// within `max_iterations`, else the iteration-limit error.
pub fn next_iteration(iterations: u32, max_iterations: u32) -> (r: Result<u32, AgentError>)
    requires
        iterations < u32::MAX,
    ensures
        r is Ok <==> iterations + 1 <= max_iterations,
        r matches Ok(n) ==> n == iterations + 1,
        r matches Err(e) ==> e matches AgentError::MaxIterationsExceeded(m) && m == max_iterations,
{
    let next = iterations + 1;
    if next > max_iterations {
        Err(AgentError::MaxIterationsExceeded(max_iterations))
    } else {
        Ok(next)
    }
}

/// The messages kept when a request was too large: the first (system) message
/// and at most the two most recent ones after it.
pub open spec fn trimmed_for_retry<T>(m: Seq<T>) -> Seq<T> {
    let keep = if m.len() < 3 {
        m.len() as int
    } else {
        3
    };
    seq![m[0]] + m.subrange(m.len() - (keep - 1), m.len() as int)
}

/// Cut the conversation down to the system prompt and the last two messages.
pub fn trim_for_retry<T>(messages: Vec<T>) -> (r: Vec<T>)
    requires
        messages.len() >= 1,
    ensures
        r@ == trimmed_for_retry(messages@),
{
    let mut messages = messages;
    let ghost m = messages@;
    let len = messages.len();
    let keep = if len < 3 {
        len
    } else {
        3
    };
    let start = len - (keep - 1);
    let mut tail = messages.split_off(start);
    messages.truncate(1);
    messages.append(&mut tail);
    assert(messages@ =~= trimmed_for_retry(m));
    messages
}

/// The marker with which a reply asks the user to confirm a buy.
pub open spec fn buy_marker() -> Seq<char> {
    "[UI_CONFIRM_BUY:"@
}

/// Where the confirm-buy marker of `reply` starts, with the mint and the amount
/// it names (`[UI_CONFIRM_BUY: mint | amount]`), if it has a well-formed one.
pub open spec fn buy_request(reply: Seq<char>) -> Option<(nat, Seq<char>, Seq<char>)> {
    match find(reply, buy_marker()) {
        None => None,
        Some(pos) => {
            let block = reply.skip(pos as int);
            match (find(block, seq![':']), find(block, seq![']'])) {
                (Some(start), Some(end)) => {
                    let parts = block.subrange(start as int + 1, end as int);
                    match find(parts, seq!['|']) {
                        Some(bar) => Some(
                            (pos, trim(parts.take(bar as int)), trim(parts.skip(bar as int + 1))),
                        ),
                        None => None,
                    }
                },
                _ => None,
            }
        },
    }
}

/// The buttons that confirm or cancel buying `amount` of `mint`.
pub open spec fn buy_buttons(mint: Seq<char>, amount: Seq<char>) -> Seq<ButtonView> {
    seq![
        ButtonView {
            text: "Confirm Buy ✅"@,
            data: Some("Confirm Buy "@ + mint + " "@ + amount),
            url: None,
        },
        ButtonView { text: "Cancel ❌"@, data: Some("Cancel Buy"@), url: None },
    ]
}

/// In a text that starts with the confirm-buy marker, the first `:` comes before
/// the first `]`.
proof fn lemma_marker_fields_ordered(block: Seq<char>, start: int, end: int)
    requires
        block.len() >= buy_marker().len(),
        block.subrange(0, buy_marker().len() as int) == buy_marker(),
        occurs_at(block, seq![':'], start),
        forall|j: int| 0 <= j < start ==> !occurs_at(block, seq![':'], j),
        occurs_at(block, seq![']'], end),
    ensures
        start + 1 <= end,
{
    reveal_strlit("[UI_CONFIRM_BUY:");
    assert(buy_marker().len() == 16);
    assert(occurs_at(block, seq![':'], 15)) by {
        assert(block[15] == buy_marker()[15]);
        assert(block.subrange(15, 16) =~= seq![':']);
    }
    assert(block.subrange(end, end + 1)[0] == block[end]);
    if end < 16 {
        assert(block[end] == buy_marker()[end]);
    }
}

/// The two buttons that confirm or cancel a buy.
fn confirm_buttons(mint: &str, amount: &str) -> (b: Vec<Button>)
    ensures
        buttons_view(b@) == buy_buttons(mint@, amount@),
{
    let mut data = "Confirm Buy ".to_owned();
    data.append(mint);
    data.append(" ");
    data.append(amount);
    let confirm = Button { text: "Confirm Buy ✅".to_owned(), data: Some(data), url: None };
    let cancel = Button {
        text: "Cancel ❌".to_owned(),
        data: Some("Cancel Buy".to_owned()),
        url: None,
    };
    let buttons = vec![confirm, cancel];
    assert(buttons_view(buttons@) =~= buy_buttons(mint@, amount@));
    buttons
}

/// `r` is the result of the final reply `reply`.
pub open spec fn final_result_of(reply: Seq<char>, r: AgentResult) -> bool {
    match buy_request(reply) {
        None => r.content@ == reply && r.buttons is None,
        Some((pos, mint, amount)) => {
            &&& r.content@ == trim(reply.take(pos as int))
            &&& r.buttons matches Some(b) && buttons_view(b@) == buy_buttons(mint, amount)
        },
    }
}

/// The result of a final reply: a confirm-buy marker is turned into buttons and
/// cut, with everything after it, from the text that the user sees.
pub fn final_result(reply: &str) -> (r: AgentResult)
    ensures
        final_result_of(reply@, r),
{
    let v = chars_of(reply);
    let n = v.len();
    let marker = chars_of("[UI_CONFIRM_BUY:");
    assert(v@.subrange(0, n as int) =~= v@);
    let pos = match find_in_window(&v, 0, n, &marker) {
        Some(pos) => pos,
        None => {
            return AgentResult { content: reply.to_owned(), buttons: None };
        },
    };
    proof {
        lemma_find_from_first(v@, buy_marker(), 0);
    }
    let ghost block = v@.skip(pos as int);
    assert(v@.subrange(pos as int, n as int) =~= block);
    let colon = vec![':'];
    let bracket = vec![']'];
    let bar = vec!['|'];
    assert(colon@ =~= seq![':']);
    assert(bracket@ =~= seq![']']);
    assert(bar@ =~= seq!['|']);
    let start = find_in_window(&v, pos, n, &colon);
    let end = find_in_window(&v, pos, n, &bracket);
    let (start, end) = match (start, end) {
        (Some(s), Some(e)) => (s, e),
        _ => {
            return AgentResult { content: reply.to_owned(), buttons: None };
        },
    };
    proof {
        lemma_find_from_first(block, seq![':'], 0);
        lemma_find_from_first(block, seq![']'], 0);
        assert(block.subrange(0, buy_marker().len() as int) =~= v@.subrange(
            pos as int,
            pos + marker.len(),
        ));
        lemma_marker_fields_ordered(block, start as int, end as int);
    }
    let lo = pos + start + 1;
    let hi = pos + end;
    let ghost parts = block.subrange(start + 1, end as int);
    assert(v@.subrange(lo as int, hi as int) =~= parts);
    let b = match find_in_window(&v, lo, hi, &bar) {
        Some(b) => b,
        None => {
            return AgentResult { content: reply.to_owned(), buttons: None };
        },
    };
    proof {
        lemma_find_from_first(parts, seq!['|'], 0);
    }
    let (m0, m1) = trim_window(&v, lo, lo + b);
    let (a0, a1) = trim_window(&v, lo + b + 1, hi);
    let (c0, c1) = trim_window(&v, 0, pos);
    assert(v@.subrange(lo as int, lo + b) =~= parts.take(b as int));
    assert(v@.subrange(lo + b + 1, hi as int) =~= parts.skip(b + 1));
    assert(v@.subrange(0, pos as int) =~= v@.take(pos as int));
    let mint = reply.substring_char(m0, m1);
    let amount = reply.substring_char(a0, a1);
    let buttons = confirm_buttons(mint, amount);
    AgentResult { content: reply.substring_char(c0, c1).to_owned(), buttons: Some(buttons) }
}

/// The decimal digit `d`.
pub open spec fn digit(d: nat) -> char {
    (48 + d) as char
}

/// The decimal numeral of `n`.
pub open spec fn decimal(n: nat) -> Seq<char>
    decreases n,
{
    if n < 10 {
        seq![digit(n)]
    } else {
        decimal(n / 10).push(digit(n % 10))
    }
}

fn digit_str(d: usize) -> (r: &'static str)
    requires
        d < 10,
    ensures
        r@ == seq![digit(d as nat)],
{
    proof {
        reveal_strlit("0");
        reveal_strlit("1");
        reveal_strlit("2");
        reveal_strlit("3");
        reveal_strlit("4");
        reveal_strlit("5");
        reveal_strlit("6");
        reveal_strlit("7");
        reveal_strlit("8");
        reveal_strlit("9");
    }
    let r = if d == 0 {
        "0"
    } else if d == 1 {
        "1"
    } else if d == 2 {
        "2"
    } else if d == 3 {
        "3"
    } else if d == 4 {
        "4"
    } else if d == 5 {
        "5"
    } else if d == 6 {
        "6"
    } else if d == 7 {
        "7"
    } else if d == 8 {
        "8"
    } else {
        "9"
    };
    assert(r@ =~= seq![digit(d as nat)]);
    r
}

/// Append the decimal numeral of `n` to `out`.
pub(crate) fn push_decimal(out: &mut String, n: usize)
    ensures
        final(out)@ == old(out)@ + decimal(n as nat),
    decreases n,
{
    if n >= 10 {
        push_decimal(out, n / 10);
    }
    out.append(digit_str(n % 10));
    assert(old(out)@ + decimal(n as nat) =~= if n >= 10 {
        old(out)@ + decimal((n / 10) as nat) + seq![digit((n % 10) as nat)]
    } else {
        old(out)@ + seq![digit(n as nat)]
    });
}

/// A tool name as shown in a progress message: in backquotes.
pub open spec fn quoted(name: Seq<char>) -> Seq<char> {
    "`"@ + name + "`"@
}

/// The progress message for a round of tool calls.
pub open spec fn progress_text(names: Seq<Seq<char>>) -> Seq<char> {
    if names.len() == 1 {
        "⚙️ Running tool: "@ + quoted(names[0]) + "…"@
    } else {
        "⚙️ Running "@ + decimal(names.len()) + " tools in parallel: "@ + join(
            names.map_values(|n: Seq<char>| quoted(n)),
            ", "@,
        ) + "…"@
    }
}

/// The progress message that announces the tools about to run.
pub fn progress_message(names: &[String]) -> (r: String)
    ensures
        r@ == progress_text(views(names@)),
{
    let ghost ns = views(names@);
    if names.len() == 1 {
        let mut out = "⚙️ Running tool: `".to_owned();
        out.append(names[0].as_str());
        out.append("`…");
        proof {
            reveal_strlit("⚙️ Running tool: `");
            reveal_strlit("⚙️ Running tool: ");
            reveal_strlit("`…");
            reveal_strlit("`");
            reveal_strlit("…");
        }
        assert(out@ =~= progress_text(ns));
        return out;
    }
    let mut list = String::new();
    let mut i: usize = 0;
    assert(ns.take(0).map_values(|n: Seq<char>| quoted(n)) =~= Seq::<Seq<char>>::empty());
    while i < names.len()
        invariant
            i <= names.len(),
            ns == views(names@),
            list@ == join(ns.take(i as int).map_values(|n: Seq<char>| quoted(n)), ", "@),
        decreases names.len() - i,
    {
        let ghost prev = ns.take(i as int).map_values(|n: Seq<char>| quoted(n));
        proof {
            lemma_join_push(prev, ", "@, quoted(ns[i as int]));
            assert(ns.take(i + 1).map_values(|n: Seq<char>| quoted(n)) =~= prev.push(
                quoted(ns[i as int]),
            ));
        }
        if i > 0 {
            list.append(", ");
        }
        list.append("`");
        list.append(names[i].as_str());
        list.append("`");
        assert(list@ =~= join(prev.push(quoted(ns[i as int])), ", "@));
        i = i + 1;
    }
    assert(ns.take(names.len() as int) =~= ns);
    let mut out = "⚙️ Running ".to_owned();
    push_decimal(&mut out, names.len());
    out.append(" tools in parallel: ");
    out.append(list.as_str());
    out.append("…");
    assert(out@ =~= progress_text(ns));
    out
}

/// A key made of a channel without `:`, a `:` and a chat id is routed to that
/// channel and that chat id; a key without `:` is routed to the `direct` chat of
/// the channel it names.
pub proof fn law_session_route_round_trip(channel: Seq<char>, chat_id: Seq<char>)
    requires
        !channel.contains(':'),
    ensures
        route_of(channel + seq![':'] + chat_id) == (channel, chat_id),
        route_of(channel) == (channel, "direct"@),
{
    let key = channel + seq![':'] + chat_id;
    let c = channel.len() as int;
    lemma_find_from_first(key, seq![':'], 0);
    lemma_find_from_first(channel, seq![':'], 0);
    assert(occurs_at(key, seq![':'], c)) by {
        assert(key.subrange(c, c + 1) =~= seq![':']);
    }
    let k = find(key, seq![':'])->0 as int;
    if k < c {
        assert(key.subrange(k, k + 1)[0] == key[k]);
        assert(key[k] == channel[k]);
    }
    assert(key.take(c) =~= channel);
    assert(key.skip(c + 1) =~= chat_id);
    if find(channel, seq![':']) is Some {
        let j = find(channel, seq![':'])->0 as int;
        assert(channel.subrange(j, j + 1)[0] == channel[j]);
    }
}

/// The history budget never exceeds the context budget.
pub proof fn law_history_budget_within_context(
    max_context_tokens: int,
    prompt_bytes: int,
    content_bytes: int,
)
    requires
        max_context_tokens >= 0,
        prompt_bytes >= 0,
        content_bytes >= 0,
    ensures
        0 <= history_budget_spec(max_context_tokens, prompt_bytes, content_bytes)
            <= max_context_tokens,
{
}

/// A request cut down for a retry keeps the system message and the most recent
/// message, and holds at most three messages.
pub proof fn law_retry_keeps_system_and_latest<T>(m: Seq<T>)
    requires
        m.len() >= 1,
    ensures
        trimmed_for_retry(m).len() == if m.len() < 3 {
            m.len() as int
        } else {
            3
        },
        trimmed_for_retry(m)[0] == m[0],
        trimmed_for_retry(m).last() == m.last(),
{
}

proof fn lemma_trim_is_window(s: Seq<char>) -> (w: (int, int))
    ensures
        0 <= w.0 <= w.1 <= s.len(),
        trim(s) == s.subrange(w.0, w.1),
{
    let a = choose_leading(s);
    let t = s.skip(a);
    let b = choose_trailing(t);
    assert(t.take(b) =~= s.subrange(a, a + b));
    (a, a + b)
}

proof fn choose_leading(s: Seq<char>) -> (a: int)
    ensures
        0 <= a <= s.len(),
        strip_leading(s, ws()) == s.skip(a),
    decreases s.len(),
{
    if s.len() > 0 && is_ws(s[0]) {
        let a = choose_leading(s.drop_first());
        assert(s.drop_first().skip(a) =~= s.skip(a + 1));
        a + 1
    } else {
        assert(s.skip(0) =~= s);
        0
    }
}

proof fn choose_trailing(s: Seq<char>) -> (b: int)
    ensures
        0 <= b <= s.len(),
        strip_trailing(s, ws()) == s.take(b),
    decreases s.len(),
{
    if s.len() > 0 && is_ws(s.last()) {
        let b = choose_trailing(s.drop_last());
        assert(s.drop_last().take(b) =~= s.take(b));
        b
    } else {
        assert(s.take(s.len() as int) =~= s);
        s.len() as int
    }
}

/// When a reply's confirm-buy marker becomes buttons, the text that the user sees
/// holds no marker any more.
pub proof fn law_buy_marker_removed(reply: Seq<char>)
    ensures
        buy_request(reply) matches Some((pos, mint, amount)) ==> forall|j: int|
            !occurs_at(trim(reply.take(pos as int)), buy_marker(), j),
{
    reveal_strlit("[UI_CONFIRM_BUY:");
    if let Some((pos, mint, amount)) = buy_request(reply) {
        lemma_find_from_first(reply, buy_marker(), 0);
        let head = reply.take(pos as int);
        let w = lemma_trim_is_window(head);
        assert forall|j: int| !occurs_at(trim(head), buy_marker(), j) by {
            if occurs_at(trim(head), buy_marker(), j) {
                let at = w.0 + j;
                assert(reply.subrange(at, at + buy_marker().len()) =~= trim(head).subrange(
                    j,
                    j + buy_marker().len(),
                ));
                assert(at + buy_marker().len() <= pos);
                assert(occurs_at(reply, buy_marker(), at));
                assert(at < pos);
                assert(false);
            }
        }
    }
}

/// `find` finds a pattern wherever it occurs.
proof fn lemma_found_if_occurs(s: Seq<char>, p: Seq<char>, i: int)
    requires
        occurs_at(s, p, i),
    ensures
        find(s, p) is Some,
{
    lemma_find_from_first(s, p, 0);
}

/// A provider error whose message mentions `413` or `Payload Too Large` anywhere
/// is a request that was too large.
pub proof fn law_too_large_anywhere(a: Seq<char>, b: Seq<char>)
    ensures
        too_large(a + "413"@ + b),
        too_large(a + "Payload Too Large"@ + b),
{
    let s1 = a + "413"@ + b;
    assert(s1.subrange(a.len() as int, a.len() + "413"@.len() as int) =~= "413"@);
    lemma_found_if_occurs(s1, "413"@, a.len() as int);
    let s2 = a + "Payload Too Large"@ + b;
    assert(s2.subrange(a.len() as int, a.len() + "Payload Too Large"@.len() as int)
        =~= "Payload Too Large"@);
    lemma_found_if_occurs(s2, "Payload Too Large"@, a.len() as int);
}

/// A message is too large only if it mentions `413` or `Payload Too Large`.
pub proof fn law_too_large_needs_mention(m: Seq<char>)
    ensures
        too_large(m) ==> exists|i: int|
            occurs_at(m, "413"@, i) || occurs_at(m, "Payload Too Large"@, i),
{
    lemma_find_from_first(m, "413"@, 0);
    lemma_find_from_first(m, "Payload Too Large"@, 0);
    if find(m, "413"@) is Some {
        let k = find(m, "413"@)->0 as int;
        assert(occurs_at(m, "413"@, k));
    } else if find(m, "Payload Too Large"@) is Some {
        let k = find(m, "Payload Too Large"@)->0 as int;
        assert(occurs_at(m, "Payload Too Large"@, k));
    }
}

/// A one-character pattern occurs exactly where that character stands.
proof fn lemma_char_occurs(s: Seq<char>, c: char, j: int)
    ensures
        occurs_at(s, seq![c], j) <==> (0 <= j < s.len() && s[j] == c),
{
    if 0 <= j < s.len() {
        assert(s.subrange(j, j + 1)[0] == s[j]);
        if s[j] == c {
            assert(s.subrange(j, j + 1) =~= seq![c]);
        }
    }
}

/// `find` gives the first occurrence.
proof fn lemma_find_is(s: Seq<char>, p: Seq<char>, k: int)
    requires
        occurs_at(s, p, k),
        forall|j: int| 0 <= j < k ==> !occurs_at(s, p, j),
    ensures
        find(s, p) == Some(k as nat),
{
    lemma_find_from_first(s, p, 0);
}

/// The first occurrence of the character `c` in `s` is at `k`.
proof fn lemma_find_char(s: Seq<char>, c: char, k: int)
    requires
        0 <= k < s.len(),
        s[k] == c,
        forall|j: int| 0 <= j < k ==> s[j] != c,
    ensures
        find(s, seq![c]) == Some(k as nat),
{
    lemma_char_occurs(s, c, k);
    assert forall|j: int| 0 <= j < k implies !occurs_at(s, seq![c], j) by {
        lemma_char_occurs(s, c, j);
    }
    lemma_find_is(s, seq![c], k);
}

proof fn lemma_marker_chars()
    ensures
        buy_marker() =~= seq![
            '[', 'U', 'I', '_', 'C', 'O', 'N', 'F', 'I', 'R', 'M', '_', 'B', 'U', 'Y', ':',
        ],
{
    reveal_strlit("[UI_CONFIRM_BUY:");
}

/// Only the marker's first character is `[`.
proof fn lemma_marker_bracket_first(k: int)
    requires
        1 <= k < 16,
    ensures
        buy_marker()[k] != '[',
{
    lemma_marker_chars();
}

/// No marker occurrence begins inside `p` and runs into a marker placed after it.
proof fn lemma_no_straddle(p: Seq<char>, rest: Seq<char>, j: int)
    requires
        0 <= j < p.len(),
        forall|i: int| !occurs_at(p, buy_marker(), i),
    ensures
        !occurs_at(p + buy_marker() + rest, buy_marker(), j),
{
    lemma_marker_chars();
    let mk = buy_marker();
    let reply = p + mk + rest;
    let n = p.len() as int;
    if occurs_at(reply, mk, j) {
        if j + 16 <= n {
            assert(reply.subrange(j, j + 16) =~= p.subrange(j, j + 16));
            assert(occurs_at(p, mk, j));
        } else {
            let k = n - j;
            assert(reply.subrange(j, j + 16)[k] == reply[n]);
            assert(reply[n] == mk[0]);
            lemma_marker_bracket_first(k);
        }
    }
}

/// After a text without a marker, the marker first occurs where it is placed.
proof fn lemma_marker_first_after(p: Seq<char>, rest: Seq<char>)
    requires
        forall|i: int| !occurs_at(p, buy_marker(), i),
    ensures
        find(p + buy_marker() + rest, buy_marker()) == Some(p.len()),
{
    lemma_marker_chars();
    let mk = buy_marker();
    let reply = p + mk + rest;
    let n = p.len() as int;
    assert(reply.subrange(n, n + 16) =~= mk);
    assert forall|j: int| 0 <= j < n implies !occurs_at(reply, mk, j) by {
        lemma_no_straddle(p, rest, j);
    }
    lemma_find_is(reply, mk, n);
}

/// The fields of a marker block `[UI_CONFIRM_BUY: m | a] q`.
proof fn lemma_block_fields(m: Seq<char>, a: Seq<char>, q: Seq<char>)
    requires
        forall|i: int| 0 <= i < m.len() ==> m[i] != '|' && m[i] != ']',
        forall|i: int| 0 <= i < a.len() ==> a[i] != ']',
    ensures
        ({
            let block = buy_marker() + m + seq!['|'] + a + seq![']'] + q;
            let e = 16 + m.len() + 1 + a.len();
            &&& find(block, seq![':']) == Some(15nat)
            &&& find(block, seq![']']) == Some(e)
            &&& block.subrange(16, e as int) == m + seq!['|'] + a
        }),
{
    lemma_marker_chars();
    let block = buy_marker() + m + seq!['|'] + a + seq![']'] + q;
    let e: int = 16 + m.len() as int + 1 + a.len() as int;
    lemma_find_char(block, ':', 15);
    assert forall|j: int| 0 <= j < e implies block[j] != ']' by {
        if j >= 16 && j < 16 + m.len() {
            assert(block[j] == m[j - 16]);
        } else if j > 16 + m.len() {
            assert(block[j] == a[j - 17 - m.len()]);
        }
    }
    lemma_find_char(block, ']', e);
    assert(block.subrange(16, e) =~= m + seq!['|'] + a);
}

/// Splitting `m | a` at its first `|`, where `m` holds none.
proof fn lemma_split_bar(m: Seq<char>, a: Seq<char>)
    requires
        forall|i: int| 0 <= i < m.len() ==> m[i] != '|',
    ensures
        ({
            let parts = m + seq!['|'] + a;
            &&& find(parts, seq!['|']) == Some(m.len())
            &&& parts.take(m.len() as int) == m
            &&& parts.skip(m.len() as int + 1) == a
        }),
{
    let parts = m + seq!['|'] + a;
    assert forall|j: int| 0 <= j < m.len() implies parts[j] != '|' by {
        assert(parts[j] == m[j]);
    }
    lemma_find_char(parts, '|', m.len() as int);
    assert(parts.take(m.len() as int) =~= m);
    assert(parts.skip(m.len() as int + 1) =~= a);
}

/// For a reply `p [UI_CONFIRM_BUY: m | a] q`, where `p` holds no marker, `m` holds
/// no `|` or `]` and `a` no `]`: the buy names mint `trim(m)` and amount
/// `trim(a)`, whatever `p` holds (colons included); the user sees `trim(p)`, and the
/// buttons confirm with `Confirm Buy <mint> <amount>` or cancel with `Cancel Buy`.
pub proof fn law_buy_marker_fields(p: Seq<char>, m: Seq<char>, a: Seq<char>, q: Seq<char>)
    requires
        forall|i: int| !occurs_at(p, buy_marker(), i),
        forall|i: int| 0 <= i < m.len() ==> m[i] != '|' && m[i] != ']',
        forall|i: int| 0 <= i < a.len() ==> a[i] != ']',
    ensures
        buy_request(p + buy_marker() + m + seq!['|'] + a + seq![']'] + q) == Some(
            (p.len(), trim(m), trim(a)),
        ),
        forall|res: AgentResult|
            final_result_of(p + buy_marker() + m + seq!['|'] + a + seq![']'] + q, res) ==> {
                &&& res.content@ == trim(p)
                &&& res.buttons matches Some(b) && b@.len() == 2 && opt_seq(b@[0].data) == Some(
                    "Confirm Buy "@ + trim(m) + " "@ + trim(a),
                ) && opt_seq(b@[1].data) == Some("Cancel Buy"@)
            },
{
    let rest = m + seq!['|'] + a + seq![']'] + q;
    let reply = p + buy_marker() + m + seq!['|'] + a + seq![']'] + q;
    assert(reply =~= p + buy_marker() + rest);
    lemma_marker_first_after(p, rest);
    let block = reply.skip(p.len() as int);
    assert(block =~= buy_marker() + m + seq!['|'] + a + seq![']'] + q);
    lemma_block_fields(m, a, q);
    lemma_split_bar(m, a);
    assert(reply.take(p.len() as int) =~= p);
    assert(buy_request(reply) == Some((p.len(), trim(m), trim(a))));
    assert forall|res: AgentResult| final_result_of(reply, res) implies {
        &&& res.content@ == trim(p)
        &&& res.buttons matches Some(b) && b@.len() == 2 && opt_seq(b@[0].data) == Some(
            "Confirm Buy "@ + trim(m) + " "@ + trim(a),
        ) && opt_seq(b@[1].data) == Some("Cancel Buy"@)
    } by {
        assert(res.buttons is Some);
        let b = res.buttons->0;
        assert(buttons_view(b@) == buy_buttons(trim(m), trim(a)));
        assert(buttons_view(b@).len() == 2);
        assert(buttons_view(b@)[0] == b@[0]@);
        assert(buttons_view(b@)[1] == b@[1]@);
    }
}

} // verus!
