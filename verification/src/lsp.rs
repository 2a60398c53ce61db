//! The language server: the framing of protocol messages, what the server
//! does with each command from the editor, and what the responder sends
//! back for each response of the query system.
use vstd::prelude::*;

use crate::actor::{Actor, LspResponse, QueryRequest, TaskId};
use crate::numbers::{decimal, parse_usize, parse_usize_spec, u64_to_string};
use languageserver_types::{Position, Range};
use std::collections::VecDeque;
use url::Url;

verus! {

// ---------------------------------------------------------------------
// JSON-RPC envelopes.

/// The envelope of a response to request `id`.
pub struct JsonRPCResponse<T> {
    pub jsonrpc: String,
    pub id: usize,
    pub result: T,
}

impl<T> JsonRPCResponse<T> {
    pub fn new(id: usize, result: T) -> (r: Self)
        ensures
            r.jsonrpc@ == "2.0"@,
            r.id == id,
            r.result == result,
    {
        JsonRPCResponse { jsonrpc: String::from_str("2.0"), id, result }
    }
}

/// The envelope of a notification.
pub struct JsonRPCNotification<T> {
    pub jsonrpc: String,
    pub method: String,
    pub params: T,
}

impl<T> JsonRPCNotification<T> {
    pub fn new(method: String, params: T) -> (r: Self)
        ensures
            r.jsonrpc@ == "2.0"@,
            r.method == method,
            r.params == params,
    {
        JsonRPCNotification { jsonrpc: String::from_str("2.0"), method, params }
    }
}

/// The message on the wire for the JSON text `raw`: a `Content-Length`
/// header with its length in bytes, a blank line, then `raw`.
pub open spec fn framed(raw: &str) -> Seq<char> {
    "Content-Length: "@ + decimal(raw.len() as nat) + "\r\n\r\n"@ + raw@
}

/// Frames the JSON text `raw` for sending.
pub fn frame_message(raw: &str) -> (r: String)
    ensures
        r@ == framed(raw),
{
    let n = raw.len();
    let mut out = String::from_str("Content-Length: ");
    let digits = u64_to_string(n as u64);
    out.append(digits.as_str());
    out.append("\r\n\r\n");
    out.append(raw);
    out
}

// ---------------------------------------------------------------------
// Reading the header of an incoming message.

/// Rust's `char::is_whitespace`: the characters with the Unicode
/// `White_Space` property.
pub open spec fn is_whitespace(c: char) -> bool {
    ||| ('\t' <= c && c <= '\r')
    ||| c == ' '
    ||| c == '\u{85}'
    ||| c == '\u{a0}'
    ||| c == '\u{1680}'
    ||| ('\u{2000}' <= c && c <= '\u{200a}')
    ||| c == '\u{2028}'
    ||| c == '\u{2029}'
    ||| c == '\u{202f}'
    ||| c == '\u{205f}'
    ||| c == '\u{3000}'
}

/// `s` without its leading whitespace.
pub open spec fn trim_start(s: Seq<char>) -> Seq<char>
    decreases s.len(),
{
    if s.len() > 0 && is_whitespace(s[0]) {
        trim_start(s.drop_first())
    } else {
        s
    }
}

/// `s` without its trailing whitespace.
pub open spec fn trim_end(s: Seq<char>) -> Seq<char>
    decreases s.len(),
{
    if s.len() > 0 && is_whitespace(s.last()) {
        trim_end(s.drop_last())
    } else {
        s
    }
}

/// `s` without leading or trailing whitespace, as `str::trim` gives it.
pub open spec fn trim(s: Seq<char>) -> Seq<char> {
    trim_end(trim_start(s))
}

/// The position of the first space in `s`.
pub open spec fn first_space(s: Seq<char>) -> Option<nat>
    decreases s.len(),
{
    if s.len() == 0 {
        None
    } else if s[0] == ' ' {
        Some(0)
    } else {
        match first_space(s.drop_first()) {
            Some(i) => Some(i + 1),
            None => None,
        }
    }
}

/// The first of the fields of `s` separated by single spaces.
pub open spec fn first_field(s: Seq<char>) -> Seq<char> {
    match first_space(s) {
        Some(i) => s.subrange(0, i as int),
        None => s,
    }
}

/// What follows the first space of `s`, if it has one.
pub open spec fn after_first_space(s: Seq<char>) -> Option<Seq<char>> {
    match first_space(s) {
        Some(i) => Some(s.subrange(i as int + 1, s.len() as int)),
        None => None,
    }
}

/// The line is the header that announces a message's length.
pub open spec fn is_header(line: Seq<char>) -> bool {
    first_field(line) == "Content-Length:"@
}

/// The length announced by a header line: its second field, trimmed, as
/// a number.
pub open spec fn announced_length(line: Seq<char>) -> Option<usize> {
    match after_first_space(line) {
        Some(rest) => parse_usize_spec(trim(first_field(rest))),
        None => None,
    }
}

proof fn lemma_first_space(s: Seq<char>, i: nat)
    requires
        i <= s.len(),
        forall|j: int| 0 <= j < i ==> s[j] != ' ',
    ensures
        i < s.len() && s[i as int] == ' ' ==> first_space(s) == Some(i),
        i == s.len() ==> first_space(s) is None,
    decreases i,
{
    if i > 0 {
        lemma_first_space(s.drop_first(), (i - 1) as nat);
    }
}

/// The position of the first space of `s`.
fn find_space(s: &str) -> (r: Option<usize>)
    ensures
        r matches Some(i) ==> first_space(s@) == Some(i as nat) && i < s@.len(),
        r is None ==> first_space(s@) is None,
{
    let n = s.unicode_len();
    let mut i: usize = 0;
    while i < n
        invariant
            n == s@.len(),
            i <= n,
            forall|j: int| 0 <= j < i ==> s@[j] != ' ',
        decreases n - i,
    {
        if s.get_char(i) == ' ' {
            proof {
                lemma_first_space(s@, i as nat);
            }
            return Some(i);
        }
        i = i + 1;
    }
    proof {
        lemma_first_space(s@, i as nat);
    }
    None
}

/// Whether `c` is whitespace.
fn whitespace(c: char) -> (r: bool)
    ensures
        r == is_whitespace(c),
{
    ('\t' <= c && c <= '\r') || c == ' ' || c == '\u{85}' || c == '\u{a0}' || c == '\u{1680}' || ('\u{2000}' <= c
        && c <= '\u{200a}') || c == '\u{2028}' || c == '\u{2029}' || c == '\u{202f}' || c == '\u{205f}' || c
        == '\u{3000}'
}

proof fn lemma_trim_start(s: Seq<char>, i: int)
    requires
        0 <= i <= s.len(),
        forall|j: int| 0 <= j < i ==> is_whitespace(s[j]),
    ensures
        trim_start(s) == trim_start(s.subrange(i, s.len() as int)),
    decreases i,
{
    if i > 0 {
        lemma_trim_start(s.drop_first(), i - 1);
        assert(s.drop_first().subrange(i - 1, s.len() - 1) =~= s.subrange(i, s.len() as int));
    } else {
        assert(s.subrange(0, s.len() as int) =~= s);
    }
}

proof fn lemma_trim_end(s: Seq<char>, k: int)
    requires
        0 <= k <= s.len(),
        forall|j: int| k <= j < s.len() ==> is_whitespace(s[j]),
    ensures
        trim_end(s) == trim_end(s.subrange(0, k)),
    decreases s.len() - k,
{
    if k < s.len() {
        lemma_trim_end(s.drop_last(), k);
        assert(s.drop_last().subrange(0, k) =~= s.subrange(0, k));
    } else {
        assert(s.subrange(0, k) =~= s);
    }
}

/// `s` without leading or trailing whitespace.
fn trim_str(s: &str) -> (r: &str)
    ensures
        r@ == trim(s@),
{
    let n = s.unicode_len();
    let mut a: usize = 0;
    while a < n && whitespace(s.get_char(a))
        invariant
            n == s@.len(),
            a <= n,
            forall|j: int| 0 <= j < a ==> is_whitespace(s@[j]),
        decreases n - a,
    {
        a = a + 1;
    }
    proof {
        lemma_trim_start(s@, a as int);
        let rest = s@.subrange(a as int, n as int);
        if rest.len() > 0 {
            assert(rest[0] == s@[a as int]);
        }
        assert(trim_start(rest) == rest);
    }
    let mut b: usize = n;
    while b > a && whitespace(s.get_char(b - 1))
        invariant
            n == s@.len(),
            a <= b <= n,
            forall|j: int| b <= j < n ==> is_whitespace(s@[j]),
        decreases b,
    {
        b = b - 1;
    }
    proof {
        let rest = s@.subrange(a as int, n as int);
        lemma_trim_end(rest, b - a);
        assert(rest.subrange(0, b - a) =~= s@.subrange(a as int, b as int));
        let kept = s@.subrange(a as int, b as int);
        if kept.len() > 0 {
            assert(kept.last() == s@[b - 1]);
        }
        assert(trim_end(kept) == kept);
    }
    s.substring_char(a, b)
}

/// Whether `line` is the header that announces a message's length.
pub fn is_content_length_header(line: &str) -> (r: bool)
    ensures
        r == is_header(line@),
{
    let first = match find_space(line) {
        Some(i) => line.substring_char(0, i),
        None => line,
    };
    let field = String::from_str(first);
    let expected = String::from_str("Content-Length:");
    field == expected
}

/// The length announced by the header `line`; `None` where its second
/// field is missing or is not a number.
pub fn content_length(line: &str) -> (r: Option<usize>)
    requires
        is_header(line@),
    ensures
        r == announced_length(line@),
{
    match find_space(line) {
        Some(i) => {
            let n = line.unicode_len();
            let rest = line.substring_char(i + 1, n);
            let second = match find_space(rest) {
                Some(j) => rest.substring_char(0, j),
                None => rest,
            };
            parse_usize(trim_str(second))
        },
        None => None,
    }
}

/// The first line of the message framed for `raw`, with its line end.
pub open spec fn header_line(raw: &str) -> Seq<char> {
    "Content-Length: "@ + decimal(raw.len() as nat) + "\r\n"@
}

/// A framed message is its header line, a blank line and the JSON text;
/// and the server reads that header line as a header announcing the
/// length of the JSON text in bytes.
pub proof fn lemma_header_round_trip(raw: &str)
    ensures
        framed(raw) == header_line(raw) + "\r\n"@ + raw@,
        is_header(header_line(raw)),
        announced_length(header_line(raw)) == Some(raw.len()),
{
    reveal_strlit("Content-Length: ");
    reveal_strlit("Content-Length:");
    reveal_strlit("\r\n");
    reveal_strlit("\r\n\r\n");
    let n = raw.len() as nat;
    let digits = decimal(n);
    crate::numbers::lemma_decimal_digits(n);
    crate::numbers::lemma_parse_decimal(n);
    assert(framed(raw) =~= header_line(raw) + "\r\n"@ + raw@);
    let line = header_line(raw);
    assert(line[15] == ' ');
    lemma_first_space(line, 15);
    assert(first_field(line) =~= "Content-Length:"@);
    let rest = digits + "\r\n"@;
    assert(line.subrange(16, line.len() as int) =~= rest);
    assert forall|j: int| 0 <= j < rest.len() implies rest[j] != ' ' by {
        if j < digits.len() {
            assert(crate::numbers::digit_value(digits[j]) is Some);
        }
    }
    lemma_first_space(rest, rest.len());
    assert(first_field(rest) == rest);
    assert(crate::numbers::digit_value(rest[0]) is Some);
    assert(trim_start(rest) == rest);
    assert(rest.drop_last().drop_last() =~= digits);
    assert(crate::numbers::digit_value(digits.last()) is Some);
    assert(trim_end(digits) == digits);
    assert(trim_end(rest.drop_last()) == trim_end(digits));
    assert(trim_end(rest) == digits);
    assert(trim(rest) == digits);
}

// ---------------------------------------------------------------------
// The server: what it does with each command.

/// The id of a request to cancel.
pub enum CancelId {
    Number(u64),
    Text(String),
}

/// A command from the editor, with what the server reads of it.
#[allow(inconsistent_fields)]
pub enum LspCommand {
    Initialize { id: usize },
    Initialized,
    DidOpen { uri: Url, text: String },
    DidChange,
    Hover { id: usize, uri: Url, position: Position },
    Completion { id: usize },
    CancelRequest { id: CancelId },
    CompletionItemResolve { id: usize },
}

/// What the server does with a command.
pub enum ServerAction {
    /// Send the request to the query system.
    Request(QueryRequest),
    /// Cancel the task with this id.
    Cancel(TaskId),
    /// Nothing but to log that the command arrived.
    Log,
}

/// Decides what to do with `command`; a cancellation must name its
/// request by number.
pub fn command_action(command: LspCommand) -> (r: ServerAction)
    requires
        !(command matches LspCommand::CancelRequest { id: CancelId::Text(_) }),
    ensures
        match command {
            LspCommand::Initialize { id } => r == ServerAction::Request(QueryRequest::Initialize(id)),
            LspCommand::DidOpen { uri, text } => r == ServerAction::Request(QueryRequest::OpenFile(uri, text)),
            LspCommand::Hover { id, uri, position } => r == ServerAction::Request(
                QueryRequest::TypeAtPosition(id, uri, position),
            ),
            LspCommand::CancelRequest { id: CancelId::Number(n) } => r == ServerAction::Cancel(n as usize),
            _ => r is Log,
        },
{
    match command {
        LspCommand::Initialize { id } => ServerAction::Request(QueryRequest::Initialize(id)),
        LspCommand::DidOpen { uri, text } => ServerAction::Request(QueryRequest::OpenFile(uri, text)),
        LspCommand::Hover { id, uri, position } => ServerAction::Request(QueryRequest::TypeAtPosition(id, uri, position)),
        LspCommand::CancelRequest { id } => match id {
            CancelId::Number(n) => ServerAction::Cancel(n as usize),
            CancelId::Text(_) => {
                proof {
                    assert(false);
                }
                ServerAction::Log
            },
        },
        _ => ServerAction::Log,
    }
}

// ---------------------------------------------------------------------
// The responder: what it sends for each response.

/// A message for the editor.
pub enum LspReply {
    /// Hover information for request `id`: markdown text.
    Hover { id: TaskId, markdown: String },
    /// The completions for request `id`, each a label and its detail.
    Completions { id: TaskId, items: Vec<(String, String)>, is_incomplete: bool },
    /// The answer to `initialize`: the server's capabilities.
    Initialize { id: TaskId, incremental_sync: bool, hover_provider: bool, completion_provider: bool },
    /// A notification that publishes the diagnostics of a document.
    Notification { method: String, uri: Url, diagnostics: Vec<(Range, String)> },
}

/// The responder of the language server: turns the query system's
/// responses into messages for the editor.
pub struct LspResponder {
    /// The messages not yet sent.
    pub outgoing: Vec<LspReply>,
}

/// The message `reply` is what the responder sends for `message`; `None`
/// where it sends nothing (a response that the editor did not ask this
/// server for).
pub open spec fn reply_for(message: LspResponse, reply: Option<LspReply>) -> bool {
    match message {
        LspResponse::Type(id, ty) => reply == Some(LspReply::Hover { id, markdown: ty }),
        LspResponse::Completions(id, completions) => reply matches Some(LspReply::Completions { id: rid, items, is_incomplete })
            && rid == id && items@ == completions@ && !is_incomplete,
        LspResponse::Initialized(id) => reply == Some(
            LspReply::Initialize { id, incremental_sync: true, hover_provider: true, completion_provider: false },
        ),
        LspResponse::Diagnostics(url, diagnostics) => reply matches Some(LspReply::Notification { method, uri, diagnostics: ds })
            && method@ == "textDocument/publishDiagnostics"@ && uri == url && ds == diagnostics,
        _ => reply is None,
    }
}

impl LspResponder {
    pub fn new() -> (r: LspResponder)
        ensures
            r.outgoing@ == Seq::<LspReply>::empty(),
    {
        LspResponder { outgoing: Vec::new() }
    }

    /// The message to send for `message`, if any.
    pub fn receive_message(&mut self, message: LspResponse) -> (r: Option<LspReply>)
        ensures
            reply_for(message, r),
            final(self).outgoing@ == old(self).outgoing@,
    {
        match message {
            LspResponse::Type(id, ty) => Some(LspReply::Hover { id, markdown: ty }),
            LspResponse::Completions(id, completions) => {
                let mut completion_items: Vec<(String, String)> = Vec::new();
                let mut i: usize = 0;
                while i < completions.len()
                    invariant
                        i <= completions@.len(),
                        completion_items@ == completions@.take(i as int),
                    decreases completions@.len() - i,
                {
                    let label = completions[i].0.clone();
                    let detail = completions[i].1.clone();
                    completion_items.push((label, detail));
                    proof {
                        assert(completion_items@ =~= completions@.take(i + 1));
                    }
                    i = i + 1;
                }
                proof {
                    assert(completions@.take(i as int) =~= completions@);
                }
                Some(LspReply::Completions { id, items: completion_items, is_incomplete: false })
            },
            LspResponse::Initialized(id) => Some(
                LspReply::Initialize { id, incremental_sync: true, hover_provider: true, completion_provider: false },
            ),
            LspResponse::Diagnostics(url, diagnostics) => Some(
                LspReply::Notification {
                    method: String::from_str("textDocument/publishDiagnostics"),
                    uri: url,
                    diagnostics,
                },
            ),
            _ => None,
        }
    }
}

impl Actor for LspResponder {
    type InMessage = LspResponse;

    /// Handles the first message, queueing what it sends.
    fn receive_messages(&mut self, messages: &mut VecDeque<LspResponse>)
        ensures
            old(messages)@.len() == 0 ==> final(messages)@ == old(messages)@ && final(self).outgoing@ == old(self).outgoing@,
            old(messages)@.len() > 0 ==> {
                &&& final(messages)@ == old(messages)@.drop_first()
                &&& exists|reply: Option<LspReply>| {
                    &&& reply_for(old(messages)@[0], reply)
                    &&& final(self).outgoing@ == match reply {
                        Some(m) => old(self).outgoing@.push(m),
                        None => old(self).outgoing@,
                    }
                }
            },
    {
        match messages.pop_front() {
            Some(message) => {
                let reply = self.receive_message(message);
                match reply {
                    Some(m) => {
                        self.outgoing.push(m);
                    },
                    None => {},
                }
            },
            None => {},
        }
    }
}

} // verus!
