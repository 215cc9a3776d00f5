//! Completion backends stream events to the editor over a channel: text fragments, then `Done` or
//! an error. This module holds the events, the checks a backend makes on a request, and the
//! helpers that drain a stream with a deadline.

use vstd::prelude::*;

use std::path::{Path, PathBuf};
use std::sync::mpsc::Receiver;
use std::time::{Duration, Instant};

verus! {

/// One chat message (`system` / `user` / `assistant` roles on the model side).
#[derive(Debug, Clone, PartialEq, Eq)]
pub struct ChatMessage {
    pub role: String,
    pub content: String,
}

/// Event sent to the editor; one stream per request.
#[derive(Debug, Clone, PartialEq, Eq)]
pub enum AssistantEvent {
    /// A fragment of text.
    Token(String),
    /// The response ended without a protocol error.
    Done,
    /// Transport, parse or safety-rule error.
    Error(AssistantError),
}

/// A non-fatal error: the editor may log it and go on.
#[derive(Debug, Clone, PartialEq, Eq)]
pub enum AssistantError {
    Disabled,
    BadRequest(&'static str),
    Transport(String),
    ParseResponse(String),
    Aborted,
    Io(String),
}

/// Model of an [`AssistantError`]: texts as character sequences.
pub enum AssistantFailure {
    Disabled,
    BadRequest(Seq<char>),
    Transport(Seq<char>),
    ParseResponse(Seq<char>),
    Aborted,
    Io(Seq<char>),
}

impl View for AssistantError {
    type V = AssistantFailure;

    open spec fn view(&self) -> AssistantFailure {
        match self {
            AssistantError::Disabled => AssistantFailure::Disabled,
            AssistantError::BadRequest(m) => AssistantFailure::BadRequest(m@),
            AssistantError::Transport(m) => AssistantFailure::Transport(m@),
            AssistantError::ParseResponse(m) => AssistantFailure::ParseResponse(m@),
            AssistantError::Aborted => AssistantFailure::Aborted,
            AssistantError::Io(m) => AssistantFailure::Io(m@),
        }
    }
}

/// The model of a collected text or of an error.
pub open spec fn text_outcome(r: Result<String, AssistantError>) -> Result<Seq<char>, AssistantFailure> {
    match r {
        Ok(s) => Ok(s@),
        Err(e) => Err(e@),
    }
}

/// Largest message content (in bytes) that a backend accepts.
pub const MAX_MESSAGE_BYTES: usize = 1000000;

/// Every message content is at most [`MAX_MESSAGE_BYTES`] long.
pub open spec fn messages_fit(messages: Seq<ChatMessage>) -> bool {
    forall|i: int| 0 <= i < messages.len() ==> crate::assistant::edit_proposal::byte_len((#[trigger] messages[i]).content@)
        <= MAX_MESSAGE_BYTES
}

/// The backend that makes no network call and sends no text: it answers `Done` at once.
#[derive(Debug, Default, Clone, Copy)]
pub struct NoopBackend;

impl NoopBackend {
    /// The request check made before a completion starts: a message longer than
    /// [`MAX_MESSAGE_BYTES`] is refused.
    pub fn check_messages(&self, messages: &Vec<ChatMessage>) -> (r: Result<(), AssistantError>)
        ensures
            r is Ok <==> messages_fit(messages@),
            r matches Err(e) ==> e@ == AssistantFailure::BadRequest("contenu d’un message trop long"@),
    {
        let mut i: usize = 0;
        while i < messages.len()
            invariant
                i <= messages@.len(),
                forall|k: int| 0 <= k < i ==> crate::assistant::edit_proposal::byte_len((#[trigger] messages@[k]).content@)
                    <= MAX_MESSAGE_BYTES,
            decreases messages.len() - i,
        {
            if messages[i].content.as_str().len() > MAX_MESSAGE_BYTES {
                return Err(AssistantError::BadRequest("contenu d’un message trop long"));
            }
            i = i + 1;
        }
        Ok(())
    }

    /// The only event the background worker sends: `Error(Aborted)` when the stream was
    /// cancelled before it ran, `Done` otherwise.
    pub fn worker_event(&self, cancelled: bool) -> (r: AssistantEvent)
        ensures
            cancelled ==> r == AssistantEvent::Error(AssistantError::Aborted),
            !cancelled ==> r == AssistantEvent::Done,
    {
        if cancelled {
            AssistantEvent::Error(AssistantError::Aborted)
        } else {
            AssistantEvent::Done
        }
    }
}

#[verifier::external_type_specification]
#[verifier::external_body]
#[verifier::reject_recursive_types(T)]
pub struct ExReceiver<T>(Receiver<T>);

#[verifier::external_type_specification]
#[verifier::external_body]
pub struct ExInstant(Instant);

#[verifier::external_type_specification]
#[verifier::external_body]
pub struct ExPath(Path);

#[verifier::external_type_specification]
#[verifier::external_body]
pub struct ExPathBuf(PathBuf);

/// Waits at most `timeout` for the next event of the stream (`Receiver::recv_timeout`); `None`
/// when none came in time or the sender is gone. What arrives depends on the other thread and on
/// time, so nothing is stated of it.
#[verifier::external_body]
pub fn try_recv_for(rx: &Receiver<AssistantEvent>, timeout: Duration) -> Option<AssistantEvent> {
    rx.recv_timeout(timeout).ok()
}

/// `Instant::now`: the current time (nothing is stated of it).
#[verifier::external_body]
fn now() -> Instant {
    Instant::now()
}

/// `Instant::checked_add`: the instant `d` after `t`, or `None` when it cannot be represented
/// (which depends on the platform's clock, so nothing more is stated).
#[verifier::external_body]
fn instant_after(t: Instant, d: Duration) -> Option<Instant> {
    t.checked_add(d)
}

/// `Instant::saturating_duration_since`: the time from `earlier` to `later`, zero when `later`
/// comes first (durations are opaque here, so nothing is stated).
#[verifier::external_body]
fn time_between(later: Instant, earlier: Instant) -> Duration {
    later.saturating_duration_since(earlier)
}

/// `Duration::is_zero` (durations are opaque here, so nothing is stated).
#[verifier::external_body]
fn duration_is_zero(d: Duration) -> bool {
    d.is_zero()
}

/// Message of the error met when no event came before the wait ended.
pub open spec fn silence_message() -> Seq<char> {
    "aucun événement avant timeout"@
}

/// How a stream drained by [`collect_tokens_simple`] ends, given the text of the tokens received
/// before the last step and that last step: `Some(event)` for an event that ends the stream,
/// `None` for a wait that ended with nothing.
pub open spec fn gathered(text: Seq<char>, last: Option<AssistantEvent>) -> Result<Seq<char>, AssistantFailure> {
    match last {
        Some(AssistantEvent::Done) => Ok(text),
        Some(AssistantEvent::Error(e)) => Err(e@),
        _ => Err(AssistantFailure::Transport(silence_message())),
    }
}

/// One step of draining a stream: given the text so far and what the wait gave, either the text
/// grows by a token (`Ok(text)`) or the drain ends (`Err(result)`).
pub fn gather_step(text: String, ev: Option<AssistantEvent>) -> (r: Result<String, Result<String, AssistantError>>)
    ensures
        ev matches Some(AssistantEvent::Token(t)) ==> (r matches Ok(s) && s@ == text@ + t@),
        !(ev matches Some(AssistantEvent::Token(_))) ==> (r matches Err(res) && text_outcome(res) == gathered(
            text@,
            ev,
        )),
{
    match ev {
        Some(AssistantEvent::Token(t)) => {
            let mut s = text;
            s.append(t.as_str());
            Ok(s)
        },
        Some(AssistantEvent::Done) => Err(Ok(text)),
        Some(AssistantEvent::Error(e)) => Err(Err(e)),
        None => Err(Err(AssistantError::Transport(String::from_str("aucun événement avant timeout")))),
    }
}

/// The receiving end of a completion stream, with the record of what each wait on it gave.
pub struct EventReceiver {
    rx: Receiver<AssistantEvent>,
    log: Ghost<Seq<Option<AssistantEvent>>>,
}

impl EventReceiver {
    /// What each wait on this receiver gave, in order (`None` for a wait that ended with nothing).
    pub closed spec fn received(&self) -> Seq<Option<AssistantEvent>> {
        self.log@
    }

    /// Takes over `rx`; nothing has been received through it yet.
    pub fn new(rx: Receiver<AssistantEvent>) -> (r: Self)
        ensures
            r.received() == Seq::<Option<AssistantEvent>>::empty(),
    {
        EventReceiver { rx, log: Ghost(Seq::empty()) }
    }

    /// Waits at most `timeout` for the next event (see [`try_recv_for`]); what it gives is
    /// recorded.
    pub fn recv_for(&mut self, timeout: Duration) -> (ev: Option<AssistantEvent>)
        ensures
            final(self).received() == old(self).received().push(ev),
    {
        let ev = try_recv_for(&self.rx, timeout);
        self.log = Ghost(self.log@.push(ev));
        ev
    }
}

/// Every wait of `log` gave a token.
pub open spec fn all_tokens(log: Seq<Option<AssistantEvent>>) -> bool {
    forall|i: int| 0 <= i < log.len() ==> (#[trigger] log[i]) matches Some(AssistantEvent::Token(_))
}

/// The texts of the tokens of `log` put end to end.
pub open spec fn tokens_text(log: Seq<Option<AssistantEvent>>) -> Seq<char>
    decreases log.len(),
{
    if log.len() == 0 {
        Seq::empty()
    } else {
        tokens_text(log.drop_last()) + match log.last() {
            Some(AssistantEvent::Token(t)) => t@,
            _ => Seq::empty(),
        }
    }
}

/// How the waits of `log` end a drain: when every wait but the last gave a token and the last
/// gave something else, the result [`gathered`] from the tokens' text and that last step;
/// `None` while no wait has ended it.
pub open spec fn drained(log: Seq<Option<AssistantEvent>>) -> Option<Result<Seq<char>, AssistantFailure>> {
    if log.len() > 0 && all_tokens(log.drop_last()) && !(log.last() matches Some(AssistantEvent::Token(_))) {
        Some(gathered(tokens_text(log.drop_last()), log.last()))
    } else {
        None
    }
}

/// Message of the error met when the deadline passed before the stream ended.
pub open spec fn deadline_message() -> Seq<char> {
    "délai d’essai collect_tokens_simple"@
}

/// Receives events until `Done` or `Error`, putting the tokens end to end, within `deadline`.
/// With `waits` the record of the waits this call made on `rx`: when they end the stream (tokens,
/// then `Done`, an `Error` or a wait that ended with nothing), the result is what [`drained`]
/// gives of them, and no event after that one is taken; otherwise every wait gave a token, time
/// ran out, and the result is the `Transport` error of the deadline. How many waits fit in the
/// deadline depends on the clock.
pub fn collect_tokens_simple(rx: &mut EventReceiver, deadline: Duration) -> (r: Result<String, AssistantError>)
    ensures
        old(rx).received().len() <= final(rx).received().len(),
        final(rx).received().subrange(0, old(rx).received().len() as int) == old(rx).received(),
        ({
            let waits = final(rx).received().subrange(old(rx).received().len() as int, final(rx).received().len() as int);
            match drained(waits) {
                Some(out) => text_outcome(r) == out,
                None => all_tokens(waits) && text_outcome(r) == Err::<Seq<char>, AssistantFailure>(
                    AssistantFailure::Transport(deadline_message()),
                ),
            }
        }),
{
    let ghost start_log = rx.received();
    proof {
        reveal_strlit("délai d’essai collect_tokens_simple");
        assert(rx.received().subrange(0, start_log.len() as int) =~= start_log);
        assert(rx.received().subrange(start_log.len() as int, rx.received().len() as int) =~= Seq::<
            Option<AssistantEvent>,
        >::empty());
    }
    let start = now();
    let end = match instant_after(start, deadline) {
        Some(e) => e,
        None => {
            return Err(AssistantError::Transport(String::from_str("délai d’essai collect_tokens_simple")));
        },
    };
    let mut s = String::new();
    // Every round waits on the channel; the count of rounds only bounds the loop for the proof
    // of termination: no deadline lets it reach `u64::MAX`.
    let mut rounds: u64 = 0;
    loop
        invariant
            start_log == old(rx).received(),
            start_log.len() <= rx.received().len(),
            rx.received().subrange(0, start_log.len() as int) == start_log,
            all_tokens(rx.received().subrange(start_log.len() as int, rx.received().len() as int)),
            s@ == tokens_text(rx.received().subrange(start_log.len() as int, rx.received().len() as int)),
            deadline_message() == "délai d’essai collect_tokens_simple"@,
        decreases u64::MAX - rounds,
    {
        let ghost waits = rx.received().subrange(start_log.len() as int, rx.received().len() as int);
        proof {
            assert(drained(waits) is None);
        }
        if rounds == u64::MAX {
            return Err(AssistantError::Transport(String::from_str("délai d’essai collect_tokens_simple")));
        }
        rounds = rounds + 1;
        let left = time_between(end, now());
        if duration_is_zero(left) {
            return Err(AssistantError::Transport(String::from_str("délai d’essai collect_tokens_simple")));
        }
        let ev = rx.recv_for(left);
        let ghost waits2 = rx.received().subrange(start_log.len() as int, rx.received().len() as int);
        proof {
            assert(waits2 =~= waits.push(ev));
            assert(waits2.drop_last() =~= waits);
            assert(rx.received().subrange(0, start_log.len() as int) =~= start_log);
        }
        match gather_step(s, ev) {
            Ok(longer) => {
                proof {
                    assert(all_tokens(waits2));
                }
                s = longer;
            },
            Err(res) => {
                return res;
            },
        }
    }
}

/// The components of a path (`Path::components`), each as its text.
pub uninterp spec fn path_parts(p: &Path) -> Seq<Seq<char>>;

/// The components of an owned path (`Path::components` of the `PathBuf`), each as its text.
pub uninterp spec fn path_buf_parts(p: PathBuf) -> Seq<Seq<char>>;

/// A single ordinary path component: not empty, not `.` or `..`, and holding no separator (`/`,
/// `\\`) or drive marker (`:`), so that appending it to a path adds exactly one component.
pub open spec fn plain_component(s: Seq<char>) -> bool {
    &&& s.len() > 0
    &&& s != "."@
    &&& s != ".."@
    &&& forall|i: int| 0 <= i < s.len() ==> #[trigger] s[i] != '/' && s[i] != '\\' && s[i] != ':'
}

/// No component is `.` or `..` (as texts).
pub open spec fn no_dot_parts(parts: Seq<Seq<char>>) -> bool {
    !parts.contains("."@) && !parts.contains(".."@)
}

/// `Path::join` with a single ordinary component: the documentation defines it as `push` on an
/// owned copy of `base`. When no component of `base` is `.` or `..`, `part` becomes one more
/// component after those of `base`. Otherwise nothing is stated: on Windows, pushing onto a
/// verbatim (`\\?\`) path normalizes it, dropping such components.
#[verifier::external_body]
fn path_join(base: &Path, part: &str) -> (r: PathBuf)
    requires
        plain_component(part@),
    ensures
        no_dot_parts(path_parts(base)) ==> path_buf_parts(r) == path_parts(base).push(part@),
{
    base.join(part)
}

/// `PathBuf::push` with a single ordinary component: when no component of the path is `.` or
/// `..`, it gains `part` as one more component after its own (a separator is inserted where
/// needed). Otherwise nothing is stated: on Windows, pushing onto a verbatim (`\\?\`) path
/// normalizes it, dropping such components.
#[verifier::external_body]
fn path_push(p: &mut PathBuf, part: &str)
    requires
        plain_component(part@),
    ensures
        no_dot_parts(path_buf_parts(*old(p))) ==> path_buf_parts(*final(p)) == path_buf_parts(*old(p)).push(part@),
{
    p.push(part)
}

/// Where the workspace keeps the assistant settings: `<base>/editor/assistant.json`. When no
/// component of `base` is `.` or `..`, its components are those of `base` followed by `editor`
/// and `assistant.json`.
pub fn read_workspace_assistant_path_hint(base: &Path) -> (r: PathBuf)
    ensures
        no_dot_parts(path_parts(base)) ==> path_buf_parts(r) == path_parts(base) + seq!["editor"@, "assistant.json"@],
{
    proof {
        reveal_strlit("editor");
        reveal_strlit("assistant.json");
        reveal_strlit(".");
        reveal_strlit("..");
        assert("editor"@.len() != "."@.len() && "editor"@.len() != ".."@.len());
        assert("assistant.json"@.len() != "."@.len() && "assistant.json"@.len() != ".."@.len());
    }
    let mut p = path_join(base, "editor");
    proof {
        let b = path_parts(base);
        if no_dot_parts(b) {
            assert forall|x: Seq<char>| x == "."@ || x == ".."@ implies !b.push("editor"@).contains(x) by {
                if b.push("editor"@).contains(x) {
                    let i = choose|i: int| 0 <= i < b.push("editor"@).len() && b.push("editor"@)[i] == x;
                    if i < b.len() {
                        assert(b.contains(x));
                    }
                }
            }
        }
    }
    path_push(&mut p, "assistant.json");
    assert(path_parts(base).push("editor"@).push("assistant.json"@) =~= path_parts(base) + seq![
        "editor"@,
        "assistant.json"@,
    ]);
    p
}

} // verus!
