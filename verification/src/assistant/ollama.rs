//! Decisions of the Ollama chat backend (`POST {baseUrl}/api/chat`, streamed): which base URLs
//! and requests it accepts, where and with which model it posts, how it reads an HTTP status,
//! and which events each streamed line gives. The host does the HTTP exchange and the JSON
//! encoding and decoding.

use vstd::prelude::*;

use crate::assistant::edit_proposal::byte_len;
use crate::assistant::service::{AssistantError, AssistantEvent, AssistantFailure, ChatMessage};
use crate::text::{ascii_lower_seq, chars_of, decimal, decimal_string, push_char};

verus! {

/// Largest message content (in bytes) that the Ollama backend accepts.
pub const MAX_CHAT_MESSAGE_BYTES: usize = 2000000;

/// Most characters of an error response body quoted in a transport error.
pub const ERROR_BODY_CHARS: usize = 200;

/// `s` starts with `prefix`, ignoring ASCII case.
pub open spec fn starts_with_ignoring_case(s: Seq<char>, prefix: Seq<char>) -> bool {
    prefix.len() <= s.len() && ascii_lower_seq(s.subrange(0, prefix.len() as int)) == prefix
}

/// A base URL with an `http://` or `https://` scheme (in any case).
pub open spec fn http_base_url(s: Seq<char>) -> bool {
    starts_with_ignoring_case(s, "http://"@) || starts_with_ignoring_case(s, "https://"@)
}

fn starts_with_lower(s: &Vec<char>, prefix: &str) -> (r: bool)
    requires
        forall|i: int| 0 <= i < prefix@.len() ==> !('A' <= #[trigger] prefix@[i] <= 'Z'),
    ensures
        r == starts_with_ignoring_case(s@, prefix@),
{
    let p = chars_of(prefix);
    if p.len() > s.len() {
        return false;
    }
    let mut i: usize = 0;
    while i < p.len()
        invariant
            p@ == prefix@,
            p@.len() <= s@.len(),
            i <= p@.len(),
            forall|k: int| 0 <= k < i ==> ascii_lower_seq(s@.subrange(0, p@.len() as int))[k] == p@[k],
        decreases p.len() - i,
    {
        let c = s[i];
        let l = if 'A' <= c && c <= 'Z' { ((c as u8) + 32) as char } else { c };
        if l != p[i] {
            proof {
                assert(ascii_lower_seq(s@.subrange(0, p@.len() as int))[i as int] != p@[i as int]);
            }
            return false;
        }
        i = i + 1;
    }
    proof {
        assert(ascii_lower_seq(s@.subrange(0, p@.len() as int)) =~= p@);
    }
    true
}

/// Checks the base URL of the configuration: it must use the `http` or `https` scheme.
// `str::to_lowercase` maps no character but `H`, `T`, `P`, `S` to `h`, `t`, `p`, `s`, and leaves
// `:` and `/` alone, so its prefix test is this ASCII-case-insensitive one.
pub fn validate_base_url(base_url: &str) -> (r: Result<(), String>)
    ensures
        r is Ok <==> http_base_url(base_url@),
        r matches Err(m) ==> m@ == "baseUrl doit commencer par http:// ou https://"@,
{
    let s = chars_of(base_url);
    proof {
        reveal_strlit("http://");
        reveal_strlit("https://");
    }
    if starts_with_lower(&s, "http://") || starts_with_lower(&s, "https://") {
        Ok(())
    } else {
        Err(String::from_str("baseUrl doit commencer par http:// ou https://"))
    }
}

/// The first problem of a chat request, if any: an empty message, then an over-long one (in
/// message order), then a request with no message at all.
pub open spec fn chat_request_problem(messages: Seq<ChatMessage>) -> Option<Seq<char>> {
    let bad = |i: int| 0 <= i < messages.len() && (messages[i].content@.len() == 0 || byte_len(messages[i].content@)
        > MAX_CHAT_MESSAGE_BYTES);
    if exists|i: int| #[trigger] bad(i) {
        let i = choose|i: int| #[trigger] bad(i) && forall|j: int| 0 <= j < i ==> !#[trigger] bad(j);
        if messages[i].content@.len() == 0 {
            Some("un message a un contenu vide"@)
        } else {
            Some("contenu d’un message trop long"@)
        }
    } else if messages.len() == 0 {
        Some("au moins un message requis"@)
    } else {
        None
    }
}

proof fn lemma_first_bad(messages: Seq<ChatMessage>, i: int)
    requires
        0 <= i < messages.len(),
        messages[i].content@.len() == 0 || byte_len(messages[i].content@) > MAX_CHAT_MESSAGE_BYTES,
        forall|j: int|
            0 <= j < i ==> !((#[trigger] messages[j]).content@.len() == 0 || byte_len(messages[j].content@)
                > MAX_CHAT_MESSAGE_BYTES),
    ensures
        chat_request_problem(messages) == (if messages[i].content@.len() == 0 {
            Some("un message a un contenu vide"@)
        } else {
            Some("contenu d’un message trop long"@)
        }),
{
    let bad = |i: int| 0 <= i < messages.len() && (messages[i].content@.len() == 0 || byte_len(messages[i].content@)
        > MAX_CHAT_MESSAGE_BYTES);
    assert(bad(i));
    let k = choose|k: int| #[trigger] bad(k) && forall|j: int| 0 <= j < k ==> !#[trigger] bad(j);
    assert(bad(k) && forall|j: int| 0 <= j < k ==> !#[trigger] bad(j));
    if k < i {
        assert(!bad(k));
    }
    if i < k {
        assert(!bad(i));
    }
}

/// The checks the Ollama backend makes before it starts a completion (see
/// [`chat_request_problem`]).
pub fn check_chat_request(messages: &Vec<ChatMessage>) -> (r: Result<(), AssistantError>)
    ensures
        r is Ok <==> chat_request_problem(messages@) is None,
        r matches Err(e) ==> chat_request_problem(messages@) matches Some(m) && e@ == AssistantFailure::BadRequest(m),
{
    let ghost bad = |i: int| 0 <= i < messages@.len() && (messages@[i].content@.len() == 0 || byte_len(
        messages@[i].content@,
    ) > MAX_CHAT_MESSAGE_BYTES);
    let mut i: usize = 0;
    while i < messages.len()
        invariant
            i <= messages@.len(),
            bad == (|i: int| 0 <= i < messages@.len() && (messages@[i].content@.len() == 0 || byte_len(
                messages@[i].content@,
            ) > MAX_CHAT_MESSAGE_BYTES)),
            forall|j: int|
                0 <= j < i ==> !((#[trigger] messages@[j]).content@.len() == 0 || byte_len(messages@[j].content@)
                    > MAX_CHAT_MESSAGE_BYTES),
        decreases messages.len() - i,
    {
        let c = messages[i].content.as_str();
        if c.is_empty() {
            proof {
                lemma_first_bad(messages@, i as int);
            }
            return Err(AssistantError::BadRequest("un message a un contenu vide"));
        }
        if c.len() > MAX_CHAT_MESSAGE_BYTES {
            proof {
                lemma_first_bad(messages@, i as int);
            }
            return Err(AssistantError::BadRequest("contenu d’un message trop long"));
        }
        i = i + 1;
    }
    proof {
        assert(!exists|k: int| #[trigger] bad(k));
    }
    if messages.len() == 0 {
        return Err(AssistantError::BadRequest("au moins un message requis"));
    }
    Ok(())
}

/// `s` without its trailing `/` characters.
pub open spec fn trim_end_slashes(s: Seq<char>) -> Seq<char>
    decreases s.len(),
{
    if s.len() > 0 && s.last() == '/' {
        trim_end_slashes(s.drop_last())
    } else {
        s
    }
}

/// Dropping the trailing slashes of `s` leaves the longest prefix of `s` that does not end with
/// `/`: what is dropped is all slashes.
pub proof fn lemma_trim_end_slashes(s: Seq<char>)
    ensures
        ({
            let t = trim_end_slashes(s);
            &&& t.len() <= s.len()
            &&& t == s.subrange(0, t.len() as int)
            &&& forall|i: int| t.len() <= i < s.len() ==> #[trigger] s[i] == '/'
            &&& t.len() > 0 ==> t.last() != '/'
        }),
    decreases s.len(),
{
    if s.len() > 0 && s.last() == '/' {
        lemma_trim_end_slashes(s.drop_last());
        let t = trim_end_slashes(s);
        assert(t == s.drop_last().subrange(0, t.len() as int));
        assert(s.drop_last().subrange(0, t.len() as int) =~= s.subrange(0, t.len() as int));
        assert forall|i: int| t.len() <= i < s.len() implies #[trigger] s[i] == '/' by {
            if i < s.len() - 1 {
                assert(s.drop_last()[i] == s[i]);
            }
        }
    } else {
        assert(s.subrange(0, s.len() as int) =~= s);
    }
}

/// A request is refused exactly when it has no message or a message whose content is empty or
/// longer than 2000000 bytes; the first such message gives the reason.
pub proof fn lemma_chat_request_problem(messages: Seq<ChatMessage>, i: int)
    ensures
        chat_request_problem(messages) is None <==> (messages.len() > 0 && forall|j: int|
            0 <= j < messages.len() ==> 0 < (#[trigger] messages[j]).content@.len() && byte_len(messages[j].content@)
                <= 2000000),
        0 <= i < messages.len() && (messages[i].content@.len() == 0 || byte_len(messages[i].content@) > 2000000) && (
        forall|j: int|
            0 <= j < i ==> 0 < (#[trigger] messages[j]).content@.len() && byte_len(messages[j].content@) <= 2000000)
            ==> chat_request_problem(messages) == (if messages[i].content@.len() == 0 {
            Some("un message a un contenu vide"@)
        } else {
            Some("contenu d’un message trop long"@)
        }),
{
    let bad = |i: int| 0 <= i < messages.len() && (messages[i].content@.len() == 0 || byte_len(messages[i].content@)
        > MAX_CHAT_MESSAGE_BYTES);
    if exists|k: int| #[trigger] bad(k) {
        let k = choose|k: int| #[trigger] bad(k);
        assert(!(forall|j: int|
            0 <= j < messages.len() ==> 0 < (#[trigger] messages[j]).content@.len() && byte_len(messages[j].content@)
                <= 2000000)) by {
            assert(bad(k));
        }
        lemma_first_bad_exists(messages, k);
    } else {
        assert forall|j: int| 0 <= j < messages.len() implies 0 < (#[trigger] messages[j]).content@.len() && byte_len(
            messages[j].content@,
        ) <= 2000000 by {
            assert(!bad(j));
        }
    }
    if 0 <= i < messages.len() && (messages[i].content@.len() == 0 || byte_len(messages[i].content@) > 2000000) && (
    forall|j: int|
        0 <= j < i ==> 0 < (#[trigger] messages[j]).content@.len() && byte_len(messages[j].content@) <= 2000000) {
        lemma_first_bad(messages, i);
    }
}

proof fn lemma_first_bad_exists(messages: Seq<ChatMessage>, k: int)
    requires
        0 <= k < messages.len(),
        messages[k].content@.len() == 0 || byte_len(messages[k].content@) > MAX_CHAT_MESSAGE_BYTES,
    ensures
        chat_request_problem(messages) is Some,
    decreases k,
{
    if exists|j: int| 0 <= j < k && ((#[trigger] messages[j]).content@.len() == 0 || byte_len(messages[j].content@)
        > MAX_CHAT_MESSAGE_BYTES) {
        let j = choose|j: int| 0 <= j < k && ((#[trigger] messages[j]).content@.len() == 0 || byte_len(messages[j].content@)
            > MAX_CHAT_MESSAGE_BYTES);
        lemma_first_bad_exists(messages, j);
    } else {
        lemma_first_bad(messages, k);
    }
}

/// The chat endpoint of a server: its base URL without trailing slashes, then `/api/chat`.
pub fn chat_url(base_url: &str) -> (r: String)
    ensures
        r@ == trim_end_slashes(base_url@) + "/api/chat"@,
{
    let s = chars_of(base_url);
    let mut end: usize = s.len();
    assert(s@.subrange(0, end as int) =~= base_url@);
    while end > 0 && s[end - 1] == '/'
        invariant
            end <= s@.len(),
            s@ == base_url@,
            trim_end_slashes(s@.subrange(0, end as int)) == trim_end_slashes(base_url@),
        decreases end,
    {
        proof {
            assert(s@.subrange(0, end as int).drop_last() =~= s@.subrange(0, end - 1));
        }
        end = end - 1;
    }
    assert(trim_end_slashes(s@.subrange(0, end as int)) == s@.subrange(0, end as int));
    let mut out = String::new();
    let mut k: usize = 0;
    while k < end
        invariant
            k <= end <= s@.len(),
            out@ == s@.subrange(0, k as int),
        decreases end - k,
    {
        push_char(&mut out, s[k]);
        proof {
            assert(out@ =~= s@.subrange(0, k + 1));
        }
        k = k + 1;
    }
    out.append("/api/chat");
    assert(out@ == trim_end_slashes(base_url@) + "/api/chat"@);
    out
}

/// The model a request posts: its override when present and non-empty, else the configured one.
pub fn chat_model(model_override: &Option<String>, configured: &str) -> (r: String)
    ensures
        r@ == match model_override {
            Some(m) if m@.len() > 0 => m@,
            _ => configured@,
        },
{
    match model_override {
        Some(m) => {
            if m.as_str().is_empty() {
                configured.to_owned()
            } else {
                m.clone()
            }
        },
        None => configured.to_owned(),
    }
}

/// The transport error of a non-2xx response: its status and the first
/// [`ERROR_BODY_CHARS`] characters of its body.
pub open spec fn status_failure(code: u16, body: Seq<char>) -> Option<Seq<char>> {
    if code < 200 || code >= 300 {
        Some(
            "status HTTP "@ + decimal(code as nat) + ": "@ + body.subrange(
                0,
                if body.len() <= ERROR_BODY_CHARS { body.len() as int } else { ERROR_BODY_CHARS as int },
            ),
        )
    } else {
        None
    }
}

/// `None` for a 2xx status; otherwise the transport error that ends the stream.
pub fn http_status_failure(code: u16, body: &str) -> (r: Option<AssistantError>)
    ensures
        match r {
            None => status_failure(code, body@) is None,
            Some(e) => status_failure(code, body@) matches Some(m) && e@ == AssistantFailure::Transport(m),
        },
{
    if code >= 200 && code < 300 {
        return None;
    }
    let mut m = String::from_str("status HTTP ");
    let d = decimal_string(code as u64);
    m.append(d.as_str());
    m.append(": ");
    let chars = chars_of(body);
    let n: usize = if chars.len() <= ERROR_BODY_CHARS { chars.len() } else { ERROR_BODY_CHARS };
    let ghost head = m@;
    let mut k: usize = 0;
    while k < n
        invariant
            k <= n <= chars@.len(),
            chars@ == body@,
            m@ == head + chars@.subrange(0, k as int),
        decreases n - k,
    {
        push_char(&mut m, chars[k]);
        proof {
            assert(m@ =~= head + chars@.subrange(0, k + 1));
        }
        k = k + 1;
    }
    proof {
        reveal_strlit("status HTTP ");
        reveal_strlit(": ");
    }
    Some(AssistantError::Transport(m))
}

/// What one decoded stream line gives: the text fragment to send (the line's message, when it
/// has a non-empty one) and whether the line ends the response (`Done` follows the fragment).
pub fn stream_line_step(message: Option<String>, done: bool) -> (r: (Option<AssistantEvent>, bool))
    ensures
        r.1 == done,
        match message {
            Some(c) if c@.len() > 0 => r.0 == Some(AssistantEvent::Token(c)),
            _ => r.0 is None,
        },
{
    let token = match message {
        Some(c) => {
            if c.as_str().is_empty() {
                None
            } else {
                Some(AssistantEvent::Token(c))
            }
        },
        None => None,
    };
    (token, done)
}

} // verus!
