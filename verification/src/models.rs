//! Plain data shapes of the engine — chat turns, request and response
//! bodies, the error taxonomy — and the `role: content` line codec in
//! which the message store keeps each turn.

use vstd::prelude::*;
use vstd::string::*;

verus! {

/// One chat turn: a free-form speaker label and its text.
pub struct MemoryMessage {
    pub role: String,
    pub content: String,
}

/// The mathematical value of a [`MemoryMessage`]: both fields as
/// character sequences.
pub ghost struct MemoryMessageView {
    pub role: Seq<char>,
    pub content: Seq<char>,
}

impl View for MemoryMessage {
    type V = MemoryMessageView;

    open spec fn view(&self) -> MemoryMessageView {
        MemoryMessageView { role: self.role@, content: self.content@ }
    }
}

impl DeepView for MemoryMessage {
    type V = MemoryMessageView;

    open spec fn deep_view(&self) -> MemoryMessageView {
        self.view()
    }
}

impl Clone for MemoryMessage {
    fn clone(&self) -> (r: Self)
        ensures
            r@ == self@,
    {
        MemoryMessage { role: self.role.clone(), content: self.content.clone() }
    }
}

/// A batch of turns to append, with an optional externally supplied
/// summary that overwrites the stored one.
pub struct MemoryMessagesAndContext {
    pub messages: Vec<MemoryMessage>,
    pub context: Option<String>,
}

/// What a windowed read returns: the most recent turns, the running
/// summary if one exists, and the tokens consumed by summarization so far.
pub struct MemoryResponse {
    pub messages: Vec<MemoryMessage>,
    pub context: Option<String>,
    pub tokens: Option<i64>,
}

/// Health-probe reply: a timestamp in milliseconds, supplied by the caller.
pub struct HealthCheckResponse {
    pub now: u128,
}

/// Acknowledgment returned by the mutating endpoints.
pub struct AckResponse {
    pub status: &'static str,
}

/// Body of a semantic-search request.
pub struct SearchPayload {
    pub text: String,
}

/// Optional namespace attached to append and delete requests.
pub struct NamespaceQuery {
    pub namespace: Option<String>,
}

/// Pagination parameters of a session-listing request.
pub struct GetSessionsQuery {
    pub page: usize,
    pub size: usize,
    pub namespace: Option<String>,
}

/// Page number used when a listing request names none.
pub fn default_page() -> (r: usize)
    ensures
        r == 1,
{
    1
}

/// Page size used when a listing request names none.
pub fn default_size() -> (r: usize)
    ensures
        r == 10,
{
    10
}

/// Marker for the pooled language-model client manager; the pool and the
/// clients it hands out live outside the verified core.
pub struct OpenAIClientManager {}

/// Failures the engine reports: a store-layer failure, carried as the
/// store's message, or a summarization pass that produced no usable
/// summary.
#[derive(Debug)]
pub enum MotorheadError {
    RedisError(String),
    IncrementalSummarizationError(String),
}

impl MotorheadError {
    /// The error rendered as one line of text.
    pub fn to_message(&self) -> (r: String)
        ensures
            *self matches MotorheadError::RedisError(e)
                ==> r@ == "Redis error: "@ + e@,
            *self matches MotorheadError::IncrementalSummarizationError(e)
                ==> r@ == "Incremental summarization error: "@ + e@,
    {
        match self {
            MotorheadError::RedisError(e) => {
                let mut s = String::from_str("Redis error: ");
                s.append(e.as_str());
                s
            },
            MotorheadError::IncrementalSummarizationError(e) => {
                let mut s = String::from_str("Incremental summarization error: ");
                s.append(e.as_str());
                s
            },
        }
    }
}

/// A request rejected before any store mutation.
#[derive(Debug)]
pub enum ValidationError {
    PageTooLarge,
}

impl ValidationError {
    /// The rejection rendered as one line of text.
    pub fn to_message(&self) -> (r: String)
        ensures
            r@ == "Page size must not exceed 100"@,
    {
        String::from_str("Page size must not exceed 100")
    }
}

/// The line under which a turn is stored: the role, a separating
/// `": "`, then the content.
pub open spec fn encoded_message(role: Seq<char>, content: Seq<char>) -> Seq<char> {
    role + ": "@ + content
}

/// Encodes one turn as its stored line.
pub fn encode_message(m: &MemoryMessage) -> (r: String)
    ensures
        r@ == encoded_message(m@.role, m@.content),
{
    let mut s = m.role.clone();
    s.append(": ");
    s.append(m.content.as_str());
    s
}

/// Splits `s` at the first `": "` at or after position `i`: the part
/// before it and the part after it, or nothing when no separator follows.
pub open spec fn spec_split_at_sep(s: Seq<char>, i: int) -> Option<(Seq<char>, Seq<char>)>
    decreases s.len() - i,
{
    if i < 0 || i + 2 > s.len() {
        None
    } else if s[i] == ':' && s[i + 1] == ' ' {
        Some((s.take(i), s.skip(i + 2)))
    } else {
        spec_split_at_sep(s, i + 1)
    }
}

/// A stored line split at its first `": "`: the role before it, the
/// content after it; a line without the separator is not a turn.
pub open spec fn spec_parse_message(s: Seq<char>) -> Option<(Seq<char>, Seq<char>)> {
    spec_split_at_sep(s, 0)
}

/// Decodes one stored line back into a turn, or nothing when the line
/// holds no `": "` separator.
pub fn parse_message(line: &str) -> (r: Option<MemoryMessage>)
    ensures
        match r {
            Some(m) => spec_parse_message(line@) == Some((m@.role, m@.content)),
            None => spec_parse_message(line@) is None,
        },
{
    let len = line.unicode_len();
    let mut i: usize = 0;
    while i < len && i + 1 < len
        invariant
            i <= len,
            len == line@.len(),
            spec_split_at_sep(line@, 0) == spec_split_at_sep(line@, i as int),
        decreases len - i,
    {
        let c0 = line.get_char(i);
        let c1 = line.get_char(i + 1);
        if c0 == ':' && c1 == ' ' {
            let role = line.substring_char(0, i);
            let content = line.substring_char(i + 2, len);
            return Some(MemoryMessage {
                role: String::from_str(role),
                content: String::from_str(content),
            });
        }
        proof {
            assert(spec_split_at_sep(line@, i as int) == spec_split_at_sep(line@, i + 1));
        }
        i = i + 1;
    }
    None
}

/// A role that holds no `": "` of its own comes back exactly when its
/// stored line is decoded, with its content.
pub proof fn lemma_message_round_trip(role: Seq<char>, content: Seq<char>)
    requires
        forall|j: int| 0 <= j && j + 1 < role.len()
            ==> !(#[trigger] role[j] == ':' && role[j + 1] == ' '),
    ensures
        spec_parse_message(encoded_message(role, content))
            == Some((role, content)),
{
    reveal_strlit(": ");
    assert(": "@ =~= seq![':', ' ']);
    lemma_round_trip_from(role, content, 0);
}

proof fn lemma_round_trip_from(role: Seq<char>, content: Seq<char>, i: int)
    requires
        0 <= i <= role.len(),
        ": "@ == seq![':', ' '],
        forall|j: int| i <= j && j + 1 < role.len()
            ==> !(#[trigger] role[j] == ':' && role[j + 1] == ' '),
    ensures
        spec_split_at_sep(encoded_message(role, content), i)
            == Some((role, content)),
    decreases role.len() - i,
{
    let whole = encoded_message(role, content);
    assert(whole.len() == role.len() + 2 + content.len());
    if i == role.len() {
        // The separator itself stands at i.
        assert(whole[i] == ':' && whole[i + 1] == ' ');
        assert(whole.take(i) =~= role);
        assert(whole.skip(i + 2) =~= content);
    } else {
        // Still inside the role: no separator starts here.
        assert(whole[i] == role[i]);
        if i + 1 < role.len() {
            assert(whole[i + 1] == role[i + 1]);
            assert(!(role[i] == ':' && role[i + 1] == ' '));
        } else {
            assert(whole[i + 1] == ':');
        }
        assert(!(whole[i] == ':' && whole[i + 1] == ' '));
        lemma_round_trip_from(role, content, i + 1);
    }
}

} // verus!
