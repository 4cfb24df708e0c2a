//! The windowed message store of one session: a newest-first list of
//! stored lines, the running summary, and the count of tokens consumed by
//! summarization.  Appends prepend, reads take a bounded prefix, and the
//! compaction commit changes list, summary and counter in one transition.

use vstd::prelude::*;
use crate::models::{
    encode_message, encoded_message, spec_parse_message, parse_message,
    MemoryMessage, MemoryMessageView, MemoryResponse,
};
use crate::registry::{contains_id, spec_remove_id, spec_upsert, Registry};

verus! {

/// The mathematical value of a session: its stored lines newest first,
/// its summary, and its token counter.
pub ghost struct SessionView {
    pub messages: Seq<Seq<char>>,
    pub context: Option<Seq<char>>,
    pub token_count: int,
}

/// One session's state as the store keeps it.  `messages` is newest
/// first; `context` is the running summary once compaction (or a caller)
/// has set one; `token_count` accumulates the tokens every summarization
/// pass consumed, and never decreases.
pub struct SessionState {
    pub messages: Vec<String>,
    pub context: Option<String>,
    pub token_count: i64,
}

impl View for SessionState {
    type V = SessionView;

    open spec fn view(&self) -> SessionView {
        SessionView {
            messages: self.messages.deep_view(),
            context: match self.context {
                Some(ref c) => Some(c@),
                None => None,
            },
            token_count: self.token_count as int,
        }
    }
}

/// The compaction commit as one transition of the session: the list
/// trimmed to its newest `half` lines, the summary set, and the token
/// counter raised by the pass's usage.
pub open spec fn spec_commit(s: SessionView, half: int, new_context: Seq<char>, tokens_used: int) -> SessionView {
    SessionView {
        messages: s.messages.take(vstd::math::min(half, s.messages.len() as int)),
        context: Some(new_context),
        token_count: s.token_count + tokens_used,
    }
}

/// Compaction atomicity: the commit is one transition, and after it the
/// session carries all three of its effects together — the trimmed
/// window, the fresh summary, and the raised counter; a pass abandoned
/// before its commit performs no transition at all, so the stored state
/// is always fully pre-compaction or fully post-compaction.
pub proof fn lemma_commit_atomic(s: SessionView, half: int, new_context: Seq<char>, tokens_used: int)
    ensures
        spec_commit(s, half, new_context, tokens_used).messages
            == s.messages.take(vstd::math::min(half, s.messages.len() as int)),
        spec_commit(s, half, new_context, tokens_used).context == Some(new_context),
        spec_commit(s, half, new_context, tokens_used).token_count
            == s.token_count + tokens_used,
{
}

/// A batch of turns as stored lines, newest first: the batch arrives
/// oldest first and each line is prepended in turn.
pub open spec fn spec_encoded_batch(batch: Seq<MemoryMessageView>) -> Seq<Seq<char>> {
    batch.map_values(|m: MemoryMessageView| encoded_message(m.role, m.content)).reverse()
}

/// The stored lines decoded back into turns, skipping lines that hold no
/// separator.
pub open spec fn decoded_messages(lines: Seq<Seq<char>>) -> Seq<MemoryMessageView>
    decreases lines.len(),
{
    if lines.len() == 0 {
        Seq::empty()
    } else {
        let head = match spec_parse_message(lines[0]) {
            Some(p) => seq![MemoryMessageView { role: p.0, content: p.1 }],
            None => Seq::<MemoryMessageView>::empty(),
        };
        head + decoded_messages(lines.drop_first())
    }
}

proof fn lemma_decoded_push(lines: Seq<Seq<char>>, line: Seq<char>)
    ensures
        decoded_messages(lines.push(line)) == decoded_messages(lines)
            + (match spec_parse_message(line) {
                Some(p) => seq![MemoryMessageView { role: p.0, content: p.1 }],
                None => Seq::<MemoryMessageView>::empty(),
            }),
    decreases lines.len(),
{
    let tail = match spec_parse_message(line) {
        Some(p) => seq![MemoryMessageView { role: p.0, content: p.1 }],
        None => Seq::<MemoryMessageView>::empty(),
    };
    if lines.len() == 0 {
        assert(lines.push(line).drop_first() =~= lines);
        assert(decoded_messages(lines.push(line)) =~= tail);
        assert(decoded_messages(lines) + tail =~= tail);
    } else {
        assert(lines.push(line).drop_first() =~= lines.drop_first().push(line));
        lemma_decoded_push(lines.drop_first(), line);
        assert(lines.push(line)[0] == lines[0]);
        assert(decoded_messages(lines.push(line)) =~= decoded_messages(lines) + tail);
    }
}

impl SessionState {
    /// A session is well formed when its token counter is non-negative.
    pub open spec fn wf(&self) -> bool {
        self@.token_count >= 0
    }

    /// A fresh session: no lines, no summary, counter at zero.
    pub fn new() -> (s: Self)
        ensures
            s@.messages =~= Seq::<Seq<char>>::empty(),
            s@.context is None,
            s@.token_count == 0,
            s.wf(),
    {
        SessionState { messages: Vec::new(), context: None, token_count: 0 }
    }

    /// Prepends a batch of turns, oldest of the batch last, so the most
    /// recent turn ends at index 0; returns the resulting length.  The
    /// summary and the counter are untouched.
    pub fn append(&mut self, batch: &Vec<MemoryMessage>) -> (new_len: usize)
        requires
            old(self)@.messages.len() + batch@.len() <= usize::MAX,
        ensures
            final(self)@.messages == spec_encoded_batch(batch.deep_view())
                + old(self)@.messages,
            final(self)@.context == old(self)@.context,
            final(self)@.token_count == old(self)@.token_count,
            new_len == final(self)@.messages.len(),
            old(self).wf() ==> final(self).wf(),
    {
        let ghost encoded = spec_encoded_batch(batch.deep_view());
        let n = batch.len();
        let mut fresh: Vec<String> = Vec::new();
        let mut k: usize = 0;
        while k < n
            invariant
                k <= n,
                n == batch@.len(),
                encoded == spec_encoded_batch(batch.deep_view()),
                encoded.len() == n,
                fresh.deep_view() == encoded.take(k as int),
            decreases n - k,
        {
            let ghost dv = fresh.deep_view();
            let line = encode_message(&batch[n - 1 - k]);
            proof {
                assert(encoded[k as int] == line@);
                assert(encoded.take(k + 1) =~= encoded.take(k as int).push(encoded[k as int]));
            }
            fresh.push(line);
            proof {
                assert(fresh.deep_view() =~= dv.push(line@));
            }
            k = k + 1;
        }
        proof {
            assert(encoded.take(n as int) =~= encoded);
        }
        fresh.append(&mut self.messages);
        self.messages = fresh;
        proof {
            assert(self@.messages =~= encoded + old(self)@.messages);
        }
        self.messages.len()
    }

    /// Overwrites the stored summary with one the caller supplies.
    pub fn set_context(&mut self, text: String)
        ensures
            final(self)@.messages == old(self)@.messages,
            final(self)@.context == Some(text@),
            final(self)@.token_count == old(self)@.token_count,
            old(self).wf() ==> final(self).wf(),
    {
        self.context = Some(text);
    }

    /// Reads the session: the first `limit` stored lines (fewer when the
    /// list is shorter) decoded into turns, the summary, and the counter
    /// — all of one state, as one atomic read across the three keys.
    pub fn read(&self, limit: usize) -> (r: MemoryResponse)
        ensures
            r.messages.deep_view() == decoded_messages(
                self@.messages.take(vstd::math::min(limit as int, self@.messages.len() as int))),
            r.context matches Some(c) ==> self@.context == Some(c@),
            r.context is None ==> self@.context is None,
            r.tokens == Some(self.token_count),
    {
        let count = if limit < self.messages.len() { limit } else { self.messages.len() };
        let ghost prefix = self@.messages.take(count as int);
        let mut turns: Vec<MemoryMessage> = Vec::new();
        let mut i: usize = 0;
        while i < count
            invariant
                i <= count,
                count <= self.messages@.len(),
                prefix == self@.messages.take(count as int),
                turns.deep_view() == decoded_messages(prefix.take(i as int)),
            decreases count - i,
        {
            proof {
                assert(prefix.take(i + 1) =~= prefix.take(i as int).push(prefix[i as int]));
                lemma_decoded_push(prefix.take(i as int), prefix[i as int]);
            }
            match parse_message(self.messages[i].as_str()) {
                Some(m) => {
                    turns.push(m);
                    proof {
                        assert(turns.deep_view() =~= decoded_messages(prefix.take(i + 1)));
                    }
                },
                None => {
                    proof {
                        assert(turns.deep_view() =~= decoded_messages(prefix.take(i + 1)));
                    }
                },
            }
            i = i + 1;
        }
        proof {
            assert(prefix.take(count as int) =~= prefix);
        }
        let context = match &self.context {
            Some(c) => Some(c.clone()),
            None => None,
        };
        MemoryResponse { messages: turns, context, tokens: Some(self.token_count) }
    }

    /// The stored lines the compaction pass summarizes: index range
    /// `[window / 2, window)`, clamped to the list — the older half of an
    /// overflowing window, newest first as stored.
    pub fn overflow_slice(&self, window: usize) -> (r: Vec<String>)
        ensures
            r.deep_view() == self@.messages.subrange(
                vstd::math::min((window / 2) as int, self@.messages.len() as int),
                vstd::math::min(window as int, self@.messages.len() as int)),
    {
        let len = self.messages.len();
        let half = window / 2;
        let start = if half < len { half } else { len };
        let end = if window < len { window } else { len };
        let mut out: Vec<String> = Vec::new();
        let mut i: usize = start;
        while i < end
            invariant
                start <= i <= end,
                end <= self.messages@.len(),
                out.deep_view() == self@.messages.subrange(start as int, i as int),
            decreases end - i,
        {
            let ghost dv = out.deep_view();
            out.push(self.messages[i].clone());
            proof {
                assert(out.deep_view() =~= dv.push(self@.messages[i as int]));
                assert(self@.messages.subrange(start as int, i + 1)
                    =~= self@.messages.subrange(start as int, i as int)
                        .push(self@.messages[i as int]));
            }
            i = i + 1;
        }
        out
    }

    /// The compaction commit: keep only the newest `half` lines, set the
    /// summary, add the pass's token usage — all three together, as one
    /// atomic batched transition, so no state with some but not all of
    /// the three effects ever exists.
    pub fn apply_commit(&mut self, half: usize, new_context: String, tokens_used: i64)
        requires
            tokens_used >= 0,
            old(self).token_count + tokens_used <= i64::MAX,
        ensures
            final(self)@ == spec_commit(old(self)@, half as int, new_context@,
                tokens_used as int),
            old(self).wf() ==> final(self).wf(),
    {
        self.messages.truncate(half);
        self.context = Some(new_context);
        self.token_count = self.token_count + tokens_used;
        proof {
            assert(self@.messages =~= old(self)@.messages.take(
                vstd::math::min(half as int, old(self)@.messages.len() as int)));
        }
    }

    /// Deletes the session: all three keys removed in one atomic batch; a
    /// later read finds no lines, no summary, and a counter at zero.
    pub fn delete(&mut self)
        ensures
            final(self)@.messages =~= Seq::<Seq<char>>::empty(),
            final(self)@.context is None,
            final(self)@.token_count == 0,
            final(self).wf(),
    {
        self.messages = Vec::new();
        self.context = None;
        self.token_count = 0;
    }
}

/// One append request's effect on the stored state: the batch prepended
/// to the session and the session's catalog entry created or refreshed
/// under the request's timestamp — so a session stands in the registry
/// from its first append on.
pub fn record_append(
    session: &mut SessionState,
    registry: &mut Registry,
    session_id: &String,
    batch: &Vec<MemoryMessage>,
    score: i64,
) -> (new_len: usize)
    requires
        old(session)@.messages.len() + batch@.len() <= usize::MAX,
        old(registry).wf(),
    ensures
        final(session)@.messages == spec_encoded_batch(batch.deep_view())
            + old(session)@.messages,
        final(session)@.context == old(session)@.context,
        final(session)@.token_count == old(session)@.token_count,
        new_len == final(session)@.messages.len(),
        old(session).wf() ==> final(session).wf(),
        final(registry)@ == spec_upsert(old(registry)@, session_id@, score as int),
        final(registry).wf(),
        contains_id(final(registry)@, session_id@),
{
    registry.upsert(session_id, score);
    session.append(batch)
}

/// One delete request's effect on the stored state: the session's three
/// keys removed in one atomic batch, and its catalog entry removed with
/// them — a later read finds nothing and a listing no longer names it.
pub fn record_delete(
    session: &mut SessionState,
    registry: &mut Registry,
    session_id: &String,
)
    requires
        old(registry).wf(),
    ensures
        final(session)@.messages.len() == 0,
        final(session)@.context is None,
        final(session)@.token_count == 0,
        final(session).wf(),
        final(registry)@ == spec_remove_id(old(registry)@, session_id@),
        final(registry).wf(),
        !contains_id(final(registry)@, session_id@),
{
    registry.remove(session_id);
    session.delete();
}

} // verus!
