//! The compaction pass: the overflow of an overflowing window is walked
//! in chronological order and split greedily into chunks that fit the
//! model's input budget; each chunk is summarized into the running
//! context by one model call, and the pass ends in one atomic commit.
//! The model calls themselves happen outside; this module plans the
//! chunks, builds each prompt, accounts the token usage, and decides the
//! outcome.

use vstd::prelude::*;
use vstd::string::*;
use vstd::seq_lib::lemma_flatten_concat;
use crate::models::MotorheadError;
use crate::tokens::{count_tokens, p50k_token_count};

verus! {

/// The model's whole context window, in tokens.
pub const MAX_TOKENS: usize = 4096;

/// Tokens reserved for the model's own summary output.
pub const SUMMARY_MAX_TOKENS: usize = 512;

/// Tokens reserved for the prompt scaffolding.
pub const BUFFER_TOKENS: usize = 230;

/// What is left of the window for a chunk's messages.
pub const MAX_MESSAGE_TOKENS: usize = MAX_TOKENS - SUMMARY_MAX_TOKENS - BUFFER_TOKENS;

/// The token count of a chunk: the counts of its messages, summed.
pub open spec fn chunk_tokens(chunk: Seq<Seq<char>>) -> nat
    decreases chunk.len(),
{
    if chunk.len() == 0 {
        0
    } else {
        p50k_token_count(chunk[0]) + chunk_tokens(chunk.drop_first())
    }
}

/// The greedy walk over the remaining messages: a message joins the open
/// chunk while the chunk stays within the budget; otherwise the open
/// chunk is closed and the message opens the next one.  A non-empty open
/// chunk is closed at the end.
pub open spec fn greedy_from(
    msgs: Seq<Seq<char>>,
    cur: Seq<Seq<char>>,
    cur_tokens: nat,
    budget: nat,
) -> Seq<Seq<Seq<char>>>
    decreases msgs.len(),
{
    if msgs.len() == 0 {
        if cur.len() == 0 {
            Seq::empty()
        } else {
            seq![cur]
        }
    } else if cur_tokens + p50k_token_count(msgs[0]) <= budget {
        greedy_from(
            msgs.drop_first(),
            cur.push(msgs[0]),
            cur_tokens + p50k_token_count(msgs[0]),
            budget,
        )
    } else {
        seq![cur] + greedy_from(msgs.drop_first(), seq![msgs[0]], p50k_token_count(msgs[0]), budget)
    }
}

/// The chunks of a chronological message sequence under a token budget.
pub open spec fn greedy_chunks(msgs: Seq<Seq<char>>, budget: nat) -> Seq<Seq<Seq<char>>> {
    greedy_from(msgs, Seq::empty(), 0, budget)
}

proof fn lemma_chunk_tokens_push(s: Seq<Seq<char>>, x: Seq<char>)
    ensures
        chunk_tokens(s.push(x)) == chunk_tokens(s) + p50k_token_count(x),
    decreases s.len(),
{
    if s.len() == 0 {
        assert(s.push(x).drop_first() =~= s);
        assert(chunk_tokens(s.push(x)) == p50k_token_count(x) + chunk_tokens(s));
    } else {
        assert(s.push(x).drop_first() =~= s.drop_first().push(x));
        lemma_chunk_tokens_push(s.drop_first(), x);
        assert(s.push(x)[0] == s[0]);
    }
}

proof fn lemma_greedy_flatten(msgs: Seq<Seq<char>>, cur: Seq<Seq<char>>, cur_tokens: nat, budget: nat)
    ensures
        greedy_from(msgs, cur, cur_tokens, budget).flatten() == cur + msgs,
    decreases msgs.len(),
{
    let r = greedy_from(msgs, cur, cur_tokens, budget);
    if msgs.len() == 0 {
        if cur.len() == 0 {
            assert(r.flatten() =~= cur + msgs);
        } else {
            r.lemma_flatten_singleton();
            assert(r.flatten() =~= cur + msgs);
        }
    } else if cur_tokens + p50k_token_count(msgs[0]) <= budget {
        lemma_greedy_flatten(
            msgs.drop_first(),
            cur.push(msgs[0]),
            cur_tokens + p50k_token_count(msgs[0]),
            budget,
        );
        assert(cur.push(msgs[0]) + msgs.drop_first() =~= cur + msgs);
    } else {
        let rest = greedy_from(
            msgs.drop_first(),
            seq![msgs[0]],
            p50k_token_count(msgs[0]),
            budget,
        );
        lemma_greedy_flatten(msgs.drop_first(), seq![msgs[0]], p50k_token_count(msgs[0]), budget);
        lemma_flatten_concat(seq![cur], rest);
        seq![cur].lemma_flatten_singleton();
        assert(cur + (seq![msgs[0]] + msgs.drop_first()) =~= cur + msgs);
    }
}

proof fn lemma_greedy_budget(msgs: Seq<Seq<char>>, cur: Seq<Seq<char>>, cur_tokens: nat, budget: nat)
    requires
        cur_tokens == chunk_tokens(cur),
        cur_tokens <= budget,
        forall|k: int| 0 <= k < msgs.len() ==> #[trigger] p50k_token_count(msgs[k]) <= budget,
    ensures
        forall|c: int| 0 <= c < greedy_from(msgs, cur, cur_tokens, budget).len()
            ==> chunk_tokens(#[trigger] greedy_from(msgs, cur, cur_tokens, budget)[c]) <= budget,
    decreases msgs.len(),
{
    let r = greedy_from(msgs, cur, cur_tokens, budget);
    if msgs.len() == 0 {
        if cur.len() > 0 {
            assert(r[0] == cur);
        }
    } else {
        let t = p50k_token_count(msgs[0]);
        assert(t <= budget);
        assert(forall|k: int| 0 <= k < msgs.drop_first().len()
            ==> #[trigger] p50k_token_count(msgs.drop_first()[k]) <= budget) by {
            assert forall|k: int| 0 <= k < msgs.drop_first().len()
                implies #[trigger] p50k_token_count(msgs.drop_first()[k]) <= budget by {
                assert(msgs.drop_first()[k] == msgs[k + 1]);
            }
        }
        if cur_tokens + t <= budget {
            lemma_chunk_tokens_push(cur, msgs[0]);
            lemma_greedy_budget(msgs.drop_first(), cur.push(msgs[0]), cur_tokens + t, budget);
            let rest = greedy_from(msgs.drop_first(), cur.push(msgs[0]), cur_tokens + t, budget);
            assert forall|c: int| 0 <= c < r.len()
                implies chunk_tokens(#[trigger] r[c]) <= budget by {
                assert(r[c] == rest[c]);
                assert(chunk_tokens(rest[c]) <= budget);
            }
        } else {
            assert(chunk_tokens(seq![msgs[0]]) == t) by {
                assert(seq![msgs[0]].drop_first() =~= Seq::<Seq<char>>::empty());
                assert(chunk_tokens(Seq::<Seq<char>>::empty()) == 0);
            }
            lemma_greedy_budget(msgs.drop_first(), seq![msgs[0]], t, budget);
            let rest = greedy_from(msgs.drop_first(), seq![msgs[0]], t, budget);
            assert forall|c: int| 0 <= c < r.len()
                implies chunk_tokens(#[trigger] r[c]) <= budget by {
                if c == 0 {
                    assert(r[0] == cur);
                } else {
                    assert(r[c] == rest[c - 1]);
                }
            }
        }
    }
}

proof fn lemma_greedy_count(msgs: Seq<Seq<char>>, cur: Seq<Seq<char>>, cur_tokens: nat, budget: nat)
    ensures
        greedy_from(msgs, cur, cur_tokens, budget).len() <= msgs.len() + 1,
    decreases msgs.len(),
{
    if msgs.len() == 0 {
    } else if cur_tokens + p50k_token_count(msgs[0]) <= budget {
        lemma_greedy_count(
            msgs.drop_first(),
            cur.push(msgs[0]),
            cur_tokens + p50k_token_count(msgs[0]),
            budget,
        );
    } else {
        lemma_greedy_count(msgs.drop_first(), seq![msgs[0]], p50k_token_count(msgs[0]), budget);
    }
}

/// Token-budgeted chunking: when every message fits the budget on its
/// own, the chunks cover the messages exactly and each chunk's token
/// count stays within the budget; and messages whose total exceeds the
/// budget are split over at least two summarization calls.
pub proof fn lemma_chunking(msgs: Seq<Seq<char>>, budget: nat)
    requires
        forall|k: int| 0 <= k < msgs.len() ==> #[trigger] p50k_token_count(msgs[k]) <= budget,
    ensures
        greedy_chunks(msgs, budget).flatten() == msgs,
        forall|c: int| 0 <= c < greedy_chunks(msgs, budget).len()
            ==> chunk_tokens(#[trigger] greedy_chunks(msgs, budget)[c]) <= budget,
        chunk_tokens(msgs) > budget ==> greedy_chunks(msgs, budget).len() >= 2,
{
    let r = greedy_chunks(msgs, budget);
    lemma_greedy_flatten(msgs, Seq::empty(), 0, budget);
    assert(Seq::<Seq<char>>::empty() + msgs =~= msgs);
    assert(chunk_tokens(Seq::<Seq<char>>::empty()) == 0);
    lemma_greedy_budget(msgs, Seq::empty(), 0, budget);
    if chunk_tokens(msgs) > budget {
        if r.len() == 0 {
            assert(r.flatten() =~= Seq::<Seq<char>>::empty());
            assert(chunk_tokens(msgs) == 0);
        } else if r.len() == 1 {
            r.lemma_flatten_singleton();
            assert(chunk_tokens(r[0]) <= budget);
            assert(chunk_tokens(msgs) <= budget);
        }
    }
}

/// Splits a chronological message sequence into greedy token-budgeted
/// chunks: each chunk to be summarized by one model call.
pub fn plan_chunks(messages: &Vec<String>, max_chunk_tokens: usize) -> (chunks: Vec<Vec<String>>)
    ensures
        chunks.deep_view() == greedy_chunks(messages.deep_view(), max_chunk_tokens as nat),
{
    let ghost full = messages.deep_view();
    let ghost budget = max_chunk_tokens as nat;
    let n = messages.len();
    let mut chunks: Vec<Vec<String>> = Vec::new();
    let mut cur: Vec<String> = Vec::new();
    let mut cur_tokens: usize = 0;
    let mut i: usize = 0;
    proof {
        assert(full.skip(0) =~= full);
        assert(chunks.deep_view() + greedy_from(full, cur.deep_view(), 0, budget)
            =~= greedy_from(full, cur.deep_view(), 0, budget));
        assert(cur.deep_view() =~= Seq::<Seq<char>>::empty());
    }
    #[verifier::loop_isolation(false)]
    while i < n
        invariant
            i <= n,
            greedy_chunks(full, budget) == chunks.deep_view()
                + greedy_from(full.skip(i as int), cur.deep_view(), cur_tokens as nat, budget),
        decreases n - i,
    {
        let t = count_tokens(messages[i].as_str());
        let ghost rest = full.skip(i as int);
        let ghost curdv = cur.deep_view();
        proof {
            assert(rest.len() == n - i);
            assert(rest[0] == full[i as int]);
            assert(rest.drop_first() =~= full.skip(i + 1));
        }
        if t <= max_chunk_tokens && cur_tokens <= max_chunk_tokens - t {
            let ghost dv = cur.deep_view();
            cur.push(messages[i].clone());
            cur_tokens = cur_tokens + t;
            proof {
                assert(cur.deep_view() =~= dv.push(full[i as int]));
            }
        } else {
            let ghost cdv = chunks.deep_view();
            chunks.push(cur);
            proof {
                assert(chunks.deep_view() =~= cdv.push(curdv));
            }
            cur = Vec::new();
            cur.push(messages[i].clone());
            cur_tokens = t;
            proof {
                assert(cur.deep_view() =~= seq![full[i as int]]);
                assert(cdv.push(curdv) + greedy_from(full.skip(i + 1), seq![full[i as int]],
                    t as nat, budget)
                    =~= cdv + (seq![curdv] + greedy_from(full.skip(i + 1),
                        seq![full[i as int]], t as nat, budget)));
            }
        }
        i = i + 1;
    }
    proof {
        assert(full.skip(n as int).len() == 0);
        if cur.deep_view().len() == 0 {
            assert(chunks.deep_view() + greedy_from(full.skip(n as int), cur.deep_view(),
                cur_tokens as nat, budget) =~= chunks.deep_view());
        }
    }
    if cur.len() > 0 {
        let ghost cdv = chunks.deep_view();
        let ghost curdv = cur.deep_view();
        proof {
            assert(cdv + greedy_from(full.skip(n as int), curdv, cur_tokens as nat, budget)
                =~= cdv.push(curdv));
        }
        chunks.push(cur);
        proof {
            assert(chunks.deep_view() =~= cdv.push(curdv));
        }
    }
    chunks
}

/// The lines of a chunk joined, one message per line.
pub open spec fn joined_lines(msgs: Seq<Seq<char>>) -> Seq<char>
    decreases msgs.len(),
{
    if msgs.len() == 0 {
        Seq::empty()
    } else if msgs.len() == 1 {
        msgs[0]
    } else {
        msgs[0] + "\n"@ + joined_lines(msgs.drop_first())
    }
}

proof fn lemma_joined_push(s: Seq<Seq<char>>, x: Seq<char>)
    ensures
        joined_lines(s.push(x)) == if s.len() == 0 {
            x
        } else {
            joined_lines(s) + "\n"@ + x
        },
    decreases s.len(),
{
    if s.len() == 0 {
        assert(s.push(x)[0] == x);
    } else if s.len() == 1 {
        assert(s.push(x)[0] == s[0]);
        assert(s.push(x).drop_first() =~= seq![x]);
        assert(joined_lines(seq![x]) == x);
    } else {
        assert(s.push(x)[0] == s[0]);
        assert(s.push(x).drop_first() =~= s.drop_first().push(x));
        lemma_joined_push(s.drop_first(), x);
        assert(s[0] + "\n"@ + (joined_lines(s.drop_first()) + "\n"@ + x)
            =~= (s[0] + "\n"@ + joined_lines(s.drop_first())) + "\n"@ + x);
    }
}

/// Joins a chunk's messages, one per line.
pub fn join_lines(msgs: &Vec<String>) -> (r: String)
    ensures
        r@ == joined_lines(msgs.deep_view()),
{
    let ghost dv = msgs.deep_view();
    let n = msgs.len();
    let mut s = String::new();
    let mut i: usize = 0;
    #[verifier::loop_isolation(false)]
    while i < n
        invariant
            i <= n,
            s@ == joined_lines(dv.take(i as int)),
        decreases n - i,
    {
        proof {
            assert(dv.take(i + 1) =~= dv.take(i as int).push(dv[i as int]));
            lemma_joined_push(dv.take(i as int), dv[i as int]);
        }
        if i > 0 {
            s.append("\n");
        }
        s.append(msgs[i].as_str());
        i = i + 1;
    }
    proof {
        assert(dv.take(n as int) =~= dv);
    }
    s
}

/// The fixed template up to the current summary.
pub open spec fn prompt_head() -> Seq<char> {
    "\nProgressively summarize the lines of conversation provided, adding onto the previous summary returning a new summary. If the lines are meaningless just return NONE\n\nEXAMPLE\nCurrent summary:\nThe human asks who is the lead singer of Motorhead. The AI responds Lemmy Kilmister.\nNew lines of conversation:\nHuman: What are the other members of Motorhead?\nAI: The original members included Lemmy Kilmister (vocals, bass), Larry Wallis (guitar), and Lucas Fox (drums), with notable members throughout the years including \\\"Fast\\\" Eddie Clarke (guitar), Phil \\\"Philthy Animal\\\" Taylor (drums), and Mikkey Dee (drums).\nNew summary:\nThe human asks who is the lead singer and other members of Motorhead. The AI responds Lemmy Kilmister is the lead singer and other original members include Larry Wallis, and Lucas Fox, with notable past members including \\\"Fast\\\" Eddie Clarke, Phil \\\"Philthy Animal\\\" Taylor, and Mikkey Dee.\nEND OF EXAMPLE\n\nCurrent summary:\n"@
}

/// The fixed template between the summary and the new lines.
pub open spec fn prompt_mid() -> Seq<char> {
    "\nNew lines of conversation:\n"@
}

/// The fixed template after the new lines.
pub open spec fn prompt_tail() -> Seq<char> {
    "\nNew summary:\n"@
}

/// The whole prompt of one summarization call: the template embedding
/// the current summary (empty when none exists yet) and the chunk's
/// lines, instructing the model to extend the prior summary.
pub open spec fn summary_prompt(context: Option<Seq<char>>, chunk: Seq<Seq<char>>) -> Seq<char> {
    prompt_head() + (match context {
        Some(c) => c,
        None => Seq::empty(),
    }) + prompt_mid() + joined_lines(chunk) + prompt_tail()
}

/// Builds the prompt of one summarization call.
pub fn build_summary_prompt(context: &Option<String>, chunk: &Vec<String>) -> (r: String)
    ensures
        r@ == summary_prompt(context.deep_view(), chunk.deep_view()),
{
    let mut s = String::from_str(
        "\nProgressively summarize the lines of conversation provided, adding onto the previous summary returning a new summary. If the lines are meaningless just return NONE\n\nEXAMPLE\nCurrent summary:\nThe human asks who is the lead singer of Motorhead. The AI responds Lemmy Kilmister.\nNew lines of conversation:\nHuman: What are the other members of Motorhead?\nAI: The original members included Lemmy Kilmister (vocals, bass), Larry Wallis (guitar), and Lucas Fox (drums), with notable members throughout the years including \\\"Fast\\\" Eddie Clarke (guitar), Phil \\\"Philthy Animal\\\" Taylor (drums), and Mikkey Dee (drums).\nNew summary:\nThe human asks who is the lead singer and other members of Motorhead. The AI responds Lemmy Kilmister is the lead singer and other original members include Larry Wallis, and Lucas Fox, with notable past members including \\\"Fast\\\" Eddie Clarke, Phil \\\"Philthy Animal\\\" Taylor, and Mikkey Dee.\nEND OF EXAMPLE\n\nCurrent summary:\n",
    );
    match context {
        Some(c) => {
            s.append(c.as_str());
        },
        None => {},
    }
    s.append("\nNew lines of conversation:\n");
    let joined = join_lines(chunk);
    s.append(joined.as_str());
    s.append("\nNew summary:\n");
    s
}

/// What a summarization call came to: the completion's text and its
/// reported total token usage when both exist; otherwise the pass's
/// error, exactly as the missing piece names it.
pub fn summarization_outcome(
    completion: Option<String>,
    total_tokens: Option<u32>,
) -> (r: Result<(String, u32), MotorheadError>)
    ensures
        completion matches Some(c)
            ==> total_tokens matches Some(t)
            ==> (r matches Ok(p) && p.0@ == c@ && p.1 == t),
        completion is None
            ==> (r matches Err(e) && e matches MotorheadError::IncrementalSummarizationError(m)
                && m@ == "No completion found"@),
        completion is Some && total_tokens is None
            ==> (r matches Err(e) && e matches MotorheadError::IncrementalSummarizationError(m)
                && m@ == "No Usage found"@),
{
    match completion {
        None => Err(MotorheadError::IncrementalSummarizationError(
            String::from_str("No completion found"),
        )),
        Some(c) => match total_tokens {
            None => Err(MotorheadError::IncrementalSummarizationError(
                String::from_str("No Usage found"),
            )),
            Some(t) => Ok((c, t)),
        },
    }
}

/// The scheduler's trigger: a compaction runs exactly when an append
/// left the session's list longer than the window.
pub fn should_compact(new_length: usize, window_size: usize) -> (r: bool)
    ensures
        r == (new_length > window_size),
{
    new_length > window_size
}

/// The mathematical value of a compaction pass.
pub ghost struct CompactionPassView {
    pub chunks: Seq<Seq<Seq<char>>>,
    pub next: int,
    pub context: Option<Seq<char>>,
    pub total_tokens: int,
}

/// One compaction pass over a session's overflow: the planned chunks,
/// how many are summarized, the running context, and the token usage the
/// pass has accumulated.
pub struct CompactionPass {
    chunks: Vec<Vec<String>>,
    next: usize,
    context: Option<String>,
    total_tokens: u64,
}

impl View for CompactionPass {
    type V = CompactionPassView;

    closed spec fn view(&self) -> CompactionPassView {
        CompactionPassView {
            chunks: self.chunks.deep_view(),
            next: self.next as int,
            context: self.context.deep_view(),
            total_tokens: self.total_tokens as int,
        }
    }
}

impl CompactionPass {
    /// A well-formed pass: the cursor within the plan, the plan's size
    /// bounded, and the usage bounded by the calls made so far.
    pub open spec fn wf(&self) -> bool {
        &&& 0 <= self@.next <= self@.chunks.len()
        &&& self@.chunks.len() <= 0xffff_ffff
        &&& self@.total_tokens <= self@.next * 0xffff_ffff
    }

    /// Plans a pass over the overflow slice as stored (newest first),
    /// starting from the session's current summary: the slice is put in
    /// chronological order and chunked under the token budget.
    pub fn begin(
        overflow_newest_first: &Vec<String>,
        context: Option<String>,
        max_chunk_tokens: usize,
    ) -> (pass: Self)
        requires
            overflow_newest_first@.len() < 0xffff_ffff,
        ensures
            pass@.chunks == greedy_chunks(
                overflow_newest_first.deep_view().reverse(),
                max_chunk_tokens as nat,
            ),
            pass@.next == 0,
            pass@.context == context.deep_view(),
            pass@.total_tokens == 0,
            pass.wf(),
    {
        let ghost dv = overflow_newest_first.deep_view();
        let n = overflow_newest_first.len();
        let mut chronological: Vec<String> = Vec::new();
        let mut k: usize = 0;
        #[verifier::loop_isolation(false)]
        while k < n
            invariant
                k <= n,
                chronological.deep_view().len() == k,
                forall|j: int| 0 <= j < k
                    ==> #[trigger] chronological.deep_view()[j] == dv[n - 1 - j],
            decreases n - k,
        {
            let ghost cdv = chronological.deep_view();
            chronological.push(overflow_newest_first[n - 1 - k].clone());
            proof {
                assert(chronological.deep_view() =~= cdv.push(dv[n - 1 - k]));
            }
            k = k + 1;
        }
        proof {
            assert(chronological.deep_view() =~= dv.reverse());
        }
        let chunks = plan_chunks(&chronological, max_chunk_tokens);
        proof {
            lemma_greedy_count(dv.reverse(), Seq::empty(), 0, max_chunk_tokens as nat);
        }
        CompactionPass { chunks, next: 0, context, total_tokens: 0 }
    }

    /// Whether every planned chunk has been summarized.
    pub fn is_done(&self) -> (r: bool)
        requires
            self.wf(),
        ensures
            r == (self@.next == self@.chunks.len()),
    {
        self.next >= self.chunks.len()
    }

    /// The prompt of the next summarization call, embedding the running
    /// context and the next chunk; nothing once the pass is done.
    pub fn next_prompt(&self) -> (r: Option<String>)
        requires
            self.wf(),
        ensures
            (r is Some) == (self@.next < self@.chunks.len()),
            r matches Some(p)
                ==> p@ == summary_prompt(self@.context, self@.chunks[self@.next]),
    {
        if self.next < self.chunks.len() {
            Some(build_summary_prompt(&self.context, &self.chunks[self.next]))
        } else {
            None
        }
    }

    /// Records one summarization call's outcome: its text becomes the
    /// running context and its token usage joins the pass's total.
    pub fn apply_summary(&mut self, summary: String, tokens_used: u32)
        requires
            old(self).wf(),
            old(self)@.next < old(self)@.chunks.len(),
        ensures
            final(self)@.chunks == old(self)@.chunks,
            final(self)@.next == old(self)@.next + 1,
            final(self)@.context == Some(summary@),
            final(self)@.total_tokens == old(self)@.total_tokens + tokens_used,
            final(self).wf(),
    {
        let ghost nx: int = self@.next;
        let ghost tt: int = self@.total_tokens;
        proof {
            assert(tt + tokens_used <= (nx + 1) * 0xffff_ffff);
            assert((nx + 1) * 0xffff_ffff <= 0x1_0000_0000 * 0xffff_ffff) by (nonlinear_arith)
                requires
                    nx + 1 <= 0x1_0000_0000,
            ;
        }
        self.next = self.next + 1;
        self.context = Some(summary);
        self.total_tokens = self.total_tokens + (tokens_used as u64);
    }

    /// The pass's result once every chunk is summarized: the final
    /// summary and the pass's total token usage — or, when no summary
    /// exists (an empty pass over a session that never had one), the
    /// summarization error that aborts the compaction.
    pub fn finish(self) -> (r: Result<(String, u64), MotorheadError>)
        requires
            self.wf(),
            self@.next == self@.chunks.len(),
        ensures
            self@.context matches Some(c)
                ==> (r matches Ok(p) && p.0@ == c && p.1 as int == self@.total_tokens),
            self@.context is None
                ==> (r matches Err(e)
                    && e matches MotorheadError::IncrementalSummarizationError(m)
                    && m@ == "No context found after summarization"@),
    {
        match self.context {
            Some(c) => Ok((c, self.total_tokens)),
            None => Err(MotorheadError::IncrementalSummarizationError(
                String::from_str("No context found after summarization"),
            )),
        }
    }
}

} // verus!
