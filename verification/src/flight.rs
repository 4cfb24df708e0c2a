//! The single-flight guard of the compaction scheduler: the set of
//! session ids whose compaction task is in flight.  The check and the
//! set happen in one call, so two tasks can never both own one session;
//! the caller serializes calls with its one lock around the guard.

use vstd::prelude::*;

verus! {

/// No session id is held twice.
pub open spec fn guard_unique(s: Seq<Seq<char>>) -> bool {
    forall|i: int, j: int| 0 <= i < j < s.len() ==> #[trigger] s[i] != #[trigger] s[j]
}

/// An acquire succeeds exactly when nothing holds the id.
pub open spec fn acquire_allowed(s: Seq<Seq<char>>, id: Seq<char>) -> bool {
    !s.contains(id)
}

/// The guard after a successful acquire of the id.
pub open spec fn after_acquire(s: Seq<Seq<char>>, id: Seq<char>) -> Seq<Seq<char>> {
    s.push(id)
}

/// The guard after the id's task ends: its first hold taken out; without
/// a hold, the guard unchanged.
pub open spec fn after_release(s: Seq<Seq<char>>, id: Seq<char>) -> Seq<Seq<char>>
    decreases s.len(),
{
    if s.len() == 0 {
        s
    } else if s[0] == id {
        s.drop_first()
    } else {
        seq![s[0]] + after_release(s.drop_first(), id)
    }
}

proof fn lemma_release_props(s: Seq<Seq<char>>, id: Seq<char>)
    ensures
        forall|x: Seq<char>| #[trigger] after_release(s, id).contains(x) ==> s.contains(x),
        forall|x: Seq<char>| x != id && #[trigger] s.contains(x)
            ==> after_release(s, id).contains(x),
        guard_unique(s) ==> guard_unique(after_release(s, id)),
        guard_unique(s) ==> !after_release(s, id).contains(id),
    decreases s.len(),
{
    let r = after_release(s, id);
    if s.len() == 0 {
    } else if s[0] == id {
        assert forall|x: Seq<char>| #[trigger] r.contains(x) implies s.contains(x) by {
            let i = choose|i: int| 0 <= i < r.len() && r[i] == x;
            assert(s[i + 1] == x);
        }
        assert forall|x: Seq<char>| x != id && #[trigger] s.contains(x)
            implies r.contains(x) by {
            let i = choose|i: int| 0 <= i < s.len() && s[i] == x;
            assert(i > 0);
            assert(r[i - 1] == x);
        }
        if guard_unique(s) {
            assert forall|j: int| 0 <= j < r.len() implies r[j] != id by {
                assert(s[0] != s[j + 1]);
            }
        }
    } else {
        let d = s.drop_first();
        lemma_release_props(d, id);
        let rd = after_release(d, id);
        assert(r == seq![s[0]] + rd);
        assert(r[0] == s[0]);
        assert(forall|j: int| 0 <= j < rd.len() ==> r[j + 1] == #[trigger] rd[j]);
        assert forall|x: Seq<char>| #[trigger] r.contains(x) implies s.contains(x) by {
            let i = choose|i: int| 0 <= i < r.len() && r[i] == x;
            if i == 0 {
                assert(s[0] == x);
            } else {
                assert(rd.contains(x));
                let k = choose|k: int| 0 <= k < d.len() && d[k] == x;
                assert(s[k + 1] == x);
            }
        }
        assert forall|x: Seq<char>| x != id && #[trigger] s.contains(x)
            implies r.contains(x) by {
            let i = choose|i: int| 0 <= i < s.len() && s[i] == x;
            if i == 0 {
                assert(r[0] == x);
            } else {
                assert(d[i - 1] == x);
                assert(d.contains(x));
                assert(rd.contains(x));
                let k = choose|k: int| 0 <= k < rd.len() && rd[k] == x;
                assert(r[k + 1] == x);
            }
        }
        if guard_unique(s) {
            assert(forall|i: int, j: int| 0 <= i < j < d.len()
                ==> #[trigger] d[i] != #[trigger] d[j]);
            assert forall|i: int, j: int| 0 <= i < j < r.len()
                implies #[trigger] r[i] != #[trigger] r[j] by {
                if i == 0 {
                    assert(rd[j - 1] == r[j]);
                    assert(rd.contains(r[j]));
                    if r[0] == r[j] {
                        let k = choose|k: int| 0 <= k < d.len() && d[k] == r[j];
                        assert(s[0] == s[k + 1]);
                    }
                } else {
                    assert(rd[i - 1] != rd[j - 1]);
                }
            }
            assert forall|j: int| 0 <= j < r.len() implies r[j] != id by {
                if j > 0 && rd[j - 1] == id {
                    assert(rd.contains(id));
                }
            }
        }
    }
}

proof fn lemma_release_at(s: Seq<Seq<char>>, id: Seq<char>, i: int)
    requires
        0 <= i < s.len(),
        s[i] == id,
        forall|k: int| 0 <= k < i ==> (#[trigger] s[k]) != id,
    ensures
        after_release(s, id) == s.take(i) + s.skip(i + 1),
    decreases i,
{
    if i == 0 {
        assert(s.drop_first() =~= s.take(0) + s.skip(1));
    } else {
        let d = s.drop_first();
        lemma_release_at(d, id, i - 1);
        assert(seq![s[0]] + (d.take(i - 1) + d.skip(i)) =~= s.take(i) + s.skip(i + 1));
    }
}

proof fn lemma_release_absent(s: Seq<Seq<char>>, id: Seq<char>)
    requires
        !s.contains(id),
    ensures
        after_release(s, id) == s,
    decreases s.len(),
{
    if s.len() > 0 {
        assert(s[0] != id);
        assert(!s.drop_first().contains(id)) by {
            if s.drop_first().contains(id) {
                let k = choose|k: int| 0 <= k < s.drop_first().len()
                    && s.drop_first()[k] == id;
                assert(s[k + 1] == id);
            }
        }
        lemma_release_absent(s.drop_first(), id);
        assert(seq![s[0]] + s.drop_first() =~= s);
    }
}

/// The set of session ids whose compaction task is running now.
pub struct CompactionGuard {
    active: Vec<String>,
}

impl View for CompactionGuard {
    type V = Seq<Seq<char>>;

    closed spec fn view(&self) -> Seq<Seq<char>> {
        self.active.deep_view()
    }
}

impl CompactionGuard {
    /// A well-formed guard holds each id at most once.
    pub open spec fn wf(&self) -> bool {
        guard_unique(self@)
    }

    /// A guard with no task in flight.
    pub fn new() -> (g: Self)
        ensures
            g@ =~= Seq::<Seq<char>>::empty(),
            g.wf(),
    {
        CompactionGuard { active: Vec::new() }
    }

    /// Whether a task owns this session now.
    pub fn is_active(&self, session_id: &String) -> (r: bool)
        ensures
            r == self@.contains(session_id@),
    {
        let n = self.active.len();
        let mut i: usize = 0;
        #[verifier::loop_isolation(false)]
        while i < n
            invariant
                i <= n,
                n == self.active@.len(),
                forall|k: int| 0 <= k < i ==> (#[trigger] self@[k]) != session_id@,
            decreases n - i,
        {
            if self.active[i] == *session_id {
                assert(self@[i as int] == session_id@);
                return true;
            }
            i = i + 1;
        }
        false
    }

    /// The check and the set in one step: succeeds, and records the hold,
    /// exactly when no task owns the session; otherwise changes nothing.
    /// Do this under the guard's one lock.
    pub fn try_acquire(&mut self, session_id: &String) -> (acquired: bool)
        requires
            old(self).wf(),
        ensures
            acquired == acquire_allowed(old(self)@, session_id@),
            acquired ==> final(self)@ == after_acquire(old(self)@, session_id@),
            !acquired ==> final(self)@ == old(self)@,
            final(self)@.contains(session_id@),
            final(self).wf(),
    {
        if self.is_active(session_id) {
            return false;
        }
        let ghost s0 = self@;
        self.active.push(session_id.clone());
        proof {
            assert(self@ =~= s0.push(session_id@));
            assert(self@[s0.len() as int] == session_id@);
            assert forall|i: int, j: int| 0 <= i < j < self@.len()
                implies #[trigger] self@[i] != #[trigger] self@[j] by {
                if j == s0.len() && self@[i] == self@[j] {
                    assert(s0[i] == session_id@);
                    assert(s0.contains(session_id@));
                }
            }
        }
        true
    }

    /// Drops the session's hold unconditionally, as every compaction task
    /// does last, whatever its outcome.
    pub fn release(&mut self, session_id: &String)
        requires
            old(self).wf(),
        ensures
            final(self)@ == after_release(old(self)@, session_id@),
            !final(self)@.contains(session_id@),
            forall|x: Seq<char>| x != session_id@
                ==> (#[trigger] final(self)@.contains(x) <==> old(self)@.contains(x)),
            final(self).wf(),
    {
        proof {
            lemma_release_props(old(self)@, session_id@);
        }
        let ghost s0 = self@;
        let n = self.active.len();
        let mut i: usize = 0;
        #[verifier::loop_isolation(false)]
        while i < n
            invariant
                i <= n,
                n == self.active@.len(),
                self@ == s0,
                forall|k: int| 0 <= k < i ==> (#[trigger] s0[k]) != session_id@,
            decreases n - i,
        {
            if self.active[i] == *session_id {
                proof {
                    assert(s0[i as int] == session_id@);
                    lemma_release_at(s0, session_id@, i as int);
                }
                self.active.remove(i);
                proof {
                    assert(self@ =~= s0.take(i as int) + s0.skip(i + 1));
                }
                return;
            }
            i = i + 1;
        }
        proof {
            assert(!s0.contains(session_id@));
            lemma_release_absent(s0, session_id@);
        }
    }
}

/// At most one compaction task owns a session at any instant: while one
/// task's acquire stands, any further acquire of the same session fails,
/// and once the owning task releases, an acquire succeeds again.
pub proof fn lemma_single_flight(s: Seq<Seq<char>>, id: Seq<char>)
    requires
        acquire_allowed(s, id),
    ensures
        !acquire_allowed(after_acquire(s, id), id),
        acquire_allowed(after_release(after_acquire(s, id), id), id),
{
    let held = after_acquire(s, id);
    assert(held[s.len() as int] == id);
    assert(held.contains(id));
    lemma_release_push(s, id);
}

proof fn lemma_release_push(s: Seq<Seq<char>>, id: Seq<char>)
    requires
        !s.contains(id),
    ensures
        after_release(s.push(id), id) == s,
    decreases s.len(),
{
    if s.len() == 0 {
        assert(s.push(id)[0] == id);
        assert(s.push(id).drop_first() =~= s);
    } else {
        assert(s[0] != id);
        assert(s.push(id)[0] == s[0]);
        assert(s.push(id).drop_first() =~= s.drop_first().push(id));
        assert(!s.drop_first().contains(id)) by {
            if s.drop_first().contains(id) {
                let k = choose|k: int| 0 <= k < s.drop_first().len()
                    && s.drop_first()[k] == id;
                assert(s[k + 1] == id);
            }
        }
        lemma_release_push(s.drop_first(), id);
        assert(seq![s[0]] + s.drop_first() =~= s);
    }
}

} // verus!
