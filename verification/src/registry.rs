//! The session registry: a catalog of session ids scored by their last
//! update time, one sorted set per namespace.  An append upserts the id
//! with a fresh score, a delete removes it, and a listing request pages
//! through the ids in ascending score order.

use vstd::prelude::*;
use crate::models::ValidationError;

verus! {

/// The mathematical value of one registry entry.
pub ghost struct RegistryEntryView {
    pub score: int,
    pub session_id: Seq<char>,
}

/// One catalog entry: a session id and the timestamp score under which
/// it is ordered.
pub struct RegistryEntry {
    pub score: i64,
    pub session_id: String,
}

impl View for RegistryEntry {
    type V = RegistryEntryView;

    open spec fn view(&self) -> RegistryEntryView {
        RegistryEntryView { score: self.score as int, session_id: self.session_id@ }
    }
}

impl DeepView for RegistryEntry {
    type V = RegistryEntryView;

    open spec fn deep_view(&self) -> RegistryEntryView {
        self.view()
    }
}

/// Entries stand in ascending score order.
pub open spec fn sorted_by_score(s: Seq<RegistryEntryView>) -> bool {
    forall|i: int, j: int| 0 <= i < j < s.len()
        ==> #[trigger] s[i].score <= #[trigger] s[j].score
}

/// No session id occurs twice.
pub open spec fn unique_ids(s: Seq<RegistryEntryView>) -> bool {
    forall|i: int, j: int| 0 <= i < j < s.len()
        ==> #[trigger] s[i].session_id != #[trigger] s[j].session_id
}

/// Some entry carries this session id.
pub open spec fn contains_id(s: Seq<RegistryEntryView>, id: Seq<char>) -> bool {
    exists|i: int| 0 <= i < s.len() && (#[trigger] s[i].session_id) == id
}

/// A well-formed catalog: ascending scores, each id at most once.
pub open spec fn registry_wf(s: Seq<RegistryEntryView>) -> bool {
    sorted_by_score(s) && unique_ids(s)
}

/// The catalog with the first entry of this id taken out; without the id,
/// the catalog unchanged.
pub open spec fn spec_remove_id(s: Seq<RegistryEntryView>, id: Seq<char>) -> Seq<RegistryEntryView>
    decreases s.len(),
{
    if s.len() == 0 {
        s
    } else if s[0].session_id == id {
        s.drop_first()
    } else {
        seq![s[0]] + spec_remove_id(s.drop_first(), id)
    }
}

/// The catalog with `e` inserted after every entry whose score does not
/// exceed `e`'s — so entries of equal score keep their update order.
pub open spec fn spec_insert_sorted(s: Seq<RegistryEntryView>, e: RegistryEntryView) -> Seq<RegistryEntryView>
    decreases s.len(),
{
    if s.len() == 0 {
        seq![e]
    } else if s[0].score > e.score {
        seq![e] + s
    } else {
        seq![s[0]] + spec_insert_sorted(s.drop_first(), e)
    }
}

/// An upsert: any stale entry of the id removed, then the id inserted
/// under its new score.
pub open spec fn spec_upsert(s: Seq<RegistryEntryView>, id: Seq<char>, score: int) -> Seq<RegistryEntryView> {
    spec_insert_sorted(spec_remove_id(s, id), RegistryEntryView { score, session_id: id })
}

/// The ids of the catalog, in catalog order.
pub open spec fn ids_of(s: Seq<RegistryEntryView>) -> Seq<Seq<char>> {
    s.map_values(|e: RegistryEntryView| e.session_id)
}

/// The slice of ids a page shows: the zero-indexed inclusive range
/// `[(page - 1) * size, page * size - 1]`, clamped to the catalog.
pub open spec fn spec_page(s: Seq<RegistryEntryView>, page: int, size: int) -> Seq<Seq<char>> {
    ids_of(s).subrange(
        vstd::math::min((page - 1) * size, s.len() as int),
        vstd::math::min(page * size, s.len() as int),
    )
}

proof fn lemma_remove_id_props(s: Seq<RegistryEntryView>, id: Seq<char>)
    ensures
        spec_remove_id(s, id).len() <= s.len(),
        forall|x: Seq<char>| #[trigger] contains_id(spec_remove_id(s, id), x)
            ==> contains_id(s, x),
        forall|x: Seq<char>| x != id && #[trigger] contains_id(s, x)
            ==> contains_id(spec_remove_id(s, id), x),
        sorted_by_score(s) ==> sorted_by_score(spec_remove_id(s, id)),
        sorted_by_score(s) && spec_remove_id(s, id).len() > 0
            ==> s.len() > 0 && spec_remove_id(s, id)[0].score >= s[0].score,
        unique_ids(s) ==> unique_ids(spec_remove_id(s, id)),
        unique_ids(s) ==> !contains_id(spec_remove_id(s, id), id),
    decreases s.len(),
{
    let r = spec_remove_id(s, id);
    if s.len() == 0 {
    } else if s[0].session_id == id {
        assert forall|x: Seq<char>| #[trigger] contains_id(r, x) implies contains_id(s, x) by {
            let i = choose|i: int| 0 <= i < r.len() && r[i].session_id == x;
            assert(s[i + 1].session_id == x);
        }
        assert forall|x: Seq<char>| x != id && #[trigger] contains_id(s, x)
            implies contains_id(r, x) by {
            let i = choose|i: int| 0 <= i < s.len() && s[i].session_id == x;
            assert(i > 0);
            assert(r[i - 1].session_id == x);
        }
        if unique_ids(s) {
            assert forall|j: int| 0 <= j < r.len() implies r[j].session_id != id by {
                assert(s[0].session_id != s[j + 1].session_id);
            }
        }
    } else {
        let d = s.drop_first();
        lemma_remove_id_props(d, id);
        let rd = spec_remove_id(d, id);
        assert(r == seq![s[0]] + rd);
        assert(r[0] == s[0]);
        assert(forall|j: int| 0 <= j < rd.len() ==> r[j + 1] == #[trigger] rd[j]);
        assert forall|x: Seq<char>| #[trigger] contains_id(r, x) implies contains_id(s, x) by {
            let i = choose|i: int| 0 <= i < r.len() && r[i].session_id == x;
            if i == 0 {
                assert(s[0].session_id == x);
            } else {
                assert(rd[i - 1].session_id == x);
                assert(contains_id(rd, x));
                let k = choose|k: int| 0 <= k < d.len() && d[k].session_id == x;
                assert(s[k + 1].session_id == x);
            }
        }
        assert forall|x: Seq<char>| x != id && #[trigger] contains_id(s, x)
            implies contains_id(r, x) by {
            let i = choose|i: int| 0 <= i < s.len() && s[i].session_id == x;
            if i == 0 {
                assert(r[0].session_id == x);
            } else {
                assert(d[i - 1].session_id == x);
                assert(contains_id(d, x));
                assert(contains_id(rd, x));
                let k = choose|k: int| 0 <= k < rd.len() && rd[k].session_id == x;
                assert(r[k + 1].session_id == x);
            }
        }
        if sorted_by_score(s) {
            assert(forall|i: int, j: int| 0 <= i < j < d.len()
                ==> #[trigger] d[i].score <= #[trigger] d[j].score);
            assert forall|i: int, j: int| 0 <= i < j < r.len()
                implies #[trigger] r[i].score <= #[trigger] r[j].score by {
                if i == 0 {
                    if rd.len() > 0 {
                        assert(rd[0].score >= d[0].score);
                        assert(rd[j - 1].score >= rd[0].score || j - 1 == 0);
                        assert(s[0].score <= d[0].score);
                    }
                } else {
                    assert(rd[i - 1].score <= rd[j - 1].score);
                }
            }
        }
        if unique_ids(s) {
            assert(forall|i: int, j: int| 0 <= i < j < d.len()
                ==> #[trigger] d[i].session_id != #[trigger] d[j].session_id);
            assert forall|i: int, j: int| 0 <= i < j < r.len()
                implies #[trigger] r[i].session_id != #[trigger] r[j].session_id by {
                if i == 0 {
                    assert(rd[j - 1].session_id == r[j].session_id);
                    assert(contains_id(rd, r[j].session_id));
                    if r[0].session_id == r[j].session_id {
                        let k = choose|k: int| 0 <= k < d.len()
                            && d[k].session_id == r[j].session_id;
                        assert(s[0].session_id == s[k + 1].session_id);
                    }
                } else {
                    assert(rd[i - 1].session_id != rd[j - 1].session_id);
                }
            }
            assert forall|j: int| 0 <= j < r.len() implies r[j].session_id != id by {
                if j > 0 {
                    assert(rd[j - 1].session_id != id) by {
                        if rd[j - 1].session_id == id {
                            assert(contains_id(rd, id));
                        }
                    }
                }
            }
        }
    }
}

proof fn lemma_insert_sorted_props(s: Seq<RegistryEntryView>, e: RegistryEntryView)
    ensures
        spec_insert_sorted(s, e).len() == s.len() + 1,
        forall|x: Seq<char>| #[trigger] contains_id(spec_insert_sorted(s, e), x)
            <==> (contains_id(s, x) || x == e.session_id),
        sorted_by_score(s) ==> sorted_by_score(spec_insert_sorted(s, e)),
        spec_insert_sorted(s, e)[0] == e || (s.len() > 0 && spec_insert_sorted(s, e)[0] == s[0]),
        unique_ids(s) && !contains_id(s, e.session_id)
            ==> unique_ids(spec_insert_sorted(s, e)),
    decreases s.len(),
{
    let r = spec_insert_sorted(s, e);
    if s.len() == 0 {
        assert(r == seq![e]);
        assert(r[0].session_id == e.session_id);
        assert forall|x: Seq<char>| #[trigger] contains_id(r, x)
            implies (contains_id(s, x) || x == e.session_id) by {
            let i = choose|i: int| 0 <= i < r.len() && r[i].session_id == x;
        }
    } else if s[0].score > e.score {
        assert(r == seq![e] + s);
        assert(r[0] == e);
        assert(forall|j: int| 0 <= j < s.len() ==> r[j + 1] == #[trigger] s[j]);
        assert forall|x: Seq<char>| #[trigger] contains_id(r, x)
            implies (contains_id(s, x) || x == e.session_id) by {
            let i = choose|i: int| 0 <= i < r.len() && r[i].session_id == x;
            if i > 0 {
                assert(s[i - 1].session_id == x);
            }
        }
        assert forall|x: Seq<char>| contains_id(s, x) || x == e.session_id
            implies #[trigger] contains_id(r, x) by {
            if contains_id(s, x) {
                let i = choose|i: int| 0 <= i < s.len() && s[i].session_id == x;
                assert(r[i + 1].session_id == x);
            } else {
                assert(r[0].session_id == x);
            }
        }
        if sorted_by_score(s) {
            assert forall|i: int, j: int| 0 <= i < j < r.len()
                implies #[trigger] r[i].score <= #[trigger] r[j].score by {
                if i == 0 {
                    assert(s[0].score <= s[j - 1].score || j - 1 == 0);
                } else {
                    assert(s[i - 1].score <= s[j - 1].score);
                }
            }
        }
        if unique_ids(s) && !contains_id(s, e.session_id) {
            assert forall|i: int, j: int| 0 <= i < j < r.len()
                implies #[trigger] r[i].session_id != #[trigger] r[j].session_id by {
                if i == 0 {
                    if r[j].session_id == e.session_id {
                        assert(s[j - 1].session_id == e.session_id);
                        assert(contains_id(s, e.session_id));
                    }
                } else {
                    assert(s[i - 1].session_id != s[j - 1].session_id);
                }
            }
        }
    } else {
        let d = s.drop_first();
        lemma_insert_sorted_props(d, e);
        let rd = spec_insert_sorted(d, e);
        assert(r == seq![s[0]] + rd);
        assert(r[0] == s[0]);
        assert(forall|j: int| 0 <= j < rd.len() ==> r[j + 1] == #[trigger] rd[j]);
        assert forall|x: Seq<char>| #[trigger] contains_id(r, x)
            implies (contains_id(s, x) || x == e.session_id) by {
            let i = choose|i: int| 0 <= i < r.len() && r[i].session_id == x;
            if i == 0 {
                assert(s[0].session_id == x);
            } else {
                assert(contains_id(rd, x));
                if contains_id(d, x) {
                    let k = choose|k: int| 0 <= k < d.len() && d[k].session_id == x;
                    assert(s[k + 1].session_id == x);
                }
            }
        }
        assert forall|x: Seq<char>| contains_id(s, x) || x == e.session_id
            implies #[trigger] contains_id(r, x) by {
            if contains_id(s, x) {
                let i = choose|i: int| 0 <= i < s.len() && s[i].session_id == x;
                if i == 0 {
                    assert(r[0].session_id == x);
                } else {
                    assert(d[i - 1].session_id == x);
                    assert(contains_id(d, x));
                    assert(contains_id(rd, x));
                    let k = choose|k: int| 0 <= k < rd.len() && rd[k].session_id == x;
                    assert(r[k + 1].session_id == x);
                }
            } else {
                assert(contains_id(rd, x));
                let k = choose|k: int| 0 <= k < rd.len() && rd[k].session_id == x;
                assert(r[k + 1].session_id == x);
            }
        }
        if sorted_by_score(s) {
            assert(forall|i: int, j: int| 0 <= i < j < d.len()
                ==> #[trigger] d[i].score <= #[trigger] d[j].score);
            assert forall|i: int, j: int| 0 <= i < j < r.len()
                implies #[trigger] r[i].score <= #[trigger] r[j].score by {
                if i == 0 {
                    assert(rd[0] == e || (d.len() > 0 && rd[0] == d[0]));
                    assert(s[0].score <= rd[0].score);
                    assert(rd[j - 1].score >= rd[0].score || j - 1 == 0);
                } else {
                    assert(rd[i - 1].score <= rd[j - 1].score);
                }
            }
        }
        if unique_ids(s) && !contains_id(s, e.session_id) {
            assert(forall|i: int, j: int| 0 <= i < j < d.len()
                ==> #[trigger] d[i].session_id != #[trigger] d[j].session_id);
            assert(!contains_id(d, e.session_id)) by {
                if contains_id(d, e.session_id) {
                    let k = choose|k: int| 0 <= k < d.len()
                        && d[k].session_id == e.session_id;
                    assert(s[k + 1].session_id == e.session_id);
                }
            }
            assert forall|i: int, j: int| 0 <= i < j < r.len()
                implies #[trigger] r[i].session_id != #[trigger] r[j].session_id by {
                if i == 0 {
                    assert(contains_id(rd, r[j].session_id));
                    if r[0].session_id == r[j].session_id {
                        if contains_id(d, r[j].session_id) {
                            let k = choose|k: int| 0 <= k < d.len()
                                && d[k].session_id == r[j].session_id;
                            assert(s[0].session_id == s[k + 1].session_id);
                        } else {
                            assert(r[j].session_id == e.session_id);
                            assert(contains_id(s, e.session_id));
                        }
                    }
                } else {
                    assert(rd[i - 1].session_id != rd[j - 1].session_id);
                }
            }
        }
    }
}

proof fn lemma_remove_id_at(s: Seq<RegistryEntryView>, id: Seq<char>, i: int)
    requires
        0 <= i < s.len(),
        s[i].session_id == id,
        forall|k: int| 0 <= k < i ==> (#[trigger] s[k].session_id) != id,
    ensures
        spec_remove_id(s, id) == s.take(i) + s.skip(i + 1),
    decreases i,
{
    if i == 0 {
        assert(spec_remove_id(s, id) == s.drop_first());
        assert(s.drop_first() =~= s.take(0) + s.skip(1));
    } else {
        let d = s.drop_first();
        lemma_remove_id_at(d, id, i - 1);
        assert(spec_remove_id(s, id) == seq![s[0]] + (d.take(i - 1) + d.skip(i)));
        assert(seq![s[0]] + (d.take(i - 1) + d.skip(i)) =~= s.take(i) + s.skip(i + 1));
    }
}

proof fn lemma_remove_id_absent(s: Seq<RegistryEntryView>, id: Seq<char>)
    requires
        !contains_id(s, id),
    ensures
        spec_remove_id(s, id) == s,
    decreases s.len(),
{
    if s.len() > 0 {
        assert(s[0].session_id != id);
        assert(!contains_id(s.drop_first(), id)) by {
            if contains_id(s.drop_first(), id) {
                let k = choose|k: int| 0 <= k < s.drop_first().len()
                    && s.drop_first()[k].session_id == id;
                assert(s[k + 1].session_id == id);
            }
        }
        lemma_remove_id_absent(s.drop_first(), id);
        assert(seq![s[0]] + s.drop_first() =~= s);
    }
}

proof fn lemma_insert_sorted_at(s: Seq<RegistryEntryView>, e: RegistryEntryView, p: int)
    requires
        0 <= p <= s.len(),
        forall|k: int| 0 <= k < p ==> (#[trigger] s[k].score) <= e.score,
        p < s.len() ==> s[p].score > e.score,
    ensures
        spec_insert_sorted(s, e) == s.take(p) + seq![e] + s.skip(p),
    decreases p,
{
    if p == 0 {
        if s.len() == 0 {
            assert(spec_insert_sorted(s, e) =~= s.take(0) + seq![e] + s.skip(0));
        } else {
            assert(seq![e] + s =~= s.take(0) + seq![e] + s.skip(0));
        }
    } else {
        let d = s.drop_first();
        assert(s[0].score <= e.score);
        lemma_insert_sorted_at(d, e, p - 1);
        assert(spec_insert_sorted(s, e)
            == seq![s[0]] + (d.take(p - 1) + seq![e] + d.skip(p - 1)));
        assert(seq![s[0]] + (d.take(p - 1) + seq![e] + d.skip(p - 1))
            =~= s.take(p) + seq![e] + s.skip(p));
    }
}

/// One namespace's catalog of sessions, ordered by update-time score.
pub struct Registry {
    entries: Vec<RegistryEntry>,
}

impl View for Registry {
    type V = Seq<RegistryEntryView>;

    closed spec fn view(&self) -> Seq<RegistryEntryView> {
        self.entries.deep_view()
    }
}

impl Registry {
    /// A well-formed registry: ascending scores, each id at most once.
    pub open spec fn wf(&self) -> bool {
        registry_wf(self@)
    }

    /// An empty catalog.
    pub fn new() -> (r: Self)
        ensures
            r@ =~= Seq::<RegistryEntryView>::empty(),
            r.wf(),
    {
        Registry { entries: Vec::new() }
    }

    /// Whether the catalog holds this session id.
    pub fn contains(&self, session_id: &String) -> (r: bool)
        ensures
            r == contains_id(self@, session_id@),
    {
        let n = self.entries.len();
        let mut i: usize = 0;
        #[verifier::loop_isolation(false)]
        while i < n
            invariant
                i <= n,
                n == self.entries@.len(),
                forall|k: int| 0 <= k < i ==> (#[trigger] self@[k].session_id) != session_id@,
            decreases n - i,
        {
            if self.entries[i].session_id == *session_id {
                assert(self@[i as int].session_id == session_id@);
                return true;
            }
            i = i + 1;
        }
        false
    }

    /// Removes the session id from the catalog; ids other than it keep
    /// their membership.
    pub fn remove(&mut self, session_id: &String)
        requires
            old(self).wf(),
        ensures
            final(self)@ == spec_remove_id(old(self)@, session_id@),
            final(self).wf(),
            !contains_id(final(self)@, session_id@),
            forall|x: Seq<char>| x != session_id@
                ==> (#[trigger] contains_id(final(self)@, x) <==> contains_id(old(self)@, x)),
    {
        proof {
            lemma_remove_id_props(old(self)@, session_id@);
        }
        let ghost s0 = self@;
        let n = self.entries.len();
        let mut i: usize = 0;
        #[verifier::loop_isolation(false)]
        while i < n
            invariant
                i <= n,
                n == self.entries@.len(),
                self@ == s0,
                forall|k: int| 0 <= k < i ==> (#[trigger] s0[k].session_id) != session_id@,
            decreases n - i,
        {
            if self.entries[i].session_id == *session_id {
                proof {
                    assert(s0[i as int].session_id == session_id@);
                    lemma_remove_id_at(s0, session_id@, i as int);
                }
                self.entries.remove(i);
                proof {
                    assert(self@ =~= s0.take(i as int) + s0.skip(i + 1));
                }
                return;
            }
            i = i + 1;
        }
        proof {
            assert(!contains_id(s0, session_id@));
            lemma_remove_id_absent(s0, session_id@);
        }
    }

    /// Adds the session id under a fresh score, or refreshes its score if
    /// it is already catalogued; every other id keeps its membership.
    pub fn upsert(&mut self, session_id: &String, score: i64)
        requires
            old(self).wf(),
        ensures
            final(self)@ == spec_upsert(old(self)@, session_id@, score as int),
            final(self).wf(),
            contains_id(final(self)@, session_id@),
            forall|x: Seq<char>| x != session_id@
                ==> (#[trigger] contains_id(final(self)@, x) <==> contains_id(old(self)@, x)),
    {
        proof {
            lemma_remove_id_props(old(self)@, session_id@);
        }
        self.remove(session_id);
        let ghost s1 = self@;
        let ghost ev = RegistryEntryView { score: score as int, session_id: session_id@ };
        proof {
            lemma_insert_sorted_props(s1, ev);
        }
        let n = self.entries.len();
        let mut j: usize = 0;
        #[verifier::loop_isolation(false)]
        while j < n && self.entries[j].score <= score
            invariant
                j <= n,
                n == self.entries@.len(),
                self@ == s1,
                forall|k: int| 0 <= k < j ==> (#[trigger] s1[k].score) <= score as int,
            decreases n - j,
        {
            j = j + 1;
        }
        proof {
            lemma_insert_sorted_at(s1, ev, j as int);
        }
        let entry = RegistryEntry { score, session_id: session_id.clone() };
        self.entries.insert(j, entry);
        proof {
            assert(self@ =~= s1.take(j as int) + seq![ev] + s1.skip(j as int));
        }
    }

    /// Lists one page of session ids in ascending score order.  `page` is
    /// 1-indexed; a page beyond 100 is rejected before anything is read.
    pub fn list(&self, page: usize, size: usize) -> (r: Result<Vec<String>, ValidationError>)
        requires
            1 <= page,
            page * size <= usize::MAX,
        ensures
            page > 100 <==> r is Err,
            r matches Ok(ids)
                ==> ids.deep_view() == spec_page(self@, page as int, size as int),
    {
        if page > 100 {
            return Err(ValidationError::PageTooLarge);
        }
        proof {
            assert((page - 1) * size <= page * size) by (nonlinear_arith)
                requires
                    1 <= page,
                    0 <= size,
            ;
        }
        let len = self.entries.len();
        let lo = (page - 1) * size;
        let hi = page * size;
        let start = if lo < len { lo } else { len };
        let end = if hi < len { hi } else { len };
        let mut ids: Vec<String> = Vec::new();
        let mut i: usize = start;
        #[verifier::loop_isolation(false)]
        while i < end
            invariant
                start <= i <= end,
                end <= self.entries@.len(),
                ids.deep_view() == ids_of(self@).subrange(start as int, i as int),
            decreases end - i,
        {
            let ghost dv = ids.deep_view();
            ids.push(self.entries[i].session_id.clone());
            proof {
                assert(ids.deep_view() =~= dv.push(self@[i as int].session_id));
                assert(ids_of(self@).subrange(start as int, i + 1)
                    =~= ids_of(self@).subrange(start as int, i as int)
                        .push(ids_of(self@)[i as int]));
            }
            i = i + 1;
        }
        proof {
            assert(ids.deep_view() == spec_page(self@, page as int, size as int));
        }
        Ok(ids)
    }
}

/// The zero-indexed inclusive range of catalog positions a page asks the
/// store for: `[(page - 1) * size, page * size - 1]`.  `page` is
/// 1-indexed, and a page beyond 100 is rejected before anything is read.
pub fn page_bounds(page: usize, size: usize) -> (r: Result<(usize, usize), ValidationError>)
    requires
        1 <= page,
        1 <= size,
        page * size <= usize::MAX,
    ensures
        page > 100 <==> r is Err,
        r matches Ok(b) ==> b.0 == (page - 1) * size && b.1 == page * size - 1,
{
    if page > 100 {
        return Err(ValidationError::PageTooLarge);
    }
    proof {
        assert((page - 1) * size <= page * size) by (nonlinear_arith)
            requires
                1 <= page,
                0 <= size,
        ;
        assert(1 * size <= page * size) by (nonlinear_arith)
            requires
                1 <= page,
                0 <= size,
        ;
    }
    let start = (page - 1) * size;
    let end = page * size - 1;
    Ok((start, end))
}

/// One registry transition: an upsert under a score, or a removal.
pub ghost struct RegistryOpView {
    pub upsert: bool,
    pub session_id: Seq<char>,
    pub score: int,
}

/// The transition applied to a catalog.
pub open spec fn apply_registry_op(s: Seq<RegistryEntryView>, op: RegistryOpView) -> Seq<RegistryEntryView> {
    if op.upsert {
        spec_upsert(s, op.session_id, op.score)
    } else {
        spec_remove_id(s, op.session_id)
    }
}

/// A whole history of transitions applied in order.
pub open spec fn apply_registry_ops(s: Seq<RegistryEntryView>, ops: Seq<RegistryOpView>) -> Seq<RegistryEntryView>
    decreases ops.len(),
{
    if ops.len() == 0 {
        s
    } else {
        apply_registry_op(apply_registry_ops(s, ops.drop_last()), ops.last())
    }
}

/// A history leaves the id live when some upsert of it has no later
/// removal of it.
pub open spec fn live_after(ops: Seq<RegistryOpView>, id: Seq<char>) -> bool
    decreases ops.len(),
{
    if ops.len() == 0 {
        false
    } else if ops.last().session_id == id {
        ops.last().upsert
    } else {
        live_after(ops.drop_last(), id)
    }
}

/// After any history of appends and deletes, the registry is still well
/// formed, and it contains a session id not catalogued at the start if
/// and only if some append upserted the id and no delete followed it.
pub proof fn lemma_registry_tracks_appends(
    s0: Seq<RegistryEntryView>,
    ops: Seq<RegistryOpView>,
    id: Seq<char>,
)
    requires
        registry_wf(s0),
        !contains_id(s0, id),
    ensures
        registry_wf(apply_registry_ops(s0, ops)),
        contains_id(apply_registry_ops(s0, ops), id) <==> live_after(ops, id),
    decreases ops.len(),
{
    if ops.len() > 0 {
        let prev = apply_registry_ops(s0, ops.drop_last());
        lemma_registry_tracks_appends(s0, ops.drop_last(), id);
        let op = ops.last();
        lemma_remove_id_props(prev, op.session_id);
        if op.upsert {
            let mid = spec_remove_id(prev, op.session_id);
            lemma_insert_sorted_props(
                mid,
                RegistryEntryView { score: op.score, session_id: op.session_id },
            );
        }
    }
}

} // verus!
