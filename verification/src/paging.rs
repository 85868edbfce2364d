use vstd::prelude::*;

use crate::keys::{byte_views, lex_le, lex_lt, lemma_lex_irreflexive, lemma_lex_transitive,
    strictly_sorted};

verus! {

/// The cursor that accompanies the next page request: the last key received
/// so far, or nothing when listing starts from the beginning.
pub open spec fn cursor_view(received: Seq<Seq<u8>>) -> Option<Seq<u8>> {
    if received.len() == 0 {
        None
    } else {
        Some(received.last())
    }
}

/// The page a correct server returns for a listing of `u` that resumes at
/// position `k`: the next `p` keys, or fewer when the listing ends first.
pub open spec fn page_at(u: Seq<Seq<u8>>, k: int, p: int) -> Seq<Seq<u8>>
    recommends
        0 <= k <= u.len(),
        0 <= p,
{
    if k + p <= u.len() {
        u.subrange(k, k + p)
    } else {
        u.subrange(k, u.len() as int)
    }
}

/// Position `k` is where a listing of `u` resumes after `cursor`: every key
/// before it is at most the cursor and the key at it (if any) is beyond the
/// cursor.
pub open spec fn page_start(u: Seq<Seq<u8>>, cursor: Option<Seq<u8>>, k: int) -> bool {
    match cursor {
        None => k == 0,
        Some(c) => {
            &&& 0 <= k <= u.len()
            &&& forall|i: int| 0 <= i < k ==> lex_le(#[trigger] u[i], c)
            &&& (k == u.len() || lex_lt(c, u[k]))
        },
    }
}

/// `page` is what a correct server, holding the sorted key list `u`, returns
/// for a request of up to `p` keys after `cursor`.
pub open spec fn is_next_page(
    u: Seq<Seq<u8>>,
    cursor: Option<Seq<u8>>,
    p: int,
    page: Seq<Seq<u8>>,
) -> bool {
    exists|k: int| #[trigger] page_start(u, cursor, k) && page == page_at(u, k, p)
}

/// Every page fed to the enumerator was a correct answer, for key list `u`,
/// to the request the enumerator issued at that moment (whose cursor is
/// determined by the pages received before it).
pub open spec fn served_correctly(pages: Seq<Seq<Seq<u8>>>, u: Seq<Seq<u8>>, p: int) -> bool {
    forall|i: int|
        0 <= i < pages.len() ==> is_next_page(
            u,
            cursor_view(pages.take(i).flatten()),
            p,
            #[trigger] pages[i],
        )
}

/// Turns the remote service's cursor-based, page-bounded key listing into a
/// complete ordered key sequence.
///
/// The driver repeatedly asks the service for one page of up to `page_size`
/// keys starting after `cursor()` and hands the answer to `feed_page`, until
/// `feed_page` reports the listing exhausted (a page shorter than
/// `page_size`).  The ghost page history supports the enumeration laws
/// below.
pub struct PaginatedEnumerator {
    pub page_size: usize,
    pub keys: Vec<Vec<u8>>,
    pub finished: bool,
    pub requests: usize,
    pub pages: Ghost<Seq<Seq<Seq<u8>>>>,
}

impl PaginatedEnumerator {
    pub open spec fn spec_page_size(&self) -> usize {
        self.page_size
    }

    pub open spec fn spec_keys(&self) -> Seq<Seq<u8>> {
        byte_views(self.keys@)
    }

    pub open spec fn spec_finished(&self) -> bool {
        self.finished
    }

    pub open spec fn spec_requests(&self) -> usize {
        self.requests
    }

    pub open spec fn spec_pages(&self) -> Seq<Seq<Seq<u8>>> {
        self.pages@
    }

    pub open spec fn wf(&self) -> bool {
        &&& self.page_size >= 1
        &&& byte_views(self.keys@) == self.pages@.flatten()
        &&& self.requests == self.pages@.len()
        &&& forall|i: int|
            0 <= i < self.pages@.len() - 1 ==> (#[trigger] self.pages@[i]).len()
                >= self.page_size
        &&& self.finished <==> (self.pages@.len() > 0 && self.pages@.last().len()
            < self.page_size)
    }

    /// A fresh enumeration that has requested nothing yet.
    pub fn new(page_size: usize) -> (r: Self)
        requires
            page_size >= 1,
        ensures
            r.wf(),
            r.spec_page_size() == page_size,
            r.spec_pages() == Seq::<Seq<Seq<u8>>>::empty(),
            r.spec_keys().len() == 0,
            !r.spec_finished(),
            r.spec_requests() == 0,
    {
        let r = PaginatedEnumerator {
            page_size,
            keys: Vec::new(),
            finished: false,
            requests: 0,
            pages: Ghost(Seq::empty()),
        };
        proof {
            assert(Seq::<Seq<Seq<u8>>>::empty().flatten() =~= Seq::<Seq<u8>>::empty());
            assert(byte_views(r.keys@) =~= Seq::<Seq<u8>>::empty());
        }
        r
    }

    pub fn page_size(&self) -> (r: usize)
        ensures
            r == self.spec_page_size(),
    {
        self.page_size
    }

    /// Whether the listing has been exhausted.
    pub fn is_finished(&self) -> (r: bool)
        ensures
            r == self.spec_finished(),
    {
        self.finished
    }

    /// How many pages have been requested and received so far.
    pub fn requests_made(&self) -> (r: usize)
        ensures
            r == self.spec_requests(),
    {
        self.requests
    }

    /// The cursor to send with the next page request: the last key received,
    /// or none when no key has been received yet.
    pub fn cursor(&self) -> (r: Option<&Vec<u8>>)
        ensures
            match r {
                None => cursor_view(self.spec_keys()) is None,
                Some(k) => cursor_view(self.spec_keys()) == Some(k@),
            },
    {
        if self.keys.len() == 0 {
            None
        } else {
            Some(&self.keys[self.keys.len() - 1])
        }
    }

    /// Absorb one page of keys, in the order the service listed them, and
    /// report whether the listing is exhausted: a page shorter than the
    /// requested size is the only stop signal.
    pub fn feed_page(&mut self, page: Vec<Vec<u8>>) -> (done: bool)
        requires
            old(self).wf(),
            !old(self).spec_finished(),
            old(self).spec_requests() < usize::MAX,
        ensures
            final(self).wf(),
            final(self).spec_page_size() == old(self).spec_page_size(),
            final(self).spec_pages() == old(self).spec_pages().push(byte_views(page@)),
            final(self).spec_keys() == old(self).spec_keys() + byte_views(page@),
            final(self).spec_requests() == old(self).spec_requests() + 1,
            final(self).spec_finished() == done,
            done == (page@.len() < old(self).spec_page_size()),
    {
        let done = page.len() < self.page_size;
        let ghost pv = byte_views(page@);
        let ghost old_pages = self.pages@;
        let ghost old_keys = self.keys@;
        let mut incoming = page;
        self.keys.append(&mut incoming);
        self.finished = done;
        self.requests = self.requests + 1;
        self.pages = Ghost(self.pages@.push(pv));
        proof {
            assert(old_pages.push(pv).flatten() == old_pages.flatten() + pv) by {
                old_pages.lemma_flatten_push(pv);
            }
            assert(byte_views(old_keys + page@) =~= byte_views(old_keys) + byte_views(page@));
            assert(self.pages@.last() == pv);
            assert(pv.len() == page@.len());
            assert forall|i: int|
                0 <= i < self.pages@.len() - 1 implies (#[trigger] self.pages@[i]).len()
                >= self.page_size by {
                if i < old_pages.len() - 1 {
                    assert(self.pages@[i] == old_pages[i]);
                } else {
                    assert(self.pages@[i] == old_pages.last());
                }
            }
        }
        done
    }

    /// Read access to the keys received so far, in arrival order.
    pub fn keys(&self) -> (r: &Vec<Vec<u8>>)
        ensures
            byte_views(r@) == self.spec_keys(),
    {
        &self.keys
    }

    /// Surrender the accumulated keys.
    pub fn into_keys(self) -> (r: Vec<Vec<u8>>)
        ensures
            byte_views(r@) == self.spec_keys(),
    {
        self.keys
    }
}

/// For a strictly sorted key list, a correct answer to the request that
/// resumes at position `m` (whose cursor is the key just before `m`) is
/// exactly the keys at positions `m` up to `m + p`.
proof fn lemma_next_page_at(u: Seq<Seq<u8>>, p: int, m: int, page: Seq<Seq<u8>>)
    requires
        strictly_sorted(u),
        p >= 1,
        0 <= m <= u.len(),
        is_next_page(u, cursor_view(u.take(m)), p, page),
    ensures
        page == page_at(u, m, p),
{
    let cursor = cursor_view(u.take(m));
    let k = choose|k: int| #[trigger] page_start(u, cursor, k) && page == page_at(u, k, p);
    if m == 0 {
        assert(u.take(0).len() == 0);
        assert(k == 0);
    } else {
        let c = u[m - 1];
        assert(u.take(m).last() == c);
        assert(cursor == Some(c));
        if k < m {
            // The key at `k` would be beyond the cursor, yet it sits at or
            // before the cursor's own position.
            assert(lex_lt(c, u[k]));
            if k == m - 1 {
                lemma_lex_irreflexive(c);
            } else {
                assert(lex_lt(u[k], u[m - 1]));
                lemma_lex_transitive(c, u[k], c);
                lemma_lex_irreflexive(c);
            }
            assert(false);
        }
        if k > m {
            // The key at the cursor's successor position would be at most
            // the cursor, yet the list is strictly ascending.
            assert(lex_le(u[m], c));
            assert(lex_lt(u[m - 1], u[m]));
            if u[m] == c {
                lemma_lex_irreflexive(c);
            } else {
                lemma_lex_transitive(u[m], c, u[m]);
                lemma_lex_irreflexive(u[m]);
            }
            assert(false);
        }
        assert(k == m);
    }
}

/// After `j` full pages the enumerator holds exactly the first `j * p` keys
/// of the listing.
proof fn lemma_served_prefix(pages: Seq<Seq<Seq<u8>>>, u: Seq<Seq<u8>>, p: int, j: int)
    requires
        p >= 1,
        strictly_sorted(u),
        served_correctly(pages, u, p),
        forall|i: int| 0 <= i < pages.len() - 1 ==> (#[trigger] pages[i]).len() >= p,
        0 <= j <= pages.len() - 1,
    ensures
        pages.take(j).flatten() == u.take(j * p),
        j * p <= u.len(),
    decreases j,
{
    if j == 0 {
        assert(pages.take(0) =~= Seq::<Seq<Seq<u8>>>::empty());
        assert(Seq::<Seq<Seq<u8>>>::empty().flatten() =~= Seq::<Seq<u8>>::empty());
        assert(u.take(0) =~= Seq::<Seq<u8>>::empty());
    } else {
        lemma_served_prefix(pages, u, p, j - 1);
        let m = (j - 1) * p;
        assert((j - 1) * p + p == j * p) by (nonlinear_arith);
        assert((j - 1) * p >= 0) by (nonlinear_arith)
            requires
                j - 1 >= 0,
                p >= 1,
        ;
        assert(is_next_page(u, cursor_view(pages.take(j - 1).flatten()), p, pages[j - 1]));
        lemma_next_page_at(u, p, m, pages[j - 1]);
        assert(pages[j - 1].len() >= p);
        if m + p > u.len() {
            assert(page_at(u, m, p).len() == u.len() - m);
            assert(false);
        }
        assert(pages[j - 1] == u.subrange(m, m + p));
        assert(pages.take(j) =~= pages.take(j - 1).push(pages[j - 1]));
        assert(pages.take(j - 1).push(pages[j - 1]).flatten() == pages.take(j - 1).flatten()
            + pages[j - 1]) by {
            pages.take(j - 1).lemma_flatten_push(pages[j - 1]);
        }
        assert(u.take(m) + u.subrange(m, m + p) =~= u.take(m + p));
    }
}

/// Enumeration completeness.  If every page the enumerator received was a
/// correct answer for one fixed, strictly sorted key list, then once the
/// enumerator reports the listing exhausted it holds exactly that list —
/// every key, each once, in ascending order — and it issued exactly
/// `u.len() / page_size + 1` page requests: `ceil(N / P)` requests when the
/// page size does not divide the key count, one more round trip otherwise.
pub proof fn lemma_enumeration_complete(e: &PaginatedEnumerator, u: Seq<Seq<u8>>)
    requires
        e.wf(),
        e.spec_finished(),
        strictly_sorted(u),
        served_correctly(e.spec_pages(), u, e.spec_page_size() as int),
    ensures
        e.spec_keys() == u,
        e.spec_requests() == u.len() as int / e.spec_page_size() as int + 1,
{
    let pages = e.spec_pages();
    let p = e.spec_page_size() as int;
    let r = pages.len() as int;
    assert(r >= 1);
    lemma_served_prefix(pages, u, p, r - 1);
    let m = (r - 1) * p;
    assert(is_next_page(u, cursor_view(pages.take(r - 1).flatten()), p, pages[r - 1]));
    lemma_next_page_at(u, p, m, pages[r - 1]);
    let s = pages[r - 1].len() as int;
    assert(s < p);
    if m + p <= u.len() {
        assert(page_at(u, m, p).len() == p);
        assert(false);
    }
    assert(pages[r - 1] == u.subrange(m, u.len() as int));
    assert(pages =~= pages.take(r - 1).push(pages[r - 1]));
    assert(pages.take(r - 1).push(pages[r - 1]).flatten() == pages.take(r - 1).flatten() + pages[r
        - 1]) by {
        pages.take(r - 1).lemma_flatten_push(pages[r - 1]);
    }
    assert(u.take(m) + u.subrange(m, u.len() as int) =~= u);
    assert(e.spec_keys() == u);
    assert(u.len() == m + s);
    vstd::arithmetic::div_mod::lemma_fundamental_div_mod_converse(
        u.len() as int,
        p,
        r - 1,
        s,
    );
}

/// Enumeration emptiness: an empty key universe costs exactly one page
/// request, which returns nothing.
pub proof fn lemma_enumeration_empty(e: &PaginatedEnumerator, u: Seq<Seq<u8>>)
    requires
        e.wf(),
        e.spec_finished(),
        strictly_sorted(u),
        served_correctly(e.spec_pages(), u, e.spec_page_size() as int),
        u.len() == 0,
    ensures
        e.spec_keys().len() == 0,
        e.spec_requests() == 1,
{
    lemma_enumeration_complete(e, u);
    assert(0int / (e.spec_page_size() as int) == 0) by (nonlinear_arith)
        requires
            e.spec_page_size() >= 1,
    ;
}

} // verus!
