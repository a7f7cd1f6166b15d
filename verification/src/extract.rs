//! Per-class entity extraction: offset-based pagination with a seen-id set
//! that stops the loop once a page brings nothing new, and a memory bound
//! that spills the buffer to temporary storage mid-pagination.

use vstd::prelude::*;

use crate::display::dec_rep;
use crate::json::{
    json_view_seq, lemma_json_view_seq_index, lemma_json_view_seq_len, JsonValue, SpecJson,
};
use crate::names::push_char;
use crate::predicates::pred_id;

verus! {

/// Records fetched in one page request.
pub const PAGE_SIZE: u64 = 5000;

/// Buffered records above this spill to temporary storage mid-pagination.
pub const SPILL_THRESHOLD: usize = 12500;

/// A record without an integer `_id` cannot be tracked for termination.
#[derive(Debug, PartialEq, Eq, Structural, Clone, Copy)]
pub struct MissingEntityId;

/// The set of ids in a page.
pub open spec fn ids_set(ids: Seq<i64>) -> Set<int> {
    ids.map_values(|x: i64| x as int).to_set()
}

/// The ids of a page of records.
pub open spec fn page_ids(page: Seq<SpecJson>) -> Seq<int> {
    page.map_values(|v: SpecJson| pred_id(v).unwrap())
}

/// Whether every record of a page carries an integer `_id`.
pub open spec fn page_ids_ok(page: Seq<SpecJson>) -> bool {
    forall|i: int| 0 <= i < page.len() ==> pred_id(#[trigger] page[i]) is Some
}

/// Pagination stops when a page brings no id that was not already seen;
/// an empty page brings none.
pub open spec fn page_stops(seen: Set<int>, ids: Seq<int>) -> bool {
    ids.to_set().subset_of(seen)
}

/// What one page did to a class's extraction.
pub enum PageOutcome {
    /// The page brought nothing new: pagination is over, and the buffer
    /// (possibly empty) is handed out for its final spill.
    Finished(Vec<JsonValue>),
    /// The page was appended; a buffer past the memory bound is handed
    /// out for an early spill.
    Continued(Option<Vec<JsonValue>>),
}

/// The pagination state of one class.
pub struct ClassExtraction {
    /// Ids seen so far, without duplicates.
    pub seen: Vec<i64>,
    /// Records buffered since the last spill.
    pub results: Vec<JsonValue>,
    /// The offset of the next page request.
    pub offset: u64,
}

impl ClassExtraction {
    /// The seen ids as a set.
    pub open spec fn seen_set(&self) -> Set<int> {
        ids_set(self.seen@)
    }

    /// The buffered records' models.
    pub open spec fn buffered(&self) -> Seq<SpecJson> {
        json_view_seq(self.results@)
    }

    /// Seen ids are pairwise distinct.
    pub open spec fn wf(&self) -> bool {
        forall|i: int, j: int| 0 <= i < j < self.seen@.len() ==> self.seen@[i] != self.seen@[j]
    }

    /// A fresh extraction at offset zero with nothing seen.
    pub fn new() -> (r: ClassExtraction)
        ensures
            r.seen_set() == Set::<int>::empty(),
            r.buffered() == Seq::<SpecJson>::empty(),
            r.offset == 0,
            r.wf(),
    {
        let r = ClassExtraction { seen: Vec::new(), results: Vec::new(), offset: 0 };
        proof {
            assert(r.seen@.map_values(|x: i64| x as int) =~= Seq::<int>::empty());
            assert(r.seen_set() =~= Set::<int>::empty());
            assert(r.buffered() =~= Seq::<SpecJson>::empty());
        }
        r
    }

    /// Feeds one fetched page. The page ends the pagination exactly when
    /// every id in it was already seen (in particular when it is empty);
    /// otherwise the seen set strictly grows, the page is buffered, the
    /// offset advances by the page size, and a buffer past the memory
    /// bound is handed out to be spilled.
    #[verifier::loop_isolation(false)]
    pub fn step(&mut self, page: Vec<JsonValue>) -> (r: Result<PageOutcome, MissingEntityId>)
        requires
            old(self).wf(),
            old(self).offset + PAGE_SIZE <= u64::MAX,
        ensures
            final(self).wf(),
            r is Ok <==> page_ids_ok(json_view_seq(page@)),
            r is Err ==> *final(self) == *old(self),
            match r {
                Result::Ok(outcome) => {
                    let ids = page_ids(json_view_seq(page@));
                    &&& final(self).seen_set() == old(self).seen_set() + ids.to_set()
                    &&& (outcome is Finished <==> page_stops(old(self).seen_set(), ids))
                    &&& match outcome {
                        PageOutcome::Finished(spill) => {
                            &&& json_view_seq(spill@) == old(self).buffered()
                            &&& final(self).buffered() == Seq::<SpecJson>::empty()
                            &&& final(self).offset == old(self).offset
                        },
                        PageOutcome::Continued(spill) => {
                            &&& old(self).seen_set().subset_of(final(self).seen_set())
                            &&& old(self).seen_set() != final(self).seen_set()
                            &&& final(self).offset == old(self).offset + PAGE_SIZE
                            &&& match spill {
                                Option::Some(records) => {
                                    &&& json_view_seq(records@) == old(self).buffered()
                                        + json_view_seq(page@)
                                    &&& final(self).buffered() == Seq::<SpecJson>::empty()
                                    &&& old(self).buffered().len() + page@.len()
                                        > SPILL_THRESHOLD
                                },
                                Option::None => {
                                    &&& final(self).buffered() == old(self).buffered()
                                        + json_view_seq(page@)
                                    &&& old(self).buffered().len() + page@.len()
                                        <= SPILL_THRESHOLD
                                },
                            }
                        },
                    }
                },
                Result::Err(_) => true,
            },
    {
        let ghost page_views = json_view_seq(page@);
        proof {
            lemma_json_view_seq_len(page@);
        }
        let n = page.len();
        let mut ids: Vec<i64> = Vec::new();
        let mut i: usize = 0;
        while i < n
            invariant
                i <= n,
                ids@.len() == i,
                forall|j: int| 0 <= j < i ==> pred_id(#[trigger] page_views[j]) is Some,
                forall|j: int|
                    0 <= j < i ==> ids@[j] as int == pred_id(#[trigger] page_views[j]).unwrap(),
            decreases n - i,
        {
            proof {
                lemma_json_view_seq_index(page@, i as int);
            }
            match page[i].get_field("_id") {
                Option::Some(v) => match v.as_i64() {
                    Option::Some(x) => {
                        ids.push(x);
                    },
                    Option::None => {
                        return Result::Err(MissingEntityId);
                    },
                },
                Option::None => {
                    return Result::Err(MissingEntityId);
                },
            }
            i = i + 1;
        }
        proof {
            assert(ids@.map_values(|x: i64| x as int) =~= page_ids(page_views));
        }

        let mut all_seen = true;
        let mut k: usize = 0;
        while k < n
            invariant
                k <= n,
                ids@.len() == n,
                all_seen <==> forall|j: int|
                    0 <= j < k ==> self.seen_set().contains(#[trigger] ids@[j] as int),
            decreases n - k,
        {
            proof {
                lemma_ids_set_contains(self.seen@, ids@[k as int]);
            }
            if !contains_id(&self.seen, ids[k]) {
                all_seen = false;
            }
            k = k + 1;
        }
        proof {
            let idseq = page_ids(page_views);
            if all_seen {
                assert forall|x: int| idseq.to_set().contains(x) implies self.seen_set().contains(
                    x,
                ) by {
                    let j = choose|j: int| 0 <= j < idseq.len() && idseq[j] == x;
                    assert(ids@[j] as int == x);
                }
                assert(page_stops(self.seen_set(), idseq));
            } else {
                assert(!page_stops(self.seen_set(), idseq)) by {
                    let j = choose|j: int|
                        0 <= j < n && !self.seen_set().contains(#[trigger] ids@[j] as int);
                    assert(idseq[j] == ids@[j] as int);
                    assert(idseq.to_set().contains(idseq[j]));
                }
            }
        }

        let ghost seen_before = self.seen_set();

        // the seen set absorbs the page's ids either way
        proof {
            assert(ids@.take(0) =~= Seq::<i64>::empty());
            assert(ids_set(ids@.take(0)) =~= Set::<int>::empty()) by {
                assert(Seq::<i64>::empty().map_values(|x: i64| x as int) =~= Seq::<
                    int,
                >::empty());
            }
            assert(seen_before + ids_set(ids@.take(0)) =~= seen_before);
        }
        let mut m: usize = 0;
        while m < n
            invariant
                m <= n,
                ids@.len() == n,
                self.wf(),
                self.results@ == old(self).results@,
                self.offset == old(self).offset,
                self.seen_set() == seen_before + ids_set(ids@.take(m as int)),
            decreases n - m,
        {
            let ghost prev_seen = self.seen@;
            let ghost prev = self.seen_set();
            proof {
                lemma_ids_set_contains(self.seen@, ids@[m as int]);
            }
            if !contains_id(&self.seen, ids[m]) {
                self.seen.push(ids[m]);
                proof {
                    assert(self.seen@.drop_last() =~= prev_seen);
                    lemma_ids_set_snoc(self.seen@);
                    assert(self.seen_set() =~= prev.insert(ids@[m as int] as int));
                    assert forall|i: int, j: int|
                        0 <= i < j < self.seen@.len() implies self.seen@[i]
                        != self.seen@[j] by {
                        if j == self.seen@.len() - 1 {
                            assert(self.seen@[i] == prev_seen[i]);
                            assert(!prev_seen.contains(ids@[m as int]));
                        }
                    }
                }
            } else {
                proof {
                    assert(prev.contains(ids@[m as int] as int));
                    assert(self.seen_set() =~= prev.insert(ids@[m as int] as int));
                }
            }
            proof {
                lemma_ids_set_push(ids@, m as int);
                assert(self.seen_set() =~= seen_before + ids_set(ids@.take(m + 1)));
            }
            m = m + 1;
        }
        proof {
            assert(ids@.take(n as int) =~= ids@);
            assert(ids_set(ids@) =~= page_ids(page_views).to_set()) by {
                lemma_ids_set_is_page_set(ids@, page_views);
            }
        }

        if n == 0 || all_seen {
            let spill = self.results.split_off(0);
            proof {
                assert(self.results@ =~= Seq::<JsonValue>::empty());
                assert(self.buffered() =~= Seq::<SpecJson>::empty());
                assert(spill@ =~= old(self).results@);
                if n == 0 {
                    assert(page_ids(page_views).to_set() =~= Set::<int>::empty());
                    assert(page_stops(seen_before, page_ids(page_views)));
                }
            }
            return Result::Ok(PageOutcome::Finished(spill));
        }

        let mut incoming = page;
        let ghost old_results = self.results@;
        let ghost page_records = incoming@;
        append_values(&mut self.results, &mut incoming);
        proof {
            assert(self.buffered() == old(self).buffered() + page_views) by {
                lemma_json_view_seq_concat(old_results, page_records, self.results@);
            }
            assert(seen_before.subset_of(self.seen_set()) && seen_before != self.seen_set()) by {
                let idseq = page_ids(page_views);
                assert(!idseq.to_set().subset_of(seen_before));
                let x = choose|x: int| idseq.to_set().contains(x) && !seen_before.contains(x);
                assert(self.seen_set().contains(x));
                assert(seen_before.subset_of(self.seen_set()));
            }
        }

        self.offset = self.offset + PAGE_SIZE;

        if self.results.len() > SPILL_THRESHOLD {
            let ghost pre_split = self.results@;
            let spill = self.results.split_off(0);
            proof {
                assert(self.results@ =~= Seq::<JsonValue>::empty());
                assert(self.buffered() =~= Seq::<SpecJson>::empty());
                assert(spill@ =~= pre_split);
                assert(json_view_seq(spill@) == old(self).buffered() + page_views);
                lemma_json_view_seq_len(spill@);
                lemma_json_view_seq_len(old(self).results@);
            }
            Result::Ok(PageOutcome::Continued(Option::Some(spill)))
        } else {
            proof {
                lemma_json_view_seq_len(self.results@);
                lemma_json_view_seq_len(old(self).results@);
            }
            Result::Ok(PageOutcome::Continued(Option::None))
        }
    }
}

/// Whether a seen-id list contains an id.
fn contains_id(v: &Vec<i64>, x: i64) -> (r: bool)
    ensures
        r == v@.contains(x),
{
    let n = v.len();
    let mut i: usize = 0;
    while i < n
        invariant
            n == v@.len(),
            i <= n,
            forall|j: int| 0 <= j < i ==> v@[j] != x,
        decreases n - i,
    {
        if v[i] == x {
            return true;
        }
        i = i + 1;
    }
    proof {
        if v@.contains(x) {
            let j = choose|j: int| 0 <= j < v@.len() && v@[j] == x;
        }
    }
    false
}

/// Moves all records of `src` onto the end of `dst`.
fn append_values(dst: &mut Vec<JsonValue>, src: &mut Vec<JsonValue>)
    ensures
        final(dst)@ == old(dst)@ + old(src)@,
{
    dst.append(src);
}

proof fn lemma_ids_set_contains(v: Seq<i64>, x: i64)
    ensures
        ids_set(v).contains(x as int) <==> v.contains(x),
{
    let m = v.map_values(|y: i64| y as int);
    if v.contains(x) {
        let j = choose|j: int| 0 <= j < v.len() && v[j] == x;
        assert(m[j] == x as int);
        assert(m.contains(x as int));
    }
    if m.to_set().contains(x as int) {
        let j = choose|j: int| 0 <= j < m.len() && m[j] == x as int;
        assert(v[j] == x);
    }
}

proof fn lemma_ids_set_push(ids: Seq<i64>, m: int)
    requires
        0 <= m < ids.len(),
    ensures
        ids_set(ids.take(m + 1)) =~= ids_set(ids.take(m)).insert(ids[m] as int),
{
    let a = ids.take(m + 1);
    let b = ids.take(m);
    assert(a =~= b.push(ids[m]));
    let ma = a.map_values(|y: i64| y as int);
    let mb = b.map_values(|y: i64| y as int);
    assert(ma =~= mb.push(ids[m] as int));
    assert forall|x: int| ma.to_set().contains(x) implies mb.to_set().insert(
        ids[m] as int,
    ).contains(x) by {
        let j = choose|j: int| 0 <= j < ma.len() && ma[j] == x;
        if j < mb.len() {
            assert(mb[j] == x);
        }
    }
    assert forall|x: int| mb.to_set().insert(ids[m] as int).contains(x) implies ma.to_set()
        .contains(x) by {
        if mb.to_set().contains(x) {
            let j = choose|j: int| 0 <= j < mb.len() && mb[j] == x;
            assert(ma[j] == x);
        } else {
            assert(ma[ma.len() - 1] == x);
        }
    }
}

proof fn lemma_ids_set_snoc(v: Seq<i64>)
    requires
        v.len() > 0,
    ensures
        ids_set(v) =~= ids_set(v.drop_last()).insert(v.last() as int),
{
    let m = v.map_values(|y: i64| y as int);
    let mb = v.drop_last().map_values(|y: i64| y as int);
    assert(m =~= mb.push(v.last() as int));
    assert forall|x: int| m.to_set().contains(x) implies mb.to_set().insert(
        v.last() as int,
    ).contains(x) by {
        let j = choose|j: int| 0 <= j < m.len() && m[j] == x;
        if j < mb.len() {
            assert(mb[j] == x);
        }
    }
    assert forall|x: int| mb.to_set().insert(v.last() as int).contains(x) implies m.to_set()
        .contains(x) by {
        if mb.to_set().contains(x) {
            let j = choose|j: int| 0 <= j < mb.len() && mb[j] == x;
            assert(m[j] == x);
        } else {
            assert(m[m.len() - 1] == x);
        }
    }
}

proof fn lemma_ids_set_is_page_set(ids: Seq<i64>, page_views: Seq<SpecJson>)
    requires
        ids.map_values(|x: i64| x as int) == page_ids(page_views),
    ensures
        ids_set(ids) == page_ids(page_views).to_set(),
{
}

proof fn lemma_json_view_seq_concat(a: Seq<JsonValue>, b: Seq<JsonValue>, c: Seq<JsonValue>)
    requires
        c == a + b,
    ensures
        json_view_seq(c) =~= json_view_seq(a) + json_view_seq(b),
{
    broadcast use lemma_json_view_seq_len, lemma_json_view_seq_index;

    assert forall|j: int| 0 <= j < c.len() implies json_view_seq(c)[j] == (json_view_seq(a)
        + json_view_seq(b))[j] by {
        if j < a.len() {
            assert(c[j] == a[j]);
        } else {
            assert(c[j] == b[j - a.len()]);
        }
    }
}

/// The name of a spill file: the flush counter, a double underscore, the
/// class name. Counters run upward, so a lexicographic directory listing
/// keeps flush order for counters of equal width.
pub open spec fn spill_name_spec(counter: nat, class_name: Seq<char>) -> Seq<char> {
    dec_rep(counter) + seq!['_', '_'] + class_name
}

/// Builds the file name for one spill flush.
pub fn spill_file_name(counter: u32, class_name: &str) -> (r: String)
    ensures
        r@ == spill_name_spec(counter as nat, class_name@),
{
    let mut s = crate::display::u64_to_string(counter as u64);
    push_char(&mut s, '_');
    push_char(&mut s, '_');
    s.append(class_name);
    proof {
        assert(s@ =~= spill_name_spec(counter as nat, class_name@));
    }
    s
}

/// Index of the first double underscore of `s`, or past the end if none.
pub open spec fn find_dunder(s: Seq<char>) -> int
    decreases s.len(),
{
    if s.len() < 2 {
        s.len() as int
    } else if s[0] == '_' && s[1] == '_' {
        0
    } else {
        1 + find_dunder(s.drop_first())
    }
}

pub proof fn lemma_find_dunder(s: Seq<char>)
    ensures
        0 <= find_dunder(s) <= s.len(),
        find_dunder(s) < s.len() ==> find_dunder(s) + 2 <= s.len() && s[find_dunder(s)] == '_'
            && s[find_dunder(s) + 1] == '_',
        forall|j: int| 0 <= j < find_dunder(s) && j + 1 < s.len() ==> !(#[trigger] s[j] == '_'
            && s[j + 1] == '_'),
    decreases s.len(),
{
    if s.len() >= 2 && !(s[0] == '_' && s[1] == '_') {
        lemma_find_dunder(s.drop_first());
        assert forall|j: int|
            0 <= j < find_dunder(s) && j + 1 < s.len() implies !(#[trigger] s[j] == '_' && s[j
            + 1] == '_') by {
            if j > 0 {
                assert(s.drop_first()[j - 1] == s[j]);
                assert(s.drop_first()[j] == s[j + 1]);
            }
        }
    }
}

/// The text after the last double underscore of a spill file name; a name
/// without one is returned whole.
pub open spec fn last_dunder_segment(s: Seq<char>) -> Seq<char>
    decreases s.len(),
{
    let i = find_dunder(s);
    if 0 <= i && i + 2 <= s.len() {
        last_dunder_segment(s.skip(i + 2))
    } else {
        s
    }
}

/// Finds the first double underscore at or after `from`.
fn find_dunder_from(s: &str, from: usize, len: usize) -> (r: usize)
    requires
        len == s@.len(),
        from <= len,
    ensures
        from <= r <= len,
        r - from == find_dunder(s@.skip(from as int)) || (r == len && find_dunder(
            s@.skip(from as int),
        ) >= len - from),
        r < len ==> r - from == find_dunder(s@.skip(from as int)),
    decreases len - from,
{
    proof {
        lemma_find_dunder(s@.skip(from as int));
    }
    if len - from < 2 {
        proof {
            assert(s@.skip(from as int).len() < 2);
        }
        return len;
    }
    if s.get_char(from) == '_' && s.get_char(from + 1) == '_' {
        proof {
            assert(s@.skip(from as int)[0] == s@[from as int]);
            assert(s@.skip(from as int)[1] == s@[from as int + 1]);
        }
        return from;
    }
    let r = find_dunder_from(s, from + 1, len);
    proof {
        assert(s@.skip(from as int)[0] == s@[from as int]);
        assert(s@.skip(from as int)[1] == s@[from as int + 1]);
        assert(s@.skip(from as int).drop_first() =~= s@.skip(from + 1));
    }
    r
}

/// Reads the class name back out of a spill file name.
pub fn spill_class_name(file_name: &str) -> (r: String)
    ensures
        r@ == last_dunder_segment(file_name@),
{
    let len = file_name.unicode_len();
    let mut start: usize = 0;
    proof {
        assert(file_name@.skip(0) =~= file_name@);
    }
    loop
        invariant
            start <= len,
            len == file_name@.len(),
            last_dunder_segment(file_name@) == last_dunder_segment(
                file_name@.skip(start as int),
            ),
        decreases len - start,
    {
        proof {
            lemma_find_dunder(file_name@.skip(start as int));
        }
        let i = find_dunder_from(file_name, start, len);
        if i == len {
            let tail = file_name.substring_char(start, len);
            proof {
                assert(tail@ =~= file_name@.skip(start as int));
                if find_dunder(file_name@.skip(start as int)) < file_name@.skip(
                    start as int,
                ).len() {
                    assert(i - start == find_dunder(file_name@.skip(start as int)));
                    assert(false);
                }
            }
            return tail.to_owned();
        }
        proof {
            assert(i - start == find_dunder(file_name@.skip(start as int)));
            assert(file_name@.skip(start as int).skip(i - start + 2) =~= file_name@.skip(
                i as int + 2,
            ));
        }
        start = i + 2;
    }
}

/// The seen set after feeding the first `k` pages of a run, starting from
/// nothing seen.
pub open spec fn run_seen(pages: Seq<Seq<int>>, k: int) -> Set<int>
    decreases k,
{
    if k <= 0 {
        Set::empty()
    } else {
        run_seen(pages, k - 1) + pages[k - 1].to_set()
    }
}

/// Whether the run is still going after `k` pages: no page so far stopped
/// it.
pub open spec fn run_alive(pages: Seq<Seq<int>>, k: int) -> bool {
    forall|j: int| 0 <= j < k ==> !page_stops(run_seen(pages, j), #[trigger] pages[j])
}

proof fn lemma_run_seen_subset(pages: Seq<Seq<int>>, universe: Set<int>, k: int)
    requires
        0 <= k <= pages.len(),
        forall|j: int| 0 <= j < pages.len() ==> (#[trigger] pages[j]).to_set().subset_of(universe),
    ensures
        run_seen(pages, k).subset_of(universe),
    decreases k,
{
    if k > 0 {
        lemma_run_seen_subset(pages, universe, k - 1);
    }
}

proof fn lemma_run_seen_finite(pages: Seq<Seq<int>>, k: int)
    requires
        0 <= k,
    ensures
        run_seen(pages, k).finite(),
    decreases k,
{
    if k > 0 {
        lemma_run_seen_finite(pages, k - 1);
        vstd::seq_lib::seq_to_set_is_finite(pages[k - 1]);
    }
}

proof fn lemma_alive_grows(pages: Seq<Seq<int>>, k: int)
    requires
        0 <= k <= pages.len(),
        run_alive(pages, k),
    ensures
        run_seen(pages, k).finite(),
        run_seen(pages, k).len() >= k,
    decreases k,
{
    lemma_run_seen_finite(pages, k);
    if k > 0 {
        lemma_alive_grows(pages, k - 1);
        let before = run_seen(pages, k - 1);
        let after = run_seen(pages, k);
        assert(!page_stops(before, pages[k - 1]));
        let x = choose|x: int| pages[k - 1].to_set().contains(x) && !before.contains(x);
        assert(after.contains(x));
        assert(before.insert(x).subset_of(after));
        assert(before.insert(x).len() == before.len() + 1);
        vstd::set_lib::lemma_len_subset(before.insert(x), after);
    }
}

/// Extraction terminates. Every page that does not stop a class's
/// pagination brings at least one id never seen before, so against a
/// source whose entity ids are drawn from a finite universe — in
/// particular one that keeps returning its last page — some page within
/// the first `|universe| + 1` must stop the loop.
pub proof fn lemma_extraction_terminates(pages: Seq<Seq<int>>, universe: Set<int>)
    requires
        universe.finite(),
        forall|j: int| 0 <= j < pages.len() ==> (#[trigger] pages[j]).to_set().subset_of(universe),
        pages.len() > universe.len(),
    ensures
        exists|k: int|
            0 <= k <= universe.len() && page_stops(run_seen(pages, k), #[trigger] pages[k]),
{
    let n = (universe.len() + 1) as int;
    if run_alive(pages, n) {
        lemma_alive_grows(pages, n);
        lemma_run_seen_subset(pages, universe, n);
        vstd::set_lib::lemma_len_subset(run_seen(pages, n), universe);
        assert(false);
    }
    let k = choose|k: int| 0 <= k < n && page_stops(run_seen(pages, k), #[trigger] pages[k]);
    assert(0 <= k <= universe.len());
}

} // verus!
