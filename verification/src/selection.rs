//! The selection flow: a category is chosen from a menu, then the category's
//! items are grouped into bounded menus and pages, and the user pages through
//! them circularly until one item is picked or the flow ends.

use vstd::prelude::*;
use crate::category::CosmeticCategory;
use crate::text::{distinct_entries, entry_views};

verus! {

/// The menu platform shows at most this many items in one select menu.
pub const GROUP_CAPACITY: usize = 25;

/// The menu platform shows at most this many select menus on one page.
pub const GROUPS_PER_PAGE: usize = 4;

/// The elements of the chunks, in order.
pub open spec fn flat_chunks<T>(cs: Seq<Vec<T>>) -> Seq<T>
    decreases cs.len(),
{
    if cs.len() == 0 {
        Seq::empty()
    } else {
        flat_chunks(cs.drop_last()) + cs.last()@
    }
}

proof fn lemma_flat_chunks_concat<T>(a: Seq<Vec<T>>, b: Seq<Vec<T>>)
    ensures
        flat_chunks(a + b) == flat_chunks(a) + flat_chunks(b),
    decreases b.len(),
{
    if b.len() == 0 {
        assert(a + b =~= a);
        assert(flat_chunks(a) + flat_chunks(b) =~= flat_chunks(a));
    } else {
        assert((a + b).drop_last() =~= a + b.drop_last());
        assert((a + b).last() == b.last());
        lemma_flat_chunks_concat(a, b.drop_last());
        assert(flat_chunks(a) + flat_chunks(b.drop_last()) + b.last()@ =~= flat_chunks(a) + (
        flat_chunks(b.drop_last()) + b.last()@));
    }
}

/// If a chunk holds an element, the flattened chunks hold it.
proof fn lemma_flat_chunks_mem<T>(cs: Seq<Vec<T>>, p: int, g: int)
    requires
        0 <= p < cs.len(),
        0 <= g < cs[p]@.len(),
    ensures
        flat_chunks(cs).contains(cs[p]@[g]),
    decreases cs.len(),
{
    if p == cs.len() - 1 {
        let a = flat_chunks(cs.drop_last());
        assert(flat_chunks(cs)[a.len() + g] == cs[p]@[g]);
    } else {
        lemma_flat_chunks_mem(cs.drop_last(), p, g);
        let pre = flat_chunks(cs.drop_last());
        let i = choose|i: int| 0 <= i < pre.len() && pre[i] == cs[p]@[g];
        assert(flat_chunks(cs)[i] == cs[p]@[g]);
    }
}

/// Every element of the flattened chunks lies in some chunk: the returned
/// pair names the chunk and the slot within it.
proof fn lemma_flat_chunks_pos<T>(cs: Seq<Vec<T>>, x: T) -> (pos: (int, int))
    requires
        flat_chunks(cs).contains(x),
    ensures
        0 <= pos.0 < cs.len(),
        0 <= pos.1 < cs[pos.0]@.len(),
        cs[pos.0]@[pos.1] == x,
    decreases cs.len(),
{
    assert(cs.len() > 0);
    let flat = flat_chunks(cs);
    let pre = flat_chunks(cs.drop_last());
    let i = choose|i: int| 0 <= i < flat.len() && flat[i] == x;
    if i < pre.len() {
        assert(pre[i] == x);
        assert(pre.contains(x));
        let pos = lemma_flat_chunks_pos(cs.drop_last(), x);
        assert(cs[pos.0] == cs.drop_last()[pos.0]);
        pos
    } else {
        let p = cs.len() - 1;
        let g = i - pre.len();
        assert(0 <= g < cs[p]@.len() && cs[p]@[g] == x);
        (p, g)
    }
}

/// Splits the items into maximal runs of at most `size`, in order: flattening
/// the result gives back exactly the input.
pub fn chunk<T>(items: Vec<T>, size: usize) -> (r: Vec<Vec<T>>)
    requires
        size >= 1,
    ensures
        flat_chunks(r@) == items@,
        forall|k: int| 0 <= k < r@.len() ==> 0 < (#[trigger] r@[k])@.len() <= size,
{
    let mut rest = items;
    let ghost items0 = rest@;
    let mut out: Vec<Vec<T>> = Vec::new();
    proof {
        assert(flat_chunks(out@) =~= Seq::<T>::empty());
        assert(flat_chunks(out@) + rest@ =~= items0);
    }
    while rest.len() > 0
        invariant
            size >= 1,
            flat_chunks(out@) + rest@ == items0,
            forall|k: int| 0 <= k < out@.len() ==> 0 < (#[trigger] out@[k])@.len() <= size,
        decreases rest@.len(),
    {
        let ghost rest0 = rest@;
        let mut g: Vec<T> = Vec::new();
        while g.len() < size && rest.len() > 0
            invariant
                g@.len() <= size,
                g@ + rest@ == rest0,
            decreases size - g@.len(),
        {
            let ghost restb = rest@;
            let x = rest.remove(0);
            proof {
                assert(restb.remove(0) =~= restb.drop_first());
                assert(g@.push(x) + rest@ =~= g@ + restb);
            }
            g.push(x);
        }
        proof {
            assert(g@.len() > 0);
        }
        let ghost out0 = out@;
        out.push(g);
        proof {
            assert(out@.drop_last() =~= out0);
            assert(flat_chunks(out@) == flat_chunks(out0) + out@.last()@);
            assert(flat_chunks(out0) + g@ + rest@ =~= flat_chunks(out0) + (g@ + rest@));
        }
    }
    proof {
        assert(flat_chunks(out@) + rest@ =~= flat_chunks(out@));
    }
    out
}

/// The items of one page's groups, in order.
pub open spec fn flat_pages(ps: Seq<Vec<Vec<String>>>) -> Seq<String>
    decreases ps.len(),
{
    if ps.len() == 0 {
        Seq::empty()
    } else {
        flat_pages(ps.drop_last()) + flat_chunks(ps.last()@)
    }
}

proof fn lemma_flat_pages_is_flat(ps: Seq<Vec<Vec<String>>>)
    ensures
        flat_pages(ps) == flat_chunks(flat_chunks(ps)),
    decreases ps.len(),
{
    if ps.len() == 0 {
        assert(flat_pages(ps) =~= flat_chunks(flat_chunks(ps)));
    } else {
        lemma_flat_pages_is_flat(ps.drop_last());
        lemma_flat_chunks_concat(flat_chunks(ps.drop_last()), ps.last()@);
        assert(flat_chunks(ps) == flat_chunks(ps.drop_last()) + ps.last()@);
    }
}

/// One item-picking session: the category's items, grouped into menus of at
/// most GROUP_CAPACITY and pages of at most GROUPS_PER_PAGE menus, plus the
/// page currently shown.
pub struct SelectionSession {
    pub pages: Vec<Vec<Vec<String>>>,
    pub current_page: usize,
}

/// What the chooser may do while an item page is shown.
#[derive(Clone, PartialEq, Eq, Debug)]
pub enum SelectionEvent {
    Picked(String),
    NextPage,
    PrevPage,
    Timeout,
    Malformed,
}

/// How a selection flow ends.
#[derive(Clone, PartialEq, Eq, Debug)]
pub enum SelectionOutcome {
    Resolved(String),
    Cancelled,
    TimedOut,
}

/// One step of the item stage: keep showing pages, or end the flow.
#[derive(Clone, PartialEq, Eq, Debug)]
pub enum SelectionStep {
    Continue,
    Finished(SelectionOutcome),
}

impl SelectionSession {
    /// Every item of the session, in page, group and slot order.
    pub open spec fn item_list(self) -> Seq<String> {
        flat_pages(self.pages@)
    }

    pub open spec fn wf(self) -> bool {
        &&& self.pages@.len() >= 1
        &&& self.current_page < self.pages@.len()
        &&& forall|p: int|
            0 <= p < self.pages@.len() ==> 0 < (#[trigger] self.pages@[p])@.len()
                <= GROUPS_PER_PAGE
        &&& forall|p: int, g: int|
            0 <= p < self.pages@.len() && 0 <= g < (#[trigger] self.pages@[p])@.len() ==> 0 < (
            #[trigger] self.pages@[p]@[g])@.len() <= GROUP_CAPACITY
    }

    /// Groups the category's items into menus and pages; the pages hold
    /// exactly the given items, in order, and the first page is shown.
    pub fn new(items: Vec<String>) -> (s: SelectionSession)
        requires
            items@.len() > 0,
        ensures
            s.wf(),
            s.item_list() == items@,
            s.current_page == 0,
    {
        let ghost items0 = items@;
        let groups = chunk(items, GROUP_CAPACITY);
        let ghost groups0 = groups@;
        let pages = chunk(groups, GROUPS_PER_PAGE);
        proof {
            lemma_flat_pages_is_flat(pages@);
            if pages@.len() == 0 {
                assert(flat_chunks(pages@) =~= Seq::<Vec<String>>::empty());
                assert(flat_chunks(groups0) =~= Seq::<String>::empty());
            }
            assert forall|p: int, g: int|
                0 <= p < pages@.len() && 0 <= g < (#[trigger] pages@[p])@.len() implies 0 < (
            #[trigger] pages@[p]@[g])@.len() <= GROUP_CAPACITY by {
                lemma_flat_chunks_mem(pages@, p, g);
                let i = choose|i: int|
                    0 <= i < groups0.len() && groups0[i] == pages@[p]@[g];
            }
        }
        SelectionSession { pages, current_page: 0 }
    }

    /// Advances one page, wrapping from the last page to the first.
    pub fn next_page(&mut self)
        requires
            old(self).wf(),
        ensures
            final(self).wf(),
            final(self).pages == old(self).pages,
            final(self).current_page == if old(self).current_page == old(self).pages@.len() - 1 {
                0int
            } else {
                old(self).current_page + 1
            },
    {
        if self.current_page >= self.pages.len() - 1 {
            self.current_page = 0;
        } else {
            self.current_page = self.current_page + 1;
        }
    }

    /// Goes back one page, wrapping from the first page to the last.
    pub fn prev_page(&mut self)
        requires
            old(self).wf(),
        ensures
            final(self).wf(),
            final(self).pages == old(self).pages,
            final(self).current_page == if old(self).current_page == 0 {
                old(self).pages@.len() - 1
            } else {
                old(self).current_page - 1
            },
    {
        if self.current_page == 0 {
            self.current_page = self.pages.len() - 1;
        } else {
            self.current_page = self.current_page - 1;
        }
    }

    /// The groups of the page currently shown.
    pub fn current_page_groups(&self) -> (r: &Vec<Vec<String>>)
        requires
            self.wf(),
        ensures
            r == self.pages@[self.current_page as int],
    {
        &self.pages[self.current_page]
    }

    pub fn page_count(&self) -> (r: usize)
        ensures
            r == self.pages@.len(),
    {
        self.pages.len()
    }

    pub fn page_index(&self) -> (r: usize)
        ensures
            r == self.current_page,
    {
        self.current_page
    }

    /// Handles one response while an item page is shown: picking an item ends
    /// the flow with that item whatever the page; page turns keep the session
    /// alive and never change its items; no response or a malformed one ends
    /// the flow with no item.
    pub fn handle_item_event(&mut self, event: SelectionEvent) -> (r: SelectionStep)
        requires
            old(self).wf(),
        ensures
            final(self).wf(),
            final(self).pages == old(self).pages,
            final(self).item_list() == old(self).item_list(),
            match event {
                SelectionEvent::Picked(name) => r == SelectionStep::Finished(
                    SelectionOutcome::Resolved(name)) && final(self).current_page == old(
                    self).current_page,
                SelectionEvent::NextPage => r == SelectionStep::Continue && final(
                    self).current_page == if old(self).current_page == old(self).pages@.len() - 1 {
                    0int
                } else {
                    old(self).current_page + 1
                },
                SelectionEvent::PrevPage => r == SelectionStep::Continue && final(
                    self).current_page == if old(self).current_page == 0 {
                    old(self).pages@.len() - 1
                } else {
                    old(self).current_page - 1
                },
                SelectionEvent::Timeout => r == SelectionStep::Finished(
                    SelectionOutcome::TimedOut) && final(self).current_page == old(
                    self).current_page,
                SelectionEvent::Malformed => r == SelectionStep::Finished(
                    SelectionOutcome::Cancelled) && final(self).current_page == old(
                    self).current_page,
            },
    {
        match event {
            SelectionEvent::Picked(name) => SelectionStep::Finished(
                SelectionOutcome::Resolved(name),
            ),
            SelectionEvent::NextPage => {
                self.next_page();
                SelectionStep::Continue
            },
            SelectionEvent::PrevPage => {
                self.prev_page();
                SelectionStep::Continue
            },
            SelectionEvent::Timeout => SelectionStep::Finished(SelectionOutcome::TimedOut),
            SelectionEvent::Malformed => SelectionStep::Finished(SelectionOutcome::Cancelled),
        }
    }
}

/// What the chooser may do while the category menu is shown.
pub enum CategoryEvent {
    Chosen(String),
    Timeout,
    Malformed,
}

/// Resolves the category stage: only a menu response carrying a known
/// category identifier yields a category; anything else ends the flow.
pub fn resolve_category(event: CategoryEvent) -> (r: Option<CosmeticCategory>)
    ensures
        match event {
            CategoryEvent::Chosen(id) => r == CosmeticCategory::of_id(id@),
            CategoryEvent::Timeout => r is None,
            CategoryEvent::Malformed => r is None,
        },
{
    match event {
        CategoryEvent::Chosen(id) => CosmeticCategory::from_id(id.as_str()),
        CategoryEvent::Timeout => None,
        CategoryEvent::Malformed => None,
    }
}

/// Pagination is a bijection over the category's items: with no name listed
/// twice, each listed item's text occurs exactly once across all pages, and
/// a text not listed occurs nowhere.
pub proof fn lemma_pagination_bijection(s: SelectionSession, items: Seq<String>)
    requires
        s.item_list() == items,
        distinct_entries(entry_views(items)),
    ensures
        forall|x: Seq<char>|
            entry_views(items).contains(x) ==> #[trigger] entry_views(
                s.item_list()).to_multiset().count(x) == 1,
        forall|x: Seq<char>|
            !entry_views(items).contains(x) ==> #[trigger] entry_views(
                s.item_list()).to_multiset().count(x) == 0,
{
    broadcast use vstd::seq_lib::group_to_multiset_ensures;

    let es = entry_views(items);
    assert(es.no_duplicates());
    es.lemma_multiset_has_no_duplicates();
    assert forall|x: Seq<char>| es.contains(x) implies #[trigger] entry_views(
        s.item_list()).to_multiset().count(x) == 1 by {
        assert(es.to_multiset().count(x) >= 1);
    }
    assert forall|x: Seq<char>| !es.contains(x) implies #[trigger] entry_views(
        s.item_list()).to_multiset().count(x) == 0 by {
        if es.to_multiset().count(x) > 0 {
            assert(es.contains(x));
        }
    }
}

/// Every item of the session sits at a page, group and slot position: the
/// returned triple names the page, the group on it, and the slot within the
/// group that hold the item at the given catalog position.
pub proof fn lemma_item_position(s: SelectionSession, items: Seq<String>, i: int) -> (pos: (
    int,
    int,
    int,
))
    requires
        s.item_list() == items,
        0 <= i < items.len(),
    ensures
        0 <= pos.0 < s.pages@.len(),
        0 <= pos.1 < s.pages@[pos.0]@.len(),
        0 <= pos.2 < s.pages@[pos.0]@[pos.1]@.len(),
        s.pages@[pos.0]@[pos.1]@[pos.2] == items[i],
{
    lemma_flat_pages_is_flat(s.pages@);
    assert(flat_chunks(flat_chunks(s.pages@))[i] == items[i]);
    assert(flat_chunks(flat_chunks(s.pages@)).contains(items[i]));
    let qk = lemma_flat_chunks_pos(flat_chunks(s.pages@), items[i]);
    let q = qk.0;
    let k = qk.1;
    assert(flat_chunks(s.pages@).contains(flat_chunks(s.pages@)[q]));
    let pg = lemma_flat_chunks_pos(s.pages@, flat_chunks(s.pages@)[q]);
    let p = pg.0;
    let g = pg.1;
    assert(s.pages@[p]@[g]@[k] == items[i]);
    (p, g, k)
}

} // verus!
