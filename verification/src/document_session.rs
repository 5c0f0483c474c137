//! Document tabs: their titles, their order, and which tab becomes active
//! when one is closed (the tab to the right, else the one to the left).
//!
//! The sessions themselves (documents, caches, undo) are kept by the caller.
use vstd::prelude::*;
use vstd::string::*;

use crate::text::{concat_str, decimal, decimal_string};

verus! {

broadcast use vstd::seq_lib::group_to_multiset_ensures;

/// One tab of the document strip.
#[derive(Debug, Clone)]
pub struct OpenDocumentTabDto {
    pub id: u32,
    pub title: String,
    pub dirty: bool,
    pub path: Option<String>,
}

/// The tab strip and its active tab.
#[derive(Debug, Clone)]
pub struct OpenDocumentsPayload {
    pub tabs: Vec<OpenDocumentTabDto>,
    pub active_id: Option<u32>,
}

/// Mathematical value of an [`OpenDocumentTabDto`].
pub struct TabView {
    pub id: u32,
    pub title: Seq<char>,
    pub dirty: bool,
    pub path: Option<Seq<char>>,
}

impl View for OpenDocumentTabDto {
    type V = TabView;

    open spec fn view(&self) -> TabView {
        TabView {
            id: self.id,
            title: self.title@,
            dirty: self.dirty,
            path: match self.path {
                Some(p) => Some(p@),
                None => None,
            },
        }
    }
}

/// The views of a sequence of tabs.
pub open spec fn tabs_view(v: Seq<OpenDocumentTabDto>) -> Seq<TabView> {
    v.map_values(|t: OpenDocumentTabDto| t@)
}

// ---------------------------------------------------------------------------
// Closing a tab
// ---------------------------------------------------------------------------

/// The tab to activate after `closed` closes, given the strip order before
/// the close: the tab to its right, else the one to its left, else none; the
/// last tab when `closed` is not in the strip.
pub open spec fn neighbor_spec(order: Seq<u32>, closed: u32) -> Option<u32> {
    if !order.contains(closed) {
        if order.len() > 0 {
            Some(order.last())
        } else {
            None
        }
    } else {
        let idx = choose|i: int| 0 <= i < order.len() && order[i] == closed && forall|j: int|
            0 <= j < i ==> order[j] != closed;
        if idx + 1 < order.len() {
            Some(order[idx + 1])
        } else if idx > 0 {
            Some(order[idx - 1])
        } else {
            None
        }
    }
}

/// Neighbor to activate after closing `closed` (see [`neighbor_spec`]).
pub fn neighbor_after_close(order: &[u32], closed: u32) -> (r: Option<u32>)
    ensures
        r == neighbor_spec(order@, closed),
{
    let mut i: usize = 0;
    while i < order.len()
        invariant
            i <= order.len(),
            forall|j: int| 0 <= j < i ==> order@[j] != closed,
        decreases order.len() - i,
    {
        if order[i] == closed {
            proof {
                let idx = choose|k: int| 0 <= k < order@.len() && order@[k] == closed && forall|j: int|
                    0 <= j < k ==> order@[j] != closed;
                assert(order@.contains(closed));
                assert(0 <= idx < order@.len() && order@[idx] == closed && forall|j: int|
                    0 <= j < idx ==> order@[j] != closed);
                if idx < i {
                } else if idx > i {
                    assert(order@[i as int] == closed);
                }
                assert(idx == i);
            }
            if i + 1 < order.len() {
                return Some(order[i + 1]);
            } else if i > 0 {
                return Some(order[i - 1]);
            } else {
                return None;
            }
        }
        i = i + 1;
    }
    if order.len() > 0 {
        Some(order[order.len() - 1])
    } else {
        None
    }
}

/// The active tab after `closed` closes: its neighbor when it was the active
/// one, else the active tab unchanged.
pub fn active_after_close(active: Option<u32>, order_before: &[u32], closed: u32) -> (r: Option<
    u32,
>)
    ensures
        r == (if active == Some(closed) {
            neighbor_spec(order_before@, closed)
        } else {
            active
        }),
{
    match active {
        Some(a) => if a == closed {
            neighbor_after_close(order_before, closed)
        } else {
            active
        },
        None => None,
    }
}

// ---------------------------------------------------------------------------
// Titles and order
// ---------------------------------------------------------------------------

/// Title of a tab: the project file's name, else `Untitled <id>`.
pub open spec fn tab_title_spec(file_name: Option<Seq<char>>, id: u32) -> Seq<char> {
    match file_name {
        Some(n) => n,
        None => "Untitled "@ + decimal(id as nat),
    }
}

/// The view of an optional string slice.
pub open spec fn opt_str(o: Option<&str>) -> Option<Seq<char>> {
    match o {
        Some(s) => Some(s@),
        None => None,
    }
}

/// Title of a tab (see [`tab_title_spec`]).
pub fn tab_title(file_name: Option<&str>, id: u32) -> (r: String)
    ensures
        r@ == tab_title_spec(opt_str(file_name), id),
{
    match file_name {
        Some(n) => String::from_str(n),
        None => {
            let digits = decimal_string(id as usize);
            concat_str("Untitled ", digits.as_str())
        },
    }
}

/// Where `t` joins the id-ordered strip `s`: before the first tab with a
/// larger id, so that tabs with equal ids keep their order.
pub open spec fn tab_pos(s: Seq<TabView>, t: TabView) -> int
    decreases s.len(),
{
    if s.len() == 0 {
        0
    } else if t.id < s[0].id {
        0
    } else {
        1 + tab_pos(s.drop_first(), t)
    }
}

/// The tabs ordered by id ascending (a stable sort).
pub open spec fn tabs_by_id(s: Seq<TabView>) -> Seq<TabView>
    decreases s.len(),
{
    if s.len() == 0 {
        s
    } else {
        let l = tabs_by_id(s.drop_last());
        l.insert(tab_pos(l, s.last()), s.last())
    }
}

proof fn lemma_tab_pos(s: Seq<TabView>, t: TabView)
    ensures
        0 <= tab_pos(s, t) <= s.len(),
        forall|q: int| 0 <= q < tab_pos(s, t) ==> (#[trigger] s[q]).id <= t.id,
        tab_pos(s, t) < s.len() ==> t.id < s[tab_pos(s, t)].id,
    decreases s.len(),
{
    if s.len() > 0 && !(t.id < s[0].id) {
        lemma_tab_pos(s.drop_first(), t);
        assert forall|q: int| 0 <= q < tab_pos(s, t) implies (#[trigger] s[q]).id <= t.id by {
            if q > 0 {
                assert(s[q] == s.drop_first()[q - 1]);
            }
        }
    }
}

/// Order tabs by id ascending; tabs with equal ids keep their order.
pub fn sort_tabs_by_id(tabs: Vec<OpenDocumentTabDto>) -> (r: Vec<OpenDocumentTabDto>)
    ensures
        tabs_view(r@) == tabs_by_id(tabs_view(tabs@)),
{
    let ghost input = tabs_view(tabs@);
    let mut out: Vec<OpenDocumentTabDto> = Vec::new();
    let mut rest = tabs;
    let n = rest.len();
    proof {
        assert(tabs_view(rest@) =~= input.skip(0));
    }
    let mut k: usize = 0;
    while k < n
        invariant
            k <= n,
            n == input.len(),
            rest.len() == n - k,
            tabs_view(rest@) =~= input.skip(k as int),
            tabs_view(out@) == tabs_by_id(input.take(k as int)),
        decreases n - k,
    {
        let ghost before = rest@;
        let t = rest.remove(0);
        proof {
            assert(tabs_view(before)[0] == before[0]@);
            assert(input.skip(k as int)[0] == input[k as int]);
            assert forall|j: int| 0 <= j < rest.len() implies tabs_view(rest@)[j] == input.skip(
                k + 1,
            )[j] by {
                assert(tabs_view(rest@)[j] == rest@[j]@);
                assert(rest@[j] == before[j + 1]);
                assert(tabs_view(before)[j + 1] == before[j + 1]@);
                assert(input.skip(k as int)[j + 1] == input.skip(k + 1)[j]);
            }
            assert(tabs_view(rest@) =~= input.skip(k + 1));
        }
        let ghost l = tabs_view(out@);
        let mut p: usize = 0;
        while p < out.len() && !(t.id < out[p].id)
            invariant
                p <= out.len(),
                l == tabs_view(out@),
                forall|q: int| 0 <= q < p ==> (#[trigger] l[q]).id <= t.id,
            decreases out.len() - p,
        {
            assert(l[p as int] == out@[p as int]@);
            p = p + 1;
        }
        proof {
            lemma_tab_pos(l, t@);
            let tp = tab_pos(l, t@);
            if p < out.len() {
                assert(l[p as int] == out@[p as int]@);
            }
            if (p as int) < tp {
                assert(l[p as int].id <= t.id);
            } else if tp < (p as int) {
                assert(l[tp].id <= t.id);
            }
            assert(input.take(k + 1).drop_last() =~= input.take(k as int));
            assert(input.take(k + 1).last() == t@);
        }
        out.insert(p, t);
        proof {
            assert(tabs_view(out@) =~= l.insert(p as int, t@));
        }
        k = k + 1;
    }
    proof {
        assert(input.take(n as int) =~= input);
    }
    out
}

// ---------------------------------------------------------------------------
// Laws
// ---------------------------------------------------------------------------

/// The strip is in id order after sorting.
pub proof fn law_tabs_sorted(s: Seq<TabView>)
    ensures
        forall|i: int, j: int|
            0 <= i < j < tabs_by_id(s).len() ==> (#[trigger] tabs_by_id(s)[i]).id <= (
            #[trigger] tabs_by_id(s)[j]).id,
    decreases s.len(),
{
    if s.len() > 0 {
        law_tabs_sorted(s.drop_last());
        let l = tabs_by_id(s.drop_last());
        let e = s.last();
        lemma_tab_pos(l, e);
        let p = tab_pos(l, e);
        let t = l.insert(p, e);
        assert(tabs_by_id(s) == t);
        assert forall|i: int, j: int| 0 <= i < j < t.len() implies (#[trigger] t[i]).id <= (
        #[trigger] t[j]).id by {
            let si = if i < p { i } else { i - 1 };
            let sj = if j < p { j } else { j - 1 };
            if i == p {
                assert(t[j] == l[sj]);
                assert(e.id < l[p].id);
                assert(l[p].id <= l[sj].id);
            } else if j == p {
                assert(t[i] == l[si]);
            } else {
                assert(t[i] == l[si]);
                assert(t[j] == l[sj]);
            }
        }
    }
}

/// Sorting keeps exactly the tabs it was given.
pub proof fn law_tabs_permutation(s: Seq<TabView>)
    ensures
        tabs_by_id(s).to_multiset() =~= s.to_multiset(),
    decreases s.len(),
{
    if s.len() > 0 {
        law_tabs_permutation(s.drop_last());
        let l = tabs_by_id(s.drop_last());
        lemma_tab_pos(l, s.last());
        let p = tab_pos(l, s.last());
        let t = l.insert(p, s.last());
        assert(t.remove(p) =~= l);
        assert(t.to_multiset().remove(s.last()) =~= l.to_multiset());
        assert(s.drop_last().push(s.last()) =~= s);
        assert(t.to_multiset() =~= l.to_multiset().insert(s.last()));
    }
}

/// Closing a tab never activates the closed tab itself when the strip lists
/// every tab once.
pub proof fn law_neighbor_is_another_tab(order: Seq<u32>, closed: u32)
    requires
        order.no_duplicates(),
        order.contains(closed),
    ensures
        neighbor_spec(order, closed) != Some(closed),
{
    let idx = choose|i: int| 0 <= i < order.len() && order[i] == closed && forall|j: int|
        0 <= j < i ==> order[j] != closed;
    assert(0 <= idx < order.len() && order[idx] == closed);
}

} // verus!
