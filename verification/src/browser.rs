//! The browser window's tab bookkeeping: which pages are open, in what order, which one is
//! showing, and what each toolbar or tab-strip action does to that. Driving the web views
//! themselves (loading, going back, hiding) is the window's part; the functions here say
//! which tab such an action is for.

use vstd::prelude::*;
use vstd::string::*;

use crate::chalk::TabInfo;
use crate::navigation::{host_of, spec_authority};

verus! {

broadcast use vstd::string::group_string_axioms;

/// One open page.
pub struct Tab {
    pub id: u64,
    pub url: String,
    pub title: String,
    pub host: String,
    /// Whether the page is loading; a new tab starts out loading.
    pub loading: bool,
    /// Whether the tab has already been shown for one frame before its web view is
    /// attached.
    pub attach_deferred: bool,
}

/// The open tabs of the browser window, in strip order, and the one showing.
pub struct BrowserState {
    pub tabs: Vec<Tab>,
    pub active: Option<u64>,
    pub next_id: u64,
}

/// The host shown for a page: the `host[:port]` of its URL, or the whole URL when it has no
/// `scheme://`.
pub open spec fn spec_host(url: Seq<char>) -> Seq<char> {
    match spec_authority(url) {
        Some(a) => a,
        None => url,
    }
}

/// The page a new tab opens on.
pub const NEW_TAB_URL: &'static str = "https://www.google.com";

/// The window title when no tab is showing.
pub const DEFAULT_WINDOW_TITLE: &'static str = "Anvil — Browser";

/// The position of the first tab with `id`.
pub open spec fn index_of_id(tabs: Seq<Tab>, id: u64) -> Option<int> {
    if exists|i: int| 0 <= i < tabs.len() && (#[trigger] tabs[i]).id == id {
        Some(choose|i: int| 0 <= i < tabs.len() && (#[trigger] tabs[i]).id == id
            && forall|j: int| 0 <= j < i ==> (#[trigger] tabs[j]).id != id)
    } else {
        None
    }
}

/// The position of the showing tab, if any tab is showing and still open.
pub open spec fn active_index(tabs: Seq<Tab>, active: Option<u64>) -> Option<int> {
    match active {
        Some(id) => index_of_id(tabs, id),
        None => None,
    }
}

/// `tabs` without every tab that has `id`, the others in order.
pub open spec fn without_tab(tabs: Seq<Tab>, id: u64) -> Seq<Tab>
    decreases tabs.len(),
{
    if tabs.len() == 0 {
        tabs
    } else if tabs.last().id == id {
        without_tab(tabs.drop_last(), id)
    } else {
        without_tab(tabs.drop_last(), id).push(tabs.last())
    }
}

/// Where a tab at `index` lands when dragged `positions` places in a strip of `len` tabs:
/// the target place, clamped to the strip.
pub open spec fn reorder_target(index: int, positions: int, len: int) -> int {
    if index + positions < 0 {
        0
    } else if index + positions > len - 1 {
        len - 1
    } else {
        index + positions
    }
}

/// `tabs` after the tab with `id` is dragged `positions` places.
pub open spec fn spec_reorder(tabs: Seq<Tab>, id: u64, positions: int) -> Seq<Tab> {
    match index_of_id(tabs, id) {
        Some(i) => {
            let j = reorder_target(i, positions, tabs.len() as int);
            if j == i {
                tabs
            } else {
                tabs.remove(i).insert(j, tabs[i])
            }
        },
        None => tabs,
    }
}

/// The title a tab shows once its page reports `page_title`: that title when it is a
/// non-empty text, the tab's host otherwise.
pub open spec fn shown_title(page_title: Option<Seq<char>>, host: Seq<char>) -> Seq<char> {
    match page_title {
        Some(t) => if t.len() > 0 {
            t
        } else {
            host
        },
        None => host,
    }
}

/// A tab opened under a fresh id (above every open tab's id) is the one the strip then
/// shows.
pub proof fn law_opened_tab_is_shown(tabs: Seq<Tab>, next_id: u64, tab: Tab)
    requires
        forall|i: int| 0 <= i < tabs.len() ==> (#[trigger] tabs[i]).id < next_id,
        tab.id == next_id,
    ensures
        active_index(tabs.push(tab), Some(next_id)) == Some(tabs.len() as int),
{
    let t = tabs.push(tab);
    assert forall|j: int| 0 <= j < tabs.len() implies (#[trigger] t[j]).id != next_id by {
        assert(t[j] == tabs[j]);
    }
    lemma_index_of_id(t, next_id, tabs.len() as int);
}

/// Closing a tab removes every tab with its id and keeps every other tab.
pub proof fn law_close_removes_only_that_tab(tabs: Seq<Tab>, id: u64)
    ensures
        index_of_id(without_tab(tabs, id), id) is None,
        forall|i: int| 0 <= i < tabs.len() && (#[trigger] tabs[i]).id != id ==> without_tab(tabs, id).contains(tabs[i]),
        forall|i: int| 0 <= i < without_tab(tabs, id).len() ==> tabs.contains(#[trigger] without_tab(tabs, id)[i]),
{
    lemma_without_tab(tabs, id);
    lemma_index_of_id_sound(without_tab(tabs, id), id);
}

/// Dragging a tab keeps the same tabs, only reordered, and lands the dragged tab at the
/// clamped target place.
pub proof fn law_reorder_moves_one_tab(tabs: Seq<Tab>, id: u64, positions: int)
    ensures
        spec_reorder(tabs, id, positions).to_multiset() == tabs.to_multiset(),
        index_of_id(tabs, id) matches Some(i) ==> spec_reorder(tabs, id, positions)[reorder_target(
            i,
            positions,
            tabs.len() as int,
        )] == tabs[i],
{
    lemma_index_of_id_sound(tabs, id);
    match index_of_id(tabs, id) {
        Some(i) => {
            let j = reorder_target(i, positions, tabs.len() as int);
            if j != i {
                let r = tabs.remove(i);
                vstd::seq_lib::to_multiset_remove(tabs, i);
                vstd::seq_lib::to_multiset_insert(r, j, tabs[i]);
                vstd::seq_lib::to_multiset_contains(tabs, tabs[i]);
                assert(tabs.contains(tabs[i]));
                assert(r.insert(j, tabs[i]).to_multiset() =~= tabs.to_multiset()) by {
                    broadcast use vstd::multiset::group_multiset_axioms;
                }
            }
        },
        None => {},
    }
}

proof fn lemma_index_of_id(tabs: Seq<Tab>, id: u64, i: int)
    requires
        0 <= i < tabs.len(),
        tabs[i].id == id,
        forall|j: int| 0 <= j < i ==> (#[trigger] tabs[j]).id != id,
    ensures
        index_of_id(tabs, id) == Some(i),
{
    let k = index_of_id(tabs, id)->0;
    assert(0 <= i < tabs.len() && tabs[i].id == id && forall|j: int| 0 <= j < i ==> (#[trigger] tabs[j]).id != id);
    if k < i {
        assert(tabs[k].id != id);
    }
    if k > i {
        assert(tabs[i].id != id);
    }
}

/// Where some tab has `id`, a first such tab exists.
proof fn lemma_first_with_id(tabs: Seq<Tab>, id: u64, i: int)
    requires
        0 <= i < tabs.len(),
        tabs[i].id == id,
    ensures
        exists|k: int| 0 <= k <= i && (#[trigger] tabs[k]).id == id && forall|j: int| 0 <= j < k ==> (#[trigger] tabs[j]).id != id,
    decreases i,
{
    if exists|j: int| 0 <= j < i && (#[trigger] tabs[j]).id == id {
        let j = choose|j: int| 0 <= j < i && (#[trigger] tabs[j]).id == id;
        lemma_first_with_id(tabs, id, j);
    } else {
        assert(forall|j: int| 0 <= j < i ==> (#[trigger] tabs[j]).id != id);
    }
}

/// [`index_of_id`] finds the first tab with `id`.
pub proof fn lemma_index_of_id_sound(tabs: Seq<Tab>, id: u64)
    ensures
        index_of_id(tabs, id) matches Some(i) ==> 0 <= i < tabs.len() && tabs[i].id == id && forall|j: int|
            0 <= j < i ==> (#[trigger] tabs[j]).id != id,
        index_of_id(tabs, id) is None ==> forall|j: int| 0 <= j < tabs.len() ==> (#[trigger] tabs[j]).id != id,
{
    if exists|i: int| 0 <= i < tabs.len() && (#[trigger] tabs[i]).id == id {
        let i = choose|i: int| 0 <= i < tabs.len() && (#[trigger] tabs[i]).id == id;
        lemma_first_with_id(tabs, id, i);
    }
}

proof fn lemma_without_tab_len(tabs: Seq<Tab>, id: u64)
    ensures
        without_tab(tabs, id).len() <= tabs.len(),
    decreases tabs.len(),
{
    if tabs.len() > 0 {
        lemma_without_tab_len(tabs.drop_last(), id);
    }
}

/// Every tab that [`without_tab`] keeps came from `tabs` and lacks `id`; every tab of
/// `tabs` lacking `id` is kept.
pub proof fn lemma_without_tab(tabs: Seq<Tab>, id: u64)
    ensures
        forall|i: int| 0 <= i < without_tab(tabs, id).len() ==> (#[trigger] without_tab(tabs, id)[i]).id != id
            && tabs.contains(without_tab(tabs, id)[i]),
        forall|i: int| 0 <= i < tabs.len() && (#[trigger] tabs[i]).id != id ==> without_tab(tabs, id).contains(tabs[i]),
    decreases tabs.len(),
{
    if tabs.len() > 0 {
        let init = tabs.drop_last();
        lemma_without_tab(init, id);
        let w = without_tab(init, id);
        assert forall|i: int| 0 <= i < without_tab(tabs, id).len() implies (#[trigger] without_tab(tabs, id)[i]).id
            != id && tabs.contains(without_tab(tabs, id)[i]) by {
            if i < w.len() {
                assert(without_tab(tabs, id)[i] == w[i]);
                let k = choose|k: int| 0 <= k < init.len() && init[k] == w[i];
                assert(tabs[k] == init[k]);
            } else {
                assert(tabs[tabs.len() - 1] == tabs.last());
            }
        }
        assert forall|i: int| 0 <= i < tabs.len() && (#[trigger] tabs[i]).id != id implies without_tab(tabs, id).contains(
            tabs[i],
        ) by {
            if i < tabs.len() - 1 {
                assert(init[i] == tabs[i]);
                let k = choose|k: int| 0 <= k < w.len() && w[k] == init[i];
                if tabs.last().id != id {
                    assert(without_tab(tabs, id)[k] == w[k]);
                }
            } else {
                assert(without_tab(tabs, id) == w.push(tabs.last()));
                assert(without_tab(tabs, id)[w.len() as int] == tabs[i]);
            }
        }
    }
}

impl BrowserState {
    /// Tab ids are distinct and all below the next id to hand out.
    pub open spec fn wf(&self) -> bool {
        &&& forall|i: int, j: int| 0 <= i < j < self.tabs@.len() ==> (#[trigger] self.tabs@[i]).id != (
        #[trigger] self.tabs@[j]).id
        &&& forall|i: int| 0 <= i < self.tabs@.len() ==> (#[trigger] self.tabs@[i]).id < self.next_id
    }

    /// No tabs, none showing.
    pub fn new() -> (r: Self)
        ensures
            r.wf(),
            r.tabs@.len() == 0,
            r.active is None,
            r.next_id == 0,
    {
        BrowserState { tabs: Vec::new(), active: None, next_id: 0 }
    }

    /// The position of the first tab with `id`.
    pub fn position_of(&self, id: u64) -> (r: Option<usize>)
        ensures
            r matches Some(i) ==> i < self.tabs@.len() && self.tabs@[i as int].id == id,
            match r {
                Some(i) => index_of_id(self.tabs@, id) == Some(i as int),
                None => index_of_id(self.tabs@, id) is None,
            },
    {
        let n = self.tabs.len();
        let mut i: usize = 0;
        while i < n
            invariant
                n == self.tabs@.len(),
                i <= n,
                forall|j: int| 0 <= j < i ==> (#[trigger] self.tabs@[j]).id != id,
            decreases n - i,
        {
            if self.tabs[i].id == id {
                proof {
                    lemma_index_of_id(self.tabs@, id, i as int);
                }
                return Some(i);
            }
            i = i + 1;
        }
        None
    }

    /// The position of the showing tab.
    pub fn active_position(&self) -> (r: Option<usize>)
        ensures
            r matches Some(i) ==> i < self.tabs@.len(),
            match r {
                Some(i) => active_index(self.tabs@, self.active) == Some(i as int),
                None => active_index(self.tabs@, self.active) is None,
            },
    {
        match self.active {
            Some(id) => self.position_of(id),
            None => None,
        }
    }

    /// Opens `url` in a new tab at the end of the strip and shows it. The tab starts out
    /// loading, titled with its host.
    pub fn open_tab(&mut self, url: String)
        requires
            old(self).wf(),
            old(self).next_id < u64::MAX,
        ensures
            final(self).wf(),
            final(self).next_id == old(self).next_id + 1,
            final(self).active == Some(old(self).next_id),
            final(self).tabs@.len() == old(self).tabs@.len() + 1,
            final(self).tabs@.drop_last() == old(self).tabs@,
            ({
                let t = final(self).tabs@.last();
                &&& t.id == old(self).next_id
                &&& t.url@ == url@
                &&& t.title@ == spec_host(url@)
                &&& t.host@ == spec_host(url@)
                &&& t.loading
                &&& !t.attach_deferred
            }),
    {
        let id = self.next_id;
        self.next_id = self.next_id + 1;
        let host = host_of(url.as_str());
        let title = host.clone();
        self.tabs.push(Tab { id, url, title, host, loading: true, attach_deferred: false });
        self.active = Some(id);
        proof {
            assert(self.tabs@.drop_last() =~= old(self).tabs@);
        }
    }

    /// Points the showing tab at `url`: its address, title and host change, nothing else
    /// does. Returns the tab whose web view should load `url` (the showing one, if any).
    pub fn navigate(&mut self, url: String) -> (r: Option<u64>)
        requires
            old(self).wf(),
        ensures
            final(self).wf(),
            r == old(self).active,
            final(self).active == old(self).active,
            final(self).next_id == old(self).next_id,
            final(self).tabs@.len() == old(self).tabs@.len(),
            match active_index(old(self).tabs@, old(self).active) {
                Some(i) => {
                    &&& forall|j: int| 0 <= j < old(self).tabs@.len() && j != i ==> final(self).tabs@[j] == old(
                        self,
                    ).tabs@[j]
                    &&& final(self).tabs@[i].id == old(self).tabs@[i].id
                    &&& final(self).tabs@[i].url@ == url@
                    &&& final(self).tabs@[i].title@ == spec_host(url@)
                    &&& final(self).tabs@[i].host@ == spec_host(url@)
                    &&& final(self).tabs@[i].loading == old(self).tabs@[i].loading
                    &&& final(self).tabs@[i].attach_deferred == old(self).tabs@[i].attach_deferred
                },
                None => final(self).tabs@ == old(self).tabs@,
            },
    {
        let host = host_of(url.as_str());
        match self.active_position() {
            Some(i) => {
                let tab = Tab {
                    id: self.tabs[i].id,
                    url,
                    title: host.clone(),
                    host,
                    loading: self.tabs[i].loading,
                    attach_deferred: self.tabs[i].attach_deferred,
                };
                self.tabs.set(i, tab);
            },
            None => {},
        }
        self.active
    }

    /// The showing tab and its address, for a refresh.
    pub fn refresh_target(&self) -> (r: Option<(u64, String)>)
        ensures
            match active_index(self.tabs@, self.active) {
                Some(i) => r matches Some((id, url)) && id == self.tabs@[i].id && url@ == self.tabs@[i].url@,
                None => r is None,
            },
    {
        match self.active_position() {
            Some(i) => Some((self.tabs[i].id, self.tabs[i].url.clone())),
            None => None,
        }
    }

    /// Shows the tab with `id`.
    pub fn select(&mut self, id: u64)
        ensures
            final(self).active == Some(id),
            final(self).tabs@ == old(self).tabs@,
            final(self).next_id == old(self).next_id,
    {
        self.active = Some(id);
    }

    /// Closes every tab with `id`. When the showing tab closes, the first remaining tab
    /// shows (none, when no tab is left). Returns whether the showing tab closed.
    pub fn close(&mut self, id: u64) -> (r: bool)
        requires
            old(self).wf(),
        ensures
            final(self).wf(),
            r == (old(self).active == Some(id)),
            final(self).tabs@ == without_tab(old(self).tabs@, id),
            final(self).next_id == old(self).next_id,
            final(self).active == (if r {
                if final(self).tabs@.len() > 0 {
                    Some(final(self).tabs@[0].id)
                } else {
                    None
                }
            } else {
                old(self).active
            }),
    {
        let closing_active = match self.active {
            Some(a) => a == id,
            None => false,
        };
        let ghost start = self.tabs@;
        let mut i: usize = 0;
        let mut k: usize = 0;
        let n = self.tabs.len();
        proof {
            assert(start.take(0) =~= Seq::<Tab>::empty());
            assert(start.skip(0) =~= start);
        }
        while k < n
            invariant
                n == start.len(),
                k <= n,
                i == without_tab(start.take(k as int), id).len(),
                self.tabs@ == without_tab(start.take(k as int), id) + start.skip(k as int),
                start == old(self).tabs@,
                self.next_id == old(self).next_id,
                self.active == old(self).active,
            decreases n - k,
        {
            proof {
                assert(start.take(k + 1).drop_last() =~= start.take(k as int));
                assert(start.take(k + 1).last() == start[k as int]);
                lemma_without_tab_len(start.take(k as int), id);
                assert(self.tabs@[i as int] == start[k as int]);
            }
            if self.tabs[i].id == id {
                let _ = self.tabs.remove(i);
                proof {
                    assert(self.tabs@ =~= without_tab(start.take(k + 1), id) + start.skip(k + 1));
                }
            } else {
                proof {
                    assert(self.tabs@ =~= without_tab(start.take(k + 1), id) + start.skip(k + 1));
                }
                i = i + 1;
            }
            k = k + 1;
        }
        proof {
            assert(start.take(n as int) =~= start);
            assert(self.tabs@ =~= without_tab(start, id));
            lemma_without_tab(start, id);
            assert forall|a: int, b: int| 0 <= a < b < self.tabs@.len() implies (#[trigger] self.tabs@[a]).id != (
            #[trigger] self.tabs@[b]).id by {
                lemma_without_tab_order(start, id, a, b);
            }
            assert forall|a: int| 0 <= a < self.tabs@.len() implies (#[trigger] self.tabs@[a]).id < self.next_id by {
                assert(start.contains(without_tab(start, id)[a]));
            }
        }
        if closing_active {
            self.active = if self.tabs.len() > 0 {
                Some(self.tabs[0].id)
            } else {
                None
            };
        }
        closing_active
    }

    /// Drags the tab with `id` by `positions` places (negative: towards the front), clamped
    /// to the strip. Nothing happens when no tab has `id`.
    pub fn reorder(&mut self, id: u64, positions: i32)
        requires
            old(self).wf(),
            index_of_id(old(self).tabs@, id) matches Some(i) ==> old(self).tabs@.len() <= i32::MAX && i + positions
                <= i32::MAX,
        ensures
            final(self).wf(),
            final(self).tabs@ == spec_reorder(old(self).tabs@, id, positions as int),
            final(self).active == old(self).active,
            final(self).next_id == old(self).next_id,
    {
        match self.position_of(id) {
            Some(index) => {
                let len = self.tabs.len();
                let wanted: i64 = index as i64 + positions as i64;
                let last: i64 = len as i64 - 1;
                let new_index: usize = if wanted < 0 {
                    0
                } else if wanted > last {
                    len - 1
                } else {
                    wanted as usize
                };
                if new_index != index {
                    let ghost before = self.tabs@;
                    let tab = self.tabs.remove(index);
                    self.tabs.insert(new_index, tab);
                    proof {
                        assert(new_index == reorder_target(index as int, positions as int, len as int));
                        lemma_moved_distinct(before, index as int, new_index as int, self.next_id);
                    }
                }
            },
            None => {},
        }
    }

    /// Takes the page's reported title for the tab at `index`: a non-empty title is shown,
    /// otherwise the tab falls back to its host.
    pub fn set_page_title(&mut self, index: usize, page_title: Option<String>)
        requires
            old(self).wf(),
            index < old(self).tabs@.len(),
        ensures
            final(self).wf(),
            final(self).active == old(self).active,
            final(self).next_id == old(self).next_id,
            final(self).tabs@.len() == old(self).tabs@.len(),
            forall|j: int| 0 <= j < old(self).tabs@.len() && j != index ==> final(self).tabs@[j] == old(self).tabs@[j],
            ({
                let (t, o) = (final(self).tabs@[index as int], old(self).tabs@[index as int]);
                &&& t.title@ == shown_title(
                    match page_title {
                        Some(p) => Some(p@),
                        None => None,
                    },
                    o.host@,
                )
                &&& t.id == o.id && t.url == o.url && t.host == o.host
                &&& t.loading == o.loading && t.attach_deferred == o.attach_deferred
            }),
    {
        let title = match page_title {
            Some(p) => if p.unicode_len() > 0 {
                p
            } else {
                self.tabs[index].host.clone()
            },
            None => self.tabs[index].host.clone(),
        };
        let tab = Tab {
            id: self.tabs[index].id,
            url: self.tabs[index].url.clone(),
            title,
            host: self.tabs[index].host.clone(),
            loading: self.tabs[index].loading,
            attach_deferred: self.tabs[index].attach_deferred,
        };
        self.tabs.set(index, tab);
    }

    /// Records whether the page in the tab at `index` is loading.
    pub fn set_loading(&mut self, index: usize, loading: bool)
        requires
            old(self).wf(),
            index < old(self).tabs@.len(),
        ensures
            final(self).wf(),
            final(self).active == old(self).active,
            final(self).next_id == old(self).next_id,
            final(self).tabs@.len() == old(self).tabs@.len(),
            forall|j: int| 0 <= j < old(self).tabs@.len() && j != index ==> final(self).tabs@[j] == old(self).tabs@[j],
            ({
                let (t, o) = (final(self).tabs@[index as int], old(self).tabs@[index as int]);
                &&& t.loading == loading
                &&& t.id == o.id && t.url == o.url && t.title == o.title && t.host == o.host
                &&& t.attach_deferred == o.attach_deferred
            }),
    {
        let tab = Tab {
            id: self.tabs[index].id,
            url: self.tabs[index].url.clone(),
            title: self.tabs[index].title.clone(),
            host: self.tabs[index].host.clone(),
            loading,
            attach_deferred: self.tabs[index].attach_deferred,
        };
        self.tabs.set(index, tab);
    }

    /// What the address field shows: the showing tab's address, or nothing.
    pub fn toolbar_address(&self) -> (r: String)
        ensures
            match active_index(self.tabs@, self.active) {
                Some(i) => r@ == self.tabs@[i].url@,
                None => r@ == Seq::<char>::empty(),
            },
    {
        match self.active_position() {
            Some(i) => self.tabs[i].url.clone(),
            None => String::new(),
        }
    }

    /// Whether the toolbar shows a page loading: the showing tab's state, or not loading.
    pub fn toolbar_loading(&self) -> (r: bool)
        ensures
            r == (match active_index(self.tabs@, self.active) {
                Some(i) => self.tabs@[i].loading,
                None => false,
            }),
    {
        match self.active_position() {
            Some(i) => self.tabs[i].loading,
            None => false,
        }
    }

    /// The window title: the showing tab's title, or the browser's own name.
    pub fn window_title(&self) -> (r: String)
        ensures
            match active_index(self.tabs@, self.active) {
                Some(i) => r@ == self.tabs@[i].title@,
                None => r@ == DEFAULT_WINDOW_TITLE@,
            },
    {
        match self.active_position() {
            Some(i) => self.tabs[i].title.clone(),
            None => String::from_str(DEFAULT_WINDOW_TITLE),
        }
    }

    /// What the tab strip shows: each tab's id, title and host, in strip order.
    pub fn tab_infos(&self) -> (r: Vec<TabInfo>)
        ensures
            r@.len() == self.tabs@.len(),
            forall|i: int| 0 <= i < r@.len() ==> (#[trigger] r@[i]).id == self.tabs@[i].id && r@[i].title@
                == self.tabs@[i].title@ && r@[i].host@ == self.tabs@[i].host@,
    {
        let mut out: Vec<TabInfo> = Vec::new();
        let n = self.tabs.len();
        let mut i: usize = 0;
        while i < n
            invariant
                n == self.tabs@.len(),
                i <= n,
                out@.len() == i,
                forall|j: int| 0 <= j < i ==> (#[trigger] out@[j]).id == self.tabs@[j].id && out@[j].title@
                    == self.tabs@[j].title@ && out@[j].host@ == self.tabs@[j].host@,
            decreases n - i,
        {
            out.push(
                TabInfo { id: self.tabs[i].id, title: self.tabs[i].title.clone(), host: self.tabs[i].host.clone() },
            );
            i = i + 1;
        }
        out
    }
}

/// Moving one tab keeps ids distinct and below `next`.
proof fn lemma_moved_distinct(s: Seq<Tab>, i: int, j: int, next: u64)
    requires
        0 <= i < s.len(),
        0 <= j < s.len(),
        forall|a: int, b: int| 0 <= a < b < s.len() ==> (#[trigger] s[a]).id != (#[trigger] s[b]).id,
        forall|a: int| 0 <= a < s.len() ==> (#[trigger] s[a]).id < next,
    ensures
        ({
            let t = s.remove(i).insert(j, s[i]);
            &&& forall|a: int, b: int| 0 <= a < b < t.len() ==> (#[trigger] t[a]).id != (#[trigger] t[b]).id
            &&& forall|a: int| 0 <= a < t.len() ==> (#[trigger] t[a]).id < next
        }),
{
    let r = s.remove(i);
    let t = r.insert(j, s[i]);
    // Where each place of `t` came from in `s`.
    let src = |a: int|
        if a == j {
            i
        } else {
            let q = if a < j { a } else { a - 1 };
            if q < i { q } else { q + 1 }
        };
    assert forall|a: int| 0 <= a < t.len() implies 0 <= #[trigger] src(a) < s.len() && t[a] == s[src(a)] by {
        if a != j {
            let q = if a < j { a } else { a - 1 };
            assert(t[a] == r[q]);
        }
    }
    assert forall|a: int, b: int| 0 <= a < b < t.len() implies (#[trigger] t[a]).id != (#[trigger] t[b]).id by {
        assert(t[a] == s[src(a)]);
        assert(t[b] == s[src(b)]);
        assert(src(a) != src(b));
        if src(a) < src(b) {
            assert(s[src(a)].id != s[src(b)].id);
        } else {
            assert(s[src(b)].id != s[src(a)].id);
        }
    }
    assert forall|a: int| 0 <= a < t.len() implies (#[trigger] t[a]).id < next by {
        assert(t[a] == s[src(a)]);
    }
}

/// Positions `a < b` of `without_tab(s, id)` came from distinct positions of `s`, so a
/// table with distinct ids keeps them distinct.
proof fn lemma_without_tab_order(s: Seq<Tab>, id: u64, a: int, b: int)
    requires
        forall|x: int, y: int| 0 <= x < y < s.len() ==> (#[trigger] s[x]).id != (#[trigger] s[y]).id,
        0 <= a < b < without_tab(s, id).len(),
    ensures
        without_tab(s, id)[a].id != without_tab(s, id)[b].id,
    decreases s.len(),
{
    let init = s.drop_last();
    let w = without_tab(init, id);
    lemma_without_tab(init, id);
    if s.last().id == id {
        lemma_without_tab_order(init, id, a, b);
    } else {
        if b < w.len() {
            lemma_without_tab_order(init, id, a, b);
        } else {
            assert(without_tab(s, id)[b] == s.last());
            assert(without_tab(s, id)[a] == w[a]);
            let k = choose|k: int| 0 <= k < init.len() && init[k] == w[a];
            assert(s[k] == init[k]);
            assert(s[s.len() - 1] == s.last());
        }
    }
}

/// What one attach pass asks of the window: web views to attach, each for a tab id with
/// whether it starts hidden, and whether to wake the event loop for one more pass.
pub struct AttachPass {
    pub attach: Vec<(u64, bool)>,
    pub wake: bool,
}

/// The tabs of `tabs` that get a web view this pass: those without one that already waited
/// a frame, in order, each hidden unless it is the showing tab.
pub open spec fn attach_list(tabs: Seq<Tab>, has_view: Seq<u64>, active: Option<u64>) -> Seq<(u64, bool)>
    decreases tabs.len(),
{
    if tabs.len() == 0 {
        Seq::empty()
    } else {
        let t = tabs.last();
        let rest = attach_list(tabs.drop_last(), has_view, active);
        if !has_view.contains(t.id) && t.attach_deferred {
            rest.push((t.id, active != Some(t.id)))
        } else {
            rest
        }
    }
}

/// Whether `id` is among `ids`.
fn has_id(ids: &[u64], id: u64) -> (r: bool)
    ensures
        r == ids@.contains(id),
{
    let mut i: usize = 0;
    while i < ids.len()
        invariant
            i <= ids@.len(),
            forall|j: int| 0 <= j < i ==> ids@[j] != id,
        decreases ids@.len() - i,
    {
        if ids[i] == id {
            return true;
        }
        i = i + 1;
    }
    false
}

impl BrowserState {
    /// One pass over the tabs that have no web view yet (`has_view` lists the tab ids that
    /// do). A tab seen for the first time is only marked, so the frame that shows its new
    /// row is presented before the costly attach, and the event loop is woken to come back;
    /// a tab already marked gets its web view now, hidden unless it is the showing tab.
    pub fn attach_pass(&mut self, has_view: &[u64]) -> (r: AttachPass)
        requires
            old(self).wf(),
        ensures
            final(self).wf(),
            final(self).active == old(self).active,
            final(self).next_id == old(self).next_id,
            final(self).tabs@.len() == old(self).tabs@.len(),
            forall|i: int| 0 <= i < old(self).tabs@.len() ==> {
                let (t, o) = (#[trigger] final(self).tabs@[i], old(self).tabs@[i]);
                &&& t.id == o.id && t.url == o.url && t.title == o.title && t.host == o.host
                &&& t.loading == o.loading
                &&& t.attach_deferred == (o.attach_deferred || !has_view@.contains(o.id))
            },
            r.attach@ == attach_list(old(self).tabs@, has_view@, old(self).active),
            r.wake == exists|i: int|
                0 <= i < old(self).tabs@.len() && !has_view@.contains(#[trigger] old(self).tabs@[i].id)
                    && !old(self).tabs@[i].attach_deferred,
    {
        let ghost before = self.tabs@;
        let mut attach: Vec<(u64, bool)> = Vec::new();
        let mut wake = false;
        let n = self.tabs.len();
        let mut i: usize = 0;
        while i < n
            invariant
                n == before.len(),
                self.tabs@.len() == n,
                i <= n,
                self.active == old(self).active,
                self.next_id == old(self).next_id,
                before == old(self).tabs@,
                old(self).wf(),
                forall|k: int| i <= k < n ==> self.tabs@[k] == before[k],
                forall|k: int| 0 <= k < i ==> {
                    let (t, o) = (#[trigger] self.tabs@[k], before[k]);
                    &&& t.id == o.id && t.url == o.url && t.title == o.title && t.host == o.host
                    &&& t.loading == o.loading
                    &&& t.attach_deferred == (o.attach_deferred || !has_view@.contains(o.id))
                },
                attach@ == attach_list(before.take(i as int), has_view@, self.active),
                wake == exists|k: int| 0 <= k < i && !has_view@.contains(#[trigger] before[k].id) && !before[k].attach_deferred,
            decreases n - i,
        {
            proof {
                assert(before.take(i + 1).drop_last() =~= before.take(i as int));
            }
            let id = self.tabs[i].id;
            if !has_id(has_view, id) {
                if !self.tabs[i].attach_deferred {
                    let tab = Tab {
                        id,
                        url: self.tabs[i].url.clone(),
                        title: self.tabs[i].title.clone(),
                        host: self.tabs[i].host.clone(),
                        loading: self.tabs[i].loading,
                        attach_deferred: true,
                    };
                    self.tabs.set(i, tab);
                    wake = true;
                } else {
                    attach.push((id, self.active != Some(id)));
                }
            }
            i = i + 1;
        }
        proof {
            assert(before.take(n as int) =~= before);
            assert forall|a: int, b: int| 0 <= a < b < self.tabs@.len() implies (#[trigger] self.tabs@[a]).id != (
            #[trigger] self.tabs@[b]).id by {
                assert(before[a].id != before[b].id);
            }
            assert forall|a: int| 0 <= a < self.tabs@.len() implies (#[trigger] self.tabs@[a]).id < self.next_id by {
                assert(before[a].id < old(self).next_id);
            }
        }
        AttachPass { attach, wake }
    }
}

/// A new tab waits one pass before its web view is attached: the first pass over it (no
/// view, not yet marked) attaches nothing, the next one (now marked) attaches it, shown
/// exactly when it is the showing tab.
pub proof fn law_new_tab_waits_one_pass(t: Tab, has_view: Seq<u64>, active: Option<u64>)
    requires
        !has_view.contains(t.id),
        !t.attach_deferred,
    ensures
        attach_list(seq![t], has_view, active).len() == 0,
        attach_list(seq![Tab { attach_deferred: true, ..t }], has_view, active) == seq![(t.id, active != Some(t.id))],
{
    assert(seq![t].drop_last() =~= Seq::<Tab>::empty());
    let marked = Tab { attach_deferred: true, ..t };
    assert(seq![marked].drop_last() =~= Seq::<Tab>::empty());
    assert(seq![marked].last() == marked);
    assert(attach_list(Seq::<Tab>::empty(), has_view, active) == Seq::<(u64, bool)>::empty());
    assert(Seq::<(u64, bool)>::empty().push((t.id, active != Some(t.id))) =~= seq![(t.id, active != Some(t.id))]);
    assert(attach_list(seq![marked], has_view, active) =~= seq![(t.id, active != Some(t.id))]);
}

} // verus!
