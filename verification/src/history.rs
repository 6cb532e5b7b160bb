//! Bounded, coalesced Back/Forward history of pane visits across endpoints.
//!
//! A visit is recorded once per accepted active-endpoint snapshot whose focused
//! pane differs from the current entry, so rapid intermediate focus changes that
//! never produced a snapshot are not visits. Traversal moves the cursor
//! optimistically; the observation that lands on the traversal target is then
//! recognised instead of being pushed as a new visit, and a failed traversal
//! returns the cursor to where it started. Visits to panes an endpoint no longer
//! reports are pruned whenever that endpoint's snapshot is accepted.
use std::collections::VecDeque;

use vstd::prelude::*;
use vstd::std_specs::cmp::PartialEqSpecImpl;

use crate::endpoint::{ClientEndpointId, EndpointKey};
use crate::text::str_eq;

verus! {

/// The most visits a history holds.
pub const CAPACITY: usize = 100;

/// One visit to a pane of a booted endpoint.
#[derive(Debug, Eq)]
pub struct Visit {
    pub endpoint_id: ClientEndpointId,
    pub boot_id: String,
    pub pane_id: String,
}

/// What a [`Visit`] stands for.
pub struct VisitView {
    pub endpoint: EndpointKey,
    pub boot: Seq<char>,
    pub pane: Seq<char>,
}

impl View for Visit {
    type V = VisitView;

    open spec fn view(&self) -> VisitView {
        VisitView { endpoint: self.endpoint_id@, boot: self.boot_id@, pane: self.pane_id@ }
    }
}

impl Clone for Visit {
    fn clone(&self) -> (copy: Self)
        ensures
            copy == *self,
    {
        Visit {
            endpoint_id: self.endpoint_id.clone(),
            boot_id: self.boot_id.clone(),
            pane_id: self.pane_id.clone(),
        }
    }
}

impl PartialEq for Visit {
    fn eq(&self, other: &Self) -> (same: bool) {
        self.endpoint_id == other.endpoint_id && self.boot_id == other.boot_id && self.pane_id
            == other.pane_id
    }
}

impl PartialEqSpecImpl for Visit {
    open spec fn obeys_eq_spec() -> bool {
        true
    }

    open spec fn eq_spec(&self, other: &Self) -> bool {
        self@ == other@
    }
}

/// An in-flight traversal whose target is the cursor.
#[derive(Debug)]
struct Traversal {
    /// Index of the visit that was current before the traversal began.
    origin: usize,
}

/// The visits of one client and the position in them.
#[derive(Debug)]
pub struct History {
    visits: VecDeque<Visit>,
    /// Index of the current visit; meaningful only while `visits` is non-empty.
    cursor: usize,
    /// Traversal whose arrival must not truncate the forward list.
    pending: Option<Traversal>,
}

/// What a [`History`] stands for: the visits in order, the index of the current
/// one, and the index where an unconfirmed traversal began.
#[verifier::ext_equal]
pub struct HistoryView {
    pub visits: Seq<VisitView>,
    pub cursor: int,
    pub pending: Option<int>,
}

/// The views of a sequence of visits.
pub open spec fn visit_views(visits: Seq<Visit>) -> Seq<VisitView> {
    visits.map_values(|visit: Visit| visit@)
}

/// The set of endpoints in a list.
pub open spec fn endpoint_set(endpoints: Seq<ClientEndpointId>) -> Set<EndpointKey> {
    endpoints.map_values(|endpoint: ClientEndpointId| endpoint@).to_set()
}

/// Whether an endpoint is in a list.
pub open spec fn lists_endpoint(endpoints: Seq<ClientEndpointId>, endpoint: EndpointKey) -> bool {
    exists|k: int| 0 <= k < endpoints.len() && (#[trigger] endpoints[k])@ == endpoint
}

/// An endpoint is in the set of a list exactly where it is in the list.
proof fn endpoint_set_is_the_list(endpoints: Seq<ClientEndpointId>, endpoint: EndpointKey)
    ensures
        endpoint_set(endpoints).contains(endpoint) <==> lists_endpoint(endpoints, endpoint),
{
    let keys = endpoints.map_values(|endpoint: ClientEndpointId| endpoint@);
    if lists_endpoint(endpoints, endpoint) {
        let k = choose|k: int| 0 <= k < endpoints.len() && (#[trigger] endpoints[k])@ == endpoint;
        assert(keys[k] == endpoint);
        assert(keys.contains(endpoint));
    }
    if keys.contains(endpoint) {
        let k = choose|k: int| 0 <= k < keys.len() && keys[k] == endpoint;
        assert(endpoints[k]@ == endpoint);
    }
}

/// The set of texts in a list.
pub open spec fn text_set(texts: Seq<&str>) -> Set<Seq<char>> {
    texts.map_values(|text: &str| text@).to_set()
}

/// A text is in the set of a list exactly where it is in the list.
proof fn text_set_is_the_list(texts: Seq<&str>, text: Seq<char>)
    ensures
        text_set(texts).contains(text) <==> exists|k: int|
            0 <= k < texts.len() && (#[trigger] texts[k])@ == text,
{
    let views = texts.map_values(|text: &str| text@);
    if exists|k: int| 0 <= k < texts.len() && (#[trigger] texts[k])@ == text {
        let k = choose|k: int| 0 <= k < texts.len() && (#[trigger] texts[k])@ == text;
        assert(views[k] == text);
        assert(views.contains(text));
    }
    if views.contains(text) {
        let k = choose|k: int| 0 <= k < views.len() && views[k] == text;
        assert(texts[k]@ == text);
    }
}

/// `visits` with each run of equal neighbours merged into one visit.
pub open spec fn merge_neighbours(visits: Seq<VisitView>) -> Seq<VisitView>
    decreases visits.len(),
{
    if visits.len() == 0 {
        visits
    } else {
        let merged = merge_neighbours(visits.drop_last());
        if merged.len() > 0 && merged.last() == visits.last() {
            merged
        } else {
            merged.push(visits.last())
        }
    }
}

/// The visits left of `visits` when only those in `keep` stay and equal
/// neighbours merge.
pub open spec fn survivors(visits: Seq<VisitView>, keep: spec_fn(VisitView) -> bool) -> Seq<
    VisitView,
> {
    merge_neighbours(visits.filter(keep))
}

/// Where the visit at `index` is found among the survivors: itself, the equal
/// neighbour it merged into, or the nearest earlier survivor when dropped (the
/// start when there is none).
pub open spec fn survivor_index(
    visits: Seq<VisitView>,
    keep: spec_fn(VisitView) -> bool,
    index: int,
) -> int {
    let before = survivors(visits.take(index + 1), keep).len();
    if before == 0 {
        0
    } else {
        before - 1
    }
}

/// The last index below `end` whose visit is on an endpoint of `online`.
pub open spec fn nearest_earlier(
    visits: Seq<VisitView>,
    online: Set<EndpointKey>,
    end: int,
) -> Option<int>
    decreases end,
{
    if end <= 0 {
        None
    } else if online.contains(visits[end - 1].endpoint) {
        Some(end - 1)
    } else {
        nearest_earlier(visits, online, end - 1)
    }
}

/// The first index from `start` on whose visit is on an endpoint of `online`.
pub open spec fn nearest_later(
    visits: Seq<VisitView>,
    online: Set<EndpointKey>,
    start: int,
) -> Option<int>
    decreases visits.len() - start,
{
    if start >= visits.len() {
        None
    } else if online.contains(visits[start].endpoint) {
        Some(start)
    } else {
        nearest_later(visits, online, start + 1)
    }
}

impl HistoryView {
    /// The empty history.
    pub open spec fn empty() -> HistoryView {
        HistoryView { visits: Seq::empty(), cursor: 0, pending: None }
    }

    /// The states a history can be in: at most [`CAPACITY`] visits, no two equal
    /// neighbours, and a cursor and a traversal origin that name visits.
    pub open spec fn inv(self) -> bool {
        &&& self.visits.len() <= CAPACITY
        &&& self.visits.len() == 0 ==> self.cursor == 0 && self.pending is None
        &&& self.visits.len() > 0 ==> 0 <= self.cursor < self.visits.len()
        &&& self.pending matches Some(origin) ==> 0 <= origin < self.visits.len()
        &&& no_equal_neighbours(self.visits)
    }

    /// The current visit.
    pub open spec fn current(self) -> Option<VisitView> {
        if 0 <= self.cursor < self.visits.len() {
            Some(self.visits[self.cursor])
        } else {
            None
        }
    }

    /// Whether `visit` lies between the origin of an unconfirmed traversal and
    /// the cursor.
    pub open spec fn on_traversed_path(self, visit: VisitView) -> bool {
        self.pending matches Some(origin) && exists|i: int|
            #![trigger self.visits[i]]
            (origin <= i <= self.cursor || self.cursor <= i <= origin) && self.visits[i] == visit
    }

    /// The history after a new visit: everything forward of the current visit
    /// is forgotten, and the oldest visit when there are too many.
    pub open spec fn visited(self, visit: VisitView) -> HistoryView {
        let kept = if self.visits.len() == 0 {
            self.visits
        } else {
            self.visits.take(self.cursor + 1)
        };
        let grown = kept.push(visit);
        let bounded = if grown.len() > CAPACITY {
            grown.skip(grown.len() - CAPACITY)
        } else {
            grown
        };
        HistoryView { visits: bounded, cursor: bounded.len() - 1, pending: None }
    }

    /// The history after an accepted snapshot showed `visit` as focused.
    pub open spec fn observed(self, visit: VisitView) -> HistoryView {
        if self.current() == Some(visit) {
            HistoryView { pending: None, ..self }
        } else if self.on_traversed_path(visit) {
            self
        } else {
            self.visited(visit)
        }
    }

    /// The history after dropping every visit outside `keep`. Without such a
    /// visit nothing changes. An in-flight traversal survives while both its
    /// ends do.
    pub open spec fn pruned(self, keep: spec_fn(VisitView) -> bool) -> HistoryView {
        if forall|i: int| 0 <= i < self.visits.len() ==> keep(#[trigger] self.visits[i]) {
            self
        } else {
            HistoryView {
                visits: survivors(self.visits, keep),
                cursor: survivor_index(self.visits, keep, self.cursor),
                pending: match self.pending {
                    Some(origin) if keep(self.visits[self.cursor]) && keep(
                        self.visits[origin],
                    ) => Some(survivor_index(self.visits, keep, origin)),
                    _ => None,
                },
            }
        }
    }

    /// The history after a step to `index`. Chained steps keep the first origin.
    pub open spec fn traversed(self, index: int) -> HistoryView {
        HistoryView {
            visits: self.visits,
            cursor: index,
            pending: match self.pending {
                Some(origin) => Some(origin),
                None => Some(self.cursor),
            },
        }
    }

    /// The history after a chain of steps.
    pub open spec fn stepped(self, steps: Seq<int>) -> HistoryView
        decreases steps.len(),
    {
        if steps.len() == 0 {
            self
        } else {
            self.stepped(steps.drop_last()).traversed(steps.last())
        }
    }

    /// The index Back steps to.
    pub open spec fn back_target(self, online: Set<EndpointKey>) -> Option<int> {
        nearest_earlier(self.visits, online, self.cursor)
    }

    /// The index Forward steps to.
    pub open spec fn forward_target(self, online: Set<EndpointKey>) -> Option<int> {
        nearest_later(self.visits, online, self.cursor + 1)
    }

    /// The history after a failed traversal to `visit` returned to its origin.
    pub open spec fn rewound(self, visit: VisitView) -> HistoryView {
        match self.pending {
            Some(origin) if self.current() == Some(visit) => HistoryView {
                visits: self.visits,
                cursor: origin,
                pending: None,
            },
            _ => self,
        }
    }
}

/// Whether no visit equals the one right after it.
pub open spec fn no_equal_neighbours(visits: Seq<VisitView>) -> bool {
    forall|i: int, j: int|
        #![trigger visits[i], visits[j]]
        0 <= i && j == i + 1 && j < visits.len() ==> visits[i] != visits[j]
}

/// A condition under which visits stay in a history.
pub trait VisitFilter {
    /// Whether `visit` stays.
    spec fn keeps(&self, visit: VisitView) -> bool;

    /// Whether `visit` stays.
    fn keep(&self, visit: &Visit) -> (kept: bool)
        ensures
            kept == self.keeps(visit@),
    ;
}

/// Keeps the visits that are not on an endpoint under another boot.
pub struct SameBoot<'a> {
    pub endpoint_id: &'a ClientEndpointId,
    pub boot_id: &'a str,
}

impl<'a> VisitFilter for SameBoot<'a> {
    open spec fn keeps(&self, visit: VisitView) -> bool {
        visit.endpoint != self.endpoint_id@ || visit.boot == self.boot_id@
    }

    fn keep(&self, visit: &Visit) -> (kept: bool) {
        visit.endpoint_id != *self.endpoint_id || str_eq(visit.boot_id.as_str(), self.boot_id)
    }
}

/// Keeps the visits of one booted endpoint only while their panes are live.
pub struct LivePanes<'a> {
    pub endpoint_id: &'a ClientEndpointId,
    pub boot_id: &'a str,
    pub pane_ids: &'a [&'a str],
}

impl<'a> LivePanes<'a> {
    /// Whether `visit` is on the booted endpoint.
    pub open spec fn tracks(&self, visit: VisitView) -> bool {
        visit.endpoint == self.endpoint_id@ && visit.boot == self.boot_id@
    }

    fn covers(&self, visit: &Visit) -> (covered: bool)
        ensures
            covered == self.tracks(visit@),
    {
        visit.endpoint_id == *self.endpoint_id && str_eq(visit.boot_id.as_str(), self.boot_id)
    }
}

impl<'a> VisitFilter for LivePanes<'a> {
    open spec fn keeps(&self, visit: VisitView) -> bool {
        !self.tracks(visit) || text_set(self.pane_ids@).contains(visit.pane)
    }

    fn keep(&self, visit: &Visit) -> (kept: bool) {
        if !self.covers(visit) {
            return true;
        }
        let ghost texts = self.pane_ids@.map_values(|text: &str| text@);
        let mut i: usize = 0;
        while i < self.pane_ids.len()
            invariant
                i <= self.pane_ids@.len(),
                texts == self.pane_ids@.map_values(|text: &str| text@),
                forall|j: int| 0 <= j < i ==> #[trigger] texts[j] != visit.pane_id@,
            decreases self.pane_ids@.len() - i,
        {
            if str_eq(visit.pane_id.as_str(), self.pane_ids[i]) {
                assert(texts[i as int] == visit.pane_id@);
                assert(texts.to_set().contains(visit.pane_id@));
                return true;
            }
            i += 1;
        }
        assert(!texts.contains(visit.pane_id@));
        false
    }
}

/// Keeps every visit but those equal to one.
pub struct OtherThan<'a> {
    pub visit: &'a Visit,
}

impl<'a> VisitFilter for OtherThan<'a> {
    open spec fn keeps(&self, visit: VisitView) -> bool {
        visit != self.visit@
    }

    fn keep(&self, visit: &Visit) -> (kept: bool) {
        *visit != *self.visit
    }
}

/// Keeps every visit but those on one endpoint.
pub struct OtherEndpoints<'a> {
    pub endpoint_id: &'a ClientEndpointId,
}

impl<'a> VisitFilter for OtherEndpoints<'a> {
    open spec fn keeps(&self, visit: VisitView) -> bool {
        visit.endpoint != self.endpoint_id@
    }

    fn keep(&self, visit: &Visit) -> (kept: bool) {
        visit.endpoint_id != *self.endpoint_id
    }
}

impl View for History {
    type V = HistoryView;

    closed spec fn view(&self) -> HistoryView {
        HistoryView {
            visits: visit_views(self.visits@),
            cursor: self.cursor as int,
            pending: match self.pending {
                Some(traversal) => Some(traversal.origin as int),
                None => None,
            },
        }
    }
}

impl Default for History {
    fn default() -> (history: Self)
        ensures
            history@ == HistoryView::empty(),
            history@.inv(),
    {
        let history = History { visits: VecDeque::new(), cursor: 0, pending: None };
        assert(history@ =~= HistoryView::empty());
        history
    }
}

impl History {
    /// The recorded visits, oldest first.
    pub fn visits(&self) -> (visits: &VecDeque<Visit>)
        ensures
            visit_views(visits@) == self@.visits,
    {
        &self.visits
    }

    /// The index of the current visit, or 0 while there is none.
    pub fn cursor(&self) -> (cursor: usize)
        ensures
            cursor == self@.cursor,
    {
        self.cursor
    }

    /// Whether a traversal has not been confirmed yet.
    pub fn is_traversing(&self) -> (traversing: bool)
        ensures
            traversing == self@.pending is Some,
    {
        self.pending.is_some()
    }

    /// The current visit.
    pub fn current(&self) -> (visit: Option<&Visit>)
        ensures
            self@.current() == (match visit {
                Some(visit) => Some(visit@),
                None => None,
            }),
    {
        if self.cursor < self.visits.len() {
            Some(&self.visits[self.cursor])
        } else {
            None
        }
    }

    /// Whether `visit` is the current visit.
    fn is_current(&self, visit: &Visit) -> (same: bool)
        ensures
            same == (self@.current() == Some(visit@)),
    {
        match self.current() {
            Some(current) => *current == *visit,
            None => false,
        }
    }

    /// Whether `visit` lies on the path of an unconfirmed traversal.
    fn on_path(&self, visit: &Visit) -> (found: bool)
        requires
            self@.inv(),
        ensures
            found == self@.on_traversed_path(visit@),
    {
        let origin: usize = match &self.pending {
            Some(traversal) => traversal.origin,
            None => return false,
        };
        let low: usize = if origin < self.cursor {
            origin
        } else {
            self.cursor
        };
        let high: usize = if origin < self.cursor {
            self.cursor
        } else {
            origin
        };
        let mut i: usize = low;
        while i <= high
            invariant
                low <= i <= high + 1,
                high < self.visits@.len() <= CAPACITY,
                self@.visits.len() == self.visits@.len(),
                self@.pending == Some(origin as int),
                (low == origin && high == self@.cursor) || (low == self@.cursor && high == origin),
                forall|j: int| low <= j < i ==> #[trigger] self@.visits[j] != visit@,
            decreases high + 1 - i,
        {
            assert(self@.visits[i as int] == self.visits@[i as int]@);
            if self.visits[i] == *visit {
                assert(self@.visits[i as int] == visit@);
                return true;
            }
            i += 1;
        }
        false
    }

    /// Record the focused pane of the active endpoint after an accepted snapshot.
    pub fn observe(&mut self, endpoint_id: &ClientEndpointId, boot_id: &str, pane_id: Option<&str>)
        requires
            old(self)@.inv(),
        ensures
            final(self)@ == (match pane_id {
                Some(pane) => old(self)@.observed(
                    VisitView { endpoint: endpoint_id@, boot: boot_id@, pane: pane@ },
                ),
                None => old(self)@,
            }),
            final(self)@.inv(),
    {
        let pane_id: &str = match pane_id {
            Some(pane_id) => pane_id,
            None => return,
        };
        let visit = Visit {
            endpoint_id: endpoint_id.clone(),
            boot_id: boot_id.to_owned(),
            pane_id: pane_id.to_owned(),
        };
        let ghost seen = visit@;
        if self.is_current(&visit) {
            self.pending = None;
            assert(self@ =~= old(self)@.observed(seen));
            return;
        }
        // Snapshots taken before the server applied the traversal still show
        // a pane on the traversed path; they are not new visits.
        if self.on_path(&visit) {
            return;
        }
        self.pending = None;
        if self.visits.len() > 0 {
            self.visits.truncate(self.cursor + 1);
        }
        let ghost kept = visit_views(self.visits@);
        self.visits.push_back(visit);
        let ghost grown = visit_views(self.visits@);
        assert(grown =~= kept.push(seen));
        if self.visits.len() > CAPACITY {
            let _ = self.visits.pop_front();
        }
        self.cursor = self.visits.len() - 1;
        proof {
            let before = old(self)@;
            if before.visits.len() > 0 {
                assert(kept =~= before.visits.take(before.cursor + 1));
            } else {
                assert(kept =~= before.visits);
            }
            assert(self@ =~= before.visited(seen));
            visited_keeps_inv(before, seen);
        }
    }

    /// Step to the visit at `index`.
    pub fn traverse(&mut self, index: usize) -> (visit: Option<Visit>)
        requires
            old(self)@.inv(),
        ensures
            final(self)@.inv(),
            index < old(self)@.visits.len() ==> {
                &&& final(self)@ == old(self)@.traversed(index as int)
                &&& visit matches Some(visit) && visit@ == old(self)@.visits[index as int]
            },
            index >= old(self)@.visits.len() ==> final(self)@ == old(self)@ && visit is None,
    {
        if index >= self.visits.len() {
            return None;
        }
        let visit = self.visits[index].clone();
        // Chained steps keep the first origin so the whole path stays recognised.
        let origin: usize = match &self.pending {
            Some(traversal) => traversal.origin,
            None => self.cursor,
        };
        self.cursor = index;
        self.pending = Some(Traversal { origin });
        Some(visit)
    }

    /// Keep the visits matching `keep`, merge neighbours that removals made
    /// equal, and remap the cursor and any in-flight traversal onto survivors.
    /// A dropped cursor moves to the nearest earlier survivor.
    pub fn rebuild<K: VisitFilter>(&mut self, keep: &K)
        requires
            old(self)@.inv(),
        ensures
            final(self)@ == old(self)@.pruned(|visit: VisitView| keep.keeps(visit)),
            final(self)@.inv(),
    {
        let ghost kept = |visit: VisitView| keep.keeps(visit);
        let ghost before = self@;
        let total: usize = self.visits.len();
        let mut i: usize = 0;
        while i < total && keep.keep(&self.visits[i])
            invariant
                i <= total,
                total == self.visits@.len(),
                self@ == before,
                before.visits.len() == total,
                kept == (|visit: VisitView| keep.keeps(visit)),
                forall|j: int| 0 <= j < i ==> kept(#[trigger] before.visits[j]),
            ensures
                i <= total,
                forall|j: int| 0 <= j < i ==> kept(#[trigger] before.visits[j]),
                i < total ==> !kept(before.visits[i as int]),
            decreases total - i,
        {
            i += 1;
        }
        if i == total {
            return;
        }
        let mut rest: VecDeque<Visit> = VecDeque::new();
        std::mem::swap(&mut rest, &mut self.visits);
        let ghost all = rest@;
        assert(visit_views(all) == before.visits);
        // Old index -> surviving index: itself, the equal neighbour it merged
        // into, or the nearest earlier survivor when dropped.
        let mut mapped: Vec<usize> = Vec::new();
        let mut dropped: Vec<bool> = Vec::new();
        let mut left: VecDeque<Visit> = VecDeque::new();
        let mut n: usize = 0;
        assert(before.visits.take(0).filter(kept) =~= Seq::<VisitView>::empty()) by {
            reveal(Seq::filter);
        }
        while n < total
            invariant
                n <= total,
                total == all.len(),
                total <= CAPACITY,
                visit_views(all) == before.visits,
                rest@ == all.skip(n as int),
                kept == (|visit: VisitView| keep.keeps(visit)),
                visit_views(left@) == survivors(before.visits.take(n as int), kept),
                left@.len() <= n,
                mapped@.len() == n,
                dropped@.len() == n,
                forall|j: int|
                    0 <= j < n ==> #[trigger] mapped@[j] == survivor_index(before.visits, kept, j),
                forall|j: int| 0 <= j < n ==> #[trigger] dropped@[j] == !kept(before.visits[j]),
            decreases total - n,
        {
            let ghost prefix = before.visits.take(n as int);
            let ghost earlier = visit_views(left@);
            match rest.pop_front() {
                Some(visit) => {
                    let ghost seen = visit@;
                    proof {
                        reveal(Seq::filter);
                        assert(visit == all[n as int]);
                        assert(seen == before.visits[n as int]);
                        assert(before.visits.take(n + 1).drop_last() =~= prefix);
                        assert(before.visits.take(n + 1).last() == seen);
                        assert(prefix.filter(kept).push(seen).drop_last() =~= prefix.filter(kept));
                        assert(earlier.len() == left@.len());
                        if left@.len() > 0 {
                            assert(earlier.last() == left@[left@.len() - 1]@);
                        }
                    }
                    let stays = keep.keep(&visit);
                    if stays && (left.len() == 0 || left[left.len() - 1] != visit) {
                        left.push_back(visit);
                        assert(visit_views(left@) =~= earlier.push(seen));
                    }
                    mapped.push(
                        if left.len() == 0 {
                            0
                        } else {
                            left.len() - 1
                        },
                    );
                    dropped.push(!stays);
                    assert(visit_views(left@).len() == left@.len());
                    assert(all.skip(n as int).subrange(1, total - n) =~= all.skip(n + 1));
                },
                None => {},
            }
            n += 1;
        }
        assert(before.visits.take(total as int) =~= before.visits);
        self.visits = left;
        let cursor: usize = self.cursor;
        self.pending = match &self.pending {
            Some(traversal) => {
                let origin: usize = traversal.origin;
                if !dropped[cursor] && !dropped[origin] {
                    Some(Traversal { origin: mapped[origin] })
                } else {
                    None
                }
            },
            None => None,
        };
        self.cursor = mapped[cursor];
        proof {
            assert(self@ =~= before.pruned(kept));
            pruned_keeps_inv(before, kept);
        }
    }

    /// A server reboot invalidates every visit recorded under the old boot.
    pub fn observe_boot(&mut self, endpoint_id: &ClientEndpointId, boot_id: &str)
        requires
            old(self)@.inv(),
        ensures
            final(self)@ == old(self)@.pruned(
                |visit: VisitView| visit.endpoint != endpoint_id@ || visit.boot == boot_id@,
            ),
            final(self)@.inv(),
            forall|visit: VisitView|
                final(self)@.visits.contains(visit) <==> #[trigger] old(self)@.visits.contains(
                    visit,
                ) && (visit.endpoint != endpoint_id@ || visit.boot == boot_id@),
    {
        let keep = SameBoot { endpoint_id, boot_id };
        assert((|visit: VisitView| keep.keeps(visit)) =~= (|visit: VisitView|
            visit.endpoint != endpoint_id@ || visit.boot == boot_id@));
        self.rebuild(&keep);
        proof {
            let kept = |visit: VisitView|
                visit.endpoint != endpoint_id@ || visit.boot == boot_id@;
            assert forall|visit: VisitView|
                self@.visits.contains(visit) <==> #[trigger] old(self)@.visits.contains(visit) && (
                visit.endpoint != endpoint_id@ || visit.boot == boot_id@) by {
                law_pruning_leaves_exactly_the_kept_visits(old(self)@, kept, visit);
            }
        }
    }

    /// Forget visits to panes that an endpoint's accepted snapshot no longer contains.
    pub fn observe_panes(
        &mut self,
        endpoint_id: &ClientEndpointId,
        boot_id: &str,
        pane_ids: &[&str],
    )
        requires
            old(self)@.inv(),
        ensures
            final(self)@ == old(self)@.pruned(
                |visit: VisitView|
                    !(visit.endpoint == endpoint_id@ && visit.boot == boot_id@) || text_set(
                        pane_ids@,
                    ).contains(visit.pane),
            ),
            final(self)@.inv(),
            forall|visit: VisitView|
                final(self)@.visits.contains(visit) <==> #[trigger] old(self)@.visits.contains(
                    visit,
                ) && (visit.endpoint == endpoint_id@ && visit.boot == boot_id@ ==> exists|k: int|
                    0 <= k < pane_ids@.len() && (#[trigger] pane_ids@[k])@ == visit.pane),
    {
        let keep = LivePanes { endpoint_id, boot_id, pane_ids };
        assert((|visit: VisitView| keep.keeps(visit)) =~= (|visit: VisitView|
            !(visit.endpoint == endpoint_id@ && visit.boot == boot_id@) || text_set(
                pane_ids@,
            ).contains(visit.pane)));
        self.rebuild(&keep);
        proof {
            let kept = |visit: VisitView|
                !(visit.endpoint == endpoint_id@ && visit.boot == boot_id@) || text_set(
                    pane_ids@,
                ).contains(visit.pane);
            assert forall|visit: VisitView|
                self@.visits.contains(visit) <==> #[trigger] old(self)@.visits.contains(visit) && (
                visit.endpoint == endpoint_id@ && visit.boot == boot_id@ ==> exists|k: int|
                    0 <= k < pane_ids@.len() && (#[trigger] pane_ids@[k])@ == visit.pane) by {
                law_pruning_leaves_exactly_the_kept_visits(old(self)@, kept, visit);
                text_set_is_the_list(pane_ids@, visit.pane);
            }
        }
    }

    /// The focus request for a traversal failed: return to the visit it started
    /// from, and forget the target when its pane no longer exists.
    pub fn traversal_failed(&mut self, visit: &Visit, pane_closed: bool)
        requires
            old(self)@.inv(),
        ensures
            final(self)@ == (if pane_closed {
                old(self)@.rewound(visit@).pruned(|candidate: VisitView| candidate != visit@)
            } else {
                old(self)@.rewound(visit@)
            }),
            final(self)@.inv(),
            forall|seen: VisitView|
                final(self)@.visits.contains(seen) <==> #[trigger] old(self)@.visits.contains(seen)
                    && !(pane_closed && seen == visit@),
    {
        if self.is_current(visit) {
            match self.pending.take() {
                Some(traversal) => {
                    self.cursor = traversal.origin;
                },
                None => {},
            }
        }
        assert(self@ =~= old(self)@.rewound(visit@));
        if pane_closed {
            let keep = OtherThan { visit };
            assert((|candidate: VisitView| keep.keeps(candidate)) =~= (|candidate: VisitView|
                candidate != visit@));
            let ghost before = self@;
            self.rebuild(&keep);
            proof {
                let kept = |candidate: VisitView| candidate != visit@;
                assert forall|seen: VisitView|
                    self@.visits.contains(seen) <==> #[trigger] old(self)@.visits.contains(seen)
                        && seen != visit@ by {
                    law_pruning_leaves_exactly_the_kept_visits(before, kept, seen);
                }
            }
        }
    }

    /// Forget every visit on an endpoint.
    pub fn retire(&mut self, endpoint_id: &ClientEndpointId)
        requires
            old(self)@.inv(),
        ensures
            final(self)@ == old(self)@.pruned(
                |visit: VisitView| visit.endpoint != endpoint_id@,
            ),
            final(self)@.inv(),
            forall|visit: VisitView|
                final(self)@.visits.contains(visit) <==> #[trigger] old(self)@.visits.contains(
                    visit,
                ) && visit.endpoint != endpoint_id@,
    {
        let keep = OtherEndpoints { endpoint_id };
        assert((|visit: VisitView| keep.keeps(visit)) =~= (|visit: VisitView|
            visit.endpoint != endpoint_id@));
        self.rebuild(&keep);
        proof {
            let kept = |visit: VisitView| visit.endpoint != endpoint_id@;
            assert forall|visit: VisitView|
                self@.visits.contains(visit) <==> #[trigger] old(self)@.visits.contains(visit)
                    && visit.endpoint != endpoint_id@ by {
                law_pruning_leaves_exactly_the_kept_visits(old(self)@, kept, visit);
            }
        }
    }

    /// Forget everything.
    pub fn clear(&mut self)
        ensures
            final(self)@ == HistoryView::empty(),
            final(self)@.inv(),
    {
        self.visits.clear();
        self.cursor = 0;
        self.pending = None;
        assert(self@ =~= HistoryView::empty());
    }

    /// Whether `endpoint` is in `online`.
    fn is_online(online: &[ClientEndpointId], endpoint: &ClientEndpointId) -> (found: bool)
        ensures
            found == endpoint_set(online@).contains(endpoint@),
    {
        let ghost keys = online@.map_values(|endpoint: ClientEndpointId| endpoint@);
        let mut i: usize = 0;
        while i < online.len()
            invariant
                i <= online@.len(),
                keys == online@.map_values(|endpoint: ClientEndpointId| endpoint@),
                forall|j: int| 0 <= j < i ==> #[trigger] keys[j] != endpoint@,
            decreases online@.len() - i,
        {
            if online[i] == *endpoint {
                assert(keys[i as int] == endpoint@);
                assert(keys.to_set().contains(endpoint@));
                return true;
            }
            i += 1;
        }
        assert(!keys.contains(endpoint@));
        false
    }

    /// Step to the nearest earlier visit on an online endpoint.
    pub fn back(&mut self, online: &[ClientEndpointId]) -> (visit: Option<Visit>)
        requires
            old(self)@.inv(),
        ensures
            final(self)@.inv(),
            match old(self)@.back_target(endpoint_set(online@)) {
                Some(index) => {
                    &&& final(self)@ == old(self)@.traversed(index)
                    &&& visit matches Some(visit) && visit@ == old(self)@.visits[index]
                },
                None => final(self)@ == old(self)@ && visit is None,
            },
            final(self)@.visits == old(self)@.visits,
            match visit {
                Some(visit) => {
                    &&& 0 <= final(self)@.cursor < old(self)@.cursor
                    &&& visit@ == old(self)@.visits[final(self)@.cursor]
                    &&& lists_endpoint(online@, visit@.endpoint)
                    &&& forall|j: int|
                        final(self)@.cursor < j < old(self)@.cursor ==> !lists_endpoint(
                            online@,
                            (#[trigger] old(self)@.visits[j]).endpoint,
                        )
                },
                None => final(self)@ == old(self)@ && forall|j: int|
                    0 <= j < old(self)@.cursor ==> !lists_endpoint(
                        online@,
                        (#[trigger] old(self)@.visits[j]).endpoint,
                    ),
            },
    {
        proof {
            self@.back_skips_only_offline_visits(online@);
        }
        let ghost set = endpoint_set(online@);
        let mut end: usize = self.cursor;
        while end > 0
            invariant
                end <= self@.cursor,
                self@.inv(),
                self@ == old(self)@,
                set == endpoint_set(online@),
                nearest_earlier(self@.visits, set, end as int) == self@.back_target(set),
            decreases end,
        {
            assert(self@.visits.len() == self.visits@.len());
            assert(self@.visits[end - 1] == self.visits@[end - 1]@);
            if Self::is_online(online, &self.visits[end - 1].endpoint_id) {
                proof {
                    self@.back_skips_only_offline_visits(online@);
                }
                return self.traverse(end - 1);
            }
            end -= 1;
        }
        None
    }

    /// Step to the nearest later visit on an online endpoint.
    pub fn forward(&mut self, online: &[ClientEndpointId]) -> (visit: Option<Visit>)
        requires
            old(self)@.inv(),
        ensures
            final(self)@.inv(),
            match old(self)@.forward_target(endpoint_set(online@)) {
                Some(index) => {
                    &&& final(self)@ == old(self)@.traversed(index)
                    &&& visit matches Some(visit) && visit@ == old(self)@.visits[index]
                },
                None => final(self)@ == old(self)@ && visit is None,
            },
            final(self)@.visits == old(self)@.visits,
            match visit {
                Some(visit) => {
                    &&& old(self)@.cursor < final(self)@.cursor < old(self)@.visits.len()
                    &&& visit@ == old(self)@.visits[final(self)@.cursor]
                    &&& lists_endpoint(online@, visit@.endpoint)
                    &&& forall|j: int|
                        old(self)@.cursor < j < final(self)@.cursor ==> !lists_endpoint(
                            online@,
                            (#[trigger] old(self)@.visits[j]).endpoint,
                        )
                },
                None => final(self)@ == old(self)@ && forall|j: int|
                    old(self)@.cursor < j < old(self)@.visits.len() ==> !lists_endpoint(
                        online@,
                        (#[trigger] old(self)@.visits[j]).endpoint,
                    ),
            },
    {
        proof {
            self@.forward_skips_only_offline_visits(online@);
        }
        let ghost set = endpoint_set(online@);
        let mut start: usize = self.cursor + 1;
        while start < self.visits.len()
            invariant
                self@.cursor < start,
                self@.inv(),
                self@ == old(self)@,
                set == endpoint_set(online@),
                nearest_later(self@.visits, set, start as int) == self@.forward_target(set),
            decreases self.visits@.len() - start,
        {
            assert(self@.visits.len() == self.visits@.len());
            assert(self@.visits[start as int] == self.visits@[start as int]@);
            if Self::is_online(online, &self.visits[start].endpoint_id) {
                proof {
                    self@.forward_skips_only_offline_visits(online@);
                }
                return self.traverse(start);
            }
            start += 1;
        }
        None
    }
}

proof fn merge_neighbours_facts(visits: Seq<VisitView>)
    ensures
        merge_neighbours(visits).len() <= visits.len(),
        visits.len() > 0 ==> {
            &&& merge_neighbours(visits).len() > 0
            &&& merge_neighbours(visits).last() == visits.last()
        },
        no_equal_neighbours(merge_neighbours(visits)),
    decreases visits.len(),
{
    if visits.len() > 0 {
        merge_neighbours_facts(visits.drop_last());
    }
}

/// The survivors of a prefix begin the survivors of the whole.
proof fn survivors_prefix(visits: Seq<VisitView>, keep: spec_fn(VisitView) -> bool, n: int)
    requires
        0 <= n <= visits.len(),
    ensures
        survivors(visits.take(n), keep).is_prefix_of(survivors(visits, keep)),
    decreases visits.len(),
{
    reveal(Seq::filter);
    if n == visits.len() {
        assert(visits.take(n) =~= visits);
    } else {
        let head = visits.drop_last();
        survivors_prefix(head, keep, n);
        assert(head.take(n) =~= visits.take(n));
        if keep(visits.last()) {
            assert(head.filter(keep).push(visits.last()).drop_last() =~= head.filter(keep));
        }
    }
}

proof fn pruned_keeps_inv(history: HistoryView, keep: spec_fn(VisitView) -> bool)
    requires
        history.inv(),
    ensures
        history.pruned(keep).inv(),
{
    let visits = history.visits;
    let after = history.pruned(keep);
    visits.lemma_filter_len(keep);
    merge_neighbours_facts(visits.filter(keep));
    if after != history {
        survivors_prefix(visits, keep, history.cursor + 1);
        if let Some(origin) = history.pending {
            survivors_prefix(visits, keep, origin + 1);
            if keep(visits[origin]) {
                kept_visit_survives(visits, keep, origin);
            }
        }
    }
}

/// A kept visit is found again among the survivors where
/// [`survivor_index`] says.
proof fn kept_visit_survives(
    visits: Seq<VisitView>,
    keep: spec_fn(VisitView) -> bool,
    index: int,
)
    requires
        0 <= index < visits.len(),
        keep(visits[index]),
    ensures
        0 <= survivor_index(visits, keep, index) < survivors(visits, keep).len(),
        survivors(visits, keep)[survivor_index(visits, keep, index)] == visits[index],
{
    reveal(Seq::filter);
    let prefix = visits.take(index + 1);
    survivors_prefix(visits, keep, index + 1);
    assert(prefix.last() == visits[index]);
    assert(prefix.filter(keep).last() == visits[index]);
    merge_neighbours_facts(prefix.filter(keep));
}

proof fn visited_keeps_inv(history: HistoryView, visit: VisitView)
    requires
        history.inv(),
        history.current() != Some(visit),
    ensures
        history.visited(visit).inv(),
{
}

/// A snapshot that repeats the last one records nothing new.
pub proof fn law_repeated_observation_changes_nothing(history: HistoryView, visit: VisitView)
    requires
        history.inv(),
    ensures
        history.observed(visit).observed(visit) == history.observed(visit),
{
    let once = history.observed(visit);
    if history.current() != Some(visit) && !history.on_traversed_path(visit) {
        assert(once.current() == Some(visit));
    }
    assert(once.observed(visit) =~= once);
}

/// A new visit becomes current with nothing forward of it, and leaves the most
/// recent visits up to the one that was current as they were.
pub proof fn law_new_visit_forgets_the_forward_list(
    history: HistoryView,
    visit: VisitView,
    online: Set<EndpointKey>,
)
    requires
        history.inv(),
        history.current() != Some(visit),
        !history.on_traversed_path(visit),
    ensures
        history.observed(visit).current() == Some(visit),
        history.observed(visit).forward_target(online) is None,
        history.visits.len() > 0 ==> history.observed(visit).visits.drop_last().is_suffix_of(
            history.visits.take(history.cursor + 1),
        ),
        history.visits.len() > 0 ==> history.observed(visit).visits.len() == if history.cursor + 2
            <= CAPACITY {
            history.cursor + 2
        } else {
            CAPACITY as int
        },
{
}

/// The observation that lands on a traversal's target confirms it: no visit is
/// recorded and none is forgotten.
pub proof fn law_arrival_confirms_the_traversal(history: HistoryView, index: int)
    requires
        history.inv(),
        0 <= index < history.visits.len(),
    ensures
        history.traversed(index).observed(history.visits[index]) == (HistoryView {
            visits: history.visits,
            cursor: index,
            pending: None,
        }),
{
}

/// While a traversal is unconfirmed, a snapshot of any visit on its path leaves
/// the visits and the cursor alone.
pub proof fn law_path_snapshots_are_not_visits(history: HistoryView, origin: int, index: int)
    requires
        history.inv(),
        history.pending == Some(origin),
        origin <= index <= history.cursor || history.cursor <= index <= origin,
    ensures
        history.observed(history.visits[index]).visits == history.visits,
        history.observed(history.visits[index]).cursor == history.cursor,
{
    assert(history.on_traversed_path(history.visits[index]));
}

/// A failed traversal returns the history to the state it started from.
pub proof fn law_failed_traversal_rewinds(history: HistoryView, index: int)
    requires
        history.inv(),
        history.pending is None,
        0 <= index < history.visits.len(),
    ensures
        history.traversed(index).rewound(history.visits[index]) == history,
{
}

/// However many steps a traversal took, its failure returns to the visit that
/// was current before the first of them.
pub proof fn law_failed_chain_rewinds_to_the_first_origin(history: HistoryView, steps: Seq<int>)
    requires
        history.inv(),
        history.pending is None,
        steps.len() > 0,
        forall|i: int|
            0 <= i < steps.len() ==> 0 <= #[trigger] steps[i] < history.visits.len(),
    ensures
        history.stepped(steps).current() == Some(history.visits[steps.last()]),
        history.stepped(steps).rewound(history.visits[steps.last()]) == history,
{
    chain_keeps_its_origin(history, steps);
}

proof fn chain_keeps_its_origin(history: HistoryView, steps: Seq<int>)
    requires
        history.pending is None,
        steps.len() > 0,
    ensures
        history.stepped(steps) == (HistoryView {
            visits: history.visits,
            cursor: steps.last(),
            pending: Some(history.cursor),
        }),
    decreases steps.len(),
{
    if steps.len() > 1 {
        chain_keeps_its_origin(history, steps.drop_last());
    } else {
        assert(history.stepped(steps.drop_last()) == history);
    }
}

/// Back steps to the closest earlier visit on an online endpoint, and stays
/// when there is none.
pub proof fn law_back_is_the_nearest_earlier_online_visit(
    visits: Seq<VisitView>,
    online: Set<EndpointKey>,
    end: int,
)
    requires
        0 <= end <= visits.len(),
    ensures
        match nearest_earlier(visits, online, end) {
            Some(index) => {
                &&& 0 <= index < end
                &&& online.contains(visits[index].endpoint)
                &&& forall|j: int|
                    index < j < end ==> !online.contains(#[trigger] visits[j].endpoint)
            },
            None => forall|j: int| 0 <= j < end ==> !online.contains(#[trigger] visits[j].endpoint),
        },
    decreases end,
{
    if end > 0 && !online.contains(visits[end - 1].endpoint) {
        law_back_is_the_nearest_earlier_online_visit(visits, online, end - 1);
    }
}

/// Forward steps to the closest later visit on an online endpoint, and stays
/// when there is none.
pub proof fn law_forward_is_the_nearest_later_online_visit(
    visits: Seq<VisitView>,
    online: Set<EndpointKey>,
    start: int,
)
    requires
        0 <= start,
    ensures
        match nearest_later(visits, online, start) {
            Some(index) => {
                &&& start <= index < visits.len()
                &&& online.contains(visits[index].endpoint)
                &&& forall|j: int|
                    start <= j < index ==> !online.contains(#[trigger] visits[j].endpoint)
            },
            None => forall|j: int|
                start <= j < visits.len() ==> !online.contains(#[trigger] visits[j].endpoint),
        },
    decreases visits.len() - start,
{
    if start < visits.len() && !online.contains(visits[start].endpoint) {
        law_forward_is_the_nearest_later_online_visit(visits, online, start + 1);
    }
}

impl HistoryView {
    /// Back, seen from the history it is pressed in.
    proof fn back_skips_only_offline_visits(self, online: Seq<ClientEndpointId>)
        requires
            self.inv(),
        ensures
            match self.back_target(endpoint_set(online)) {
                Some(index) => {
                    &&& 0 <= index < self.cursor
                    &&& lists_endpoint(online, self.visits[index].endpoint)
                    &&& forall|j: int|
                        index < j < self.cursor ==> !lists_endpoint(
                            online,
                            (#[trigger] self.visits[j]).endpoint,
                        )
                },
                None => forall|j: int|
                    0 <= j < self.cursor ==> !lists_endpoint(
                        online,
                        (#[trigger] self.visits[j]).endpoint,
                    ),
            },
    {
        law_back_skips_exactly_the_offline_visits(self, endpoint_set(online));
        assert forall|j: int| 0 <= j < self.visits.len() implies endpoint_set(online).contains(
            (#[trigger] self.visits[j]).endpoint,
        ) == lists_endpoint(online, self.visits[j].endpoint) by {
            endpoint_set_is_the_list(online, self.visits[j].endpoint);
        }
    }

    /// Forward, seen from the history it is pressed in.
    proof fn forward_skips_only_offline_visits(self, online: Seq<ClientEndpointId>)
        requires
            self.inv(),
        ensures
            match self.forward_target(endpoint_set(online)) {
                Some(index) => {
                    &&& self.cursor < index < self.visits.len()
                    &&& lists_endpoint(online, self.visits[index].endpoint)
                    &&& forall|j: int|
                        self.cursor < j < index ==> !lists_endpoint(
                            online,
                            (#[trigger] self.visits[j]).endpoint,
                        )
                },
                None => forall|j: int|
                    self.cursor < j < self.visits.len() ==> !lists_endpoint(
                        online,
                        (#[trigger] self.visits[j]).endpoint,
                    ),
            },
    {
        law_forward_skips_exactly_the_offline_visits(self, endpoint_set(online));
        assert forall|j: int| 0 <= j < self.visits.len() implies endpoint_set(online).contains(
            (#[trigger] self.visits[j]).endpoint,
        ) == lists_endpoint(online, self.visits[j].endpoint) by {
            endpoint_set_is_the_list(online, self.visits[j].endpoint);
        }
    }
}

/// From any state, Back steps over offline visits and no others: it lands on the
/// online visit with the largest index below the cursor, and stays only where
/// every earlier visit is offline. The visits themselves do not change, and a
/// traversal under way keeps the origin it had.
pub proof fn law_back_skips_exactly_the_offline_visits(
    history: HistoryView,
    online: Set<EndpointKey>,
)
    requires
        history.inv(),
    ensures
        (exists|j: int|
            0 <= j < history.cursor && online.contains((#[trigger] history.visits[j]).endpoint))
            <==> history.back_target(online) is Some,
        history.back_target(online) matches Some(index) ==> {
            &&& 0 <= index < history.cursor
            &&& online.contains(history.visits[index].endpoint)
            &&& forall|j: int|
                index < j < history.cursor ==> !online.contains(
                    (#[trigger] history.visits[j]).endpoint,
                )
            &&& history.traversed(index).cursor == index
            &&& history.traversed(index).current() == Some(history.visits[index])
            &&& history.traversed(index).visits == history.visits
            &&& history.traversed(index).pending == Some(
                if history.pending is Some {
                    history.pending->0
                } else {
                    history.cursor
                },
            )
        },
{
    law_back_is_the_nearest_earlier_online_visit(history.visits, online, history.cursor);
    if history.back_target(online) is None {
        assert forall|j: int| 0 <= j < history.cursor implies !online.contains(
            (#[trigger] history.visits[j]).endpoint,
        ) by {
            assert(!online.contains(history.visits[j].endpoint));
        }
    } else {
        assert(online.contains(history.visits[history.back_target(online)->0].endpoint));
    }
}

/// From any state, Forward steps over offline visits and no others: it lands on
/// the online visit with the smallest index above the cursor, and stays only where
/// every later visit is offline. The visits themselves do not change, and a
/// traversal under way keeps the origin it had.
pub proof fn law_forward_skips_exactly_the_offline_visits(
    history: HistoryView,
    online: Set<EndpointKey>,
)
    requires
        history.inv(),
    ensures
        (exists|j: int|
            history.cursor < j < history.visits.len() && online.contains(
                (#[trigger] history.visits[j]).endpoint,
            )) <==> history.forward_target(online) is Some,
        history.forward_target(online) matches Some(index) ==> {
            &&& history.cursor < index < history.visits.len()
            &&& online.contains(history.visits[index].endpoint)
            &&& forall|j: int|
                history.cursor < j < index ==> !online.contains(
                    (#[trigger] history.visits[j]).endpoint,
                )
            &&& history.traversed(index).cursor == index
            &&& history.traversed(index).current() == Some(history.visits[index])
            &&& history.traversed(index).visits == history.visits
            &&& history.traversed(index).pending == Some(
                if history.pending is Some {
                    history.pending->0
                } else {
                    history.cursor
                },
            )
        },
{
    law_forward_is_the_nearest_later_online_visit(history.visits, online, history.cursor + 1);
    if history.forward_target(online) is None {
        assert forall|j: int| history.cursor < j < history.visits.len() implies !online.contains(
            (#[trigger] history.visits[j]).endpoint,
        ) by {
            assert(!online.contains(history.visits[j].endpoint));
        }
    } else {
        assert(online.contains(history.visits[history.forward_target(online)->0].endpoint));
    }
}

/// A history starts empty, and in every state it holds at most a hundred visits,
/// its cursor and the origin of a traversal are visits, and no visit equals the
/// one before it.
pub proof fn law_every_history_is_bounded_and_coalesced(history: HistoryView)
    ensures
        HistoryView::empty().inv() && HistoryView::empty().visits.len() == 0
            && HistoryView::empty().current() is None && HistoryView::empty().pending is None,
        history.inv() ==> {
            &&& history.visits.len() <= 100
            &&& history.visits.len() > 0 ==> history.current() == Some(
                history.visits[history.cursor],
            )
            &&& history.visits.len() > 0 ==> 0 <= history.cursor < history.visits.len()
            &&& history.pending is Some ==> 0 <= history.pending->0 < history.visits.len()
            &&& forall|i: int|
                0 < i < history.visits.len() ==> #[trigger] history.visits[i] != history.visits[i
                    - 1]
        },
{
}

/// An observed pane that is the current visit confirms a traversal and changes
/// nothing else.
pub proof fn law_observing_the_current_visit_only_confirms(
    history: HistoryView,
    visit: VisitView,
)
    requires
        history.inv(),
        history.visits.len() > 0,
        history.visits[history.cursor] == visit,
    ensures
        history.observed(visit).visits == history.visits,
        history.observed(visit).cursor == history.cursor,
        history.observed(visit).pending is None,
{
}

/// While a traversal is unconfirmed, an observed pane between its origin and the
/// cursor, both counted in, that is not the current visit changes nothing at all.
pub proof fn law_observing_the_traversed_path_changes_nothing(
    history: HistoryView,
    origin: int,
    index: int,
)
    requires
        history.inv(),
        history.pending == Some(origin),
        origin <= index <= history.cursor || history.cursor <= index <= origin,
        history.visits[index] != history.visits[history.cursor],
    ensures
        history.observed(history.visits[index]) == history,
{
    assert(history.on_traversed_path(history.visits[index]));
}

/// Every other observed pane is a new visit: it is appended behind the visits up
/// to the current one, of which the oldest goes when there would be more than a
/// hundred; everything forward is forgotten, and no traversal is left.
pub proof fn law_observing_any_other_pane_is_a_visit(history: HistoryView, visit: VisitView)
    requires
        history.inv(),
        history.visits.len() > 0 ==> history.visits[history.cursor] != visit,
        forall|i: int|
            0 <= i < history.visits.len() && #[trigger] history.visits[i] == visit ==> !(
            history.pending is Some && (history.pending->0 <= i <= history.cursor
                || history.cursor <= i <= history.pending->0)),
    ensures
        ({
            let after = history.observed(visit);
            let kept: int = if history.visits.len() == 0 {
                0
            } else {
                history.cursor + 1
            };
            let lost: int = if kept == 100 {
                1
            } else {
                0
            };
            &&& after.visits.len() == kept - lost + 1
            &&& after.cursor == after.visits.len() - 1
            &&& after.visits[after.cursor] == visit
            &&& after.pending is None
            &&& forall|i: int|
                0 <= i < kept - lost ==> #[trigger] after.visits[i] == history.visits[i + lost]
        }),
{
    assert(!history.on_traversed_path(visit));
}

/// A failed traversal rewinds only where the failed target is the current visit
/// and a traversal is under way; then the cursor is where the traversal began.
pub proof fn law_only_the_failure_of_the_target_rewinds(history: HistoryView, visit: VisitView)
    requires
        history.inv(),
    ensures
        history.rewound(visit).visits == history.visits,
        history.pending is Some && history.visits[history.cursor] == visit ==> history.rewound(
            visit,
        ).cursor == history.pending->0 && history.rewound(visit).pending is None,
        !(history.pending is Some && history.visits[history.cursor] == visit) ==> history.rewound(
            visit,
        ) == history,
{
}

/// Pruning maps each kept visit onto an equal survivor. The first kept visit is
/// the first survivor, the next kept visit is the same survivor where it is equal
/// and the next one where it is not, and the last kept visit is the last survivor.
pub proof fn law_pruning_merges_only_equal_neighbours(
    visits: Seq<VisitView>,
    keep: spec_fn(VisitView) -> bool,
    i: int,
    j: int,
)
    requires
        0 <= i < j < visits.len(),
        keep(visits[i]),
        keep(visits[j]),
        forall|k: int| i < k < j ==> !keep(#[trigger] visits[k]),
    ensures
        survivors(visits, keep)[survivor_index(visits, keep, i)] == visits[i],
        survivor_index(visits, keep, j) == survivor_index(visits, keep, i) + (if visits[i]
            == visits[j] {
            0int
        } else {
            1
        }),
        (forall|k: int| 0 <= k < i ==> !keep(#[trigger] visits[k])) ==> survivor_index(
            visits,
            keep,
            i,
        ) == 0,
        (forall|k: int| j < k < visits.len() ==> !keep(#[trigger] visits[k])) ==> survivor_index(
            visits,
            keep,
            j,
        ) == survivors(visits, keep).len() - 1,
{
    kept_visit_survives(visits, keep, i);
    kept_visit_survives(visits, keep, j);
    let before = visits.take(i + 1);
    let until = visits.take(j);
    assert(visits.take(j + 1) =~= until.push(visits[j]));
    survivors_step(until, keep, visits[j]);
    dropped_index_falls_back(visits, keep, i, j - 1);
    merge_neighbours_facts(before.filter(keep));
    assert(visits.take(i + 1) =~= visits.take(i).push(visits[i]));
    survivors_step(visits.take(i), keep, visits[i]);
    assert(survivors(before, keep).len() > 0 && survivors(before, keep).last() == visits[i]) by {
        let init = survivors(visits.take(i), keep);
        assert(survivors(before, keep) == if !(init.len() > 0 && init.last() == visits[i]) {
            init.push(visits[i])
        } else {
            init
        });
    }
    no_new_survivors(visits, keep, i + 1, j);
    if forall|k: int| 0 <= k < i ==> !keep(#[trigger] visits[k]) {
        no_new_survivors(visits, keep, 0, i);
        reveal(Seq::filter);
        assert(visits.take(0) =~= Seq::empty());
        assert(survivors(visits.take(0), keep) =~= Seq::empty());
    }
    if forall|k: int| j < k < visits.len() ==> !keep(#[trigger] visits[k]) {
        no_new_survivors(visits, keep, j + 1, visits.len() as int);
        assert(visits.take(visits.len() as int) =~= visits);
    }
}

proof fn no_new_survivors(
    visits: Seq<VisitView>,
    keep: spec_fn(VisitView) -> bool,
    start: int,
    end: int,
)
    requires
        0 <= start <= end <= visits.len(),
        forall|k: int| start <= k < end ==> !keep(#[trigger] visits[k]),
    ensures
        survivors(visits.take(end), keep) == survivors(visits.take(start), keep),
    decreases end - start,
{
    if start < end {
        no_new_survivors(visits, keep, start, end - 1);
        assert(visits.take(end) =~= visits.take(end - 1).push(visits[end - 1]));
        survivors_step(visits.take(end - 1), keep, visits[end - 1]);
    }
}

/// Pruning keeps a traversal exactly where both its ends are kept, and its origin
/// is then the same visit; a cursor without an earlier survivor goes to the start.
pub proof fn law_pruning_keeps_a_traversal_between_kept_ends(
    history: HistoryView,
    keep: spec_fn(VisitView) -> bool,
)
    requires
        history.inv(),
        history.visits.len() > 0,
    ensures
        history.pruned(keep).pending is Some <==> history.pending is Some && keep(
            history.visits[history.cursor],
        ) && keep(history.visits[history.pending->0]),
        history.pruned(keep).pending is Some ==> history.pruned(keep).visits[history.pruned(
            keep,
        ).pending->0] == history.visits[history.pending->0],
        (forall|k: int| 0 <= k <= history.cursor ==> !keep(#[trigger] history.visits[k]))
            ==> history.pruned(keep).cursor == 0,
{
    pruned_in_full(history, keep);
    if let Some(origin) = history.pending {
        if keep(history.visits[origin]) {
            kept_visit_survives(history.visits, keep, origin);
        }
    }
    if forall|k: int| 0 <= k <= history.cursor ==> !keep(#[trigger] history.visits[k]) {
        no_new_survivors(history.visits, keep, 0, history.cursor + 1);
        reveal(Seq::filter);
        assert(history.visits.take(0) =~= Seq::empty());
        assert(survivors(history.visits.take(0), keep) =~= Seq::empty());
    }
}

/// Forward undoes Back while the endpoint it left is online.
pub proof fn law_forward_undoes_back(history: HistoryView, online: Set<EndpointKey>, index: int)
    requires
        history.inv(),
        history.back_target(online) == Some(index),
        online.contains(history.visits[history.cursor].endpoint),
    ensures
        history.traversed(index).forward_target(online) == Some(history.cursor),
{
    let visits = history.visits;
    law_back_is_the_nearest_earlier_online_visit(visits, online, history.cursor);
    law_forward_is_the_nearest_later_online_visit(visits, online, index + 1);
    match nearest_later(visits, online, index + 1) {
        Some(found) => {
            if found < history.cursor {
                assert(!online.contains(visits[found].endpoint));
            }
            if found > history.cursor {
                assert(!online.contains(visits[history.cursor].endpoint));
            }
        },
        None => {
            assert(!online.contains(visits[history.cursor].endpoint));
        },
    }
}

/// Pruning leaves exactly the kept visits that were there.
pub proof fn law_pruning_leaves_exactly_the_kept_visits(
    history: HistoryView,
    keep: spec_fn(VisitView) -> bool,
    visit: VisitView,
)
    requires
        history.inv(),
    ensures
        history.pruned(keep).visits.contains(visit) <==> history.visits.contains(visit) && keep(
            visit,
        ),
{
    let visits = history.visits;
    if forall|i: int| 0 <= i < visits.len() ==> keep(#[trigger] visits[i]) {
    } else {
        survivors_contain(visits, keep, visit);
    }
}

/// Pruning twice is pruning once.
pub proof fn law_pruning_is_idempotent(history: HistoryView, keep: spec_fn(VisitView) -> bool)
    requires
        history.inv(),
    ensures
        history.pruned(keep).pruned(keep) == history.pruned(keep),
{
    let after = history.pruned(keep);
    assert forall|i: int| 0 <= i < after.visits.len() implies keep(#[trigger] after.visits[i]) by {
        law_pruning_leaves_exactly_the_kept_visits(history, keep, after.visits[i]);
        assert(after.visits.contains(after.visits[i]));
    }
}

/// Pruning by one condition and then by another is pruning by both at once.
pub proof fn law_prunings_combine(
    history: HistoryView,
    first: spec_fn(VisitView) -> bool,
    second: spec_fn(VisitView) -> bool,
)
    requires
        history.inv(),
    ensures
        history.pruned(first).pruned(second) == history.pruned(
            |visit: VisitView| first(visit) && second(visit),
        ),
{
    let both = |visit: VisitView| first(visit) && second(visit);
    let once = history.pruned(first);
    pruned_keeps_inv(history, first);
    pruned_in_full(history, first);
    pruned_in_full(once, second);
    pruned_in_full(history, both);
    survivors_combine(history.visits, first, second);
    if history.visits.len() > 0 && once.visits.len() == 0 {
        let visit = history.visits[history.cursor];
        let prefix = history.visits.take(history.cursor + 1);
        assert(history.visits.contains(visit));
        law_pruning_leaves_exactly_the_kept_visits(history, first, visit);
        survivors_prefix(history.visits, both, history.cursor + 1);
        assert(survivors(prefix, both).len() == 0);
    } else if history.visits.len() > 0 {
        survivor_indices_combine(history.visits, first, second, history.cursor);
        if first(history.visits[history.cursor]) {
            kept_visit_survives(history.visits, first, history.cursor);
        }
        if let Some(origin) = history.pending {
            survivor_indices_combine(history.visits, first, second, origin);
            if first(history.visits[origin]) {
                kept_visit_survives(history.visits, first, origin);
            }
        }
    }
}

/// It does not matter in which order a history is pruned by two conditions, such
/// as the retirement of two endpoints.
pub proof fn law_prunings_commute(
    history: HistoryView,
    first: spec_fn(VisitView) -> bool,
    second: spec_fn(VisitView) -> bool,
)
    requires
        history.inv(),
    ensures
        history.pruned(first).pruned(second) == history.pruned(second).pruned(first),
{
    law_prunings_combine(history, first, second);
    law_prunings_combine(history, second, first);
    assert((|visit: VisitView| first(visit) && second(visit)) =~= (|visit: VisitView|
        second(visit) && first(visit)));
}

/// What pruning gives, also where every visit stays.
proof fn pruned_in_full(history: HistoryView, keep: spec_fn(VisitView) -> bool)
    requires
        history.inv(),
    ensures
        history.pruned(keep).visits == survivors(history.visits, keep),
        history.visits.len() > 0 ==> history.pruned(keep).cursor == survivor_index(
            history.visits,
            keep,
            history.cursor,
        ),
        history.visits.len() == 0 ==> history.pruned(keep) == history,
        history.visits.len() > 0 ==> history.pruned(keep).pending == (match history.pending {
            Some(origin) if keep(history.visits[history.cursor]) && keep(
                history.visits[origin],
            ) => Some(survivor_index(history.visits, keep, origin)),
            _ => None,
        }),
{
    let visits = history.visits;
    if forall|i: int| 0 <= i < visits.len() ==> keep(#[trigger] visits[i]) {
        all_survive(visits, keep);
        if visits.len() > 0 {
            all_survive(visits.take(history.cursor + 1), keep);
            if let Some(origin) = history.pending {
                all_survive(visits.take(origin + 1), keep);
            }
        }
    }
}

proof fn all_survive(visits: Seq<VisitView>, keep: spec_fn(VisitView) -> bool)
    requires
        no_equal_neighbours(visits),
        forall|i: int| 0 <= i < visits.len() ==> keep(#[trigger] visits[i]),
    ensures
        survivors(visits, keep) == visits,
    decreases visits.len(),
{
    reveal(Seq::filter);
    if visits.len() > 0 {
        let init = visits.drop_last();
        all_survive(init, keep);
        survivors_step(init, keep, visits.last());
        assert(init.push(visits.last()) =~= visits);
        if init.len() > 0 {
            assert(visits[visits.len() - 2] != visits[visits.len() - 1]);
        }
    } else {
        assert(survivors(visits, keep) =~= visits);
    }
}

/// The survivors of one visit more.
proof fn survivors_step(
    visits: Seq<VisitView>,
    keep: spec_fn(VisitView) -> bool,
    visit: VisitView,
)
    ensures
        survivors(visits.push(visit), keep) == (if keep(visit) && !(survivors(visits, keep).len()
            > 0 && survivors(visits, keep).last() == visit) {
            survivors(visits, keep).push(visit)
        } else {
            survivors(visits, keep)
        }),
{
    reveal(Seq::filter);
    assert(visits.push(visit).drop_last() =~= visits);
    assert(visits.filter(keep).push(visit).drop_last() =~= visits.filter(keep));
}

proof fn survivors_combine(
    visits: Seq<VisitView>,
    first: spec_fn(VisitView) -> bool,
    second: spec_fn(VisitView) -> bool,
)
    ensures
        survivors(survivors(visits, first), second) == survivors(
            visits,
            |visit: VisitView| first(visit) && second(visit),
        ),
    decreases visits.len(),
{
    let both = |visit: VisitView| first(visit) && second(visit);
    if visits.len() > 0 {
        let init = visits.drop_last();
        let last = visits.last();
        survivors_combine(init, first, second);
        assert(init.push(last) =~= visits);
        survivors_step(init, first, last);
        survivors_step(init, both, last);
        let left = survivors(init, first);
        survivors_step(left, second, last);
        if left.len() > 0 && left.last() == last {
            // The last survivor of the first pruning survives the second or not.
            let head = left.drop_last();
            assert(head.push(last) =~= left);
            survivors_step(head, second, last);
        }
    } else {
        reveal(Seq::filter);
        assert(survivors(visits, first) =~= visits);
        assert(survivors(visits, both) =~= visits);
        assert(survivors(visits, second) =~= visits);
    }
}

proof fn survivor_indices_combine(
    visits: Seq<VisitView>,
    first: spec_fn(VisitView) -> bool,
    second: spec_fn(VisitView) -> bool,
    index: int,
)
    requires
        0 <= index < visits.len(),
        survivors(visits, first).len() > 0,
    ensures
        survivor_index(
            survivors(visits, first),
            second,
            survivor_index(visits, first, index),
        ) == survivor_index(visits, |visit: VisitView| first(visit) && second(visit), index),
{
    let prefix = visits.take(index + 1);
    let left = survivors(visits, first);
    let before = survivors(prefix, first);
    survivors_prefix(visits, first, index + 1);
    survivors_combine(prefix, first, second);
    if before.len() > 0 {
        assert(left.take(before.len() as int) =~= before);
    } else {
        reveal(Seq::filter);
        assert(before =~= Seq::empty());
        assert(survivors(before, second) =~= Seq::empty());
        left.take(1).lemma_filter_len(second);
        merge_neighbours_facts(left.take(1).filter(second));
    }
}

/// Pruning keeps the order of visits.
pub proof fn law_pruning_keeps_the_order(
    visits: Seq<VisitView>,
    keep: spec_fn(VisitView) -> bool,
    first: int,
    second: int,
)
    requires
        0 <= first <= second < visits.len(),
    ensures
        survivor_index(visits, keep, first) <= survivor_index(visits, keep, second),
{
    survivors_prefix(visits.take(second + 1), keep, first + 1);
    assert(visits.take(second + 1).take(first + 1) =~= visits.take(first + 1));
}

/// A kept current visit stays current.
pub proof fn law_pruning_keeps_a_kept_current_visit(
    history: HistoryView,
    keep: spec_fn(VisitView) -> bool,
)
    requires
        history.inv(),
        history.current() matches Some(visit) && keep(visit),
    ensures
        history.pruned(keep).current() == history.current(),
{
    kept_visit_survives(history.visits, keep, history.cursor);
}

/// A dropped current visit gives way to the nearest earlier survivor.
pub proof fn law_pruning_moves_a_dropped_cursor_back(
    history: HistoryView,
    keep: spec_fn(VisitView) -> bool,
    index: int,
)
    requires
        history.inv(),
        0 <= index < history.cursor,
        keep(history.visits[index]),
        forall|j: int| index < j <= history.cursor ==> !keep(#[trigger] history.visits[j]),
    ensures
        history.pruned(keep).current() == Some(history.visits[index]),
{
    let visits = history.visits;
    assert(!keep(visits[history.cursor]));
    kept_visit_survives(visits, keep, index);
    dropped_index_falls_back(visits, keep, index, history.cursor);
}

/// A retired endpoint leaves no visit, and every other visit stays.
pub proof fn law_a_retired_endpoint_leaves_no_visit(
    history: HistoryView,
    endpoint: EndpointKey,
    visit: VisitView,
)
    requires
        history.inv(),
    ensures
        history.pruned(|seen: VisitView| seen.endpoint != endpoint).visits.contains(visit)
            <==> history.visits.contains(visit) && visit.endpoint != endpoint,
{
    law_pruning_leaves_exactly_the_kept_visits(
        history,
        |seen: VisitView| seen.endpoint != endpoint,
        visit,
    );
}

/// An endpoint that restarted leaves no visit of an earlier boot, and every other
/// visit stays.
pub proof fn law_a_restart_leaves_no_visit_of_an_earlier_boot(
    history: HistoryView,
    endpoint: EndpointKey,
    boot: Seq<char>,
    visit: VisitView,
)
    requires
        history.inv(),
    ensures
        history.pruned(
            |seen: VisitView| seen.endpoint != endpoint || seen.boot == boot,
        ).visits.contains(visit) <==> history.visits.contains(visit) && (visit.endpoint != endpoint
            || visit.boot == boot),
{
    law_pruning_leaves_exactly_the_kept_visits(
        history,
        |seen: VisitView| seen.endpoint != endpoint || seen.boot == boot,
        visit,
    );
}

/// Forgetting a failed traversal's target leaves no visit equal to it.
pub proof fn law_closed_target_is_forgotten(history: HistoryView, visit: VisitView)
    requires
        history.inv(),
    ensures
        !history.rewound(visit).pruned(|candidate: VisitView| candidate != visit).visits.contains(
            visit,
        ),
{
    law_pruning_leaves_exactly_the_kept_visits(
        history.rewound(visit),
        |candidate: VisitView| candidate != visit,
        visit,
    );
}

proof fn dropped_index_falls_back(
    visits: Seq<VisitView>,
    keep: spec_fn(VisitView) -> bool,
    index: int,
    end: int,
)
    requires
        0 <= index <= end < visits.len(),
        forall|j: int| index < j <= end ==> !keep(#[trigger] visits[j]),
    ensures
        survivor_index(visits, keep, end) == survivor_index(visits, keep, index),
    decreases end,
{
    reveal(Seq::filter);
    if index < end {
        dropped_index_falls_back(visits, keep, index, end - 1);
        assert(visits.take(end + 1).drop_last() =~= visits.take(end));
        assert(visits.take(end + 1).last() == visits[end]);
    }
}

proof fn merged_contains(visits: Seq<VisitView>, visit: VisitView)
    ensures
        merge_neighbours(visits).contains(visit) <==> visits.contains(visit),
    decreases visits.len(),
{
    if visits.len() > 0 {
        let head = visits.drop_last();
        let merged = merge_neighbours(head);
        merged_contains(head, visit);
        let all = merge_neighbours(visits);
        if visits.contains(visit) {
            let i = choose|i: int| 0 <= i < visits.len() && visits[i] == visit;
            if i < head.len() {
                assert(head[i] == visit);
                let j = choose|j: int| 0 <= j < merged.len() && merged[j] == visit;
                assert(all[j] == visit);
            } else {
                assert(all[all.len() - 1] == visit);
            }
        }
        if all.contains(visit) {
            let j = choose|j: int| 0 <= j < all.len() && all[j] == visit;
            if j < merged.len() {
                assert(merged[j] == visit);
                let i = choose|i: int| 0 <= i < head.len() && head[i] == visit;
                assert(visits[i] == visit);
            } else {
                assert(visits[visits.len() - 1] == visit);
            }
        }
    }
}

proof fn survivors_contain(
    visits: Seq<VisitView>,
    keep: spec_fn(VisitView) -> bool,
    visit: VisitView,
)
    ensures
        survivors(visits, keep).contains(visit) <==> visits.contains(visit) && keep(visit),
{
    merged_contains(visits.filter(keep), visit);
    broadcast use vstd::seq_lib::group_filter_ensures;

    if visits.filter(keep).contains(visit) {
        visits.lemma_filter_contains_rev(keep, visit);
    }
}

/// A visit is its endpoint, its boot and its pane, and nothing else.
pub proof fn law_a_visit_is_endpoint_boot_and_pane(a: Visit, b: Visit)
    ensures
        a@ == b@ <==> a.endpoint_id@ == b.endpoint_id@ && a.boot_id@ == b.boot_id@ && a.pane_id@
            == b.pane_id@,
        a@.endpoint == a.endpoint_id@,
        a@.boot == a.boot_id@,
        a@.pane == a.pane_id@,
{
}

/// Pruning moves the cursor and the origin of a traversal along with their visits.
pub proof fn law_pruning_moves_cursor_and_origin_with_their_visits(
    history: HistoryView,
    keep: spec_fn(VisitView) -> bool,
)
    requires
        history.inv(),
        history.visits.len() > 0,
    ensures
        history.pruned(keep).visits == survivors(history.visits, keep),
        history.pruned(keep).cursor == survivor_index(history.visits, keep, history.cursor),
        history.pruned(keep).pending is Some ==> history.pruned(keep).pending->0 == survivor_index(
            history.visits,
            keep,
            history.pending->0,
        ),
{
    pruned_in_full(history, keep);
}

/// A dropped visit counts as the nearest earlier kept one.
pub proof fn law_a_dropped_visit_counts_as_the_nearest_earlier_one(
    visits: Seq<VisitView>,
    keep: spec_fn(VisitView) -> bool,
    i: int,
    dropped: int,
)
    requires
        0 <= i < dropped < visits.len(),
        keep(visits[i]),
        forall|k: int| i < k <= dropped ==> !keep(#[trigger] visits[k]),
    ensures
        survivor_index(visits, keep, dropped) == survivor_index(visits, keep, i),
        survivors(visits, keep)[survivor_index(visits, keep, dropped)] == visits[i],
{
    dropped_index_falls_back(visits, keep, i, dropped);
    kept_visit_survives(visits, keep, i);
}

} // verus!
