//! Counts of queries in slots of ten minutes over the last day, in all and for each client.

use crate::clock;
use crate::database::status::QueryStatus;
use crate::dns::cache::next_count;
use vstd::hash_map::StringHashMap;
use vstd::prelude::*;

verus! {

broadcast use vstd::string::group_string_axioms;

/// How many slots there are in a day.
pub const HISTORY_SLOTS: usize = 144;

/// Seconds in a slot.
pub const SLOT_INTERVAL: i64 = 600;

/// Seconds in a day.
pub const DAY: i64 = 86_400;

/// The counts of one slot. A slot with the timestamp zero is empty.
#[derive(Debug, Clone, Copy, PartialEq, Eq, Structural)]
pub struct TimeSlot {
    pub timestamp: i64,
    pub total: u64,
    pub blocked: u64,
    pub cached: u64,
    pub forwarded: u64,
}

/// A slot without queries.
pub open spec fn empty_slot(timestamp: i64) -> TimeSlot {
    TimeSlot { timestamp, total: 0, blocked: 0, cached: 0, forwarded: 0 }
}

impl Default for TimeSlot {
    /// The empty slot.
    fn default() -> (r: Self)
        ensures
            r == empty_slot(0),
    {
        TimeSlot { timestamp: 0, total: 0, blocked: 0, cached: 0, forwarded: 0 }
    }
}

/// The number of the slot of a time: whole slots since the start of 1970, towards it for times
/// before.
pub open spec fn slot_number(t: i64) -> int {
    if t >= 0 {
        t as int / 600
    } else {
        -((-t) / 600)
    }
}

/// The time at which the slot of a time starts.
pub open spec fn slot_start(t: i64) -> i64 {
    (slot_number(t) * 600) as i64
}

/// The place of the slot of a time in the ring. Numbers below zero are counted from the end of the
/// 64-bit numbers.
pub open spec fn slot_place(t: i64) -> int {
    let n = slot_number(t);
    if n >= 0 {
        n % 144
    } else {
        (0x1_0000_0000_0000_0000 + n) % 144
    }
}

/// A slot after a query of the given status in the slot that starts at `start`.
pub open spec fn recorded(s: TimeSlot, start: i64, status: QueryStatus) -> TimeSlot {
    let base = if s.timestamp != start {
        empty_slot(start)
    } else {
        s
    };
    TimeSlot {
        timestamp: start,
        total: next_count(base.total),
        blocked: if status == QueryStatus::Blocked {
            next_count(base.blocked)
        } else {
            base.blocked
        },
        cached: if status == QueryStatus::Cached {
            next_count(base.cached)
        } else {
            base.cached
        },
        forwarded: if status == QueryStatus::Forwarded {
            next_count(base.forwarded)
        } else {
            base.forwarded
        },
    }
}

/// A ring of slots after a query of the given status at the time `t`.
pub open spec fn ring_recorded(ring: Seq<TimeSlot>, t: i64, status: QueryStatus) -> Seq<TimeSlot> {
    ring.update(slot_place(t), recorded(ring[slot_place(t)], slot_start(t), status))
}

/// A ring of empty slots.
pub open spec fn empty_ring() -> Seq<TimeSlot> {
    Seq::new(144, |i: int| empty_slot(0))
}

/// The slot belongs to the day that ends with the slot that starts at `current`.
pub open spec fn within_day(s: TimeSlot, current: i64) -> bool {
    s.timestamp > 0 && current - s.timestamp <= DAY
}

/// The slots of a ring that belong to the day.
pub open spec fn day_slots(ring: Seq<TimeSlot>, current: i64) -> Seq<TimeSlot> {
    ring.filter(|s: TimeSlot| within_day(s, current))
}

/// The slots stand in the order of time.
pub open spec fn in_order(s: Seq<TimeSlot>) -> bool {
    forall|i: int, j: int| 0 <= i < j < s.len() ==> s[i].timestamp <= s[j].timestamp
}

/// `list` holds the slots of the day, in the order of time.
pub open spec fn is_history(list: Seq<TimeSlot>, ring: Seq<TimeSlot>, current: i64) -> bool {
    &&& in_order(list)
    &&& list.to_multiset() == day_slots(ring, current).to_multiset()
}

/// The slot that is recorded to at a place is one of that place.
pub open spec fn ring_well_formed(ring: Seq<TimeSlot>) -> bool {
    &&& ring.len() == 144
    &&& forall|i: int|
        0 <= i < 144 ==> (#[trigger] ring[i]).timestamp == 0 || (slot_place(ring[i].timestamp) == i
            && slot_start(ring[i].timestamp) == ring[i].timestamp)
}

fn place_of(t: i64) -> (r: usize)
    ensures
        r == slot_place(t),
        r < 144,
{
    if t >= 0 {
        ((t / SLOT_INTERVAL) % 144) as usize
    } else {
        let n: i128 = -((-(t as i128)) / 600);
        if n == 0 {
            0
        } else {
            ((0x1_0000_0000_0000_0000i128 + n) % 144) as usize
        }
    }
}

/// Records a query in a slot.
fn record(s: TimeSlot, start: i64, status: QueryStatus) -> (r: TimeSlot)
    ensures
        r == recorded(s, start, status),
{
    let mut slot: TimeSlot = s;
    if slot.timestamp != start {
        slot = TimeSlot { timestamp: start, total: 0, blocked: 0, cached: 0, forwarded: 0 };
    }
    slot.total = slot.total.wrapping_add(1);
    match status {
        QueryStatus::Blocked => {
            slot.blocked = slot.blocked.wrapping_add(1);
        },
        QueryStatus::Cached => {
            slot.cached = slot.cached.wrapping_add(1);
        },
        QueryStatus::Forwarded => {
            slot.forwarded = slot.forwarded.wrapping_add(1);
        },
        _ => {},
    }
    slot
}

/// A ring of empty slots.
fn new_ring() -> (r: Vec<TimeSlot>)
    ensures
        r@ == empty_ring(),
{
    let mut v: Vec<TimeSlot> = Vec::new();
    let mut i: usize = 0;
    while i < HISTORY_SLOTS
        invariant
            i <= 144,
            v@.len() == i,
            forall|k: int| 0 <= k < i ==> v@[k] == empty_slot(0),
        decreases 144 - i,
    {
        v.push(TimeSlot { timestamp: 0, total: 0, blocked: 0, cached: 0, forwarded: 0 });
        i += 1;
    }
    assert(v@ =~= empty_ring());
    v
}

/// Puts a slot at its place in a list in the order of time.
fn insert_in_order(v: &mut Vec<TimeSlot>, s: TimeSlot)
    requires
        in_order(old(v)@),
    ensures
        in_order(final(v)@),
        final(v)@.to_multiset() == old(v)@.to_multiset().insert(s),
{
    let mut i: usize = v.len();
    while i > 0 && v[i - 1].timestamp > s.timestamp
        invariant
            *v == *old(v),
            i <= v@.len(),
            in_order(v@),
            forall|k: int| i <= k < v@.len() ==> v@[k].timestamp > s.timestamp,
        decreases i,
    {
        i -= 1;
    }
    let ghost before = v@;
    v.insert(i, s);
    proof {
        assert(v@ =~= before.insert(i as int, s));
        assert(v@.remove(i as int) =~= before);
        vstd::seq_lib::to_multiset_remove(v@, i as int);
        broadcast use vstd::seq_lib::group_to_multiset_ensures;

        assert(v@.contains(v@[i as int]));
        assert(before.to_multiset().insert(s) =~= v@.to_multiset());
    }
}

/// The slots of the day that ends with the slot that starts at `current`.
fn history_of(ring: &Vec<TimeSlot>, current: i64) -> (r: Vec<TimeSlot>)
    requires
        current >= 0,
    ensures
        is_history(r@, ring@, current),
{
    let mut out: Vec<TimeSlot> = Vec::new();
    let mut i: usize = 0;
    let ghost f = |s: TimeSlot| within_day(s, current);
    assert(ring@.subrange(0, 0).filter(f) =~= Seq::empty()) by {
        reveal(Seq::filter);
    }
    while i < ring.len()
        invariant
            i <= ring@.len(),
            current >= 0,
            f == |s: TimeSlot| within_day(s, current),
            in_order(out@),
            out@.to_multiset() == ring@.subrange(0, i as int).filter(f).to_multiset(),
        decreases ring@.len() - i,
    {
        let s: TimeSlot = ring[i];
        proof {
            let longer = ring@.subrange(0, i + 1);
            assert(longer.drop_last() =~= ring@.subrange(0, i as int));
            assert(longer.filter(f) == if f(s) {
                ring@.subrange(0, i as int).filter(f).push(s)
            } else {
                ring@.subrange(0, i as int).filter(f)
            }) by {
                reveal(Seq::filter);
            }
            vstd::seq_lib::to_multiset_build(ring@.subrange(0, i as int).filter(f), s);
        }
        if s.timestamp > 0 && current - s.timestamp <= DAY {
            insert_in_order(&mut out, s);
        }
        i += 1;
    }
    assert(ring@.subrange(0, ring@.len() as int) =~= ring@);
    out
}

/// The counts.
pub struct OverTime {
    slots: Vec<TimeSlot>,
    /// Where the ring of a client stands among the rings.
    index: StringHashMap<usize>,
    rings: Vec<Vec<TimeSlot>>,
    total_queries: i64,
}

/// The contents of an `OverTime`.
#[verifier::ext_equal]
pub struct OverTimeView {
    pub ring: Seq<TimeSlot>,
    pub clients: Map<Seq<char>, Seq<TimeSlot>>,
    pub total: i64,
}

impl View for OverTime {
    type V = OverTimeView;

    closed spec fn view(&self) -> OverTimeView {
        OverTimeView {
            ring: self.slots@,
            clients: Map::new(
                |c: Seq<char>| self.index@.contains_key(c),
                |c: Seq<char>| self.rings@[self.index@[c] as int]@,
            ),
            total: self.total_queries,
        }
    }
}

impl OverTimeView {
    /// Every slot stands at its place.
    pub open spec fn well_formed(self) -> bool {
        &&& ring_well_formed(self.ring)
        &&& forall|c: Seq<char>| #[trigger]
            self.clients.contains_key(c) ==> ring_well_formed(self.clients[c])
    }
}

/// A count that starts again at the least number behind the greatest.
pub open spec fn next_total(n: i64) -> i64 {
    if n == i64::MAX {
        i64::MIN
    } else {
        (n + 1) as i64
    }
}

/// The counts after a query.
pub open spec fn query_recorded(
    v: OverTimeView,
    t: i64,
    client: Option<Seq<char>>,
    status: QueryStatus,
) -> OverTimeView {
    OverTimeView {
        ring: ring_recorded(v.ring, t, status),
        clients: match client {
            None => v.clients,
            Some(c) => {
                let ring = if v.clients.contains_key(c) {
                    v.clients[c]
                } else {
                    empty_ring()
                };
                v.clients.insert(c, ring_recorded(ring, t, status))
            },
        },
        total: next_total(v.total),
    }
}

/// The counts at the start.
pub open spec fn no_queries() -> OverTimeView {
    OverTimeView { ring: empty_ring(), clients: Map::empty(), total: 0 }
}

impl OverTime {
    /// The rings stand where the index says, each client's at its own place.
    pub closed spec fn indexed(&self) -> bool {
        &&& forall|c: Seq<char>| #[trigger]
            self.index@.contains_key(c) ==> self.index@[c] < self.rings@.len()
        &&& forall|c: Seq<char>, d: Seq<char>|
            #![trigger self.index@[c], self.index@[d]]
            self.index@.contains_key(c) && self.index@.contains_key(d) && c != d ==> self.index@[c]
                != self.index@[d]
    }

    /// The type's invariant.
    pub open spec fn well_formed(&self) -> bool {
        self.indexed() && self@.well_formed()
    }

    /// Counts without queries.
    pub fn new() -> (r: OverTime)
        ensures
            r@ == no_queries(),
            r.well_formed(),
    {
        let r = OverTime {
            slots: new_ring(),
            index: StringHashMap::new(),
            rings: Vec::new(),
            total_queries: 0,
        };
        assert(r@ =~= no_queries());
        r
    }

    /// The place of the slot of a time in the ring.
    pub fn slot_index(timestamp: i64) -> (r: usize)
        ensures
            r == slot_place(timestamp),
            r < HISTORY_SLOTS,
    {
        place_of(timestamp)
    }

    /// The time at which the slot of a time starts.
    pub fn slot_timestamp(timestamp: i64) -> (r: i64)
        ensures
            r == slot_start(timestamp),
            r == slot_number(timestamp) * 600,
    {
        if timestamp >= 0 {
            (timestamp / SLOT_INTERVAL) * SLOT_INTERVAL
        } else {
            let n: i128 = -((-(timestamp as i128)) / 600);
            (n * 600) as i64
        }
    }

    /// Records a query of the given status at a time, and for the client where one is given.
    pub fn record_query(&mut self, timestamp: i64, client: Option<&str>, status: QueryStatus)
        requires
            old(self).well_formed(),
        ensures
            final(self)@ == query_recorded(
                old(self)@,
                timestamp,
                match client {
                    Some(c) => Some(c@),
                    None => None,
                },
                status,
            ),
            final(self).well_formed(),
    {
        let ghost a = self@;
        let start: i64 = OverTime::slot_timestamp(timestamp);
        let place: usize = OverTime::slot_index(timestamp);
        self.total_queries = self.total_queries.wrapping_add(1);
        let slot: TimeSlot = record(self.slots[place], start, status);
        self.slots.set(place, slot);
        proof {
            lemma_recorded_ring(a.ring, timestamp, status);
        }
        match client {
            None => {
                proof {
                    assert(self@ =~= query_recorded(a, timestamp, None, status));
                }
            },
            Some(c) => {
                let ghost was = *self;
                let at: usize = match self.index.get(c) {
                    Some(i) => *i,
                    None => {
                        let i: usize = self.rings.len();
                        self.index.insert(c.to_owned(), i);
                        self.rings.push(new_ring());
                        i
                    },
                };
                let ghost mid = *self;
                proof {
                    assert(mid@.clients[c@] == if a.clients.contains_key(c@) {
                        a.clients[c@]
                    } else {
                        empty_ring()
                    });
                    lemma_empty_ring();
                    assert(ring_well_formed(self.rings@[at as int]@));
                    lemma_recorded_ring(self.rings@[at as int]@, timestamp, status);
                }
                let slot: TimeSlot = record(self.rings[at][place], start, status);
                let ring: &mut Vec<TimeSlot> = &mut self.rings[at];
                ring.set(place, slot);
                proof {
                    let new_ring_view = self.rings@[at as int]@;
                    let want = query_recorded(a, timestamp, Some(c@), status);
                    assert(new_ring_view == ring_recorded(mid@.clients[c@], timestamp, status));
                    assert forall|d: Seq<char>| #[trigger] self@.clients.contains_key(d) implies self@.clients[d]
                        == want.clients[d] by {
                        if d != c@ {
                            assert(self.index@[d] != self.index@[c@]);
                            assert(a.clients.contains_key(d));
                        }
                    }
                    assert(self@.clients =~= want.clients);
                    assert(self@ =~= want);
                }
            },
        }
    }

    /// The slots of the day that ends at the time `now`, in the order of time.
    pub fn get_history_at(&self, now: i64) -> (r: Vec<TimeSlot>)
        requires
            clock::is_timestamp(now as int),
        ensures
            is_history(r@, self@.ring, slot_start(now)),
    {
        history_of(&self.slots, OverTime::slot_timestamp(now))
    }

    /// The slots of the last day, in the order of time.
    pub fn get_history(&self) -> (r: Vec<TimeSlot>)
        ensures
            exists|now: i64|
                clock::is_timestamp(now as int) && #[trigger] is_history(
                    r@,
                    self@.ring,
                    slot_start(now),
                ),
    {
        let now: i64 = clock::unix_now();
        self.get_history_at(now)
    }

    /// The slots of a client of the day that ends at the time `now`, in the order of time; none
    /// where the client is not known.
    pub fn get_client_history_at(&self, client_ip: &str, now: i64) -> (r: Vec<TimeSlot>)
        requires
            clock::is_timestamp(now as int),
            self.well_formed(),
        ensures
            if self@.clients.contains_key(client_ip@) {
                is_history(r@, self@.clients[client_ip@], slot_start(now))
            } else {
                r@.len() == 0
            },
    {
        match self.index.get(client_ip) {
            Some(i) => history_of(&self.rings[*i], OverTime::slot_timestamp(now)),
            None => Vec::new(),
        }
    }

    /// The slots of a client of the last day, in the order of time; none where the client is not
    /// known.
    pub fn get_client_history(&self, client_ip: &str) -> (r: Vec<TimeSlot>)
        requires
            self.well_formed(),
        ensures
            if self@.clients.contains_key(client_ip@) {
                exists|now: i64|
                    clock::is_timestamp(now as int) && #[trigger] is_history(
                        r@,
                        self@.clients[client_ip@],
                        slot_start(now),
                    )
            } else {
                r@.len() == 0
            },
    {
        let now: i64 = clock::unix_now();
        self.get_client_history_at(client_ip, now)
    }

    /// The time at which the current slot starts.
    pub fn current_slot_timestamp(&self) -> (r: i64)
        ensures
            exists|now: i64| clock::is_timestamp(now as int) && r == #[trigger] slot_start(now),
    {
        let now: i64 = clock::unix_now();
        OverTime::slot_timestamp(now)
    }

    /// How many queries were recorded.
    pub fn total_queries(&self) -> (r: i64)
        ensures
            r == self@.total,
    {
        self.total_queries
    }

    /// Forgets everything.
    pub fn clear(&mut self)
        ensures
            final(self)@ == no_queries(),
            final(self).well_formed(),
    {
        self.slots = new_ring();
        self.index = StringHashMap::new();
        self.rings = Vec::new();
        self.total_queries = 0;
        proof {
            lemma_empty_ring();
            assert(self@ =~= no_queries());
        }
    }
}

impl Default for OverTime {
    /// Counts without queries.
    fn default() -> (r: Self)
        ensures
            r@ == no_queries(),
            r.well_formed(),
    {
        OverTime::new()
    }
}

proof fn lemma_empty_ring()
    ensures
        ring_well_formed(empty_ring()),
{
}

proof fn lemma_slot_start(t: i64)
    ensures
        slot_start(t) == slot_number(t) * 600,
        slot_number(slot_start(t)) == slot_number(t),
        slot_place(slot_start(t)) == slot_place(t),
        slot_start(slot_start(t)) == slot_start(t),
        0 <= slot_place(t) < 144,
{
}

proof fn lemma_recorded_ring(ring: Seq<TimeSlot>, t: i64, status: QueryStatus)
    requires
        ring_well_formed(ring),
    ensures
        ring_well_formed(ring_recorded(ring, t, status)),
{
    lemma_slot_start(t);
    let after = ring_recorded(ring, t, status);
    assert forall|i: int| 0 <= i < 144 implies (#[trigger] after[i]).timestamp == 0 || (slot_place(
        after[i].timestamp,
    ) == i && slot_start(after[i].timestamp) == after[i].timestamp) by {
        if i != slot_place(t) {
            assert(after[i] == ring[i]);
        }
    }
}

/// A query is counted in the slot of its time alone: that slot counts one more than before, or
/// starts anew with one where it held another time.
pub proof fn law_query_is_counted_once(ring: Seq<TimeSlot>, t: i64, status: QueryStatus)
    requires
        ring_well_formed(ring),
    ensures
        ({
            let after = ring_recorded(ring, t, status);
            let place = slot_place(t);
            &&& after.len() == ring.len()
            &&& forall|i: int| 0 <= i < ring.len() && i != place ==> after[i] == #[trigger] ring[i]
            &&& after[place].timestamp == slot_start(t)
            &&& ring[place].timestamp == slot_start(t) && ring[place].total < u64::MAX
                ==> after[place].total == ring[place].total + 1
            &&& ring[place].timestamp != slot_start(t) ==> after[place].total == 1
        }),
{
    lemma_slot_start(t);
}

/// No two slots of a ring that hold queries hold the same time.
pub proof fn law_slots_hold_different_times(ring: Seq<TimeSlot>, i: int, j: int)
    requires
        ring_well_formed(ring),
        0 <= i < 144,
        0 <= j < 144,
        i != j,
        ring[i].timestamp != 0,
    ensures
        ring[i].timestamp != ring[j].timestamp,
{
}

/// A query that is recorded shows in the history of the same time.
pub proof fn law_recorded_query_shows_in_history(
    ring: Seq<TimeSlot>,
    t: i64,
    status: QueryStatus,
    list: Seq<TimeSlot>,
)
    requires
        ring_well_formed(ring),
        t >= 600,
        is_history(list, ring_recorded(ring, t, status), slot_start(t)),
    ensures
        list.contains(recorded(ring[slot_place(t)], slot_start(t), status)),
{
    lemma_slot_start(t);
    let after = ring_recorded(ring, t, status);
    let s = after[slot_place(t)];
    let f = |s: TimeSlot| within_day(s, slot_start(t));
    assert(after.contains(s));
    assert(f(s));
    after.lemma_filter_contains(f, slot_place(t));
    broadcast use vstd::seq_lib::group_to_multiset_ensures;

    assert(day_slots(after, slot_start(t)).to_multiset().count(s) > 0);
}

/// The history of a time holds only slots of the day before it.
pub proof fn law_history_is_of_the_day(list: Seq<TimeSlot>, ring: Seq<TimeSlot>, current: i64, i: int)
    requires
        is_history(list, ring, current),
        0 <= i < list.len(),
    ensures
        within_day(list[i], current),
        ring.contains(list[i]),
{
    let f = |s: TimeSlot| within_day(s, current);
    broadcast use vstd::seq_lib::group_to_multiset_ensures;

    assert(list.contains(list[i]));
    assert(list.to_multiset().count(list[i]) > 0);
    assert(day_slots(ring, current).contains(list[i]));
    ring.lemma_filter_contains_rev(f, list[i]);
}

/// A use of the counts: a query is recorded, or everything is forgotten.
pub enum Use {
    Record(i64, Option<Seq<char>>, QueryStatus),
    Clear,
}

/// The counts after the uses.
pub open spec fn after_uses(uses: Seq<Use>) -> OverTimeView
    decreases uses.len(),
{
    if uses.len() == 0 {
        no_queries()
    } else {
        match uses.last() {
            Use::Record(t, client, status) => query_recorded(
                after_uses(uses.drop_last()),
                t,
                client,
                status,
            ),
            Use::Clear => no_queries(),
        }
    }
}

/// The counts of a slot agree: it counts at most `bound` queries, each at most once by its status,
/// and at least one where it holds a time.
pub open spec fn counts_agree(s: TimeSlot, bound: int) -> bool {
    &&& s.total <= bound
    &&& s.blocked + s.cached + s.forwarded <= s.total
    &&& s.timestamp != 0 ==> s.total >= 1
}

/// Every slot stands at its place, and its counts agree.
pub open spec fn ring_agrees(ring: Seq<TimeSlot>, bound: int) -> bool {
    &&& ring_well_formed(ring)
    &&& forall|i: int| 0 <= i < 144 ==> counts_agree(#[trigger] ring[i], bound)
}

/// One more query leaves the counts in agreement as long as they can be counted.
proof fn lemma_recorded_agrees(ring: Seq<TimeSlot>, t: i64, status: QueryStatus, bound: int)
    requires
        ring_agrees(ring, bound),
        0 <= bound < u64::MAX,
    ensures
        ring_agrees(ring_recorded(ring, t, status), bound + 1),
{
    lemma_slot_start(t);
    lemma_recorded_ring(ring, t, status);
    let after = ring_recorded(ring, t, status);
    assert forall|i: int| 0 <= i < 144 implies counts_agree(#[trigger] after[i], bound + 1) by {
        assert(counts_agree(ring[i], bound));
    }
}

/// However the counts were used, the counts of each slot agree, as long as there were not more
/// queries than can be counted.
pub proof fn law_counts_agree(uses: Seq<Use>)
    requires
        uses.len() <= u64::MAX,
    ensures
        ring_agrees(after_uses(uses).ring, uses.len() as int),
        forall|c: Seq<char>| #[trigger]
            after_uses(uses).clients.contains_key(c) ==> ring_agrees(
                after_uses(uses).clients[c],
                uses.len() as int,
            ),
    decreases uses.len(),
{
    lemma_empty_ring();
    if uses.len() > 0 {
        let before = after_uses(uses.drop_last());
        let bound = uses.len() - 1;
        law_counts_agree(uses.drop_last());
        match uses.last() {
            Use::Record(t, client, status) => {
                lemma_recorded_agrees(before.ring, t, status, bound);
                let after = after_uses(uses);
                assert forall|c: Seq<char>| #[trigger] after.clients.contains_key(
                    c,
                ) implies ring_agrees(after.clients[c], bound + 1) by {
                    if client == Some(c) {
                        let ring = if before.clients.contains_key(c) {
                            before.clients[c]
                        } else {
                            empty_ring()
                        };
                        assert(ring_agrees(ring, bound));
                        lemma_recorded_agrees(ring, t, status, bound);
                    } else {
                        assert(before.clients.contains_key(c));
                        let ring = before.clients[c];
                        assert(ring_agrees(ring, bound));
                        assert forall|i: int| 0 <= i < 144 implies counts_agree(
                            #[trigger] ring[i],
                            bound + 1,
                        ) by {
                            assert(counts_agree(ring[i], bound));
                        }
                    }
                }
            },
            Use::Clear => {},
        }
    }
}

/// The slots of the day among the first `n` of a ring are all different.
proof fn lemma_day_slots_differ(ring: Seq<TimeSlot>, current: i64, n: int)
    requires
        ring_well_formed(ring),
        0 <= n <= 144,
    ensures
        day_slots(ring.subrange(0, n), current).no_duplicates(),
    decreases n,
{
    let f = |s: TimeSlot| within_day(s, current);
    reveal(Seq::filter);
    if n > 0 {
        let shorter = ring.subrange(0, n - 1);
        lemma_day_slots_differ(ring, current, n - 1);
        assert(ring.subrange(0, n).drop_last() =~= shorter);
        let s = ring[n - 1];
        if f(s) && shorter.filter(f).contains(s) {
            shorter.lemma_filter_contains_rev(f, s);
            let i = choose|i: int| 0 <= i < shorter.len() && shorter[i] == s;
            assert(ring[i] == s);
            law_slots_hold_different_times(ring, n - 1, i);
        }
        assert(ring.subrange(0, n).last() == s);
        if f(s) {
            let whole = shorter.filter(f).push(s);
            assert(day_slots(ring.subrange(0, n), current) == whole);
            assert forall|i: int, j: int|
                0 <= i < whole.len() && 0 <= j < whole.len() && i != j implies whole[i]
                != whole[j] by {
                if i == whole.len() - 1 {
                    assert(shorter.filter(f).contains(shorter.filter(f)[j]));
                } else if j == whole.len() - 1 {
                    assert(shorter.filter(f).contains(shorter.filter(f)[i]));
                }
            }
        }
    }
}

/// The history of a ring has at most one entry for each slot of the day, in ascending order, and
/// no time twice.
proof fn lemma_history_ascends(list: Seq<TimeSlot>, ring: Seq<TimeSlot>, current: i64)
    requires
        ring_well_formed(ring),
        is_history(list, ring, current),
    ensures
        list.len() <= 144,
        forall|i: int, j: int| 0 <= i < j < list.len() ==> list[i].timestamp < list[j].timestamp,
{
    let f = |s: TimeSlot| within_day(s, current);
    let day = day_slots(ring, current);
    lemma_day_slots_differ(ring, current, 144);
    assert(ring.subrange(0, 144) =~= ring);
    ring.lemma_filter_len(f);
    vstd::seq_lib::to_multiset_len(list);
    vstd::seq_lib::to_multiset_len(day);
    day.lemma_multiset_has_no_duplicates();
    list.lemma_multiset_has_no_duplicates_conv();
    assert forall|i: int, j: int| 0 <= i < j < list.len() implies list[i].timestamp
        < list[j].timestamp by {
        law_history_is_of_the_day(list, ring, current, i);
        law_history_is_of_the_day(list, ring, current, j);
        let a = choose|a: int| 0 <= a < ring.len() && ring[a] == list[i];
        let b = choose|b: int| 0 <= b < ring.len() && ring[b] == list[j];
        if a != b {
            law_slots_hold_different_times(ring, a, b);
        }
    }
}

/// The entries of a history stand in ascending order, at most one for each slot of a day, each at
/// the start of a slot of the day that ends with the slot that starts at `current`, and their counts
/// agree.
pub open spec fn is_sound_history(list: Seq<TimeSlot>, current: i64) -> bool {
    &&& list.len() <= 144
    &&& forall|i: int, j: int| 0 <= i < j < list.len() ==> list[i].timestamp < list[j].timestamp
    &&& forall|i: int|
        0 <= i < list.len() ==> {
            let s = #[trigger] list[i];
            &&& s.timestamp > 0
            &&& s.timestamp % 600 == 0
            &&& current - s.timestamp <= DAY
            &&& s.total >= 1
            &&& s.blocked + s.cached + s.forwarded <= s.total
        }
}

proof fn lemma_sound_history(list: Seq<TimeSlot>, ring: Seq<TimeSlot>, current: i64, bound: int)
    requires
        ring_agrees(ring, bound),
        is_history(list, ring, current),
    ensures
        is_sound_history(list, current),
{
    lemma_history_ascends(list, ring, current);
    assert forall|i: int| 0 <= i < list.len() implies {
        let s = #[trigger] list[i];
        &&& s.timestamp > 0
        &&& s.timestamp % 600 == 0
        &&& current - s.timestamp <= DAY
        &&& s.total >= 1
        &&& s.blocked + s.cached + s.forwarded <= s.total
    } by {
        law_history_is_of_the_day(list, ring, current, i);
        let a = choose|a: int| 0 <= a < ring.len() && ring[a] == list[i];
        assert(counts_agree(ring[a], bound));
        lemma_slot_start(ring[a].timestamp);
    }
}

/// However the counts were used, every history that they give, in all or of a client, is sound.
pub proof fn law_histories_are_sound(uses: Seq<Use>, list: Seq<TimeSlot>, now: i64)
    requires
        uses.len() <= u64::MAX,
        is_history(list, after_uses(uses).ring, slot_start(now)) || exists|c: Seq<char>|
            #![trigger after_uses(uses).clients.contains_key(c)]
            after_uses(uses).clients.contains_key(c) && is_history(
                list,
                after_uses(uses).clients[c],
                slot_start(now),
            ),
    ensures
        is_sound_history(list, slot_start(now)),
{
    let v = after_uses(uses);
    law_counts_agree(uses);
    if is_history(list, v.ring, slot_start(now)) {
        lemma_sound_history(list, v.ring, slot_start(now), uses.len() as int);
    } else {
        let c = choose|c: Seq<char>|
            #![trigger after_uses(uses).clients.contains_key(c)]
            v.clients.contains_key(c) && is_history(list, v.clients[c], slot_start(now));
        lemma_sound_history(list, v.clients[c], slot_start(now), uses.len() as int);
    }
}

/// Where nothing was recorded since everything was forgotten, there is no history, and no query was
/// counted.
pub proof fn law_cleared_counts_are_empty(uses: Seq<Use>, list: Seq<TimeSlot>, now: i64)
    requires
        is_history(list, after_uses(uses.push(Use::Clear)).ring, slot_start(now)),
    ensures
        list.len() == 0,
        after_uses(uses.push(Use::Clear)).total == 0,
        after_uses(uses.push(Use::Clear)).clients == Map::<Seq<char>, Seq<TimeSlot>>::empty(),
{
    assert(after_uses(uses.push(Use::Clear)) == no_queries());
    if list.len() > 0 {
        law_history_is_of_the_day(list, empty_ring(), slot_start(now), 0);
    }
}


/// The history is complete: every slot of the ring that holds a time and started at most 86400
/// seconds before the current slot is in it, and nothing else.
pub proof fn law_history_covers_the_day(
    list: Seq<TimeSlot>,
    ring: Seq<TimeSlot>,
    current: i64,
    s: TimeSlot,
)
    requires
        is_history(list, ring, current),
    ensures
        list.contains(s) <==> ring.contains(s) && s.timestamp > 0 && current - s.timestamp <= 86_400,
{
    let f = |s: TimeSlot| within_day(s, current);
    broadcast use vstd::seq_lib::group_to_multiset_ensures;

    if list.contains(s) {
        let i = choose|i: int| 0 <= i < list.len() && list[i] == s;
        law_history_is_of_the_day(list, ring, current, i);
    }
    if ring.contains(s) && s.timestamp > 0 && current - s.timestamp <= 86_400 {
        let i = choose|i: int| 0 <= i < ring.len() && ring[i] == s;
        ring.lemma_filter_contains(f, i);
        assert(day_slots(ring, current).to_multiset().count(s) > 0);
        assert(list.to_multiset().count(s) > 0);
    }
}

/// A slot is ten minutes long and starts at a multiple of ten minutes.
pub proof fn law_slots_last_ten_minutes(t: i64)
    requires
        t >= 0,
    ensures
        slot_start(t) % 600 == 0,
        slot_start(t) <= t < slot_start(t) + 600,
{
}

/// Two times share a place in the ring exactly where their slots are whole days apart: the ring goes
/// round in 24 hours.
pub proof fn law_ring_goes_round_in_a_day(t: i64, u: i64)
    requires
        t >= 0,
        u >= 0,
    ensures
        slot_place(t) == slot_place(u) <==> (t as int / 600 - u as int / 600) % 144 == 0,
        0 <= slot_place(t) < 144,
{
    let (a, b) = (t as int / 600, u as int / 600);
    assert(a % 144 == b % 144 <==> (a - b) % 144 == 0) by (nonlinear_arith);
}

/// A query counts in the slot of its own ten minutes: the slot counts one query more than before, and
/// one more of its status where that is blocked, cached or forwarded; every other count of the slot
/// stays. A slot that held another time starts with just this query. All other slots stay.
pub proof fn law_query_counts_by_its_status(ring: Seq<TimeSlot>, t: i64, status: QueryStatus)
    requires
        ring.len() == 144,
        t >= 0,
        forall|i: int|
            0 <= i < 144 ==> (#[trigger] ring[i]).total < u64::MAX && ring[i].blocked < u64::MAX
                && ring[i].cached < u64::MAX && ring[i].forwarded < u64::MAX,
    ensures
        ({
            let i = (t as int / 600) % 144;
            let start = t - t % 600;
            let (old_slot, new_slot) = (ring[i], ring_recorded(ring, t, status)[i]);
            let same = old_slot.timestamp == start;
            let one = |yes: bool|
                if yes {
                    1int
                } else {
                    0
                };
            let kept = |n: u64|
                if same {
                    n as int
                } else {
                    0
                };
            &&& new_slot.timestamp == start
            &&& new_slot.total == kept(old_slot.total) + 1
            &&& new_slot.blocked == kept(old_slot.blocked) + one(status == QueryStatus::Blocked)
            &&& new_slot.cached == kept(old_slot.cached) + one(status == QueryStatus::Cached)
            &&& new_slot.forwarded == kept(old_slot.forwarded) + one(
                status == QueryStatus::Forwarded,
            )
            &&& ring_recorded(ring, t, status).len() == 144
            &&& forall|j: int|
                0 <= j < 144 && j != i ==> #[trigger] ring_recorded(ring, t, status)[j] == ring[j]
        }),
{
    let i = slot_place(t);
    assert(ring[i].total < u64::MAX);
}

/// A query shows for a whole day: in the history of every time from the query to 86399 seconds later
/// there is the slot of the query, with the query counted in it, as long as the slot is not used for
/// another day.
pub proof fn law_query_shows_for_a_day(
    ring: Seq<TimeSlot>,
    t: i64,
    status: QueryStatus,
    now: i64,
    list: Seq<TimeSlot>,
)
    requires
        ring.len() == 144,
        600 <= t <= now,
        now - t < 86_400,
        forall|i: int| 0 <= i < 144 ==> (#[trigger] ring[i]).total < u64::MAX,
        is_history(list, ring_recorded(ring, t, status), slot_start(now)),
    ensures
        exists|k: int|
            0 <= k < list.len() && (#[trigger] list[k]).timestamp == t - t % 600 && list[k].total >= 1,
{
    let after = ring_recorded(ring, t, status);
    let i = slot_place(t);
    let s = after[i];
    assert(ring[i].total < u64::MAX);
    assert(after.contains(s));
    assert(s.timestamp == t - t % 600);
    assert(slot_start(now) == now - now % 600);
    assert((now - now % 600) - (t - t % 600) <= 86_400);
    law_history_covers_the_day(list, after, slot_start(now), s);
    let k = choose|k: int| 0 <= k < list.len() && list[k] == s;
    assert(list[k].timestamp == t - t % 600);
}

/// A query counts once in all and, where its client is known, once for that client, in the same slot
/// and by the same status. The counts of other clients stay.
pub proof fn law_query_counts_for_its_client(
    v: OverTimeView,
    t: i64,
    client: Option<Seq<char>>,
    status: QueryStatus,
    other: Seq<char>,
)
    requires
        v.total < i64::MAX,
    ensures
        ({
            let w = query_recorded(v, t, client, status);
            &&& w.total == v.total + 1
            &&& w.ring == ring_recorded(v.ring, t, status)
            &&& client is Some ==> w.clients.contains_key(client->0) && w.clients[client->0]
                == ring_recorded(
                if v.clients.contains_key(client->0) {
                    v.clients[client->0]
                } else {
                    Seq::new(
                        144,
                        |i: int|
                            TimeSlot { timestamp: 0, total: 0, blocked: 0, cached: 0, forwarded: 0 },
                    )
                },
                t,
                status,
            )
            &&& client != Some(other) ==> w.clients.contains_key(other) == v.clients.contains_key(
                other,
            ) && (v.clients.contains_key(other) ==> w.clients[other] == v.clients[other])
        }),
{
    assert(empty_ring() =~= Seq::new(
        144,
        |i: int| TimeSlot { timestamp: 0, total: 0, blocked: 0, cached: 0, forwarded: 0 },
    ));
}

} // verus!
