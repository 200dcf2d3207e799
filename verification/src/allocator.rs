//! Assignment of visible satellites to a fixed set of demodulation channels.
use vstd::prelude::*;
use crate::text::{contains_seq, str_contains, str_equal};

verus! {

/// What one channel slot holds: the name of the satellite it serves, if any.
pub type SlotView = Option<Seq<char>>;

pub open spec fn slot_of(o: Option<String>) -> SlotView {
    match o {
        Some(s) => Some(s@),
        None => None,
    }
}

/// The characters of an optional TLE text.
pub open spec fn tle_view(tle: Option<&str>) -> Option<Seq<char>> {
    match tle {
        Some(t) => Some(t@),
        None => None,
    }
}

/// No satellite name occupies two slots.
pub open spec fn names_distinct(slots: Seq<SlotView>) -> bool {
    forall|i: int, j: int|
        0 <= i < slots.len() && 0 <= j < slots.len() && i != j && #[trigger] slots[i] is Some
            && #[trigger] slots[j] is Some ==> slots[i] != slots[j]
}

/// Slot `i` serves `name`.
pub open spec fn serves(slots: Seq<SlotView>, i: int, name: Seq<char>) -> bool {
    0 <= i < slots.len() && slots[i] == Some(name)
}

/// `name` holds some slot.
pub open spec fn is_active(slots: Seq<SlotView>, name: Seq<char>) -> bool {
    exists|i: int| serves(slots, i, name)
}

/// `i` is the lowest-numbered free slot.
pub open spec fn is_first_free(slots: Seq<SlotView>, i: int) -> bool {
    &&& 0 <= i < slots.len()
    &&& slots[i] is None
    &&& forall|j: int| 0 <= j < i ==> #[trigger] slots[j] is Some
}

/// Some slot is free.
pub open spec fn has_free(slots: Seq<SlotView>) -> bool {
    exists|i: int| 0 <= i < slots.len() && #[trigger] slots[i] is None
}

/// The number of occupied slots.
pub open spec fn occupied_count(slots: Seq<SlotView>) -> nat
    decreases slots.len(),
{
    if slots.len() == 0 {
        0
    } else {
        occupied_count(slots.drop_last()) + if slots.last() is Some {
            1nat
        } else {
            0nat
        }
    }
}

/// A TLE text that the allocator refuses: empty, or marked corrupt or invalid.
pub open spec fn tle_rejected(tle: Seq<char>) -> bool {
    ||| tle.len() == 0
    ||| contains_seq(tle, "corrupt"@)
    ||| contains_seq(tle, "invalid"@)
}

/// Whether an acquisition-of-signal request for `name` succeeds on `slots`.
pub open spec fn aos_accepted(slots: Seq<SlotView>, name: Seq<char>, tle: Option<Seq<char>>) -> bool {
    &&& !(tle matches Some(t) && tle_rejected(t))
    &&& (is_active(slots, name) || has_free(slots))
}

/// Slots after an acquisition-of-signal request: a new satellite takes the
/// lowest free slot; everything else leaves the slots as they were.
pub open spec fn aos_slots(slots: Seq<SlotView>, name: Seq<char>, tle: Option<Seq<char>>) -> Seq<SlotView> {
    if aos_accepted(slots, name, tle) && !is_active(slots, name) {
        let i = choose|i: int| is_first_free(slots, i);
        slots.update(i, Some(name))
    } else {
        slots
    }
}

/// Slots after a loss-of-signal for `name`: its slot, if any, becomes free.
pub open spec fn los_slots(slots: Seq<SlotView>, name: Seq<char>) -> Seq<SlotView> {
    if is_active(slots, name) {
        let i = choose|i: int| serves(slots, i, name);
        slots.update(i, None)
    } else {
        slots
    }
}

pub proof fn lemma_first_free_unique(slots: Seq<SlotView>, i: int, j: int)
    requires
        is_first_free(slots, i),
        is_first_free(slots, j),
    ensures
        i == j,
{
    if i < j {
        assert(slots[i] is Some);
    }
    if j < i {
        assert(slots[j] is Some);
    }
}

pub proof fn lemma_first_free_exists(slots: Seq<SlotView>)
    requires
        has_free(slots),
    ensures
        exists|i: int| is_first_free(slots, i),
    decreases slots.len(),
{
    let k = choose|k: int| 0 <= k < slots.len() && #[trigger] slots[k] is None;
    if slots[0] is None {
        assert(is_first_free(slots, 0));
    } else {
        let rest = slots.drop_first();
        assert(rest[k - 1] is None);
        lemma_first_free_exists(rest);
        let i = choose|i: int| is_first_free(rest, i);
        assert forall|j: int| 0 <= j < i + 1 implies #[trigger] slots[j] is Some by {
            if j > 0 {
                assert(slots[j] == rest[j - 1]);
            }
        }
        assert(is_first_free(slots, i + 1));
    }
}

pub proof fn lemma_insert_keeps_distinct(slots: Seq<SlotView>, i: int, name: Seq<char>)
    requires
        names_distinct(slots),
        !is_active(slots, name),
        0 <= i < slots.len(),
    ensures
        names_distinct(slots.update(i, Some(name))),
{
    let s2 = slots.update(i, Some(name));
    assert forall|a: int, b: int|
        0 <= a < s2.len() && 0 <= b < s2.len() && a != b && #[trigger] s2[a] is Some
            && #[trigger] s2[b] is Some implies s2[a] != s2[b] by {
        if a == i {
            assert(!serves(slots, b, name));
        } else if b == i {
            assert(!serves(slots, a, name));
        } else {
            assert(slots[a] is Some && slots[b] is Some);
        }
    }
}

pub proof fn lemma_remove_keeps_distinct(slots: Seq<SlotView>, i: int)
    requires
        names_distinct(slots),
        0 <= i < slots.len(),
    ensures
        names_distinct(slots.update(i, None)),
{
    let s2 = slots.update(i, None);
    assert forall|a: int, b: int|
        0 <= a < s2.len() && 0 <= b < s2.len() && a != b && #[trigger] s2[a] is Some
            && #[trigger] s2[b] is Some implies s2[a] != s2[b] by {
        assert(slots[a] is Some && slots[b] is Some);
    }
}

pub proof fn lemma_serving_slot_unique(slots: Seq<SlotView>, i: int, j: int, name: Seq<char>)
    requires
        names_distinct(slots),
        serves(slots, i, name),
        serves(slots, j, name),
    ensures
        i == j,
{
    if i != j {
        assert(slots[i] is Some && slots[j] is Some);
    }
}

pub proof fn lemma_occupied_bound(slots: Seq<SlotView>)
    ensures
        occupied_count(slots) <= slots.len(),
    decreases slots.len(),
{
    if slots.len() > 0 {
        lemma_occupied_bound(slots.drop_last());
    }
}

/// A satellite that holds a channel after an accepted acquisition request.
pub proof fn law_aos_assigns_channel(slots: Seq<SlotView>, name: Seq<char>, tle: Option<Seq<char>>)
    requires
        aos_accepted(slots, name, tle),
    ensures
        is_active(aos_slots(slots, name, tle), name),
{
    if !is_active(slots, name) {
        lemma_first_free_exists(slots);
        let i = choose|i: int| is_first_free(slots, i);
        assert(serves(aos_slots(slots, name, tle), i, name));
    }
}

/// Acquisition and loss of signal never give one satellite two channels.
pub proof fn law_requests_keep_names_distinct(
    slots: Seq<SlotView>,
    name: Seq<char>,
    tle: Option<Seq<char>>,
)
    requires
        names_distinct(slots),
    ensures
        names_distinct(aos_slots(slots, name, tle)),
        names_distinct(los_slots(slots, name)),
        aos_slots(slots, name, tle).len() == slots.len(),
        los_slots(slots, name).len() == slots.len(),
{
    if aos_accepted(slots, name, tle) && !is_active(slots, name) {
        lemma_first_free_exists(slots);
        let i = choose|i: int| is_first_free(slots, i);
        lemma_insert_keeps_distinct(slots, i, name);
    }
    if is_active(slots, name) {
        let i = choose|i: int| serves(slots, i, name);
        lemma_remove_keeps_distinct(slots, i);
    }
}

/// Repeating an acquisition request changes nothing and gets the same answer.
pub proof fn law_aos_idempotent(slots: Seq<SlotView>, name: Seq<char>, tle: Option<Seq<char>>)
    requires
        names_distinct(slots),
    ensures
        aos_slots(aos_slots(slots, name, tle), name, tle) == aos_slots(slots, name, tle),
        aos_accepted(aos_slots(slots, name, tle), name, tle) == aos_accepted(slots, name, tle),
{
    if aos_accepted(slots, name, tle) {
        law_aos_assigns_channel(slots, name, tle);
    }
}

/// Loss of signal frees the satellite's channel.
pub proof fn law_los_frees_channel(slots: Seq<SlotView>, name: Seq<char>)
    requires
        names_distinct(slots),
    ensures
        !is_active(los_slots(slots, name), name),
{
    if is_active(slots, name) {
        let i = choose|i: int| serves(slots, i, name);
        let after = los_slots(slots, name);
        assert forall|j: int| !serves(after, j, name) by {
            if serves(after, j, name) {
                assert(j != i);
                assert(serves(slots, j, name));
                lemma_serving_slot_unique(slots, i, j, name);
            }
        }
    }
}

/// Acquisition of a new satellite followed by its loss of signal leaves the
/// channels as they were.
pub proof fn law_aos_then_los_restores(slots: Seq<SlotView>, name: Seq<char>, tle: Option<Seq<char>>)
    requires
        names_distinct(slots),
        !is_active(slots, name),
    ensures
        los_slots(aos_slots(slots, name, tle), name) == slots,
{
    if aos_accepted(slots, name, tle) {
        lemma_first_free_exists(slots);
        let i = choose|i: int| is_first_free(slots, i);
        let after = aos_slots(slots, name, tle);
        assert(serves(after, i, name));
        lemma_insert_keeps_distinct(slots, i, name);
        let k = choose|k: int| serves(after, k, name);
        lemma_serving_slot_unique(after, i, k, name);
        assert(after.update(i, None) =~= slots);
    }
}

/// No more satellites hold channels than there are channels.
pub proof fn law_active_count_bounded(slots: Seq<SlotView>)
    ensures
        occupied_count(slots) <= slots.len(),
{
    lemma_occupied_bound(slots);
}

/// Assigns satellites to at most `max_channels` channel slots; slot `i`
/// holds the name of the satellite that channel `i` tracks.
pub struct ChannelAllocator {
    max_channels: usize,
    channels: Vec<Option<String>>,
}

impl ChannelAllocator {
    /// The slots, each as the name of the satellite it serves.
    pub closed spec fn slots(&self) -> Seq<SlotView> {
        self.channels@.map_values(|o: Option<String>| slot_of(o))
    }

    /// The number of channels the allocator was made with.
    pub closed spec fn capacity(&self) -> nat {
        self.max_channels as nat
    }

    /// The slots number `capacity` and no satellite holds two of them.
    pub closed spec fn well_formed(&self) -> bool {
        &&& self.channels@.len() == self.max_channels
        &&& names_distinct(self.slots())
    }

    /// A well-formed allocator has one slot per channel, and no satellite
    /// holds two of them.
    pub proof fn lemma_well_formed_slots(&self)
        requires
            self.well_formed(),
        ensures
            self.slots().len() == self.capacity(),
            names_distinct(self.slots()),
    {
    }

    /// An allocator with `max_channels` free slots.
    pub fn new(max_channels: usize) -> (r: Self)
        ensures
            r.well_formed(),
            r.capacity() == max_channels,
            r.slots() == Seq::new(max_channels as nat, |i: int| None::<Seq<char>>),
    {
        let mut channels: Vec<Option<String>> = Vec::new();
        let mut k: usize = 0;
        while k < max_channels
            invariant
                k <= max_channels,
                channels@.len() == k,
                forall|j: int| 0 <= j < k ==> channels@[j] is None,
            decreases max_channels - k,
        {
            channels.push(None);
            k = k + 1;
        }
        let r = ChannelAllocator { max_channels, channels };
        assert(r.slots() =~= Seq::new(max_channels as nat, |i: int| None::<Seq<char>>));
        r
    }

    /// The number of channels this allocator manages.
    pub fn max_channels(&self) -> (r: usize)
        ensures
            r == self.capacity(),
    {
        self.max_channels
    }

    /// The slot that serves `sat_name`, if any.
    pub fn channel_of(&self, sat_name: &str) -> (r: Option<usize>)
        ensures
            match r {
                Some(i) => serves(self.slots(), i as int, sat_name@),
                None => !is_active(self.slots(), sat_name@),
            },
    {
        let mut i: usize = 0;
        while i < self.channels.len()
            invariant
                i <= self.channels@.len(),
                forall|j: int| 0 <= j < i ==> !serves(self.slots(), j, sat_name@),
            decreases self.channels.len() - i,
        {
            assert(self.slots()[i as int] == slot_of(self.channels@[i as int]));
            match &self.channels[i] {
                Some(s) => {
                    if str_equal(s.as_str(), sat_name) {
                        return Some(i);
                    }
                },
                None => {},
            }
            i = i + 1;
        }
        None
    }

    /// The name of the satellite that channel `index` serves, if any.
    pub fn channel_sat(&self, index: usize) -> (r: Option<String>)
        requires
            self.well_formed(),
        ensures
            index < self.capacity() ==> slot_of(r) == self.slots()[index as int],
            index >= self.capacity() ==> r is None,
    {
        if index < self.channels.len() {
            match &self.channels[index] {
                Some(s) => Some(s.clone()),
                None => None,
            }
        } else {
            None
        }
    }

    /// Acquisition of signal: gives `sat_name` a channel. Refused when a TLE
    /// text is supplied that is empty or contains "corrupt" or "invalid".
    /// A satellite that already holds a channel keeps it; a new one takes the
    /// lowest free channel. Returns whether the satellite holds a channel.
    pub fn handle_aos(&mut self, sat_name: &str, tle_data: Option<&str>) -> (r: bool)
        requires
            old(self).well_formed(),
        ensures
            final(self).well_formed(),
            r == aos_accepted(old(self).slots(), sat_name@, tle_view(tle_data)),
            final(self).slots() == aos_slots(old(self).slots(), sat_name@, tle_view(tle_data)),
            final(self).capacity() == old(self).capacity(),
    {
        match tle_data {
            Some(tle) => {
                if str_contains(tle, "corrupt") || str_contains(tle, "invalid") || tle.is_empty() {
                    proof {
                        reveal_strlit("corrupt");
                        reveal_strlit("invalid");
                    }
                    return false;
                }
                proof {
                    reveal_strlit("corrupt");
                    reveal_strlit("invalid");
                }
            },
            None => {},
        }
        assert(!(tle_view(tle_data) matches Some(t) && tle_rejected(t)));
        if self.channel_of(sat_name).is_some() {
            return true;
        }
        let ghost start = self.slots();
        let mut i: usize = 0;
        while i < self.channels.len()
            invariant
                i <= self.channels@.len(),
                self.well_formed(),
                self.slots() == start,
                start == old(self).slots(),
                !is_active(start, sat_name@),
                !(tle_view(tle_data) matches Some(t) && tle_rejected(t)),
                self.max_channels == old(self).max_channels,
                forall|j: int| 0 <= j < i ==> #[trigger] self.slots()[j] is Some,
            decreases self.channels.len() - i,
        {
            assert(self.slots()[i as int] == slot_of(self.channels@[i as int]));
            if self.channels[i].is_none() {
                proof {
                    assert(is_first_free(self.slots(), i as int));
                    let c = choose|c: int| is_first_free(self.slots(), c);
                    lemma_first_free_unique(self.slots(), i as int, c);
                    assert(has_free(self.slots()));
                }
                let ghost before = self.slots();
                let name = sat_name.to_owned();
                self.channels.set(i, Some(name));
                assert(self.slots() =~= before.update(i as int, Some(sat_name@)));
                proof {
                    lemma_insert_keeps_distinct(before, i as int, sat_name@);
                }
                return true;
            }
            i = i + 1;
        }
        assert(!has_free(self.slots()));
        false
    }

    /// Loss of signal: frees the channel that serves `sat_name`, if any.
    pub fn handle_los(&mut self, sat_name: &str)
        requires
            old(self).well_formed(),
        ensures
            final(self).well_formed(),
            final(self).slots() == los_slots(old(self).slots(), sat_name@),
            final(self).capacity() == old(self).capacity(),
    {
        match self.channel_of(sat_name) {
            Some(i) => {
                proof {
                    let c = choose|c: int| serves(self.slots(), c, sat_name@);
                    lemma_serving_slot_unique(self.slots(), i as int, c, sat_name@);
                }
                let ghost before = self.slots();
                self.channels.set(i, None);
                assert(self.slots() =~= before.update(i as int, None));
                proof {
                    lemma_remove_keeps_distinct(before, i as int);
                }
            },
            None => {},
        }
    }

    /// The number of satellites that hold a channel.
    pub fn active_count(&self) -> (r: usize)
        ensures
            r == occupied_count(self.slots()),
    {
        let mut count: usize = 0;
        let mut i: usize = 0;
        while i < self.channels.len()
            invariant
                i <= self.channels@.len(),
                count == occupied_count(self.slots().take(i as int)),
                count <= i,
            decreases self.channels.len() - i,
        {
            proof {
                assert(self.slots().take(i + 1).drop_last() =~= self.slots().take(i as int));
            }
            if self.channels[i].is_some() {
                count = count + 1;
            }
            i = i + 1;
        }
        assert(self.slots().take(i as int) =~= self.slots());
        count
    }
}

/// A command that the allocation step sends to the demodulation channels.
#[derive(Clone, Copy, Debug, PartialEq, Eq)]
pub enum AllocationCommand {
    /// Channel `channel_index` keeps its satellite, now at `visible_index`
    /// in the list of visible satellites: update its target frequency.
    UpdateTarget { channel_index: usize, visible_index: usize },
    /// Channel `channel_index` lost its satellite: release it.
    Deallocate { channel_index: usize },
    /// Channel `channel_index` starts tracking visible satellite
    /// `visible_index`, whose elements are entry `catalog_index` of the catalog.
    Allocate { channel_index: usize, visible_index: usize, catalog_index: usize },
}

/// `i` is the first position of `name` in `names`.
pub open spec fn is_first_index(names: Seq<Seq<char>>, name: Seq<char>, i: int) -> bool {
    0 <= i < names.len() && names[i] == name && forall|j: int| 0 <= j < i ==> names[j] != name
}

/// The first position of `name` in `names`, if it is there.
pub open spec fn first_index_of(names: Seq<Seq<char>>, name: Seq<char>) -> Option<int> {
    if exists|i: int| 0 <= i < names.len() && names[i] == name {
        Some(choose|i: int| is_first_index(names, name, i))
    } else {
        None
    }
}

/// Slots, the commands issued so far, and the satellites already handled.
pub type PlanState = (Seq<SlotView>, Seq<AllocationCommand>, Set<Seq<char>>);

/// The first phase over channels `0..ch`: a channel whose satellite is still
/// visible gets an update; one whose satellite is gone is released.
pub open spec fn plan_release(st: PlanState, visible: Seq<Seq<char>>, ch: nat) -> PlanState
    decreases ch,
{
    if ch == 0 {
        st
    } else {
        let prev = plan_release(st, visible, (ch - 1) as nat);
        if ch - 1 < prev.0.len() {
            match prev.0[ch - 1] {
                Some(n) => match first_index_of(visible, n) {
                    Some(v) => (
                        prev.0,
                        prev.1.push(
                            AllocationCommand::UpdateTarget {
                                channel_index: (ch - 1) as usize,
                                visible_index: v as usize,
                            },
                        ),
                        prev.2.insert(n),
                    ),
                    None => (
                        los_slots(prev.0, n),
                        prev.1.push(AllocationCommand::Deallocate { channel_index: (ch - 1) as usize }),
                        prev.2,
                    ),
                },
                None => prev,
            }
        } else {
            prev
        }
    }
}

/// The second phase over the first `k` visible satellites in range order:
/// a satellite not yet handled that the catalog holds gets a channel, when
/// one is free.
pub open spec fn plan_assign(
    st: PlanState,
    visible: Seq<Seq<char>>,
    order: Seq<usize>,
    catalog: Seq<Seq<char>>,
    k: nat,
) -> PlanState
    decreases k,
{
    if k == 0 {
        st
    } else {
        let prev = plan_assign(st, visible, order, catalog, (k - 1) as nat);
        let v = order[k - 1] as int;
        let n = visible[v];
        if prev.2.contains(n) {
            prev
        } else {
            match first_index_of(catalog, n) {
                Some(c) => if aos_accepted(prev.0, n, None) {
                    let s2 = aos_slots(prev.0, n, None);
                    let ch = choose|ch: int| serves(s2, ch, n);
                    (
                        s2,
                        prev.1.push(
                            AllocationCommand::Allocate {
                                channel_index: ch as usize,
                                visible_index: v as usize,
                                catalog_index: c as usize,
                            },
                        ),
                        prev.2.insert(n),
                    )
                } else {
                    prev
                },
                None => prev,
            }
        }
    }
}

/// One allocation step: channels first, then newly visible satellites.
pub open spec fn allocation_plan(
    slots: Seq<SlotView>,
    visible: Seq<Seq<char>>,
    order: Seq<usize>,
    catalog: Seq<Seq<char>>,
) -> PlanState {
    plan_assign(
        plan_release((slots, seq![], Set::empty()), visible, slots.len()),
        visible,
        order,
        catalog,
        order.len(),
    )
}

/// The names of a list of strings.
pub open spec fn names_view(v: Seq<String>) -> Seq<Seq<char>> {
    v.map_values(|s: String| s@)
}

/// The first position of `name` in `names`.
fn find_name(names: &Vec<String>, name: &str) -> (r: Option<usize>)
    ensures
        match r {
            Some(i) => first_index_of(names_view(names@), name@) == Some(i as int),
            None => first_index_of(names_view(names@), name@) is None,
        },
{
    let ghost nv = names_view(names@);
    let mut i: usize = 0;
    while i < names.len()
        invariant
            i <= names@.len(),
            nv == names_view(names@),
            forall|j: int| 0 <= j < i ==> nv[j] != name@,
        decreases names.len() - i,
    {
        if str_equal(names[i].as_str(), name) {
            proof {
                assert(is_first_index(nv, name@, i as int));
                let c = choose|c: int| is_first_index(nv, name@, c);
                if c < i {
                    assert(nv[c] != name@);
                }
                if i < c {
                    assert(nv[i as int] != name@);
                }
            }
            return Some(i);
        }
        i = i + 1;
    }
    None
}

impl ChannelAllocator {
    /// One allocation step. First each occupied channel, in order: if its
    /// satellite is among `visible`, it gets an update naming the first such
    /// entry; otherwise it is released. Then the satellites in `visible`,
    /// taken in the order `by_range` (nearest first), that were not handled
    /// above and that `catalog` holds, each get the lowest free channel while
    /// one is free. Returns the commands for the demodulation channels.
    pub fn plan_allocation(
        &mut self,
        visible: &Vec<String>,
        by_range: &Vec<usize>,
        catalog: &Vec<String>,
    ) -> (commands: Vec<AllocationCommand>)
        requires
            old(self).well_formed(),
            forall|k: int| 0 <= k < by_range@.len() ==> #[trigger] by_range@[k] < visible@.len(),
        ensures
            final(self).well_formed(),
            final(self).capacity() == old(self).capacity(),
            final(self).slots() == allocation_plan(
                old(self).slots(),
                names_view(visible@),
                by_range@,
                names_view(catalog@),
            ).0,
            commands@ == allocation_plan(
                old(self).slots(),
                names_view(visible@),
                by_range@,
                names_view(catalog@),
            ).1,
    {
        let ghost vis = names_view(visible@);
        let ghost cat = names_view(catalog@);
        let ghost init: PlanState = (old(self).slots(), seq![], Set::empty());
        let mut commands: Vec<AllocationCommand> = Vec::new();
        let mut handled: Vec<String> = Vec::new();
        let ghost mut handled_set: Set<Seq<char>> = Set::empty();
        let n = self.channels.len();
        let mut ch: usize = 0;
        while ch < n
            invariant
                ch <= n,
                n == self.channels@.len(),
                n == old(self).channels@.len(),
                self.well_formed(),
                self.max_channels == old(self).max_channels,
                vis == names_view(visible@),
                init == (old(self).slots(), Seq::<AllocationCommand>::empty(), Set::<Seq<char>>::empty()),
                plan_release(init, vis, ch as nat) == (self.slots(), commands@, handled_set),
                forall|x: Seq<char>| handled_set.contains(x) <==> names_view(handled@).contains(x),
            decreases n - ch,
        {
            let ghost prev_slots = self.slots();
            let ghost prev_cmds = commands@;
            assert(self.slots()[ch as int] == slot_of(self.channels@[ch as int]));
            let current = match &self.channels[ch] {
                Some(s) => Some(s.clone()),
                None => None,
            };
            match current {
                Some(name) => {
                    match find_name(visible, name.as_str()) {
                        Some(v) => {
                            commands.push(
                                AllocationCommand::UpdateTarget { channel_index: ch, visible_index: v },
                            );
                            proof {
                                handled_set = handled_set.insert(name@);
                            }
                            let ghost hv = handled@;
                            handled.push(name);
                            proof {
                                assert forall|x: Seq<char>|
                                    handled_set.contains(x) <==> names_view(handled@).contains(x) by {
                                    if names_view(hv).contains(x) {
                                        let j = choose|j: int| 0 <= j < names_view(hv).len() && names_view(hv)[j] == x;
                                        assert(names_view(handled@)[j] == x);
                                    }
                                    if names_view(handled@).contains(x) {
                                        let j = choose|j: int| 0 <= j < names_view(handled@).len() && names_view(handled@)[j] == x;
                                        if j < hv.len() {
                                            assert(names_view(hv)[j] == x);
                                        }
                                    }
                                    if x == name@ {
                                        assert(names_view(handled@)[hv.len() as int] == x);
                                    }
                                }
                            }
                        },
                        None => {
                            self.handle_los(name.as_str());
                            commands.push(AllocationCommand::Deallocate { channel_index: ch });
                        },
                    }
                },
                None => {},
            }
            ch = ch + 1;
        }
        let ghost mid: PlanState = (self.slots(), commands@, handled_set);
        assert(mid == plan_release(init, vis, old(self).slots().len()));
        let mut k: usize = 0;
        while k < by_range.len()
            invariant
                k <= by_range@.len(),
                self.well_formed(),
                self.max_channels == old(self).max_channels,
                vis == names_view(visible@),
                cat == names_view(catalog@),
                forall|q: int| 0 <= q < by_range@.len() ==> #[trigger] by_range@[q] < visible@.len(),
                plan_assign(mid, vis, by_range@, cat, k as nat) == (self.slots(), commands@, handled_set),
                forall|x: Seq<char>| handled_set.contains(x) <==> names_view(handled@).contains(x),
            decreases by_range.len() - k,
        {
            let v = by_range[k];
            assert(vis[v as int] == visible@[v as int]@);
            let name = &visible[v];
            let already = find_name(&handled, name.as_str()).is_some();
            proof {
                if handled_set.contains(name@) {
                    assert(names_view(handled@).contains(name@));
                    let j = choose|j: int| 0 <= j < names_view(handled@).len() && names_view(handled@)[j] == name@;
                    assert(exists|i: int| 0 <= i < names_view(handled@).len() && names_view(handled@)[i] == name@);
                }
                if first_index_of(names_view(handled@), name@) is Some {
                    assert(exists|i: int| 0 <= i < names_view(handled@).len() && names_view(handled@)[i] == name@);
                    let j = choose|j: int| 0 <= j < names_view(handled@).len() && names_view(handled@)[j] == name@;
                    assert(names_view(handled@).contains(name@));
                }
            }
            if !already {
                match find_name(catalog, name.as_str()) {
                    Some(c) => {
                        let ghost before = self.slots();
                        if self.handle_aos(name.as_str(), None) {
                            proof {
                                law_aos_assigns_channel(before, name@, None);
                            }
                            match self.channel_of(name.as_str()) {
                                Some(slot) => {
                                    proof {
                                        let cc = choose|cc: int| serves(self.slots(), cc, name@);
                                        lemma_serving_slot_unique(self.slots(), slot as int, cc, name@);
                                    }
                                    commands.push(
                                        AllocationCommand::Allocate {
                                            channel_index: slot,
                                            visible_index: v,
                                            catalog_index: c,
                                        },
                                    );
                                    proof {
                                        handled_set = handled_set.insert(name@);
                                    }
                                    let ghost hv = handled@;
                                    handled.push(name.clone());
                                    proof {
                                        assert forall|x: Seq<char>|
                                            handled_set.contains(x) <==> names_view(handled@).contains(x) by {
                                            if names_view(hv).contains(x) {
                                                let j = choose|j: int| 0 <= j < names_view(hv).len() && names_view(hv)[j] == x;
                                                assert(names_view(handled@)[j] == x);
                                            }
                                            if names_view(handled@).contains(x) {
                                                let j = choose|j: int| 0 <= j < names_view(handled@).len() && names_view(handled@)[j] == x;
                                                if j < hv.len() {
                                                    assert(names_view(hv)[j] == x);
                                                }
                                            }
                                            if x == name@ {
                                                assert(names_view(handled@)[hv.len() as int] == x);
                                            }
                                        }
                                    }
                                },
                                None => {},
                            }
                        }
                    },
                    None => {},
                }
            }
            k = k + 1;
        }
        commands
    }
}

} // verus!
