//! The cycle scheduler: a state machine that owns the measurement vector and
//! decides, event by event, what the node does next. At a tick it starts a
//! refresh and asks for the first sensor; for each reply it writes what
//! decoded and asks for the next sensor; after the last one it has the vector
//! reported and the node put to sleep until the next tick. The caller does
//! the asking, the reporting and the sleeping.

use vstd::prelude::*;

use crate::fetch::{refreshed, replies_at, reply_at};
use crate::laws::{
    law_key_window_in_bounds, law_refresh_depends_on_fields, law_refresh_reply_by_reply,
    lemma_refreshed_idle, same_fields, same_fields_but,
};
use crate::layout::{
    full_key, group_base, key_offset, lemma_group_base_step, total_capacity, Layout, SensorGroup,
    SensorKind, BASE_SENSOR_KEY, CLOCK_PER,
};
use crate::payload::{fields_of, parse, written, Payload};
use crate::query::{latest_value_request, Consolidation, QueryRequest, QUERY_TIMEOUT_MS};

verus! {

/// Where the scheduler stands in its cycle.
#[derive(Clone, Copy, Debug, PartialEq, Eq, Structural)]
pub enum Phase {
    /// Between two cycles: the vector is complete and waits for the tick.
    Idle,
    /// In a refresh, waiting for the reply to the query for key `key` of
    /// group `group`.
    Refreshing { group: usize, key: usize },
}

/// What happened outside.
#[derive(Clone, Copy, Debug, PartialEq, Eq)]
pub enum Event {
    /// The clock ticked.
    Tick,
    /// The pending query ended: with a payload as it reads under the schema
    /// of the sensor's kind, or without a sample.
    Reply(Option<Payload>),
}

/// What the caller is to do next.
#[derive(Clone, Debug, PartialEq, Eq)]
pub enum Action {
    /// Send the request, read the payload under the schema of `kind`, and
    /// come back with `Event::Reply`.
    Query { request: QueryRequest, kind: SensorKind },
    /// The refresh is complete: report the vector, sleep for `sleep_ms`
    /// milliseconds, and come back with `Event::Tick`.
    Report { sleep_ms: u64 },
    /// The event does not belong to the phase. Nothing changed.
    Ignore,
}

/// The first group at or after `g` that has a key; the number of groups if
/// there is none.
pub open spec fn next_nonempty(groups: Seq<SensorGroup>, g: int) -> int
    decreases groups.len() - g,
{
    if g >= groups.len() {
        groups.len() as int
    } else if g >= 0 && groups[g].keys@.len() > 0 {
        g
    } else {
        next_nonempty(groups, g + 1)
    }
}

/// Whether `phase` and `action` are those of a scheduler that turns to the
/// first key of group `g`, or to key `k` of group `g` where `k` is given, and
/// that ends the cycle where the layout has no group `g`.
pub open spec fn turns_to(
    groups: Seq<SensorGroup>,
    g: int,
    k: int,
    phase: Phase,
    action: Action,
) -> bool {
    if 0 <= g < groups.len() {
        &&& phase == (Phase::Refreshing { group: g as usize, key: k as usize })
        &&& action matches Action::Query { request, kind }
        &&& kind == groups[g].kind
        &&& request.key@ == BASE_SENSOR_KEY@ + groups[g].keys@[k]@
        &&& request.timeout_ms == QUERY_TIMEOUT_MS
        &&& request.consolidation == Consolidation::Latest
    } else {
        &&& phase == Phase::Idle
        &&& action == (Action::Report { sleep_ms: CLOCK_PER })
    }
}

/// The scheduler of one node: the layout of its suite, the measurement
/// vector, and the place in the cycle.
pub struct Scheduler {
    layout: Layout,
    meas: Vec<u32>,
    phase: Phase,
    base: usize,
    start: Ghost<Seq<u32>>,
    seen: Ghost<Seq<Seq<Option<Payload>>>>,
}

impl Scheduler {
    #[verifier::type_invariant]
    spec fn inv(&self) -> bool {
        let groups = self.layout.groups();
        &&& self.meas.len() == total_capacity(groups)
        &&& self.start@.len() == total_capacity(groups)
        &&& self.meas@ == refreshed(groups, self.start@, self.seen@)
        &&& match self.phase {
            Phase::Idle => true,
            Phase::Refreshing { group, key } => {
                &&& group < groups.len()
                &&& key < groups[group as int].keys@.len()
                &&& self.base == key_offset(groups, group as int, key as int)
                &&& self.seen@.len() == group + 1
                &&& self.seen@[group as int].len() == key
            },
        }
    }

    /// The groups of the layout, in declared order.
    pub closed spec fn groups(&self) -> Seq<SensorGroup> {
        self.layout.groups()
    }

    /// The measurement vector.
    pub closed spec fn meas(&self) -> Seq<u32> {
        self.meas@
    }

    /// The place in the cycle.
    pub closed spec fn cursor(&self) -> Phase {
        self.phase
    }

    /// The measurement vector as it was at the tick that started the
    /// current cycle (the last cycle, when idle).
    pub closed spec fn cycle_start(&self) -> Seq<u32> {
        self.start@
    }

    /// The replies of the current cycle so far (of the last cycle, when
    /// idle), group by group.
    pub closed spec fn cycle_replies(&self) -> Seq<Seq<Option<Payload>>> {
        self.seen@
    }

    /// What the query for key `k` of group `g` gave in this cycle; nothing
    /// while it is unanswered.
    pub open spec fn sample(&self, g: int, k: int) -> Option<Payload> {
        reply_at(replies_at(self.cycle_replies(), g), k)
    }

    /// A scheduler for `layout`, idle, with every measurement at zero.
    pub fn new(layout: Layout) -> (s: Scheduler)
        ensures
            s.groups() == layout.groups(),
            s.cursor() == Phase::Idle,
            s.meas() == Seq::new(total_capacity(layout.groups()), |i: int| 0u32),
            s.cycle_start() == s.meas(),
            s.cycle_replies().len() == 0,
    {
        let n = layout.capacity();
        let mut meas: Vec<u32> = Vec::new();
        let mut i: usize = 0;
        while i < n
            invariant
                i <= n,
                meas@ == Seq::new(i as nat, |j: int| 0u32),
            decreases n - i,
        {
            meas.push(0);
            i += 1;
            assert(meas@ =~= Seq::new(i as nat, |j: int| 0u32));
        }
        proof {
            lemma_refreshed_idle(layout.groups(), meas@);
        }
        Scheduler {
            layout,
            meas,
            phase: Phase::Idle,
            base: 0,
            start: Ghost(meas@),
            seen: Ghost(Seq::empty()),
        }
    }

    /// The layout that the scheduler walks.
    pub fn layout(&self) -> (layout: &Layout)
        ensures
            layout.groups() == self.groups(),
    {
        &self.layout
    }

    /// The place in the cycle.
    pub fn phase(&self) -> (phase: Phase)
        ensures
            phase == self.cursor(),
    {
        self.phase
    }

    /// The measurement vector. Its length is that of the layout and never
    /// changes; it holds the vector of the last tick, refreshed with the
    /// replies that came since.
    pub fn measurement(&self) -> (meas: &Vec<u32>)
        ensures
            meas@ == self.meas(),
            meas@.len() == total_capacity(self.groups()),
            meas@ == refreshed(self.groups(), self.cycle_start(), self.cycle_replies()),
    {
        proof {
            use_type_invariant(self);
        }
        &self.meas
    }

    /// Takes one event and says what to do next.
    ///
    /// At a tick an idle scheduler starts a cycle: it turns to the first key
    /// of the layout, or reports at once where the layout has no key. At a
    /// reply a refreshing scheduler writes the fields that decoded into the
    /// window of the pending key, leaves every other field alone, and turns
    /// to the next key in declared order; after the last key it becomes idle
    /// and has the vector reported. Any other event is ignored.
    pub fn step(self, event: Event) -> (r: (Scheduler, Action))
        ensures
            r.0.groups() == self.groups(),
            r.0.meas() == refreshed(r.0.groups(), r.0.cycle_start(), r.0.cycle_replies()),
            match (self.cursor(), event) {
                (Phase::Idle, Event::Tick) => {
                    &&& r.0.meas() == self.meas()
                    &&& r.0.cycle_start() == self.meas()
                    &&& forall|g: int, k: int| (#[trigger] r.0.sample(g, k)) is None
                    &&& turns_to(self.groups(), next_nonempty(self.groups(), 0), 0, r.0.cursor(), r.1)
                },
                (Phase::Refreshing { group, key }, Event::Reply(sample)) => {
                    &&& r.0.meas() == written(
                        self.meas(),
                        key_offset(self.groups(), group as int, key as int),
                        fields_of(self.groups()[group as int].kind, sample),
                    )
                    &&& r.0.cycle_start() == self.cycle_start()
                    &&& r.0.sample(group as int, key as int) == sample
                    &&& forall|g: int, k: int|
                        !(g == group && k == key) ==> #[trigger] r.0.sample(g, k) == self.sample(g, k)
                    &&& if key + 1 < self.groups()[group as int].keys@.len() {
                        turns_to(self.groups(), group as int, key + 1, r.0.cursor(), r.1)
                    } else {
                        turns_to(
                            self.groups(),
                            next_nonempty(self.groups(), group + 1),
                            0,
                            r.0.cursor(),
                            r.1,
                        )
                    }
                },
                _ => {
                    &&& r.0.meas() == self.meas()
                    &&& r.0.cursor() == self.cursor()
                    &&& r.0.cycle_start() == self.cycle_start()
                    &&& r.0.cycle_replies() == self.cycle_replies()
                    &&& r.1 == Action::Ignore
                },
            },
    {
        proof {
            use_type_invariant(&self);
        }
        let Scheduler { layout, meas, phase, base, start, seen } = self;
        let mut meas = meas;
        let ghost groups = layout.groups();
        match (phase, event) {
            (Phase::Idle, Event::Tick) => {
                let next = seek(&layout, 0);
                let ghost fresh = Seq::new(
                    if next < groups.len() {
                        (next + 1) as nat
                    } else {
                        0
                    },
                    |i: int| Seq::<Option<Payload>>::empty(),
                );
                proof {
                    assert(groups.take(0) =~= Seq::<SensorGroup>::empty());
                    assert(same_fields(groups, fresh, Seq::empty()));
                    law_refresh_depends_on_fields(groups, meas@, fresh, Seq::empty());
                    lemma_refreshed_idle(groups, meas@);
                }
                let (phase, action) = turn(&layout, next, 0);
                let ghost now = meas@;
                let state = Scheduler {
                    layout,
                    meas,
                    phase,
                    base: 0,
                    start: Ghost(now),
                    seen: Ghost(fresh),
                };
                (state, action)
            },
            (Phase::Refreshing { group, key }, Event::Reply(sample)) => {
                let kind = layout.group(group).kind;
                let stride = kind.stride();
                let count = layout.group(group).keys.len();
                proof {
                    layout.lemma_group_count_fits();
                }
                let ghost answered = seen@.update(group as int, seen@[group as int].push(sample));
                proof {
                    law_key_window_in_bounds(groups, group as int, key as int);
                    assert(same_fields_but(groups, answered, seen@, group as int, key as int)) by {
                        assert forall|h: int, j: int|
                            0 <= h < groups.len() && 0 <= j < groups[h].keys@.len() && !(h == group
                                && j == key) implies fields_of(
                            groups[h].kind,
                            #[trigger] reply_at(replies_at(answered, h), j),
                        ) == fields_of(groups[h].kind, reply_at(replies_at(seen@, h), j)) by {
                            if h == group {
                                assert(reply_at(replies_at(answered, h), j) == reply_at(
                                    replies_at(seen@, h),
                                    j,
                                ));
                            } else {
                                assert(replies_at(answered, h) == replies_at(seen@, h));
                            }
                        }
                    }
                    law_refresh_reply_by_reply(
                        groups,
                        start@,
                        seen@,
                        answered,
                        group as int,
                        key as int,
                    );
                }
                parse(kind, &sample, &mut meas, base);
                assert((key + 1) * stride == key * stride + stride) by (nonlinear_arith);
                if key + 1 < count {
                    let (phase, action) = turn(&layout, group, key + 1);
                    let state = Scheduler {
                        layout,
                        meas,
                        phase,
                        base: base + stride,
                        start,
                        seen: Ghost(answered),
                    };
                    (state, action)
                } else {
                    proof {
                        lemma_group_base_step(groups, group as int);
                    }
                    let next = seek(&layout, group + 1);
                    let ghost padded = answered + Seq::new(
                        if next < groups.len() {
                            (next - group) as nat
                        } else {
                            0
                        },
                        |i: int| Seq::<Option<Payload>>::empty(),
                    );
                    proof {
                        assert(same_fields(groups, padded, answered)) by {
                            assert forall|h: int, j: int|
                                0 <= h < groups.len() && 0 <= j < groups[h].keys@.len()
                                implies fields_of(
                                groups[h].kind,
                                #[trigger] reply_at(replies_at(padded, h), j),
                            ) == fields_of(groups[h].kind, reply_at(replies_at(answered, h), j)) by {
                                assert(reply_at(replies_at(padded, h), j) == reply_at(
                                    replies_at(answered, h),
                                    j,
                                ));
                            }
                        }
                        law_refresh_depends_on_fields(groups, start@, padded, answered);
                        assert forall|g: int, k: int| !(g == group && k == key) implies reply_at(
                            replies_at(padded, g),
                            k,
                        ) == reply_at(replies_at(seen@, g), k) by {
                            if g == group {
                                assert(reply_at(replies_at(answered, g), k) == reply_at(
                                    replies_at(seen@, g),
                                    k,
                                ));
                            }
                        }
                    }
                    let (phase, action) = turn(&layout, next, 0);
                    let state = Scheduler {
                        layout,
                        meas,
                        phase,
                        base: base + stride,
                        start,
                        seen: Ghost(padded),
                    };
                    (state, action)
                }
            },
            _ => {
                let state = Scheduler { layout, meas, phase, base, start, seen };
                (state, Action::Ignore)
            },
        }
    }
}

/// Finds the first group at or after `from` that has a key. The groups that
/// are passed over have no fields, so the base does not move.
fn seek(layout: &Layout, from: usize) -> (g: usize)
    requires
        from <= layout.groups().len(),
    ensures
        g == next_nonempty(layout.groups(), from as int),
        from <= g <= layout.groups().len(),
        g < layout.groups().len() ==> layout.groups()[g as int].keys@.len() > 0,
        group_base(layout.groups(), g as int) == group_base(layout.groups(), from as int),
{
    let count = layout.group_count();
    let mut g = from;
    while g < count && layout.group(g).keys.len() == 0
        invariant
            from <= g <= count,
            count == layout.groups().len(),
            next_nonempty(layout.groups(), g as int) == next_nonempty(
                layout.groups(),
                from as int,
            ),
            group_base(layout.groups(), g as int) == group_base(layout.groups(), from as int),
        decreases count - g,
    {
        proof {
            lemma_group_base_step(layout.groups(), g as int);
            assert(layout.groups()[g as int].capacity() == 0) by (nonlinear_arith)
                requires
                    layout.groups()[g as int].keys@.len() == 0,
                    layout.groups()[g as int].capacity() == layout.groups()[g as int].keys@.len()
                        * layout.groups()[g as int].kind.stride(),
            ;
        }
        g += 1;
    }
    g
}

/// The phase and the action of a scheduler that turns to key `k` of group
/// `g`, or that ends the cycle where `g` is past the last group.
fn turn(layout: &Layout, g: usize, k: usize) -> (r: (Phase, Action))
    requires
        g <= layout.groups().len(),
        g < layout.groups().len() ==> k < layout.groups()[g as int].keys@.len(),
    ensures
        turns_to(layout.groups(), g as int, k as int, r.0, r.1),
{
    if g < layout.group_count() {
        let group = layout.group(g);
        let request = latest_value_request(full_key(group.keys[k].as_str()));
        (Phase::Refreshing { group: g, key: k }, Action::Query { request, kind: group.kind })
    } else {
        (Phase::Idle, Action::Report { sleep_ms: CLOCK_PER })
    }
}

} // verus!
