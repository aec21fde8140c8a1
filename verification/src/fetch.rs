//! The group fetcher: applies what the queries for the sensors of one group
//! gave, key by key in declared order, and chains the groups of a layout
//! into the refresh of the whole measurement vector.

use vstd::prelude::*;

use crate::layout::{group_base, lemma_group_base_step, total_capacity, Layout, SensorGroup, SensorKind};
use crate::payload::{fields_of, parse, written, Payload};

verus! {

/// What the queries for the keys of one group gave, in the order of the keys.
pub type GroupReplies = Vec<Option<Payload>>;

/// What the query for key `k` gave. A key without an entry counts as one
/// whose query gave no sample.
pub open spec fn reply_at(replies: Seq<Option<Payload>>, k: int) -> Option<Payload> {
    if 0 <= k < replies.len() {
        replies[k]
    } else {
        None
    }
}

/// What the queries for group `g` gave. A group without an entry counts as
/// one for which no query gave a sample.
pub open spec fn replies_at(replies: Seq<Seq<Option<Payload>>>, g: int) -> Seq<Option<Payload>> {
    if 0 <= g < replies.len() {
        replies[g]
    } else {
        Seq::empty()
    }
}

/// The vector `meas` after the first `n` keys of a group of kind `kind`,
/// laid out from offset `base`, have been fetched with `replies`.
pub open spec fn group_fetched(
    kind: SensorKind,
    meas: Seq<u32>,
    base: int,
    replies: Seq<Option<Payload>>,
    n: nat,
) -> Seq<u32>
    decreases n,
{
    if n == 0 {
        meas
    } else {
        written(
            group_fetched(kind, meas, base, replies, (n - 1) as nat),
            base + (n - 1) * kind.stride(),
            fields_of(kind, reply_at(replies, n - 1)),
        )
    }
}

/// The vector `meas` after every group of `groups` has been fetched with
/// its entry of `replies`, each group in its own window of the layout.
pub open spec fn refreshed(
    groups: Seq<SensorGroup>,
    meas: Seq<u32>,
    replies: Seq<Seq<Option<Payload>>>,
) -> Seq<u32>
    decreases groups.len(),
{
    if groups.len() == 0 {
        meas
    } else {
        let g = groups.len() - 1;
        group_fetched(
            groups[g].kind,
            refreshed(groups.drop_last(), meas, replies),
            group_base(groups, g) as int,
            replies_at(replies, g),
            groups[g].keys@.len(),
        )
    }
}

/// The replies of a cycle as sequences.
pub open spec fn reply_views(replies: Seq<GroupReplies>) -> Seq<Seq<Option<Payload>>> {
    replies.map_values(|r: GroupReplies| r@)
}

/// Fetching a group never resizes the vector.
pub proof fn lemma_group_fetched_len(
    kind: SensorKind,
    meas: Seq<u32>,
    base: int,
    replies: Seq<Option<Payload>>,
    n: nat,
)
    ensures
        group_fetched(kind, meas, base, replies, n).len() == meas.len(),
    decreases n,
{
    if n > 0 {
        lemma_group_fetched_len(kind, meas, base, replies, (n - 1) as nat);
    }
}

/// A refresh never resizes the vector.
pub proof fn lemma_refreshed_len(
    groups: Seq<SensorGroup>,
    meas: Seq<u32>,
    replies: Seq<Seq<Option<Payload>>>,
)
    ensures
        refreshed(groups, meas, replies).len() == meas.len(),
    decreases groups.len(),
{
    if groups.len() > 0 {
        let g = groups.len() - 1;
        lemma_refreshed_len(groups.drop_last(), meas, replies);
        lemma_group_fetched_len(
            groups[g].kind,
            refreshed(groups.drop_last(), meas, replies),
            group_base(groups, g) as int,
            replies_at(replies, g),
            groups[g].keys@.len(),
        );
    }
}

/// The refresh of the first `g + 1` groups is the refresh of the first `g`,
/// followed by the fetch of group `g` at its base.
pub proof fn lemma_refreshed_step(
    groups: Seq<SensorGroup>,
    meas: Seq<u32>,
    replies: Seq<Seq<Option<Payload>>>,
    g: int,
)
    requires
        0 <= g < groups.len(),
    ensures
        refreshed(groups.take(g + 1), meas, replies) == group_fetched(
            groups[g].kind,
            refreshed(groups.take(g), meas, replies),
            group_base(groups, g) as int,
            replies_at(replies, g),
            groups[g].keys@.len(),
        ),
{
    assert(groups.take(g + 1).drop_last() =~= groups.take(g));
    assert(groups.take(g + 1).take(g) =~= groups.take(g));
}

/// Fetches one group: for each key in declared order, the decoder of the
/// group's kind is applied to what the query for that key gave, and the
/// offset moves on by the stride whether or not there was a sample.
/// Returns the next free offset.
pub fn query_and_parse(
    group: &SensorGroup,
    replies: &GroupReplies,
    meas: &mut Vec<u32>,
    base: usize,
) -> (next: usize)
    requires
        base + group.capacity() <= old(meas).len(),
    ensures
        next == base + group.capacity(),
        final(meas)@ == group_fetched(
            group.kind,
            old(meas)@,
            base as int,
            replies@,
            group.keys@.len(),
        ),
{
    let stride = group.kind.stride();
    let count = group.keys.len();
    let mut offset = base;
    let mut k: usize = 0;
    while k < count
        invariant
            k <= count,
            count == group.keys@.len(),
            stride == group.kind.stride(),
            offset == base + k * stride,
            base + count * stride <= meas.len(),
            meas.len() == old(meas).len(),
            meas@ == group_fetched(group.kind, old(meas)@, base as int, replies@, k as nat),
        decreases count - k,
    {
        assert((k + 1) * stride <= count * stride) by (nonlinear_arith)
            requires
                k + 1 <= count,
        ;
        assert((k + 1) * stride == k * stride + stride) by (nonlinear_arith);
        let sample = if k < replies.len() {
            replies[k]
        } else {
            None
        };
        parse(group.kind, &sample, meas, offset);
        offset += stride;
        k += 1;
    }
    offset
}

/// Refreshes the measurement vector: the groups of the layout are fetched
/// in declared order, each from the offset at which the one before ended.
/// Fields whose query gave nothing that decodes keep their value.
pub fn refresh_meas(layout: &Layout, replies: &Vec<GroupReplies>, meas: &mut Vec<u32>)
    requires
        old(meas).len() == total_capacity(layout.groups()),
    ensures
        final(meas)@ == refreshed(layout.groups(), old(meas)@, reply_views(replies@)),
{
    let none: GroupReplies = Vec::new();
    let count = layout.group_count();
    let mut base: usize = 0;
    let mut g: usize = 0;
    proof {
        assert(layout.groups().take(0) =~= Seq::<SensorGroup>::empty());
    }
    while g < count
        invariant
            g <= count,
            count == layout.groups().len(),
            none@.len() == 0,
            base == group_base(layout.groups(), g as int),
            meas.len() == old(meas).len(),
            old(meas).len() == total_capacity(layout.groups()),
            meas@ == refreshed(layout.groups().take(g as int), old(meas)@, reply_views(replies@)),
        decreases count - g,
    {
        proof {
            lemma_group_base_step(layout.groups(), g as int);
            crate::layout::lemma_group_base_monotonic(layout.groups(), g + 1, count as int);
            assert(layout.groups().take(count as int) =~= layout.groups());
            lemma_refreshed_step(layout.groups(), old(meas)@, reply_views(replies@), g as int);
        }
        let group_replies = if g < replies.len() {
            &replies[g]
        } else {
            &none
        };
        assert(group_replies@ =~= replies_at(reply_views(replies@), g as int));
        let ghost before = meas@;
        base = query_and_parse(layout.group(g), group_replies, meas, base);
        proof {
            lemma_group_fetched_len(
                layout.groups()[g as int].kind,
                before,
                group_base(layout.groups(), g as int) as int,
                group_replies@,
                layout.groups()[g as int].keys@.len(),
            );
        }
        g += 1;
    }
    proof {
        assert(layout.groups().take(count as int) =~= layout.groups());
    }
}

} // verus!
