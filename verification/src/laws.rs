//! What holds of every layout and every cycle: the layout is contiguous and
//! free of overlap, a refresh writes exactly the windows of the sensors whose
//! sample decoded, and refreshing twice with the same replies changes
//! nothing the second time.

use vstd::prelude::*;

use crate::fetch::{group_fetched, refreshed, replies_at, reply_at};
use crate::layout::{
    group_base, key_offset, lemma_group_base_monotonic, lemma_group_base_step, total_capacity,
    SensorGroup, SensorKind,
};
use crate::payload::{fields_of, Payload};

verus! {

/// What walking the first `n` keys of a group adds up to, one stride a key.
pub open spec fn sum_of_strides(kind: SensorKind, n: nat) -> nat
    decreases n,
{
    if n == 0 {
        0
    } else {
        sum_of_strides(kind, (n - 1) as nat) + kind.stride() as nat
    }
}

/// Walking `n` keys of a kind covers `n` strides.
pub proof fn lemma_sum_of_strides(kind: SensorKind, n: nat)
    ensures
        sum_of_strides(kind, n) == n * kind.stride(),
    decreases n,
{
    let s = kind.stride() as int;
    if n > 0 {
        let m = (n - 1) as nat;
        lemma_sum_of_strides(kind, m);
        assert(n * s == m * s + s) by (nonlinear_arith)
            requires
                n == m + 1,
        ;
    } else {
        assert(n * s == 0) by (nonlinear_arith)
            requires
                n == 0,
        ;
    }
}

/// The strides of the keys of a group add up to the capacity of the group.
pub proof fn law_group_capacity(group: SensorGroup)
    ensures
        sum_of_strides(group.kind, group.keys@.len()) == group.capacity(),
{
    lemma_sum_of_strides(group.kind, group.keys@.len());
}

/// What walking every key of every group adds up to, one stride a key.
pub open spec fn sum_of_all_strides(groups: Seq<SensorGroup>) -> nat
    decreases groups.len(),
{
    if groups.len() == 0 {
        0
    } else {
        sum_of_all_strides(groups.drop_last()) + sum_of_strides(
            groups.last().kind,
            groups.last().keys@.len(),
        )
    }
}

/// The strides of all keys of all groups add up to the length of the
/// measurement vector.
pub proof fn law_strides_fill_the_vector(groups: Seq<SensorGroup>)
    ensures
        sum_of_all_strides(groups) == total_capacity(groups),
    decreases groups.len(),
{
    if groups.len() > 0 {
        law_strides_fill_the_vector(groups.drop_last());
        law_group_capacity(groups.last());
    }
}

/// The groups of a layout lie back to back: the first starts at offset 0,
/// each next one where the one before ends, and the last ends at the length
/// of the measurement vector.
pub proof fn law_layout_contiguous(groups: Seq<SensorGroup>)
    ensures
        group_base(groups, 0) == 0,
        forall|g: int|
            0 <= g < groups.len() ==> #[trigger] group_base(groups, g + 1) == group_base(groups, g)
                + groups[g].capacity(),
        group_base(groups, groups.len() as int) == total_capacity(groups),
{
    assert(groups.take(0) =~= Seq::<SensorGroup>::empty());
    assert(groups.take(groups.len() as int) =~= groups);
    assert forall|g: int| 0 <= g < groups.len() implies #[trigger] group_base(groups, g + 1)
        == group_base(groups, g) + groups[g].capacity() by {
        lemma_group_base_step(groups, g);
    }
}

/// The window of a key lies inside the window of its group, and so inside
/// the measurement vector.
pub proof fn law_key_window_in_bounds(groups: Seq<SensorGroup>, g: int, k: int)
    requires
        0 <= g < groups.len(),
        0 <= k < groups[g].keys@.len(),
    ensures
        group_base(groups, g) <= key_offset(groups, g, k),
        key_offset(groups, g, k) + groups[g].kind.stride() <= group_base(groups, g + 1),
        group_base(groups, g + 1) <= total_capacity(groups),
{
    let s = groups[g].kind.stride() as int;
    let n = groups[g].keys@.len() as int;
    lemma_group_base_step(groups, g);
    lemma_group_base_monotonic(groups, g + 1, groups.len() as int);
    assert(groups.take(groups.len() as int) =~= groups);
    assert(0 <= k * s) by (nonlinear_arith)
        requires
            0 <= k,
            0 <= s,
    ;
    assert(k * s + s <= n * s) by (nonlinear_arith)
        requires
            k + 1 <= n,
            0 <= s,
    ;
}

/// The windows of two different keys do not overlap.
pub proof fn law_key_windows_disjoint(groups: Seq<SensorGroup>, g: int, k: int, h: int, j: int)
    requires
        0 <= g < groups.len(),
        0 <= k < groups[g].keys@.len(),
        0 <= h < groups.len(),
        0 <= j < groups[h].keys@.len(),
        g < h || (g == h && k < j),
    ensures
        key_offset(groups, g, k) + groups[g].kind.stride() <= key_offset(groups, h, j),
{
    law_key_window_in_bounds(groups, g, k);
    law_key_window_in_bounds(groups, h, j);
    if g < h {
        lemma_group_base_monotonic(groups, g + 1, h);
    } else {
        let s = groups[g].kind.stride() as int;
        assert(k * s + s <= j * s) by (nonlinear_arith)
            requires
                k + 1 <= j,
                0 <= s,
        ;
    }
}

/// The value that fetching the first `n` keys of a group writes at position
/// `p`, if it writes there at all. It does not depend on the vector.
pub open spec fn group_wrote_at(
    kind: SensorKind,
    base: int,
    replies: Seq<Option<Payload>>,
    n: nat,
    p: int,
) -> Option<u32>
    decreases n,
{
    if n == 0 {
        None
    } else {
        let offset = base + (n - 1) * kind.stride();
        match fields_of(kind, reply_at(replies, n - 1)) {
            Some(f) if offset <= p < offset + f.len() => Some(f[p - offset]),
            _ => group_wrote_at(kind, base, replies, (n - 1) as nat, p),
        }
    }
}

/// The value that a refresh writes at position `p`, if it writes there at
/// all. It does not depend on the vector.
pub open spec fn wrote_at(
    groups: Seq<SensorGroup>,
    replies: Seq<Seq<Option<Payload>>>,
    p: int,
) -> Option<u32>
    decreases groups.len(),
{
    if groups.len() == 0 {
        None
    } else {
        let g = groups.len() - 1;
        match group_wrote_at(
            groups[g].kind,
            group_base(groups, g) as int,
            replies_at(replies, g),
            groups[g].keys@.len(),
            p,
        ) {
            Some(v) => Some(v),
            None => wrote_at(groups.drop_last(), replies, p),
        }
    }
}

/// A position of the vector holds, after a group was fetched, what the fetch
/// wrote there, and its old value where the fetch wrote nothing.
pub proof fn lemma_group_fetched_at(
    kind: SensorKind,
    meas: Seq<u32>,
    base: int,
    replies: Seq<Option<Payload>>,
    n: nat,
    p: int,
)
    requires
        0 <= p < meas.len(),
    ensures
        group_fetched(kind, meas, base, replies, n)[p] == (match group_wrote_at(
            kind,
            base,
            replies,
            n,
            p,
        ) {
            Some(v) => v,
            None => meas[p],
        }),
    decreases n,
{
    if n > 0 {
        lemma_group_fetched_at(kind, meas, base, replies, (n - 1) as nat, p);
        crate::fetch::lemma_group_fetched_len(kind, meas, base, replies, (n - 1) as nat);
    }
}

/// A position of the vector holds, after a refresh, what the refresh wrote
/// there, and its old value where the refresh wrote nothing.
pub proof fn lemma_refreshed_at(
    groups: Seq<SensorGroup>,
    meas: Seq<u32>,
    replies: Seq<Seq<Option<Payload>>>,
    p: int,
)
    requires
        0 <= p < meas.len(),
    ensures
        refreshed(groups, meas, replies)[p] == (match wrote_at(groups, replies, p) {
            Some(v) => v,
            None => meas[p],
        }),
    decreases groups.len(),
{
    if groups.len() > 0 {
        let g = groups.len() - 1;
        lemma_refreshed_at(groups.drop_last(), meas, replies, p);
        crate::fetch::lemma_refreshed_len(groups.drop_last(), meas, replies);
        lemma_group_fetched_at(
            groups[g].kind,
            refreshed(groups.drop_last(), meas, replies),
            group_base(groups, g) as int,
            replies_at(replies, g),
            groups[g].keys@.len(),
            p,
        );
    }
}

/// Fetching a group writes nothing outside the window of the group.
pub proof fn lemma_group_wrote_outside(
    kind: SensorKind,
    base: int,
    replies: Seq<Option<Payload>>,
    n: nat,
    p: int,
)
    requires
        p < base || base + n * kind.stride() <= p,
    ensures
        group_wrote_at(kind, base, replies, n, p) is None,
    decreases n,
{
    let s = kind.stride() as int;
    if n > 0 {
        let m = (n - 1) as nat;
        assert(n * s == m * s + s) by (nonlinear_arith)
            requires
                n == m + 1,
        ;
        assert(0 <= m * s) by (nonlinear_arith)
            requires
                0 <= m,
                0 <= s,
        ;
        crate::payload::lemma_fields_fill_stride(kind, reply_at(replies, n - 1));
        lemma_group_wrote_outside(kind, base, replies, m, p);
    }
}

/// In the window of a key, fetching its group writes the fields that the
/// key's sample decoded to, and nothing where it did not decode.
pub proof fn lemma_group_wrote_at_key(
    kind: SensorKind,
    base: int,
    replies: Seq<Option<Payload>>,
    n: nat,
    k: int,
    c: int,
)
    requires
        0 <= k < n,
        0 <= c < kind.stride(),
    ensures
        group_wrote_at(kind, base, replies, n, base + k * kind.stride() + c) == (match fields_of(
            kind,
            reply_at(replies, k),
        ) {
            Some(f) => Some(f[c]),
            None => None,
        }),
    decreases n,
{
    let s = kind.stride() as int;
    let p = base + k * s + c;
    let m = (n - 1) as nat;
    crate::payload::lemma_fields_fill_stride(kind, reply_at(replies, n - 1));
    if k < m {
        assert(k * s + s <= m * s) by (nonlinear_arith)
            requires
                k + 1 <= m,
                0 <= s,
        ;
        lemma_group_wrote_at_key(kind, base, replies, m, k, c);
    } else {
        lemma_group_wrote_outside(kind, base, replies, m, p);
    }
}

/// A refresh writes nothing outside the layout.
pub proof fn lemma_wrote_outside(
    groups: Seq<SensorGroup>,
    replies: Seq<Seq<Option<Payload>>>,
    p: int,
)
    requires
        p < 0 || total_capacity(groups) <= p,
    ensures
        wrote_at(groups, replies, p) is None,
    decreases groups.len(),
{
    if groups.len() > 0 {
        let g = groups.len() - 1;
        assert(groups.take(g) =~= groups.drop_last());
        lemma_group_wrote_outside(
            groups[g].kind,
            group_base(groups, g) as int,
            replies_at(replies, g),
            groups[g].keys@.len(),
            p,
        );
        lemma_wrote_outside(groups.drop_last(), replies, p);
    }
}

/// In the window of a key, a refresh writes the fields that the key's sample
/// decoded to, and nothing where it did not decode: no other key reaches
/// into that window.
pub proof fn lemma_wrote_at_key(
    groups: Seq<SensorGroup>,
    replies: Seq<Seq<Option<Payload>>>,
    g: int,
    k: int,
    c: int,
)
    requires
        0 <= g < groups.len(),
        0 <= k < groups[g].keys@.len(),
        0 <= c < groups[g].kind.stride(),
    ensures
        wrote_at(groups, replies, key_offset(groups, g, k) + c) == (match fields_of(
            groups[g].kind,
            reply_at(replies_at(replies, g), k),
        ) {
            Some(f) => Some(f[c]),
            None => None,
        }),
    decreases groups.len(),
{
    let last = groups.len() - 1;
    let p = key_offset(groups, g, k) + c;
    assert(groups.take(last) =~= groups.drop_last());
    law_key_window_in_bounds(groups, g, k);
    if g == last {
        lemma_group_wrote_at_key(
            groups[g].kind,
            group_base(groups, g) as int,
            replies_at(replies, g),
            groups[g].keys@.len(),
            k,
            c,
        );
        lemma_wrote_outside(groups.drop_last(), replies, p);
    } else {
        lemma_group_base_monotonic(groups, g + 1, last);
        lemma_group_wrote_outside(
            groups[last].kind,
            group_base(groups, last) as int,
            replies_at(replies, last),
            groups[last].keys@.len(),
            p,
        );
        assert(groups.drop_last().take(g) =~= groups.take(g));
        lemma_wrote_at_key(groups.drop_last(), replies, g, k, c);
    }
}

/// After a refresh, every field of a key whose sample decoded holds the
/// decoded value, whatever the other keys did.
pub proof fn law_decoded_fields_are_written(
    groups: Seq<SensorGroup>,
    meas: Seq<u32>,
    replies: Seq<Seq<Option<Payload>>>,
    g: int,
    k: int,
    c: int,
)
    requires
        meas.len() == total_capacity(groups),
        0 <= g < groups.len(),
        0 <= k < groups[g].keys@.len(),
        0 <= c < groups[g].kind.stride(),
        fields_of(groups[g].kind, reply_at(replies_at(replies, g), k)) is Some,
    ensures
        refreshed(groups, meas, replies)[key_offset(groups, g, k) + c] == fields_of(
            groups[g].kind,
            reply_at(replies_at(replies, g), k),
        )->0[c],
{
    law_key_window_in_bounds(groups, g, k);
    lemma_wrote_at_key(groups, replies, g, k, c);
    lemma_refreshed_at(groups, meas, replies, key_offset(groups, g, k) + c);
}

/// Stale values are kept: after a refresh, every field of a key whose query
/// gave no sample, or none that decodes, holds the value it had before.
pub proof fn law_stale_value_preserved(
    groups: Seq<SensorGroup>,
    meas: Seq<u32>,
    replies: Seq<Seq<Option<Payload>>>,
    g: int,
    k: int,
    c: int,
)
    requires
        meas.len() == total_capacity(groups),
        0 <= g < groups.len(),
        0 <= k < groups[g].keys@.len(),
        0 <= c < groups[g].kind.stride(),
        fields_of(groups[g].kind, reply_at(replies_at(replies, g), k)) is None,
    ensures
        refreshed(groups, meas, replies)[key_offset(groups, g, k) + c] == meas[key_offset(
            groups,
            g,
            k,
        ) + c],
{
    law_key_window_in_bounds(groups, g, k);
    lemma_wrote_at_key(groups, replies, g, k, c);
    lemma_refreshed_at(groups, meas, replies, key_offset(groups, g, k) + c);
}

/// Refreshing again with the same replies changes nothing: the second
/// vector is the first, bit for bit.
pub proof fn law_refresh_idempotent(
    groups: Seq<SensorGroup>,
    meas: Seq<u32>,
    replies: Seq<Seq<Option<Payload>>>,
)
    ensures
        refreshed(groups, refreshed(groups, meas, replies), replies) == refreshed(
            groups,
            meas,
            replies,
        ),
{
    let once = refreshed(groups, meas, replies);
    let twice = refreshed(groups, once, replies);
    crate::fetch::lemma_refreshed_len(groups, meas, replies);
    crate::fetch::lemma_refreshed_len(groups, once, replies);
    assert forall|p: int| 0 <= p < once.len() implies twice[p] == once[p] by {
        lemma_refreshed_at(groups, meas, replies, p);
        lemma_refreshed_at(groups, once, replies, p);
    }
    assert(twice =~= once);
}

/// Whether two sets of replies decode to the same fields at every key of
/// the layout.
pub open spec fn same_fields(
    groups: Seq<SensorGroup>,
    first: Seq<Seq<Option<Payload>>>,
    second: Seq<Seq<Option<Payload>>>,
) -> bool {
    forall|g: int, k: int|
        0 <= g < groups.len() && 0 <= k < groups[g].keys@.len() ==> fields_of(
            groups[g].kind,
            #[trigger] reply_at(replies_at(first, g), k),
        ) == fields_of(groups[g].kind, reply_at(replies_at(second, g), k))
}

/// What a group fetch writes depends on the replies only through the fields
/// that they decode to.
pub proof fn lemma_group_wrote_congruent(
    kind: SensorKind,
    base: int,
    first: Seq<Option<Payload>>,
    second: Seq<Option<Payload>>,
    n: nat,
    p: int,
)
    requires
        forall|k: int|
            0 <= k < n ==> fields_of(kind, #[trigger] reply_at(first, k)) == fields_of(
                kind,
                reply_at(second, k),
            ),
    ensures
        group_wrote_at(kind, base, first, n, p) == group_wrote_at(kind, base, second, n, p),
    decreases n,
{
    if n > 0 {
        assert(fields_of(kind, reply_at(first, n - 1)) == fields_of(kind, reply_at(second, n - 1)));
        lemma_group_wrote_congruent(kind, base, first, second, (n - 1) as nat, p);
    }
}

/// What a refresh writes depends on the replies only through the fields
/// that they decode to.
pub proof fn lemma_wrote_congruent(
    groups: Seq<SensorGroup>,
    first: Seq<Seq<Option<Payload>>>,
    second: Seq<Seq<Option<Payload>>>,
    p: int,
)
    requires
        same_fields(groups, first, second),
    ensures
        wrote_at(groups, first, p) == wrote_at(groups, second, p),
    decreases groups.len(),
{
    if groups.len() > 0 {
        let g = groups.len() - 1;
        assert forall|k: int| 0 <= k < groups[g].keys@.len() implies fields_of(
            groups[g].kind,
            #[trigger] reply_at(replies_at(first, g), k),
        ) == fields_of(groups[g].kind, reply_at(replies_at(second, g), k)) by {}
        lemma_group_wrote_congruent(
            groups[g].kind,
            group_base(groups, g) as int,
            replies_at(first, g),
            replies_at(second, g),
            groups[g].keys@.len(),
            p,
        );
        assert(same_fields(groups.drop_last(), first, second)) by {
            assert forall|h: int, k: int|
                0 <= h < groups.drop_last().len() && 0 <= k < groups.drop_last()[h].keys@.len()
                implies fields_of(
                groups.drop_last()[h].kind,
                #[trigger] reply_at(replies_at(first, h), k),
            ) == fields_of(groups.drop_last()[h].kind, reply_at(replies_at(second, h), k)) by {
                assert(groups.drop_last()[h] == groups[h]);
            }
        }
        lemma_wrote_congruent(groups.drop_last(), first, second, p);
    }
}

/// Two cycles whose replies decode to the same fields at every key leave
/// the same vector.
pub proof fn law_refresh_depends_on_fields(
    groups: Seq<SensorGroup>,
    meas: Seq<u32>,
    first: Seq<Seq<Option<Payload>>>,
    second: Seq<Seq<Option<Payload>>>,
)
    requires
        same_fields(groups, first, second),
    ensures
        refreshed(groups, meas, first) == refreshed(groups, meas, second),
{
    let a = refreshed(groups, meas, first);
    let b = refreshed(groups, meas, second);
    crate::fetch::lemma_refreshed_len(groups, meas, first);
    crate::fetch::lemma_refreshed_len(groups, meas, second);
    assert forall|p: int| 0 <= p < meas.len() implies a[p] == b[p] by {
        lemma_refreshed_at(groups, meas, first, p);
        lemma_refreshed_at(groups, meas, second, p);
        lemma_wrote_congruent(groups, first, second, p);
    }
    assert(a =~= b);
}

/// A payload that does not decode is as good as no sample: the cycle in
/// which key `k` of group `g` answered with such a payload leaves the vector
/// that it would have left had the query for that key given nothing.
pub proof fn law_undecodable_as_absent(
    groups: Seq<SensorGroup>,
    meas: Seq<u32>,
    replies: Seq<Seq<Option<Payload>>>,
    g: int,
    k: int,
    payload: Payload,
)
    requires
        0 <= g < groups.len(),
        0 <= g < replies.len(),
        0 <= k < replies[g].len(),
        fields_of(groups[g].kind, Some(payload)) is None,
    ensures
        refreshed(groups, meas, replies.update(g, replies[g].update(k, Some(payload))))
            == refreshed(groups, meas, replies.update(g, replies[g].update(k, None))),
{
    let first = replies.update(g, replies[g].update(k, Some(payload)));
    let second = replies.update(g, replies[g].update(k, None));
    assert forall|h: int, j: int|
        0 <= h < groups.len() && 0 <= j < groups[h].keys@.len() implies fields_of(
        groups[h].kind,
        #[trigger] reply_at(replies_at(first, h), j),
    ) == fields_of(groups[h].kind, reply_at(replies_at(second, h), j)) by {
        if h == g && j == k {
        } else if h == g {
            assert(reply_at(replies_at(first, h), j) == reply_at(replies[g], j));
            assert(reply_at(replies_at(second, h), j) == reply_at(replies[g], j));
        } else {
            assert(replies_at(first, h) == replies_at(replies, h));
            assert(replies_at(second, h) == replies_at(replies, h));
        }
    }
    law_refresh_depends_on_fields(groups, meas, first, second);
}

/// The decoded fields of the first `n` keys of a group, one key after the
/// other.
pub open spec fn group_fields(kind: SensorKind, replies: Seq<Option<Payload>>, n: nat) -> Seq<u32>
    decreases n,
{
    if n == 0 {
        Seq::empty()
    } else {
        group_fields(kind, replies, (n - 1) as nat) + (match fields_of(
            kind,
            reply_at(replies, n - 1),
        ) {
            Some(f) => f,
            None => Seq::empty(),
        })
    }
}

/// The decoded fields of every key of the layout: group after group in
/// declared order, and key after key within each group.
pub open spec fn all_fields(groups: Seq<SensorGroup>, replies: Seq<Seq<Option<Payload>>>) -> Seq<
    u32,
>
    decreases groups.len(),
{
    if groups.len() == 0 {
        Seq::empty()
    } else {
        let g = groups.len() - 1;
        all_fields(groups.drop_last(), replies) + group_fields(
            groups[g].kind,
            replies_at(replies, g),
            groups[g].keys@.len(),
        )
    }
}

/// Whether the sample of every key of the layout decoded.
pub open spec fn all_decoded(groups: Seq<SensorGroup>, replies: Seq<Seq<Option<Payload>>>) -> bool {
    forall|g: int, k: int|
        0 <= g < groups.len() && 0 <= k < groups[g].keys@.len() ==> fields_of(
            groups[g].kind,
            #[trigger] reply_at(replies_at(replies, g), k),
        ) is Some
}

/// Where every sample of a group decoded, fetching the group replaces its
/// window by the decoded fields in key order and leaves the rest alone.
pub proof fn lemma_group_fetched_all(
    kind: SensorKind,
    meas: Seq<u32>,
    base: int,
    replies: Seq<Option<Payload>>,
    n: nat,
)
    requires
        0 <= base,
        base + n * kind.stride() <= meas.len(),
        forall|k: int| 0 <= k < n ==> fields_of(kind, #[trigger] reply_at(replies, k)) is Some,
    ensures
        group_fields(kind, replies, n).len() == n * kind.stride(),
        group_fetched(kind, meas, base, replies, n) == meas.take(base) + group_fields(
            kind,
            replies,
            n,
        ) + meas.skip(base + n * kind.stride()),
    decreases n,
{
    let s = kind.stride() as int;
    if n == 0 {
        assert(n * s == 0) by (nonlinear_arith)
            requires
                n == 0,
        ;
        assert(meas =~= meas.take(base) + group_fields(kind, replies, n) + meas.skip(base));
    } else {
        let m = (n - 1) as nat;
        assert(n * s == m * s + s) by (nonlinear_arith)
            requires
                n == m + 1,
        ;
        assert(0 <= m * s) by (nonlinear_arith)
            requires
                0 <= m,
                0 <= s,
        ;
        lemma_group_fetched_all(kind, meas, base, replies, m);
        assert(fields_of(kind, reply_at(replies, n - 1)) is Some);
        crate::payload::lemma_fields_fill_stride(kind, reply_at(replies, n - 1));
        assert(group_fetched(kind, meas, base, replies, n) =~= meas.take(base) + group_fields(
            kind,
            replies,
            n,
        ) + meas.skip(base + n * s));
    }
}

/// Where every sample decoded, a refresh replaces the layout's part of the
/// vector by the decoded fields in declared order.
pub proof fn lemma_refreshed_all(
    groups: Seq<SensorGroup>,
    meas: Seq<u32>,
    replies: Seq<Seq<Option<Payload>>>,
)
    requires
        total_capacity(groups) <= meas.len(),
        all_decoded(groups, replies),
    ensures
        all_fields(groups, replies).len() == total_capacity(groups),
        refreshed(groups, meas, replies) == all_fields(groups, replies) + meas.skip(
            total_capacity(groups) as int,
        ),
    decreases groups.len(),
{
    if groups.len() == 0 {
        assert(meas =~= all_fields(groups, replies) + meas.skip(0));
    } else {
        let g = groups.len() - 1;
        let rest = groups.drop_last();
        assert(groups.take(g) =~= rest);
        assert(all_decoded(rest, replies)) by {
            assert forall|h: int, k: int|
                0 <= h < rest.len() && 0 <= k < rest[h].keys@.len() implies fields_of(
                rest[h].kind,
                #[trigger] reply_at(replies_at(replies, h), k),
            ) is Some by {
                assert(rest[h] == groups[h]);
            }
        }
        lemma_refreshed_all(rest, meas, replies);
        let before = refreshed(rest, meas, replies);
        let base = total_capacity(rest) as int;
        let n = groups[g].keys@.len();
        assert forall|k: int| 0 <= k < n implies fields_of(
            groups[g].kind,
            #[trigger] reply_at(replies_at(replies, g), k),
        ) is Some by {}
        lemma_group_fetched_all(groups[g].kind, before, base, replies_at(replies, g), n);
        assert(refreshed(groups, meas, replies) =~= all_fields(groups, replies) + meas.skip(
            total_capacity(groups) as int,
        ));
    }
}

/// Where every query of a cycle gave a sample that decoded, the vector after
/// the cycle is the concatenation of the decoded fields in declared order.
pub proof fn law_all_decoded_concatenation(
    groups: Seq<SensorGroup>,
    meas: Seq<u32>,
    replies: Seq<Seq<Option<Payload>>>,
)
    requires
        meas.len() == total_capacity(groups),
        all_decoded(groups, replies),
    ensures
        refreshed(groups, meas, replies) == all_fields(groups, replies),
{
    lemma_refreshed_all(groups, meas, replies);
    assert(refreshed(groups, meas, replies) =~= all_fields(groups, replies));
}

/// Away from the window of key `k`, what a group fetch writes does not
/// depend on the reply for `k`.
pub proof fn lemma_group_wrote_away(
    kind: SensorKind,
    base: int,
    first: Seq<Option<Payload>>,
    second: Seq<Option<Payload>>,
    n: nat,
    k: int,
    p: int,
)
    requires
        forall|j: int|
            0 <= j < n && j != k ==> fields_of(kind, #[trigger] reply_at(first, j)) == fields_of(
                kind,
                reply_at(second, j),
            ),
        p < base + k * kind.stride() || base + k * kind.stride() + kind.stride() <= p,
    ensures
        group_wrote_at(kind, base, first, n, p) == group_wrote_at(kind, base, second, n, p),
    decreases n,
{
    if n > 0 {
        if n - 1 != k {
            assert(fields_of(kind, reply_at(first, n - 1)) == fields_of(
                kind,
                reply_at(second, n - 1),
            ));
        } else {
            crate::payload::lemma_fields_fill_stride(kind, reply_at(first, n - 1));
            crate::payload::lemma_fields_fill_stride(kind, reply_at(second, n - 1));
        }
        lemma_group_wrote_away(kind, base, first, second, (n - 1) as nat, k, p);
    }
}

/// Whether two sets of replies decode to the same fields at every key of
/// the layout but key `k` of group `g`.
pub open spec fn same_fields_but(
    groups: Seq<SensorGroup>,
    first: Seq<Seq<Option<Payload>>>,
    second: Seq<Seq<Option<Payload>>>,
    g: int,
    k: int,
) -> bool {
    forall|h: int, j: int|
        0 <= h < groups.len() && 0 <= j < groups[h].keys@.len() && !(h == g && j == k)
            ==> fields_of(groups[h].kind, #[trigger] reply_at(replies_at(first, h), j))
            == fields_of(groups[h].kind, reply_at(replies_at(second, h), j))
}

/// Away from the window of a key, what a refresh writes does not depend on
/// the reply for that key.
pub proof fn lemma_wrote_away(
    groups: Seq<SensorGroup>,
    first: Seq<Seq<Option<Payload>>>,
    second: Seq<Seq<Option<Payload>>>,
    g: int,
    k: int,
    p: int,
)
    requires
        0 <= g < groups.len(),
        same_fields_but(groups, first, second, g, k),
        p < key_offset(groups, g, k) || key_offset(groups, g, k) + groups[g].kind.stride() <= p,
    ensures
        wrote_at(groups, first, p) == wrote_at(groups, second, p),
    decreases groups.len(),
{
    let last = groups.len() - 1;
    let rest = groups.drop_last();
    if g == last {
        assert forall|j: int| 0 <= j < groups[last].keys@.len() && j != k implies fields_of(
            groups[last].kind,
            #[trigger] reply_at(replies_at(first, last), j),
        ) == fields_of(groups[last].kind, reply_at(replies_at(second, last), j)) by {}
        lemma_group_wrote_away(
            groups[last].kind,
            group_base(groups, last) as int,
            replies_at(first, last),
            replies_at(second, last),
            groups[last].keys@.len(),
            k,
            p,
        );
        assert(same_fields(rest, first, second)) by {
            assert forall|h: int, j: int|
                0 <= h < rest.len() && 0 <= j < rest[h].keys@.len() implies fields_of(
                rest[h].kind,
                #[trigger] reply_at(replies_at(first, h), j),
            ) == fields_of(rest[h].kind, reply_at(replies_at(second, h), j)) by {
                assert(rest[h] == groups[h]);
            }
        }
        lemma_wrote_congruent(rest, first, second, p);
    } else {
        assert forall|j: int| 0 <= j < groups[last].keys@.len() implies fields_of(
            groups[last].kind,
            #[trigger] reply_at(replies_at(first, last), j),
        ) == fields_of(groups[last].kind, reply_at(replies_at(second, last), j)) by {}
        lemma_group_wrote_congruent(
            groups[last].kind,
            group_base(groups, last) as int,
            replies_at(first, last),
            replies_at(second, last),
            groups[last].keys@.len(),
            p,
        );
        assert(same_fields_but(rest, first, second, g, k)) by {
            assert forall|h: int, j: int|
                0 <= h < rest.len() && 0 <= j < rest[h].keys@.len() && !(h == g && j == k)
                implies fields_of(rest[h].kind, #[trigger] reply_at(replies_at(first, h), j))
                == fields_of(rest[h].kind, reply_at(replies_at(second, h), j)) by {
                assert(rest[h] == groups[h]);
            }
        }
        assert(rest.take(g) =~= groups.take(g));
        lemma_wrote_away(rest, first, second, g, k, p);
    }
}

/// A cycle can be taken one reply at a time: where the replies `more` differ
/// from `replies` only in that key `k` of group `g`, unanswered in
/// `replies`, has its reply in `more`, refreshing with `more` is refreshing
/// with `replies` and then writing that one reply's fields into the window
/// of the key.
pub proof fn law_refresh_reply_by_reply(
    groups: Seq<SensorGroup>,
    meas: Seq<u32>,
    replies: Seq<Seq<Option<Payload>>>,
    more: Seq<Seq<Option<Payload>>>,
    g: int,
    k: int,
)
    requires
        meas.len() == total_capacity(groups),
        0 <= g < groups.len(),
        0 <= k < groups[g].keys@.len(),
        fields_of(groups[g].kind, reply_at(replies_at(replies, g), k)) is None,
        same_fields_but(groups, more, replies, g, k),
    ensures
        refreshed(groups, meas, more) == crate::payload::written(
            refreshed(groups, meas, replies),
            key_offset(groups, g, k),
            fields_of(groups[g].kind, reply_at(replies_at(more, g), k)),
        ),
{
    let kind = groups[g].kind;
    let offset = key_offset(groups, g, k);
    let fields = fields_of(kind, reply_at(replies_at(more, g), k));
    let before = refreshed(groups, meas, replies);
    let after = refreshed(groups, meas, more);
    let target = crate::payload::written(before, offset, fields);
    crate::fetch::lemma_refreshed_len(groups, meas, replies);
    crate::fetch::lemma_refreshed_len(groups, meas, more);
    crate::payload::lemma_fields_fill_stride(kind, reply_at(replies_at(more, g), k));
    law_key_window_in_bounds(groups, g, k);
    assert forall|p: int| 0 <= p < meas.len() implies after[p] == target[p] by {
        lemma_refreshed_at(groups, meas, replies, p);
        lemma_refreshed_at(groups, meas, more, p);
        if offset <= p < offset + kind.stride() {
            lemma_wrote_at_key(groups, replies, g, k, p - offset);
            lemma_wrote_at_key(groups, more, g, k, p - offset);
        } else {
            lemma_wrote_away(groups, more, replies, g, k, p);
        }
    }
    assert(after =~= target);
}

/// A cycle in which no query gives a sample that decodes leaves the vector
/// as it was.
pub proof fn law_refresh_without_samples(
    groups: Seq<SensorGroup>,
    meas: Seq<u32>,
    replies: Seq<Seq<Option<Payload>>>,
)
    requires
        same_fields(groups, replies, Seq::empty()),
    ensures
        refreshed(groups, meas, replies) == meas,
{
    law_refresh_depends_on_fields(groups, meas, replies, Seq::empty());
    lemma_refreshed_idle(groups, meas);
}

/// Without replies a refresh is the identity.
pub proof fn lemma_refreshed_idle(groups: Seq<SensorGroup>, meas: Seq<u32>)
    ensures
        refreshed(groups, meas, Seq::empty()) == meas,
    decreases groups.len(),
{
    if groups.len() > 0 {
        let g = groups.len() - 1;
        lemma_refreshed_idle(groups.drop_last(), meas);
        lemma_group_fetched_idle(
            groups[g].kind,
            meas,
            group_base(groups, g) as int,
            groups[g].keys@.len(),
        );
    }
}

/// Without replies a group fetch is the identity.
pub proof fn lemma_group_fetched_idle(kind: SensorKind, meas: Seq<u32>, base: int, n: nat)
    ensures
        group_fetched(kind, meas, base, Seq::empty(), n) == meas,
    decreases n,
{
    if n > 0 {
        lemma_group_fetched_idle(kind, meas, base, (n - 1) as nat);
    }
}

} // verus!
