//! The sensor layout registry: which groups of sensors exist, how many fields
//! each sensor contributes, and where those fields sit in the measurement
//! vector.

use vstd::prelude::*;
use vstd::string::*;

verus! {

/// Length of the measurement vector of the reference suite:
/// three IMUs, two gyroscopes and four altimeters.
pub const N_FLOATS: usize = 3 * 3 + 2 * 3 + 4 * 1;

/// Clock period of the reference suite, in milliseconds.
pub const CLOCK_PER: u64 = 10;

/// Namespace under which every sensor publishes.
pub const BASE_SENSOR_KEY: &'static str = "devices/";

/// The fully-qualified key of a sensor: the namespace, then its short name.
pub fn full_key(short: &str) -> (key: String)
    ensures
        key@ == BASE_SENSOR_KEY@ + short@,
{
    String::from_str(BASE_SENSOR_KEY).concat(short)
}

/// The kind of a sensor, which selects both the schema of its payload and the
/// decoder for it.
#[derive(Clone, Copy, Debug, PartialEq, Eq, Structural)]
pub enum SensorKind {
    /// Reports an acceleration triple.
    Imu,
    /// Reports an angular-rate triple.
    Gyro,
    /// Reports a scalar altitude.
    Altimeter,
}

impl SensorKind {
    /// Number of fields that one sensor of this kind contributes.
    pub open spec fn spec_stride(self) -> usize {
        match self {
            SensorKind::Imu => 3,
            SensorKind::Gyro => 3,
            SensorKind::Altimeter => 1,
        }
    }

    /// Number of fields that one sensor of this kind contributes.
    #[verifier::when_used_as_spec(spec_stride)]
    pub fn stride(self) -> (s: usize)
        ensures
            s == self.spec_stride(),
    {
        match self {
            SensorKind::Imu => 3,
            SensorKind::Gyro => 3,
            SensorKind::Altimeter => 1,
        }
    }
}

/// A homogeneous set of sensors: they share a kind, and each is known by a
/// short key name. The order of the keys is the order of their fields in the
/// measurement vector.
#[derive(Clone, Debug, PartialEq, Eq)]
pub struct SensorGroup {
    pub kind: SensorKind,
    pub keys: Vec<String>,
}

impl SensorGroup {
    /// Whether this is the group of kind `kind` whose keys are `names`, in
    /// that order.
    pub open spec fn is_named(&self, kind: SensorKind, names: Seq<&str>) -> bool {
        &&& self.kind == kind
        &&& self.keys@.len() == names.len()
        &&& forall|i: int| 0 <= i < names.len() ==> (#[trigger] self.keys@[i])@ == names[i]@
    }

    /// The group of kind `kind` with one sensor for each of `names`.
    pub fn named(kind: SensorKind, names: &Vec<&str>) -> (group: SensorGroup)
        ensures
            group.is_named(kind, names@),
    {
        let mut keys: Vec<String> = Vec::new();
        let mut i: usize = 0;
        while i < names.len()
            invariant
                i <= names.len(),
                keys@.len() == i,
                forall|j: int| 0 <= j < i ==> (#[trigger] keys@[j])@ == names@[j]@,
            decreases names.len() - i,
        {
            keys.push(String::from_str(names[i]));
            i += 1;
        }
        SensorGroup { kind, keys }
    }

    /// Number of fields that the group occupies: one stride for each key.
    pub open spec fn capacity(&self) -> nat {
        (self.keys@.len() * self.kind.stride()) as nat
    }
}

/// Number of fields that `groups` occupy together.
pub open spec fn total_capacity(groups: Seq<SensorGroup>) -> nat
    decreases groups.len(),
{
    if groups.len() == 0 {
        0
    } else {
        total_capacity(groups.drop_last()) + groups.last().capacity()
    }
}

/// Offset of the first field of group `g`: the groups before it are laid out
/// back to back from offset 0.
pub open spec fn group_base(groups: Seq<SensorGroup>, g: int) -> nat {
    total_capacity(groups.take(g))
}

/// Offset of the first field of key `k` of group `g`.
pub open spec fn key_offset(groups: Seq<SensorGroup>, g: int, k: int) -> int {
    group_base(groups, g) + k * groups[g].kind.stride()
}

/// The groups up to and including `g` occupy what the groups before `g`
/// occupy, and the capacity of `g` on top.
pub proof fn lemma_group_base_step(groups: Seq<SensorGroup>, g: int)
    requires
        0 <= g < groups.len(),
    ensures
        group_base(groups, g + 1) == group_base(groups, g) + groups[g].capacity(),
{
    assert(groups.take(g + 1).drop_last() =~= groups.take(g));
}

/// Bases grow along the layout.
pub proof fn lemma_group_base_monotonic(groups: Seq<SensorGroup>, g: int, h: int)
    requires
        0 <= g <= h <= groups.len(),
    ensures
        group_base(groups, g) <= group_base(groups, h),
    decreases h - g,
{
    if g < h {
        lemma_group_base_monotonic(groups, g, h - 1);
        lemma_group_base_step(groups, h - 1);
    }
}

/// The registry: the groups of a sensor suite in their declared order,
/// together with the length of the measurement vector that holds them.
#[derive(Debug)]
pub struct Layout {
    groups: Vec<SensorGroup>,
    capacity: usize,
}

impl Layout {
    #[verifier::type_invariant]
    spec fn inv(&self) -> bool {
        self.capacity == total_capacity(self.groups@)
    }

    /// The groups in declared order.
    pub closed spec fn groups(&self) -> Seq<SensorGroup> {
        self.groups@
    }

    /// Registers `groups` in the given order. A suite whose fields cannot be
    /// counted in a `usize` has no measurement vector and is refused.
    pub fn new(groups: Vec<SensorGroup>) -> (r: Option<Layout>)
        ensures
            r is Some <==> total_capacity(groups@) <= usize::MAX,
            r matches Some(l) ==> l.groups() == groups@,
    {
        let mut total: usize = 0;
        let mut i: usize = 0;
        while i < groups.len()
            invariant
                i <= groups.len(),
                total == group_base(groups@, i as int),
            decreases groups.len() - i,
        {
            proof {
                lemma_group_base_step(groups@, i as int);
                lemma_group_base_monotonic(groups@, i as int + 1, groups@.len() as int);
                assert(groups@.take(groups@.len() as int) =~= groups@);
            }
            let group = &groups[i];
            let size = match group.keys.len().checked_mul(group.kind.stride()) {
                Some(size) => size,
                None => {
                    return None;
                },
            };
            total = match total.checked_add(size) {
                Some(sum) => sum,
                None => {
                    return None;
                },
            };
            i += 1;
        }
        proof {
            assert(groups@.take(groups@.len() as int) =~= groups@);
        }
        Some(Layout { groups, capacity: total })
    }

    /// The reference suite: IMUs first, then gyroscopes, then altimeters.
    pub fn reference() -> (l: Layout)
        ensures
            l.groups().len() == 3,
            l.groups()[0].is_named(SensorKind::Imu, seq!["imu0", "imu1", "imu2"]),
            l.groups()[1].is_named(SensorKind::Gyro, seq!["gyro0", "gyro1"]),
            l.groups()[2].is_named(
                SensorKind::Altimeter,
                seq!["altitude0", "altitude1", "altitude2", "altitude3"],
            ),
            total_capacity(l.groups()) == N_FLOATS,
    {
        let imus = SensorGroup::named(SensorKind::Imu, &vec!["imu0", "imu1", "imu2"]);
        let gyros = SensorGroup::named(SensorKind::Gyro, &vec!["gyro0", "gyro1"]);
        let altimeters = SensorGroup::named(
            SensorKind::Altimeter,
            &vec!["altitude0", "altitude1", "altitude2", "altitude3"],
        );
        let groups = vec![imus, gyros, altimeters];
        proof {
            lemma_group_base_step(groups@, 0);
            lemma_group_base_step(groups@, 1);
            lemma_group_base_step(groups@, 2);
            assert(groups@.take(3) =~= groups@);
            assert(groups@.take(0) =~= Seq::<SensorGroup>::empty());
        }
        match Layout::new(groups) {
            Some(layout) => layout,
            None => vstd::pervasive::unreached(),
        }
    }

    /// The groups of a layout can be counted in a `usize`.
    pub proof fn lemma_group_count_fits(&self)
        ensures
            self.groups().len() <= usize::MAX,
    {
        assert(self.groups@.len() == self.groups.len());
    }

    /// Length of the measurement vector.
    pub fn capacity(&self) -> (n: usize)
        ensures
            n == total_capacity(self.groups()),
    {
        proof {
            use_type_invariant(self);
        }
        self.capacity
    }

    /// Number of groups.
    pub fn group_count(&self) -> (n: usize)
        ensures
            n == self.groups().len(),
    {
        self.groups.len()
    }

    /// The group at position `g` of the declared order.
    pub fn group(&self, g: usize) -> (group: &SensorGroup)
        requires
            g < self.groups().len(),
        ensures
            *group == self.groups()[g as int],
    {
        &self.groups[g]
    }
}

} // verus!
