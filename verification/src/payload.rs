//! Payload decoders: one per kind of sensor. A decoder takes a payload as
//! it reads under the sensor's wire schema and writes its fields into the
//! sensor's window of the measurement vector. A payload that does not decode
//! leaves the vector as it was.

use vstd::prelude::*;

use crate::layout::SensorKind;

verus! {

/// A triple of single-precision numbers, as bit patterns.
#[derive(Clone, Copy, Debug, PartialEq, Eq, Structural)]
pub struct Vec3 {
    pub x: u32,
    pub y: u32,
    pub z: u32,
}

/// An IMU table. The acceleration is an optional member of the schema.
#[derive(Clone, Copy, Debug, PartialEq, Eq)]
pub struct Imu {
    pub acceleration: Option<Vec3>,
}

/// A gyroscope table: the angular rate about each axis, as bit patterns.
#[derive(Clone, Copy, Debug, PartialEq, Eq, Structural)]
pub struct Gyro {
    pub omega_x: u32,
    pub omega_y: u32,
    pub omega_z: u32,
}

/// An altimeter table: the altitude, as a bit pattern.
#[derive(Clone, Copy, Debug, PartialEq, Eq, Structural)]
pub struct Altitude {
    pub altitude: u32,
}

/// A payload as it reads under a sensor's schema.
#[derive(Clone, Copy, Debug, PartialEq, Eq)]
pub enum Payload {
    /// The bytes failed the schema's validation.
    Malformed,
    Imu(Imu),
    Gyro(Gyro),
    Altitude(Altitude),
}

/// The fields that a sensor of kind `kind` contributes when its query gave
/// `sample`, in the order in which they are written. There are none where
/// the query gave no sample, where the payload is malformed or of another
/// kind, and where an IMU table carries no acceleration.
pub open spec fn fields_of(kind: SensorKind, sample: Option<Payload>) -> Option<Seq<u32>> {
    match (kind, sample) {
        (SensorKind::Imu, Some(Payload::Imu(Imu { acceleration: Some(a) }))) => Some(
            seq![a.x, a.y, a.z],
        ),
        (SensorKind::Gyro, Some(Payload::Gyro(g))) => Some(seq![g.omega_x, g.omega_y, g.omega_z]),
        (SensorKind::Altimeter, Some(Payload::Altitude(a))) => Some(seq![a.altitude]),
        _ => None,
    }
}

/// The vector `meas` after `fields` were written from offset `idx` on; the
/// vector itself where there are no fields to write.
pub open spec fn written(meas: Seq<u32>, idx: int, fields: Option<Seq<u32>>) -> Seq<u32> {
    match fields {
        Some(f) => Seq::new(
            meas.len(),
            |p: int|
                if idx <= p < idx + f.len() {
                    f[p - idx]
                } else {
                    meas[p]
                },
        ),
        None => meas,
    }
}

/// Decoded fields are as many as the stride of the sensor's kind.
pub proof fn lemma_fields_fill_stride(kind: SensorKind, sample: Option<Payload>)
    ensures
        fields_of(kind, sample) matches Some(f) ==> f.len() == kind.stride(),
{
}

/// Decodes an acceleration sample into `meas[idx..idx + 3]`.
pub fn parse_imu(payload: &Payload, meas: &mut Vec<u32>, idx: usize)
    requires
        fields_of(SensorKind::Imu, Some(*payload)) is Some ==> idx + 3 <= old(meas).len(),
    ensures
        final(meas)@ == written(
            old(meas)@,
            idx as int,
            fields_of(SensorKind::Imu, Some(*payload)),
        ),
{
    if let Payload::Imu(imu_data) = payload {
        if let Some(accel) = imu_data.acceleration {
            meas.set(idx, accel.x);
            meas.set(idx + 1, accel.y);
            meas.set(idx + 2, accel.z);
        }
    }
}

/// Decodes an angular-rate sample into `meas[idx..idx + 3]`.
pub fn parse_gyro(payload: &Payload, meas: &mut Vec<u32>, idx: usize)
    requires
        fields_of(SensorKind::Gyro, Some(*payload)) is Some ==> idx + 3 <= old(meas).len(),
    ensures
        final(meas)@ == written(
            old(meas)@,
            idx as int,
            fields_of(SensorKind::Gyro, Some(*payload)),
        ),
{
    if let Payload::Gyro(gyro_data) = payload {
        meas.set(idx, gyro_data.omega_x);
        meas.set(idx + 1, gyro_data.omega_y);
        meas.set(idx + 2, gyro_data.omega_z);
    }
}

/// Decodes an altitude sample into `meas[idx]`.
pub fn parse_altitude(payload: &Payload, meas: &mut Vec<u32>, idx: usize)
    requires
        fields_of(SensorKind::Altimeter, Some(*payload)) is Some ==> idx < old(meas).len(),
    ensures
        final(meas)@ == written(
            old(meas)@,
            idx as int,
            fields_of(SensorKind::Altimeter, Some(*payload)),
        ),
{
    if let Payload::Altitude(altitude_data) = payload {
        meas.set(idx, altitude_data.altitude);
    }
}

/// Applies what a query for a sensor of kind `kind` gave: the decoder of
/// that kind where there is a sample, nothing where there is none.
pub fn parse(kind: SensorKind, sample: &Option<Payload>, meas: &mut Vec<u32>, idx: usize)
    requires
        fields_of(kind, *sample) is Some ==> idx + kind.stride() <= old(meas).len(),
    ensures
        final(meas)@ == written(old(meas)@, idx as int, fields_of(kind, *sample)),
{
    if let Some(payload) = sample {
        match kind {
            SensorKind::Imu => parse_imu(payload, meas, idx),
            SensorKind::Gyro => parse_gyro(payload, meas, idx),
            SensorKind::Altimeter => parse_altitude(payload, meas, idx),
        }
    }
}

} // verus!
