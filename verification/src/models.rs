//! Data carried between the store, the query engine and its callers.
//!
//! Measurements (coordinates, speeds, angles, voltages) are values of a type
//! parameter `V`. The engine copies, selects, groups and orders them and never
//! computes with them; where a result needs arithmetic on measurements the
//! caller passes the operation in.

use vstd::prelude::*;

verus! {

/// One flight as it is written to the registry.
///
/// `start_time` and `end_time` are milliseconds since the Unix epoch.
#[derive(Debug, Clone)]
pub struct FlightMetadata<V> {
    pub id: i64,
    pub file_name: String,
    pub display_name: String,
    pub file_hash: Option<String>,
    pub drone_model: Option<String>,
    pub drone_serial: Option<String>,
    pub aircraft_name: Option<String>,
    pub battery_serial: Option<String>,
    pub start_time: Option<i64>,
    pub end_time: Option<i64>,
    pub duration_secs: Option<V>,
    pub total_distance: Option<V>,
    pub max_altitude: Option<V>,
    pub max_speed: Option<V>,
    pub home_lat: Option<V>,
    pub home_lon: Option<V>,
    pub point_count: i32,
}

/// One flight as the flight list shows it.
#[derive(Debug, Clone)]
pub struct Flight<V> {
    pub id: i64,
    pub file_name: String,
    pub display_name: String,
    pub drone_model: Option<String>,
    pub drone_serial: Option<String>,
    pub aircraft_name: Option<String>,
    pub battery_serial: Option<String>,
    pub start_time: Option<i64>,
    pub duration_secs: Option<V>,
    pub total_distance: Option<V>,
    pub max_altitude: Option<V>,
    pub max_speed: Option<V>,
    pub point_count: Option<i32>,
}

/// One sample of a flight, as it is stored.
#[derive(Debug, Clone)]
pub struct TelemetryPoint<V> {
    /// Milliseconds since the start of the flight.
    pub timestamp_ms: i64,
    pub latitude: Option<V>,
    pub longitude: Option<V>,
    pub altitude: Option<V>,
    pub height: Option<V>,
    pub vps_height: Option<V>,
    pub altitude_abs: Option<V>,
    pub speed: Option<V>,
    pub velocity_x: Option<V>,
    pub velocity_y: Option<V>,
    pub velocity_z: Option<V>,
    pub pitch: Option<V>,
    pub roll: Option<V>,
    pub yaw: Option<V>,
    pub gimbal_pitch: Option<V>,
    pub gimbal_roll: Option<V>,
    pub gimbal_yaw: Option<V>,
    pub battery_percent: Option<i32>,
    pub battery_voltage: Option<V>,
    pub battery_current: Option<V>,
    pub battery_temp: Option<V>,
    pub flight_mode: Option<String>,
    pub gps_signal: Option<i32>,
    pub satellites: Option<i32>,
    pub rc_signal: Option<i32>,
}

/// One sample, or one bucket of samples, as a chart shows it.
#[derive(Debug, Clone)]
pub struct TelemetryRecord<V> {
    pub timestamp_ms: i64,
    pub latitude: Option<V>,
    pub longitude: Option<V>,
    pub altitude: Option<V>,
    pub height: Option<V>,
    pub vps_height: Option<V>,
    pub speed: Option<V>,
    pub battery_percent: Option<i32>,
    pub battery_voltage: Option<V>,
    pub battery_temp: Option<V>,
    pub pitch: Option<V>,
    pub roll: Option<V>,
    pub yaw: Option<V>,
    pub satellites: Option<i32>,
    pub flight_mode: Option<String>,
    pub rc_signal: Option<i32>,
}

/// The measurement fields of a [`TelemetryRecord`].
#[derive(Debug, Clone, Copy, PartialEq, Eq, Structural)]
pub enum Channel {
    Latitude,
    Longitude,
    Altitude,
    Height,
    VpsHeight,
    Speed,
    BatteryVoltage,
    BatteryTemp,
    Pitch,
    Roll,
    Yaw,
}

/// The small-integer fields of a [`TelemetryRecord`].
#[derive(Debug, Clone, Copy, PartialEq, Eq, Structural)]
pub enum Gauge {
    BatteryPercent,
    Satellites,
    RcSignal,
}

/// How many flights used one battery.
#[derive(Debug, Clone)]
pub struct BatteryUsage {
    pub battery_serial: String,
    pub flight_count: i64,
}

/// Totals over every flight in the registry.
#[derive(Debug, Clone)]
pub struct OverviewStats<V> {
    pub total_flights: i64,
    pub total_distance_m: V,
    pub total_duration_secs: V,
    pub total_points: i64,
    pub batteries_used: Vec<BatteryUsage>,
}

/// Parallel series over one time axis, one entry per record.
#[derive(Debug, Clone)]
pub struct TelemetryData<V> {
    /// Milliseconds from the first record.
    pub time_ms: Vec<i64>,
    pub altitude: Vec<Option<V>>,
    pub height: Vec<Option<V>>,
    pub vps_height: Vec<Option<V>>,
    pub speed: Vec<Option<V>>,
    pub battery: Vec<Option<i32>>,
    pub battery_voltage: Vec<Option<V>>,
    pub battery_temp: Vec<Option<V>>,
    pub satellites: Vec<Option<i32>>,
    pub rc_signal: Vec<Option<i32>>,
    pub pitch: Vec<Option<V>>,
    pub roll: Vec<Option<V>>,
    pub yaw: Vec<Option<V>>,
}

/// Everything one flight's page shows.
#[derive(Debug, Clone)]
pub struct FlightDataResponse<V> {
    pub flight: Flight<V>,
    pub telemetry: TelemetryData<V>,
    /// Longitude, latitude and altitude of each kept position.
    pub track: Vec<[V; 3]>,
}

/// Figures derived from the samples of one flight.
#[derive(Debug, Clone)]
pub struct FlightStats<V> {
    pub duration_secs: V,
    pub total_distance_m: V,
    pub max_altitude_m: V,
    pub max_speed_ms: V,
    pub avg_speed_ms: V,
    pub min_battery: i32,
    /// Longitude and latitude of the first position fix.
    pub home_location: Option<[V; 2]>,
}

impl<V> TelemetryPoint<V> {
    /// The sample carries both a latitude and a longitude.
    pub open spec fn has_position(self) -> bool {
        self.latitude is Some && self.longitude is Some
    }

    /// The chart record of this sample: the same values, field by field.
    pub open spec fn record(self) -> TelemetryRecord<V> {
        TelemetryRecord {
            timestamp_ms: self.timestamp_ms,
            latitude: self.latitude,
            longitude: self.longitude,
            altitude: self.altitude,
            height: self.height,
            vps_height: self.vps_height,
            speed: self.speed,
            battery_percent: self.battery_percent,
            battery_voltage: self.battery_voltage,
            battery_temp: self.battery_temp,
            pitch: self.pitch,
            roll: self.roll,
            yaw: self.yaw,
            satellites: self.satellites,
            flight_mode: self.flight_mode,
            rc_signal: self.rc_signal,
        }
    }
}

impl<V> TelemetryRecord<V> {
    /// The value of one measurement field.
    pub open spec fn channel(self, c: Channel) -> Option<V> {
        match c {
            Channel::Latitude => self.latitude,
            Channel::Longitude => self.longitude,
            Channel::Altitude => self.altitude,
            Channel::Height => self.height,
            Channel::VpsHeight => self.vps_height,
            Channel::Speed => self.speed,
            Channel::BatteryVoltage => self.battery_voltage,
            Channel::BatteryTemp => self.battery_temp,
            Channel::Pitch => self.pitch,
            Channel::Roll => self.roll,
            Channel::Yaw => self.yaw,
        }
    }

    /// The value of one small-integer field.
    pub open spec fn gauge(self, g: Gauge) -> Option<i32> {
        match g {
            Gauge::BatteryPercent => self.battery_percent,
            Gauge::Satellites => self.satellites,
            Gauge::RcSignal => self.rc_signal,
        }
    }
}

/// The timestamps of `records` strictly ascend.
pub open spec fn strictly_ascending<V>(records: Seq<TelemetryRecord<V>>) -> bool {
    forall|i: int, j: int|
        0 <= i < j < records.len() ==> records[i].timestamp_ms < records[j].timestamp_ms
}

/// The time axis of `records`: each timestamp less the first one.
pub open spec fn relative_times<V>(records: Seq<TelemetryRecord<V>>) -> Seq<int> {
    Seq::new(records.len(), |i: int| records[i].timestamp_ms - records[0].timestamp_ms)
}

/// Every entry of the time axis of `records` fits in an `i64`.
pub open spec fn time_axis_fits<V>(records: Seq<TelemetryRecord<V>>) -> bool {
    forall|i: int|
        0 <= i < records.len() ==> i64::MIN <= #[trigger] relative_times(records)[i] <= i64::MAX
}

/// One measurement field of every record, in order.
pub open spec fn channel_series<V>(records: Seq<TelemetryRecord<V>>, c: Channel) -> Seq<
    Option<V>,
> {
    Seq::new(records.len(), |i: int| records[i].channel(c))
}

/// One small-integer field of every record, in order.
pub open spec fn gauge_series<V>(records: Seq<TelemetryRecord<V>>, g: Gauge) -> Seq<Option<i32>> {
    Seq::new(records.len(), |i: int| records[i].gauge(g))
}

impl<V: Copy> TelemetryRecord<V> {
    /// Reads one measurement field.
    pub fn get_channel(&self, c: Channel) -> (value: Option<V>)
        ensures
            value == self.channel(c),
    {
        match c {
            Channel::Latitude => self.latitude,
            Channel::Longitude => self.longitude,
            Channel::Altitude => self.altitude,
            Channel::Height => self.height,
            Channel::VpsHeight => self.vps_height,
            Channel::Speed => self.speed,
            Channel::BatteryVoltage => self.battery_voltage,
            Channel::BatteryTemp => self.battery_temp,
            Channel::Pitch => self.pitch,
            Channel::Roll => self.roll,
            Channel::Yaw => self.yaw,
        }
    }

    /// Reads one small-integer field.
    pub fn get_gauge(&self, g: Gauge) -> (value: Option<i32>)
        ensures
            value == self.gauge(g),
    {
        match g {
            Gauge::BatteryPercent => self.battery_percent,
            Gauge::Satellites => self.satellites,
            Gauge::RcSignal => self.rc_signal,
        }
    }
}

/// Copies an optional text.
pub fn clone_text(text: &Option<String>) -> (copy: Option<String>)
    ensures
        copy == *text,
{
    match text {
        Some(s) => Some(s.clone()),
        None => None,
    }
}

impl<V: Copy> TelemetryPoint<V> {
    /// Builds the chart record of this sample.
    pub fn to_record(&self) -> (r: TelemetryRecord<V>)
        ensures
            r == self.record(),
    {
        TelemetryRecord {
            timestamp_ms: self.timestamp_ms,
            latitude: self.latitude,
            longitude: self.longitude,
            altitude: self.altitude,
            height: self.height,
            vps_height: self.vps_height,
            speed: self.speed,
            battery_percent: self.battery_percent,
            battery_voltage: self.battery_voltage,
            battery_temp: self.battery_temp,
            pitch: self.pitch,
            roll: self.roll,
            yaw: self.yaw,
            satellites: self.satellites,
            flight_mode: clone_text(&self.flight_mode),
            rc_signal: self.rc_signal,
        }
    }
}

/// Copies one measurement field out of every record.
fn collect_channel<V: Copy>(records: &[TelemetryRecord<V>], c: Channel) -> (series: Vec<Option<V>>)
    ensures
        series@ == channel_series(records@, c),
{
    let mut series: Vec<Option<V>> = Vec::new();
    let mut i: usize = 0;
    while i < records.len()
        invariant
            i <= records.len(),
            series.len() == i,
            forall|k: int| 0 <= k < i ==> series[k] == records[k].channel(c),
        decreases records.len() - i,
    {
        series.push(records[i].get_channel(c));
        i += 1;
    }
    assert(series@ =~= channel_series(records@, c));
    series
}

/// Copies one small-integer field out of every record.
fn collect_gauge<V: Copy>(records: &[TelemetryRecord<V>], g: Gauge) -> (series: Vec<Option<i32>>)
    ensures
        series@ == gauge_series(records@, g),
{
    let mut series: Vec<Option<i32>> = Vec::new();
    let mut i: usize = 0;
    while i < records.len()
        invariant
            i <= records.len(),
            series.len() == i,
            forall|k: int| 0 <= k < i ==> series[k] == records[k].gauge(g),
        decreases records.len() - i,
    {
        series.push(records[i].get_gauge(g));
        i += 1;
    }
    assert(series@ =~= gauge_series(records@, g));
    series
}

/// `data` holds `records` as parallel series: the time axis and one entry of
/// every series for each record, in the records' order.
pub open spec fn is_telemetry_data<V>(
    records: Seq<TelemetryRecord<V>>,
    data: TelemetryData<V>,
) -> bool {
    &&& data.time_ms@.len() == records.len()
    &&& forall|i: int|
        0 <= i < records.len() ==> #[trigger] data.time_ms@[i] == relative_times(records)[i]
    &&& data.altitude@ == channel_series(records, Channel::Altitude)
    &&& data.height@ == channel_series(records, Channel::Height)
    &&& data.vps_height@ == channel_series(records, Channel::VpsHeight)
    &&& data.speed@ == channel_series(records, Channel::Speed)
    &&& data.battery@ == gauge_series(records, Gauge::BatteryPercent)
    &&& data.battery_voltage@ == channel_series(records, Channel::BatteryVoltage)
    &&& data.battery_temp@ == channel_series(records, Channel::BatteryTemp)
    &&& data.satellites@ == gauge_series(records, Gauge::Satellites)
    &&& data.rc_signal@ == gauge_series(records, Gauge::RcSignal)
    &&& data.pitch@ == channel_series(records, Channel::Pitch)
    &&& data.roll@ == channel_series(records, Channel::Roll)
    &&& data.yaw@ == channel_series(records, Channel::Yaw)
}

impl<V: Copy> TelemetryData<V> {
    /// Reshapes records into parallel series over one time axis.
    ///
    /// The axis counts milliseconds from the first record, so its first entry
    /// is zero; every series has one entry per record, in the records' order,
    /// absent where the record has no value.
    pub fn from_records(records: &[TelemetryRecord<V>]) -> (data: TelemetryData<V>)
        requires
            time_axis_fits(records@),
        ensures
            is_telemetry_data(records@, data),
    {
        let mut time_ms: Vec<i64> = Vec::new();
        let mut i: usize = 0;
        while i < records.len()
            invariant
                i <= records.len(),
                time_ms.len() == i,
                time_axis_fits(records@),
                forall|k: int| 0 <= k < i ==> #[trigger] time_ms[k] == relative_times(records@)[k],
            decreases records.len() - i,
        {
            assert(i64::MIN <= relative_times(records@)[i as int] <= i64::MAX);
            time_ms.push(records[i].timestamp_ms - records[0].timestamp_ms);
            i += 1;
        }
        TelemetryData {
            time_ms,
            altitude: collect_channel(records, Channel::Altitude),
            height: collect_channel(records, Channel::Height),
            vps_height: collect_channel(records, Channel::VpsHeight),
            speed: collect_channel(records, Channel::Speed),
            battery: collect_gauge(records, Gauge::BatteryPercent),
            battery_voltage: collect_channel(records, Channel::BatteryVoltage),
            battery_temp: collect_channel(records, Channel::BatteryTemp),
            satellites: collect_gauge(records, Gauge::Satellites),
            rc_signal: collect_gauge(records, Gauge::RcSignal),
            pitch: collect_channel(records, Channel::Pitch),
            roll: collect_channel(records, Channel::Roll),
            yaw: collect_channel(records, Channel::Yaw),
        }
    }
}

/// What an import came to.
#[derive(Debug, Clone)]
pub struct ImportResult {
    pub success: bool,
    pub flight_id: Option<i64>,
    pub message: String,
    pub point_count: usize,
}

} // verus!
