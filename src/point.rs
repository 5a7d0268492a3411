use vstd::prelude::*;

verus! {

/// Largest number of measurements kept for one location (2^40). A point
/// takes more than 56 bytes, so a location this full would need over 56 TiB
/// of memory; below it every sum of the statistics fits in 128 bits.
pub const MAX_POINTS: u64 = 1099511627776;

/// One measurement. Every quantity but the timestamp is a fixed-point
/// number in hundredths of its unit (a temperature of `2150` is 21.50 degrees).
#[derive(Clone, Debug)]
pub struct WeatherDataPoint {
    pub timestamp: i64,
    pub location: String,
    pub temperature: i32,
    pub humidity: i32,
    pub pressure: i32,
    pub wind_speed: i32,
    pub wind_direction: i32,
    pub precipitation: i32,
}

/// The quantities of a measurement that are aggregated.
pub enum Field {
    Temperature,
    Humidity,
    Pressure,
    WindSpeed,
    Precipitation,
}

pub open spec fn field_value(p: WeatherDataPoint, f: Field) -> int {
    match f {
        Field::Temperature => p.temperature as int,
        Field::Humidity => p.humidity as int,
        Field::Pressure => p.pressure as int,
        Field::WindSpeed => p.wind_speed as int,
        Field::Precipitation => p.precipitation as int,
    }
}

impl WeatherDataPoint {
    /// A field-for-field copy of the measurement.
    pub fn duplicate(&self) -> (r: WeatherDataPoint)
        ensures
            r == *self,
    {
        WeatherDataPoint {
            timestamp: self.timestamp,
            location: self.location.clone(),
            temperature: self.temperature,
            humidity: self.humidity,
            pressure: self.pressure,
            wind_speed: self.wind_speed,
            wind_direction: self.wind_direction,
            precipitation: self.precipitation,
        }
    }
}

} // verus!
