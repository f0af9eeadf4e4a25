//! Sensor definitions and the decoding of fixed-layout sensor payloads.
//!
//! - `sensors`: the sensor definitions and reported values, and the index of definitions by id.
//! - `electric`: the decoding of an electricity meter's 255-byte text payload.
//! - `numeric`, `text`: reading integers and checking float literals, trimming white space and
//!   writing decimal text, each as std does it.
//! - `utf8_text`: turning bytes into text.

pub mod electric;
pub mod numeric;
pub mod sensors;
pub mod text;
pub mod utf8_text;

pub use electric::{ElectricReading, ElectricValueParseError, KwhScale, PowerFactorSense};
pub use sensors::{
    index_sensors, AirParticulateValue, MetricType, SensorDefinition, SensorFormat, SensorValue,
    WindSpeedDirValue,
};
