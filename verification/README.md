# sensor_data

Sensor definitions and the decoding of sensor payloads, verified with Verus.

- `src/` is the verified library. `electric` decodes the 255-byte text payload of an
  electricity meter: every reading is read from its fixed byte range, integers are decoded,
  decimal readings are checked against std's float grammar, and the first reading that cannot
  be read is reported. `sensors` holds the sensor types and keys definitions by id. `numeric`
  and `text` hold the std behaviours that decoding relies on (integer parsing, the float
  grammar, `trim`, decimal text), each stated and proved; `utf8_text` holds the one trusted
  call, `std::str::from_utf8`.
- `app/` holds what cannot be verified: serde forms of the types, loading definitions from a
  YAML file, and the float-valued `ElectricValue` built from a decoded reading.
- `tests/` runs the library, and compares its std behaviours with std itself.
