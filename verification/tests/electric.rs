use sensor_data::electric::{ElectricReading, ElectricValueParseError, KwhScale, PowerFactorSense};

fn put(payload: &mut [u8; 255], start: usize, text: &[u8]) {
    payload[start..start + text.len()].copy_from_slice(text);
}

fn sample_payload() -> [u8; 255] {
    let mut p = [b'#'; 255];
    put(&mut p, 230, b"1");
    put(&mut p, 16, b"00123456");
    put(&mut p, 24, b"00000042");
    put(&mut p, 32, b"00000000");
    put(&mut p, 104, b"2301");
    put(&mut p, 108, b"2299");
    put(&mut p, 116, b"00105");
    put(&mut p, 121, b"00098");
    put(&mut p, 131, b"0001234");
    put(&mut p, 138, b"-000567");
    put(&mut p, 152, b"0000667");
    put(&mut p, 159, b"C");
    put(&mut p, 160, b" 95");
    put(&mut p, 163, b"L");
    put(&mut p, 164, b"100");
    put(&mut p, 171, b"0000012");
    put(&mut p, 178, b"+000034");
    put(&mut p, 192, b"0000046");
    put(&mut p, 199, b"5002");
    p
}

fn error_of(p: &[u8; 255]) -> ElectricValueParseError {
    match ElectricReading::new(7, 3, p) {
        Ok(r) => panic!("expected an error, got {:?}", r),
        Err(e) => e,
    }
}

fn assert_error(e: &ElectricValueParseError, element: &str, message: &str, data: &str) {
    assert_eq!(e.element, element);
    assert_eq!(e.message, message);
    assert_eq!(e.data, data);
}

#[test]
fn decodes_every_reading_of_a_valid_payload() {
    let r = ElectricReading::new(1_500_000_000, 12, &sample_payload()).unwrap();
    assert_eq!(r.timestamp, 1_500_000_000);
    assert_eq!(r.location, 12);
    assert_eq!(r.kwh_scale, KwhScale::Tenths);
    assert_eq!(r.total_kwh, "00123456");
    assert_eq!(r.total_reactive, "00000042");
    assert_eq!(r.total_reverse, "00000000");
    assert_eq!(r.volts_l1, "2301");
    assert_eq!(r.volts_l2, "2299");
    assert_eq!(r.amps_l1, "00105");
    assert_eq!(r.amps_l2, "00098");
    assert_eq!(r.watts_l1, 1234);
    assert_eq!(r.watts_l2, -567);
    assert_eq!(r.watts_total, 667);
    assert_eq!(r.pf_l1_sense, PowerFactorSense::Capacitive);
    assert_eq!(r.pf_l1, "95");
    assert_eq!(r.pf_l2_sense, PowerFactorSense::Inductive);
    assert_eq!(r.pf_l2, "100");
    assert_eq!(r.reactive_l1, 12);
    assert_eq!(r.reactive_l2, 34);
    assert_eq!(r.reactive_total, 46);
    assert_eq!(r.frequency, "5002");
}

#[test]
fn each_scale_byte_names_its_scale() {
    for (byte, scale) in [(b"0", KwhScale::Units), (b"1", KwhScale::Tenths), (b"2", KwhScale::Hundredths)] {
        let mut p = sample_payload();
        put(&mut p, 230, byte);
        assert_eq!(ElectricReading::new(0, 0, &p).unwrap().kwh_scale, scale);
    }
}

#[test]
fn bytes_outside_the_fields_are_ignored() {
    let mut p = sample_payload();
    for i in 0..255 {
        let in_field = (16..40).contains(&i)
            || (104..112).contains(&i)
            || (116..126).contains(&i)
            || (131..145).contains(&i)
            || (152..167).contains(&i)
            || (171..185).contains(&i)
            || (192..203).contains(&i)
            || i == 230;
        if !in_field {
            p[i] = 0xff;
        }
    }
    let a = ElectricReading::new(5, 6, &sample_payload()).unwrap();
    let b = ElectricReading::new(5, 6, &p).unwrap();
    assert_eq!(format!("{:?}", a), format!("{:?}", b));
}

#[test]
fn unknown_scale_is_reported_at_the_first_energy_total() {
    let mut p = sample_payload();
    put(&mut p, 230, b"5");
    assert_error(&error_of(&p), "total_kwh", "Unexpected kwh_scale: 5", "");
}

#[test]
fn energy_text_is_checked_before_the_scale() {
    let mut p = sample_payload();
    put(&mut p, 230, b"9");
    put(&mut p, 16, b"12x45678");
    assert_error(&error_of(&p), "total_kwh", "invalid float literal", "12x45678");
}

#[test]
fn scale_that_is_not_a_digit() {
    let mut p = sample_payload();
    put(&mut p, 230, b"a");
    assert_error(&error_of(&p), "kwh_scale", "invalid digit found in string", "a");
}

#[test]
fn scale_that_is_not_utf8() {
    let mut p = sample_payload();
    p[230] = 0xff;
    let e = error_of(&p);
    let expected = std::str::from_utf8(&[0xffu8]).unwrap_err().to_string();
    assert_error(&e, "kwh_scale", &expected, "");
    assert_eq!(e.message, "invalid utf-8 sequence of 1 bytes from index 0");
}

#[test]
fn bad_decimal_reading() {
    let mut p = sample_payload();
    put(&mut p, 116, b"1 0 5");
    assert_error(&error_of(&p), "amps_l1", "invalid float literal", "1 0 5");
}

#[test]
fn integer_readings_out_of_range() {
    let mut p = sample_payload();
    put(&mut p, 131, b"0099999");
    assert_error(&error_of(&p), "watts_l1", "number too large to fit in target type", "0099999");
    let mut p = sample_payload();
    put(&mut p, 178, b"-040000");
    assert_error(&error_of(&p), "reactive_l2", "number too small to fit in target type", "-040000");
    let mut p = sample_payload();
    put(&mut p, 192, b"00004 6");
    assert_error(&error_of(&p), "reactive_total", "invalid digit found in string", "00004 6");
}

#[test]
fn first_failing_reading_wins() {
    let mut p = sample_payload();
    put(&mut p, 152, b"xxxxxxx");
    put(&mut p, 199, b"yyyy");
    assert_error(&error_of(&p), "watts_total", "invalid digit found in string", "xxxxxxx");
}

#[test]
fn power_factor_is_trimmed_but_reported_untrimmed() {
    let mut p = sample_payload();
    put(&mut p, 164, b" 9 ");
    let r = ElectricReading::new(0, 0, &p).unwrap();
    assert_eq!(r.pf_l2, "9");
    let mut p = sample_payload();
    put(&mut p, 160, b"   ");
    assert_error(&error_of(&p), "pf_l1", "cannot parse float from empty string", "   ");
}

#[test]
fn power_factor_marks() {
    let mut p = sample_payload();
    put(&mut p, 159, b"X");
    put(&mut p, 163, b"C");
    let r = ElectricReading::new(0, 0, &p).unwrap();
    assert_eq!(r.pf_l1_sense, PowerFactorSense::Unmarked);
    assert_eq!(r.pf_l2_sense, PowerFactorSense::Capacitive);
    let mut p = sample_payload();
    p[163] = 0xc3;
    let e = error_of(&p);
    assert_eq!(e.element, "pf_l2_dir");
    assert_eq!(e.message, "incomplete utf-8 byte sequence from index 0");
}

#[test]
fn error_sentence() {
    let mut p = sample_payload();
    put(&mut p, 230, b"7");
    assert_eq!(
        error_of(&p).to_string(),
        "Failed parsing element 'total_kwh', with error 'Unexpected kwh_scale: 7', and data ''"
    );
}
