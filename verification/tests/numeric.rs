use sensor_data::numeric::{parse_i16, parse_u8, IntegerError};
use sensor_data::text::{check_float, trim_bounds, u8_decimal, FloatError};

fn chars(s: &str) -> Vec<char> {
    s.chars().collect()
}

fn std_int_kind(e: &std::num::ParseIntError) -> IntegerError {
    match e.kind() {
        std::num::IntErrorKind::Empty => IntegerError::Empty,
        std::num::IntErrorKind::InvalidDigit => IntegerError::InvalidDigit,
        std::num::IntErrorKind::PosOverflow => IntegerError::PosOverflow,
        std::num::IntErrorKind::NegOverflow => IntegerError::NegOverflow,
        _ => panic!("unexpected kind"),
    }
}

const INT_SAMPLES: &[&str] = &[
    "", "+", "-", "0", "-0", "+0", "7", "+12", "-12", "255", "256", "0255", "-1", "32767",
    "32768", "-32768", "-32769", "99999a", "6553a", "9999a", "a", "1 ", " 1", "--1", "+-1",
    "00000000000000000000012", "1_000", "٣", "-٣", "300000", "-300000x",
];

#[test]
fn parse_u8_agrees_with_std() {
    for s in INT_SAMPLES {
        let expected = s.parse::<u8>().map_err(|e| std_int_kind(&e));
        assert_eq!(parse_u8(&chars(s)), expected, "input {:?}", s);
    }
}

#[test]
fn parse_i16_agrees_with_std() {
    for s in INT_SAMPLES {
        let expected = s.parse::<i16>().map_err(|e| std_int_kind(&e));
        assert_eq!(parse_i16(&chars(s)), expected, "input {:?}", s);
    }
}

#[test]
fn integer_errors() {
    assert_eq!(parse_u8(&chars("")), Err(IntegerError::Empty));
    assert_eq!(parse_u8(&chars("-1")), Err(IntegerError::InvalidDigit));
    assert_eq!(parse_u8(&chars("256")), Err(IntegerError::PosOverflow));
    assert_eq!(parse_i16(&chars("-32769")), Err(IntegerError::NegOverflow));
    assert_eq!(parse_i16(&chars("-32768")), Ok(-32768));
}

const FLOAT_SAMPLES: &[&str] = &[
    "", "+", "-", ".", "e", "e5", "1e", "1e+", "1e-5", "1E5", "1.", ".5", "5.", "0.5", "1.2.3",
    "inf", "-inf", "+Infinity", "INFINITY", "NaN", "nan", "-nAn", "infin", "in", "infinityx",
    "007", "2.5E10", "2.5e-10", " 1", "1 ", "1_0", "12x45678", "00123456", "+.5", "-.e1", ".e1",
    "1e1.5", "٣", "1e99999", "0x10",
];

#[test]
fn check_float_agrees_with_std() {
    for s in FLOAT_SAMPLES {
        let ok64 = s.parse::<f64>().is_ok();
        let ok32 = s.parse::<f32>().is_ok();
        assert_eq!(ok64, ok32);
        let expected = if s.is_empty() {
            Err(FloatError::Empty)
        } else if ok64 {
            Ok(())
        } else {
            Err(FloatError::Invalid)
        };
        assert_eq!(check_float(&chars(s)), expected, "input {:?}", s);
    }
}

#[test]
fn trim_agrees_with_std() {
    for s in ["", "   ", " a ", "\t9\n", "\u{a0}x\u{3000}", "a b", "\u{2007}1\u{200b}", "\u{85}\u{1680}"] {
        let cs = chars(s);
        let (a, b) = trim_bounds(&cs);
        let ours: String = cs[a..b].iter().collect();
        assert_eq!(ours, s.trim(), "input {:?}", s);
    }
}

#[test]
fn decimal_text_of_every_u8() {
    for n in 0..=255u8 {
        let text = u8_decimal(n);
        assert_eq!(text, n.to_string());
        assert_eq!(parse_u8(&chars(&text)), Ok(n));
    }
}
