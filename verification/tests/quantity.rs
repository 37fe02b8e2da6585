//! CPU and memory quantities.
use openshell_driver_podman::quantity::{parse_cpu_to_microseconds, parse_memory_to_bytes};

#[test]
fn parse_cpu_millicore() {
    assert_eq!(parse_cpu_to_microseconds("500m"), Some(50_000));
    assert_eq!(parse_cpu_to_microseconds("1000m"), Some(100_000));
    assert_eq!(parse_cpu_to_microseconds("250m"), Some(25_000));
}

#[test]
fn parse_cpu_whole_cores() {
    assert_eq!(parse_cpu_to_microseconds("1"), Some(100_000));
    assert_eq!(parse_cpu_to_microseconds("2"), Some(200_000));
    assert_eq!(parse_cpu_to_microseconds("0.5"), Some(50_000));
}

#[test]
fn parse_memory_binary_suffixes() {
    assert_eq!(parse_memory_to_bytes("256Mi"), Some(256 * 1024 * 1024));
    assert_eq!(parse_memory_to_bytes("4Gi"), Some(4 * 1024 * 1024 * 1024));
    assert_eq!(parse_memory_to_bytes("1Ki"), Some(1024));
}

#[test]
fn parse_memory_decimal_suffixes() {
    assert_eq!(parse_memory_to_bytes("1G"), Some(1_000_000_000));
    assert_eq!(parse_memory_to_bytes("500M"), Some(500_000_000));
}

#[test]
fn parse_memory_plain_bytes() {
    assert_eq!(parse_memory_to_bytes("1048576"), Some(1_048_576));
}

#[test]
fn parse_cpu_negative_returns_none() {
    assert_eq!(parse_cpu_to_microseconds("-1"), None);
    assert_eq!(parse_cpu_to_microseconds("-500m"), None);
}

#[test]
fn parse_cpu_zero_returns_none() {
    assert_eq!(parse_cpu_to_microseconds("0m"), None);
    assert_eq!(parse_cpu_to_microseconds("0"), None);
}

/// What double precision arithmetic makes of a number of cores.
fn cores_in_double_precision(quantity: &str) -> Option<u64> {
    let cores: f64 = quantity.parse().ok()?;
    if cores <= 0.0 || cores.is_nan() || cores.is_infinite() {
        return None;
    }
    let micros = (cores * 100_000.0) as u64;
    if micros == 0 {
        None
    } else {
        Some(micros)
    }
}

fn assert_as_in_double_precision(quantity: &str) {
    assert_eq!(
        parse_cpu_to_microseconds(quantity),
        cores_in_double_precision(quantity),
        "{quantity}"
    );
}

#[test]
fn cpu_fractions_are_double_precision() {
    // The closest double precision number to 0.29 is below it.
    assert_eq!(parse_cpu_to_microseconds("0.29"), Some(28_999));
    assert_eq!(parse_cpu_to_microseconds("290m"), Some(29_000));
    assert_eq!(parse_cpu_to_microseconds("0.00001"), Some(1));
    assert_eq!(parse_cpu_to_microseconds("0.000009"), None);
    assert_eq!(parse_cpu_to_microseconds("1.5"), Some(150_000));
    assert_eq!(parse_cpu_to_microseconds("3.75"), Some(375_000));
}

#[test]
fn cpu_hundredths_match_double_precision() {
    for whole in 0..20 {
        for hundredths in 0..100 {
            assert_as_in_double_precision(&format!("{whole}.{hundredths:02}"));
        }
    }
}

#[test]
fn cpu_long_fractions_match_double_precision() {
    let mut state: u64 = 1;
    for length in 1..60 {
        let mut digits = String::new();
        for _ in 0..length {
            state = state
                .wrapping_mul(6_364_136_223_846_793_005)
                .wrapping_add(1_442_695_040_888_963_407);
            digits.push(char::from(b'0' + ((state >> 33) % 10) as u8));
        }
        assert_as_in_double_precision(&format!("0.{digits}"));
        assert_as_in_double_precision(&format!("7.{digits}"));
        assert_as_in_double_precision(&format!("{digits}e-{length}"));
        assert_as_in_double_precision(&format!("{digits}"));
        assert_as_in_double_precision(&format!("0.0000{digits}"));
        assert_as_in_double_precision(&format!("{digits}.{digits}E-10"));
    }
}

#[test]
fn cpu_exponents_match_double_precision() {
    for exponent in -340..320 {
        assert_as_in_double_precision(&format!("1e{exponent}"));
        assert_as_in_double_precision(&format!("9.999999999999999999E{exponent}"));
        assert_as_in_double_precision(&format!("+17976931348623157e{exponent}"));
    }
    assert_eq!(parse_cpu_to_microseconds("1e1"), Some(1_000_000));
    assert_eq!(parse_cpu_to_microseconds("1e-3"), Some(100));
    assert_eq!(parse_cpu_to_microseconds("1e99999999999999999999"), None);
    assert_eq!(parse_cpu_to_microseconds("1e-99999999999999999999"), None);
    assert_eq!(parse_cpu_to_microseconds("0e99999999999999999999"), None);
}

#[test]
fn cpu_quota_is_capped_and_infinite_cores_have_none() {
    assert_eq!(parse_cpu_to_microseconds("1e20"), Some(u64::MAX));
    assert_eq!(
        parse_cpu_to_microseconds("1.7976931348623157e308"),
        Some(u64::MAX)
    );
    // Halfway between the largest number and the next, were there one.
    assert_eq!(
        parse_cpu_to_microseconds("1.7976931348623158e308"),
        Some(u64::MAX)
    );
    assert_eq!(parse_cpu_to_microseconds("1.7976931348623159e308"), None);
    assert_as_in_double_precision("1.797693134862315807937289714053034150e308");
    assert_as_in_double_precision("1.797693134862315807937289714053034151e308");
    assert_as_in_double_precision("1.797693134862315807937289714053034149e308");
    assert_eq!(parse_cpu_to_microseconds("1e309"), None);
}

#[test]
fn cpu_halfway_cases_go_to_even() {
    // 2^53 + 1 and 2^53 + 3, halfway between double precision numbers, and
    // neighbours of them.
    for quantity in [
        "9007199254740993",
        "9007199254740993.0000000000000000000000001",
        "9007199254740992.9999999999999999999999999",
        "9007199254740995",
        "0.00000000000000011102230246251565404236316680908203125",
        "1.00000000000000011102230246251565404236316680908203125",
        "1.00000000000000033306690738754696212708950042724609375",
        "4.9406564584124654e-324",
        "2.4703282292062327e-324",
        "2.4703282292062328e-324",
    ] {
        assert_as_in_double_precision(quantity);
    }
}

#[test]
fn cpu_whole_cores_are_exact_as_long_as_double_precision_is() {
    assert_eq!(parse_cpu_to_microseconds("4294967296"), Some(429_496_729_600_000));
    assert_eq!(
        parse_cpu_to_microseconds("2882303761517"),
        Some(288_230_376_151_700_000)
    );
    // The next odd number of cores has a quota that is no double precision number.
    assert_as_in_double_precision("2882303761519");
    assert_ne!(
        parse_cpu_to_microseconds("2882303761519"),
        Some(288_230_376_151_900_000)
    );
}

#[test]
fn cpu_notation() {
    for quantity in [
        "+2", "2.", ".5", "+.5", "00002.50", "1E2", "1e+2", "2.e1", ".2e1", "0.0e5", "+0",
    ] {
        assert!(quantity.parse::<f64>().is_ok());
        assert_as_in_double_precision(quantity);
    }
    assert_eq!(parse_cpu_to_microseconds("2."), Some(200_000));
    assert_eq!(parse_cpu_to_microseconds(".5"), Some(50_000));
    for quantity in [
        "", "+", "-", ".", "e", "e5", ".e5", "1e", "1e+", "1e-", "1.2.3", "1e2.5", "1e2e3", "++1",
        "+-1", " 1", "1 ", "1_000", "0x10", "two", "m", "+m", "1.5m", "1e3m", "inf", "-inf",
        "infinity", "nan", "NaN", "-0", "-1e5", "1\u{0661}",
    ] {
        assert_eq!(parse_cpu_to_microseconds(quantity), None, "{quantity}");
        if !quantity.ends_with('m') {
            assert_as_in_double_precision(quantity);
        }
    }
}

#[test]
fn cpu_thousandths_are_checked() {
    assert_eq!(parse_cpu_to_microseconds("1m"), Some(100));
    assert_eq!(parse_cpu_to_microseconds("+1500m"), Some(150_000));
    assert_eq!(
        parse_cpu_to_microseconds("184467440737095516m"),
        Some(18_446_744_073_709_551_600)
    );
    assert_eq!(parse_cpu_to_microseconds("184467440737095517m"), None);
    assert_eq!(parse_cpu_to_microseconds("18446744073709551616m"), None);
}

#[test]
fn memory_units() {
    assert_eq!(parse_memory_to_bytes("3Ti"), Some(3 * 1024 * 1024 * 1024 * 1024));
    assert_eq!(parse_memory_to_bytes("3Gi"), Some(3 * 1024 * 1024 * 1024));
    assert_eq!(parse_memory_to_bytes("3Mi"), Some(3 * 1024 * 1024));
    assert_eq!(parse_memory_to_bytes("3Ki"), Some(3 * 1024));
    assert_eq!(parse_memory_to_bytes("3T"), Some(3_000_000_000_000));
    assert_eq!(parse_memory_to_bytes("3G"), Some(3_000_000_000));
    assert_eq!(parse_memory_to_bytes("3M"), Some(3_000_000));
    assert_eq!(parse_memory_to_bytes("3k"), Some(3_000));
    assert_eq!(parse_memory_to_bytes("+3"), Some(3));
    assert_eq!(parse_memory_to_bytes("0"), Some(0));
    assert_eq!(parse_memory_to_bytes("0Gi"), Some(0));
}

#[test]
fn memory_limits_of_64_bits() {
    assert_eq!(parse_memory_to_bytes("18446744073709551615"), Some(u64::MAX));
    assert_eq!(parse_memory_to_bytes("18446744073709551616"), None);
    assert_eq!(
        parse_memory_to_bytes("16777215Ti"),
        Some(16_777_215 * 1024 * 1024 * 1024 * 1024)
    );
    assert_eq!(parse_memory_to_bytes("16777216Ti"), None);
    assert_eq!(parse_memory_to_bytes("18446744T"), Some(18_446_744_000_000_000_000));
    assert_eq!(parse_memory_to_bytes("18446745T"), None);
}

#[test]
fn memory_without_a_number_is_none() {
    for quantity in [
        "", "+", "Gi", "i", "k", "+k", "-1", "1.5Gi", "1K", "1g", "1Pi", "1GiB", "1 Gi", " 1", "1e3",
        "GGi", "1kk",
    ] {
        assert_eq!(parse_memory_to_bytes(quantity), None, "{quantity}");
    }
}
