use ccbenchmark::unit::{MemoryUnit, PureUnit, TimeUnit, Unit};

fn all_units() -> Vec<Unit> {
    vec![
        Unit::TimeUnit(TimeUnit::NS),
        Unit::TimeUnit(TimeUnit::US),
        Unit::TimeUnit(TimeUnit::MS),
        Unit::TimeUnit(TimeUnit::S),
        Unit::MemoryUnit(MemoryUnit::B),
        Unit::MemoryUnit(MemoryUnit::KB),
        Unit::MemoryUnit(MemoryUnit::MB),
        Unit::MemoryUnit(MemoryUnit::GB),
        Unit::MemoryUnit(MemoryUnit::KIB),
        Unit::MemoryUnit(MemoryUnit::MIB),
        Unit::MemoryUnit(MemoryUnit::GIB),
        Unit::PureUnit(PureUnit::Percentage),
        Unit::PureUnit(PureUnit::NoUnit),
    ]
}

#[test]
fn to_str_test() {
    let s = Unit::TimeUnit(TimeUnit::S);
    let b = Unit::MemoryUnit(MemoryUnit::B);
    let p = Unit::PureUnit(PureUnit::Percentage);

    assert_eq!(s.as_str(), "s");
    assert_eq!(b.as_str(), "b");
    assert_eq!(p.as_str(), "%");
}

#[test]
fn to_scaler_test() {
    let s = Unit::TimeUnit(TimeUnit::S);
    let b = Unit::MemoryUnit(MemoryUnit::B);
    let p = Unit::PureUnit(PureUnit::Percentage);

    assert_eq!(f64::from_bits(s.as_scaler()), 1e9);
    assert_eq!(f64::from_bits(b.as_scaler()), 1.0);
    assert_eq!(f64::from_bits(p.as_scaler()), 1.0);
}

#[test]
fn every_key_parses_to_its_unit() {
    assert_eq!(Unit::from_str("ns"), Unit::TimeUnit(TimeUnit::NS));
    assert_eq!(Unit::from_str("us"), Unit::TimeUnit(TimeUnit::US));
    assert_eq!(Unit::from_str("ms"), Unit::TimeUnit(TimeUnit::MS));
    assert_eq!(Unit::from_str("s"), Unit::TimeUnit(TimeUnit::S));
    assert_eq!(Unit::from_str("b"), Unit::MemoryUnit(MemoryUnit::B));
    assert_eq!(Unit::from_str("kb"), Unit::MemoryUnit(MemoryUnit::KB));
    assert_eq!(Unit::from_str("Mb"), Unit::MemoryUnit(MemoryUnit::MB));
    assert_eq!(Unit::from_str("Gb"), Unit::MemoryUnit(MemoryUnit::GB));
    assert_eq!(Unit::from_str("kib"), Unit::MemoryUnit(MemoryUnit::KIB));
    assert_eq!(Unit::from_str("Mib"), Unit::MemoryUnit(MemoryUnit::MIB));
    assert_eq!(Unit::from_str("Gib"), Unit::MemoryUnit(MemoryUnit::GIB));
    assert_eq!(Unit::from_str("%"), Unit::PureUnit(PureUnit::Percentage));
}

#[test]
fn every_unit_renders_its_key() {
    let keys = ["ns", "us", "ms", "s", "b", "kb", "Mb", "Gb", "kib", "Mib", "Gib", "%", ""];
    let rendered: Vec<&str> = all_units().iter().map(|unit| unit.as_str()).collect();
    assert_eq!(rendered, keys);
}

#[test]
fn parse_of_render_is_identity() {
    for unit in all_units() {
        assert_eq!(Unit::from_str(unit.as_str()), unit);
    }
}

#[test]
fn render_of_parse_is_identity_on_keys() {
    for key in ["ns", "us", "ms", "s", "b", "kb", "Mb", "Gb", "kib", "Mib", "Gib", "%"] {
        assert_eq!(Unit::from_str(key).as_str(), key);
    }
}

#[test]
fn unknown_key_is_no_unit() {
    let no_unit = Unit::PureUnit(PureUnit::NoUnit);
    let keys =
        ["", "sec", "S", "NS", "mb", "KB", "kiB", "ns ", " ns", "n", "\u{b5}s", "percent", "nss"];
    for key in keys {
        assert_eq!(Unit::from_str(key), no_unit, "{:?}", key);
    }
}

#[test]
fn scalers_are_exact_powers() {
    let expected = [
        1e0,
        1e3,
        1e6,
        1e9,
        1e0,
        1e3,
        1e6,
        1e9,
        1024.0,
        1024.0 * 1024.0,
        1024.0 * 1024.0 * 1024.0,
        1e0,
        1e0,
    ];
    let scalers: Vec<f64> =
        all_units().iter().map(|unit| f64::from_bits(unit.as_scaler())).collect();
    assert_eq!(scalers, expected);
}

#[test]
fn conversion_factor_divides_the_scalers() {
    let divide = |op: ccbenchmark::binary64::Operation, a: u64, b: u64| {
        assert_eq!(op, ccbenchmark::binary64::Operation::Divide);
        (f64::from_bits(a) / f64::from_bits(b)).to_bits()
    };
    let s = Unit::TimeUnit(TimeUnit::S);
    let ms = Unit::TimeUnit(TimeUnit::MS);
    let kib = Unit::MemoryUnit(MemoryUnit::KIB);
    let b = Unit::MemoryUnit(MemoryUnit::B);
    assert_eq!(f64::from_bits(s.conversion_factor(&ms, &divide)), 1e3);
    assert_eq!(f64::from_bits(ms.conversion_factor(&s, &divide)), 1e-3);
    assert_eq!(f64::from_bits(kib.conversion_factor(&b, &divide)), 1024.0);
    assert_eq!(f64::from_bits(b.conversion_factor(&kib, &divide)), 1.0 / 1024.0);
    assert_eq!(f64::from_bits(s.conversion_factor(&s, &divide)), 1.0);
}

#[test]
fn same_family_ignores_the_variant() {
    let units = all_units();
    for (i, a) in units.iter().enumerate() {
        for (j, b) in units.iter().enumerate() {
            let family = |k: usize| if k < 4 { 0 } else if k < 11 { 1 } else { 2 };
            assert_eq!(a.same_unit_pattern(b), family(i) == family(j), "{:?} {:?}", a, b);
        }
    }
}
