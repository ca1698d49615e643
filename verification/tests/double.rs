use iosmic::double::Double;
use iosmic::text::push_millis;
use iosmic::time::Duration;

fn float(number: Double) -> f64 {
    if number.digits == 0 {
        return 0.0;
    }
    let unit = f64::from_bits(((number.place + 1023) as u64) << 52);
    number.digits as f64 * unit
}

fn double(value: f64) -> Double {
    if value == 0.0 {
        return Double { digits: 0, place: 0 };
    }
    let bits = value.to_bits();
    Double {
        digits: (bits & ((1 << 52) - 1)) | (1 << 52),
        place: (bits >> 52) as i32 - 1075,
    }
}

fn span(nanos: u64) -> (Duration, std::time::Duration) {
    (Duration::from_nanos(nanos as u128), std::time::Duration::from_nanos(nanos))
}

/// Numbers of every size, from a fixed start.
fn numbers(count: usize) -> Vec<u64> {
    let mut state = 0x9e37_79b9_7f4a_7c15u64;
    let mut all = vec![0, 1, 2, 3, 1 << 52, (1 << 53) - 1, 1 << 53, (1 << 53) + 1, u64::MAX];
    for index in 0..count {
        state ^= state << 13;
        state ^= state >> 7;
        state ^= state << 17;
        all.push(state >> (index % 64));
    }
    all
}

#[test]
fn integers_are_held_as_a_machine_holds_them() {
    for value in numbers(2000) {
        let number = Double::whole(value as u128);
        assert_eq!(number, double(value as f64), "{value}");
        assert_eq!(float(number), value as f64);
    }
    assert_eq!(Double::whole(1 << 100), double((1u128 << 100) as f64));
    assert_eq!(Double::whole((1 << 53) + 1), Double::whole(1 << 53));
    assert_eq!(Double::whole((1 << 53) + 3), Double::whole((1 << 53) + 4));
}

#[test]
fn ratios_are_those_of_a_machine() {
    let all = numbers(1500);
    for pair in all.windows(2) {
        let (upper, lower) = (pair[0] >> 11, (pair[1] >> 11).max(1));
        assert_eq!(
            Double::nearest_to(upper as u128, lower as u128),
            double(upper as f64 / lower as f64),
            "{upper} / {lower}"
        );
    }
    assert_eq!(Double::nearest_to(1, 10), double(0.10));
    assert_eq!(Double::nearest_to(999, 1000), double(0.999));
}

#[test]
fn operations_are_those_of_a_machine() {
    let all = numbers(1500);
    for three in all.windows(3) {
        let left = three[0] as f64 / (three[1] >> 20).max(1) as f64;
        let right = three[2] as f64 / 1000.0;
        let (x, y) = (double(left), double(right));
        assert_eq!(x.plus(y), double(left + right), "{left} + {right}");
        assert_eq!(x.minus(y), double((left - right).max(0.0)), "{left} - {right}");
        assert_eq!(y.minus(x), double((right - left).max(0.0)), "{right} - {left}");
        assert_eq!(x.product(y), double(left * right), "{left} * {right}");
        assert_eq!(x.times(1000), double(left * 1000.0), "{left} * 1000");
        assert_eq!(x.over(44_100), double(left / 44_100.0), "{left} / 44100");
        assert_eq!(x.at_most(y), left <= right);
        assert_eq!(x.min(y), double(left.min(right)));
        let limit = usize::MAX;
        assert_eq!(x.ceiling_within(limit), left.ceil() as usize);
    }
}

#[test]
fn far_numbers_do_not_change_each_other() {
    let (large, small) = (double(1e30), double(1e-10));
    assert_eq!(large.plus(small), large);
    assert_eq!(small.plus(large), large);
    assert_eq!(large.minus(small), large);
    let edge = Double::whole(1 << 52);
    assert_eq!(edge.minus(double(1e-20)), edge);
    assert_eq!(edge.minus(double(0.25)), double((1u64 << 52) as f64 - 0.25));
    assert_eq!(edge.minus(double(0.75)), double((1u64 << 52) as f64 - 0.75));
}

#[test]
fn numbers_are_rounded_to_integers() {
    assert_eq!(double(2.5).rounded_times(1), 2);
    assert_eq!(double(3.5).rounded_times(1), 4);
    assert_eq!(double(1e-40).rounded_times(1_000_000_000), 0);
    assert_eq!(double(3.0).rounded_times(7), 21);
    assert_eq!(double((1u64 << 60) as f64).rounded_times(3), 3 << 60);
    assert_eq!(double(0.25).ceiling_within(9), 1);
    assert_eq!(double(1e-30).ceiling_within(9), 1);
    assert_eq!(double(1e30).ceiling_within(9), 9);
    assert_eq!(double(0.0).ceiling_within(9), 0);
}

#[test]
fn spans_are_those_of_a_machine() {
    for nanos in numbers(2000) {
        let (ours, theirs) = span(nanos);
        assert_eq!(ours.as_seconds(), double(theirs.as_secs_f64()), "{nanos}");
        assert_eq!(
            Duration::from_seconds(ours.as_seconds()).as_nanos(),
            std::time::Duration::from_secs_f64(theirs.as_secs_f64()).as_nanos(),
            "{nanos}"
        );
        let mut text = String::new();
        push_millis(&mut text, ours);
        assert_eq!(text, format!("{:.3}", theirs.as_secs_f64() * 1000.0), "{nanos}");
    }
}

#[test]
fn frames_last_as_long_as_a_machine_says() {
    assert_eq!(Duration::from_frames(1, 5120), Duration::from_nanos(195_313));
    let all = numbers(2000);
    for pair in all.windows(2) {
        let (frames, rate) = (pair[0] >> 1, (pair[1] as u32).max(1));
        let theirs = std::time::Duration::from_secs_f64(frames as f64 / rate as f64);
        assert_eq!(
            Duration::from_frames(frames as usize, rate).as_nanos(),
            theirs.as_nanos(),
            "{frames} / {rate}"
        );
    }
}
