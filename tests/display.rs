use unicom::display::{duration_string, int_string, two_digits};

fn duration_reference(value: i64) -> String {
    let pre = value / 60000;
    let hours = pre / 60;
    let minutes = pre % 60;
    if hours > 0 {
        format!("{}h {}min", hours, minutes)
    } else {
        format!("{}min", minutes)
    }
}

#[test]
fn integers_as_text() {
    for n in [0i64, 7, 10, 99, -1, -10, 123456789, i64::MIN, i64::MAX] {
        assert_eq!(int_string(n), n.to_string());
        assert_eq!(two_digits(n), format!("{:02}", n));
    }
    assert_eq!(two_digits(5), "05");
}

#[test]
fn durations_as_text() {
    assert_eq!(duration_string(0), "0min");
    assert_eq!(duration_string(59 * 60000), "59min");
    assert_eq!(duration_string(125 * 60000 + 999), "2h 5min");
    for v in [0i64, 1, 60000, 3_600_000, 3_599_999, 7_384_000, -60000, -7_384_000, i64::MAX, i64::MIN] {
        assert_eq!(duration_string(v), duration_reference(v));
    }
}
