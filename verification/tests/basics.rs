use fastping_rs::addr::{Address, Family};
use fastping_rs::error::Error;
use fastping_rs::time::TimeSpan;

#[test]
fn v4_address_from_octets() {
    assert_eq!(Address::v4(127, 0, 0, 1), Address::V4(0x7f00_0001));
    assert_eq!(Address::v4(0, 0, 0, 0), Address::V4(0));
    assert_eq!(Address::v4(255, 255, 255, 255), Address::V4(u32::MAX));
    assert_eq!(Address::v4(7, 7, 7, 7), Address::V4(0x0707_0707));
}

#[test]
fn v6_address_from_groups() {
    assert_eq!(Address::v6([0, 0, 0, 0, 0, 0, 0, 1]), Address::V6(1));
    assert_eq!(Address::v6([0xffff; 8]), Address::V6(u128::MAX));
    assert_eq!(
        Address::v6([0x2001, 0x0db8, 0, 0, 0, 0, 0x0001, 0x0002]),
        Address::V6(0x2001_0db8_0000_0000_0000_0000_0001_0002)
    );
}

#[test]
fn address_families() {
    let v4 = Address::v4(1, 2, 3, 4);
    let v6 = Address::v6([1, 2, 3, 4, 5, 6, 7, 8]);
    assert_eq!(v4.family(), Family::V4);
    assert_eq!(v6.family(), Family::V6);
    assert!(v4.is_ipv4() && !v4.is_ipv6());
    assert!(v6.is_ipv6() && !v6.is_ipv4());
}

#[test]
fn address_order() {
    let low = Address::v4(1, 2, 3, 4);
    let high = Address::v4(1, 2, 3, 5);
    let top4 = Address::v4(255, 255, 255, 255);
    let zero6 = Address::v6([0; 8]);
    let one6 = Address::v6([0, 0, 0, 0, 0, 0, 0, 1]);
    assert!(low.precedes(high));
    assert!(!high.precedes(low));
    assert!(!low.precedes(low));
    assert!(top4.precedes(zero6));
    assert!(!zero6.precedes(top4));
    assert!(zero6.precedes(one6));
    assert!(!one6.precedes(zero6));
}

#[test]
fn time_span_arithmetic() {
    assert_eq!(TimeSpan::from_millis(3000).as_nanos(), 3_000_000_000);
    assert_eq!(TimeSpan::from_millis(0), TimeSpan::from_nanos(0));
    assert_eq!(TimeSpan::from_millis(u64::MAX).as_nanos(), u64::MAX as u128 * 1_000_000);
    let budget = TimeSpan::from_millis(2000);
    assert_eq!(budget.saturating_sub(TimeSpan::from_millis(500)), TimeSpan::from_millis(1500));
    assert_eq!(budget.saturating_sub(budget), TimeSpan::from_millis(0));
    assert_eq!(budget.saturating_sub(TimeSpan::from_millis(2001)), TimeSpan::from_millis(0));
    assert!(budget.reaches(budget));
    assert!(budget.reaches(TimeSpan::from_nanos(1_999_999_999)));
    assert!(!TimeSpan::from_nanos(1_999_999_999).reaches(budget));
}

#[test]
fn network_error_wraps_what_the_system_reported() {
    let denied = std::io::Error::new(std::io::ErrorKind::PermissionDenied, "no raw socket");
    let error = Error::from(denied);
    assert_eq!(error.source().kind(), std::io::ErrorKind::PermissionDenied);
    assert_eq!(error.message(), "Network error: no raw socket");
    let Error::NetworkError { source } = error;
    assert_eq!(source.to_string(), "no raw socket");
}
