use isup::client::request_timeout;
use std::time::Duration;

#[test]
fn client_setting_wins_over_interval() {
    let secs = Duration::from_secs;
    assert_eq!(request_timeout(Some(Some(secs(5))), Some(secs(30))), Some(secs(5)));
}

#[test]
fn client_settings_without_timeout_mean_none() {
    assert_eq!(request_timeout(Some(None), Some(Duration::from_secs(30))), None);
}

#[test]
fn interval_serves_when_no_client_settings() {
    assert_eq!(request_timeout(None, Some(Duration::from_secs(30))), Some(Duration::from_secs(30)));
}

#[test]
fn no_timeout_without_settings_or_interval() {
    assert_eq!(request_timeout::<Duration>(None, None), None);
}
