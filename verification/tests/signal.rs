use frona_server::adapter::signal::{
    classify_signal_error, millis_since_epoch, now_ms, SignalAdapterFactory, SignalFailure,
};
use std::time::Duration;
use frona_server::error::ChannelErrorKind;

#[test]
fn manifest_id_is_signal() {
    let m = SignalAdapterFactory.manifest();
    assert_eq!(m.id, "signal");
    assert_eq!(m.display_name, "Signal");
    assert!(m.setup_instructions.is_some());
}

#[test]
fn manifest_external_links_include_tos_and_privacy() {
    let m = SignalAdapterFactory.manifest();
    let urls: Vec<&str> = m.external_links.iter().map(|l| l.url.as_str()).collect();
    assert!(urls.iter().any(|u| u.contains("signal.org/legal")));
    assert!(urls.iter().any(|u| u.contains("signal.org/privacy")));
}

#[test]
fn classify_signal_error_matrix() {
    assert_eq!(
        classify_signal_error(SignalFailure::UnknownRecipient, "m".into()).kind,
        ChannelErrorKind::NotFound
    );
    assert_eq!(
        classify_signal_error(SignalFailure::RelinkNecessary, "m".into()).kind,
        ChannelErrorKind::Unauthorized
    );
    assert_eq!(
        classify_signal_error(SignalFailure::PhoneNumber, "m".into()).kind,
        ChannelErrorKind::PayloadInvalid
    );
    let e = classify_signal_error(SignalFailure::Timeout, "slow".into());
    assert_eq!(e.kind, ChannelErrorKind::Transient);
    assert_eq!(e.message, "slow");
}

#[test]
fn millis_since_epoch_counts_whole_milliseconds() {
    assert_eq!(millis_since_epoch(Some(Duration::from_millis(1_234))), 1_234);
    assert_eq!(millis_since_epoch(Some(Duration::from_micros(2_999))), 2);
}

#[test]
fn millis_since_epoch_of_a_clock_before_the_epoch_is_zero() {
    assert_eq!(millis_since_epoch(None), 0);
}

#[test]
fn now_ms_reads_a_recent_clock() {
    // 2020-09-13 and later.
    assert!(now_ms() > 1_600_000_000_000);
}
