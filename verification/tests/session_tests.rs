use astro_dnssd::browse::ServiceBrowser;
use astro_dnssd::readiness::{poll_readiness, select_readiness};
use astro_dnssd::session::SessionGuard;
use astro_dnssd::{BrowseError, RegisteredDnsService, ServiceBrowserBuilder, TeardownAction};

#[test]
fn teardown_releases_each_resource_once() {
    let mut guard = SessionGuard::new();
    let first = guard.teardown();
    assert_eq!(
        first,
        vec![
            TeardownAction::DeallocateNative,
            TeardownAction::ReclaimContext
        ]
    );
    let second = guard.teardown();
    assert!(second.is_empty());
}

#[test]
fn callback_takes_context_at_most_once() {
    let mut guard = SessionGuard::new();
    assert!(guard.take_context());
    assert!(!guard.take_context());
    // The teardown path no longer owes the context, only the native handle.
    let actions = guard.teardown();
    assert_eq!(actions, vec![TeardownAction::DeallocateNative]);
}

#[test]
fn browse_session_drop_safety() {
    let mut browser = ServiceBrowser::new(7);
    assert_eq!(browser.socket(), 7);
    let actions = browser.teardown();
    assert_eq!(
        actions,
        vec![
            TeardownAction::DeallocateNative,
            TeardownAction::ReclaimContext
        ]
    );
    assert!(browser.teardown().is_empty());
}

#[test]
fn registration_drop_safety() {
    let mut service = RegisteredDnsService::new(9);
    let actions = service.teardown();
    assert_eq!(
        actions,
        vec![
            TeardownAction::DeallocateNative,
            TeardownAction::ReclaimContext
        ]
    );
    assert!(service.teardown().is_empty());
    assert_eq!(service.socket(), 9);
}

#[test]
fn poll_result_maps_to_readiness() {
    // A quiet descriptor reports not-ready rather than an error.
    assert_eq!(poll_readiness(0), Ok(false));
    assert_eq!(poll_readiness(1), Ok(true));
    assert_eq!(poll_readiness(3), Ok(true));
    assert_eq!(poll_readiness(-1), Err(-1));
}

#[test]
fn select_result_maps_to_readiness() {
    assert_eq!(select_readiness(0, false), Ok(false));
    assert_eq!(select_readiness(1, true), Ok(true));
    assert_eq!(select_readiness(-1, true), Err(-1));
}

#[test]
fn browse_builder_validates_strings() {
    let req = ServiceBrowserBuilder::new("_http._tcp")
        .with_domain("local.")
        .browse()
        .expect("strings are valid");
    assert_eq!(req.regtype, "_http._tcp");
    assert_eq!(req.domain.as_deref(), Some("local."));

    let r = ServiceBrowserBuilder::new("_http._tcp")
        .with_domain("bad\0domain")
        .browse();
    assert!(matches!(r, Err(BrowseError::InvalidString)));

    let r = ServiceBrowserBuilder::new("bad\0type").browse();
    assert!(matches!(r, Err(BrowseError::InvalidString)));
}

#[test]
fn error_messages() {
    assert_eq!(
        BrowseError::Timeout.message(),
        "Timeout waiting for data"
    );
    assert_eq!(
        BrowseError::ServiceError(-65537).message(),
        "DNSSD Error"
    );
    assert_eq!(
        astro_dnssd::RegistrationError::Timeout.message(),
        "Timeout waiting for registration confirmation"
    );
    assert_eq!(
        astro_dnssd::TxtRecordError::KeyTooLong.message(),
        "Key string exceeds length limit"
    );
}
