use astro_dnssd::pipeline::{
    browse_reply_event, recv_outcome, resolution_outcome, resolve_step, resolve_submit_check,
    resolver_step, txt_record_from_bytes, u16_from_be, BrowseReply, ChannelRecv,
    PendingResolution, ResolveReply, ResolverAction, ResolverInput,
};
use astro_dnssd::{BrowseError, DiscoveredService, ServiceEventType};

#[test]
fn resolve_request_validates_strings() {
    let discovered = browse_reply_event(added_reply()).expect("well formed");
    let req = discovered.resolve_request().expect("strings are valid");
    assert_eq!(req.name, "MyPrinter");
    assert_eq!(req.regtype, "_http._tcp");
    assert_eq!(req.domain, "local.");
    assert_eq!(req.interface_index, 0);

    let mut bad = discovered.clone();
    bad.domain = "bad\0domain".to_string();
    assert!(matches!(
        bad.resolve_request(),
        Err(BrowseError::InvalidString)
    ));
}

#[test]
fn resolve_status_decides() {
    assert!(resolve_submit_check(0).is_ok());
    assert!(matches!(
        resolve_submit_check(-65563),
        Err(BrowseError::ServiceError(-65563))
    ));
}

#[test]
fn event_type_from_flags() {
    assert_eq!(ServiceEventType::from(2u32), ServiceEventType::Added);
    assert_eq!(ServiceEventType::from(0u32), ServiceEventType::Removed);
    assert_eq!(ServiceEventType::from(3u32), ServiceEventType::Added);
    assert_eq!(ServiceEventType::from(1u32), ServiceEventType::Removed);
}

#[test]
fn port_byte_order() {
    // 8080 is 0x1F90; on the wire it arrives as 0x901F.
    assert_eq!(u16_from_be(0x901F), 8080);
    assert_eq!(u16_from_be(0x1F90), 0x901F);
    assert_eq!(u16_from_be(0), 0);
    assert_eq!(u16_from_be(0x00FF), 0xFF00);
}

fn added_reply() -> BrowseReply {
    BrowseReply {
        flags: 2,
        interface_index: 0,
        error_code: 0,
        service_name: Some("MyPrinter".to_string()),
        regtype: Some("_http._tcp".to_string()),
        domain: Some("local.".to_string()),
    }
}

#[test]
fn browse_reply_success() {
    let d = browse_reply_event(added_reply()).expect("reply is well formed");
    assert_eq!(d.name, "MyPrinter");
    assert_eq!(d.regtype, "_http._tcp");
    assert_eq!(d.domain, "local.");
    assert_eq!(d.interface_index, 0);
    assert_eq!(d.event_type, ServiceEventType::Added);
}

#[test]
fn browse_reply_errors() {
    let mut reply = added_reply();
    reply.error_code = -65537;
    assert!(matches!(
        browse_reply_event(reply),
        Err(BrowseError::ServiceError(-65537))
    ));
    let mut reply = added_reply();
    reply.regtype = None;
    assert!(matches!(
        browse_reply_event(reply),
        Err(BrowseError::InternalInvalidString)
    ));
}

#[test]
fn discovery_merge_yields_one_service() {
    // A simulated announcement followed by one resolve reply yields exactly
    // one merged service.
    let discovered = browse_reply_event(added_reply()).expect("well formed");
    let action = resolver_step(ResolverInput::Event(Ok(discovered.clone())));
    assert_eq!(action, ResolverAction::Resolve(discovered.clone()));

    let mut pending = PendingResolution::new();
    assert!(pending.more_coming);
    resolve_step(
        &mut pending,
        ResolveReply {
            flags: 0,
            interface_index: 0,
            error_code: 0,
            full_name: Some("MyPrinter._http._tcp.local.".to_string()),
            host_target: Some("host.local.".to_string()),
            port: u16_from_be(8080),
            txt: Vec::new(),
        },
    );
    assert!(!pending.more_coming);
    assert_eq!(pending.results.len(), 1);

    let service = resolution_outcome(discovered, Ok(pending.results)).expect("merge succeeds");
    assert_eq!(service.name, "MyPrinter");
    assert_eq!(service.hostname, "host.local.");
    assert_eq!(service.port, 8080);
    assert_eq!(service.event_type, ServiceEventType::Added);
    assert!(service.txt_record.is_none());
}

#[test]
fn resolve_error_stops_wait() {
    let mut pending = PendingResolution::new();
    resolve_step(
        &mut pending,
        ResolveReply {
            flags: 1,
            interface_index: 0,
            error_code: -65563,
            full_name: None,
            host_target: None,
            port: 0,
            txt: Vec::new(),
        },
    );
    assert!(!pending.more_coming);
    assert!(pending.results.is_empty());
}

#[test]
fn resolve_more_coming_keeps_waiting() {
    let mut pending = PendingResolution::new();
    resolve_step(
        &mut pending,
        ResolveReply {
            flags: 1,
            interface_index: 4,
            error_code: 0,
            full_name: Some("a._x._tcp.local.".to_string()),
            host_target: Some("h.local.".to_string()),
            port: u16_from_be(80),
            txt: b"\x03k=v".to_vec(),
        },
    );
    assert!(pending.more_coming);
    assert_eq!(pending.results.len(), 1);
    let first = &pending.results[0];
    assert_eq!(first.port, 80);
    assert_eq!(first.interface_index, 4);
    let txt = first.txt_record.as_ref().expect("nonempty TXT is kept");
    assert!(txt.contains_key("k"));
}

#[test]
fn merge_without_resolution_leaves_defaults() {
    let discovered = browse_reply_event(added_reply()).expect("well formed");
    let service = resolution_outcome(discovered, Ok(Vec::new())).expect("merge succeeds");
    assert_eq!(service.hostname, "");
    assert_eq!(service.port, 0);
    assert!(service.txt_record.is_none());
}

#[test]
fn resolution_error_is_forwarded() {
    let discovered = browse_reply_event(added_reply()).expect("well formed");
    let r = resolution_outcome(discovered, Err(BrowseError::ServiceError(-7)));
    assert!(matches!(r, Err(BrowseError::ServiceError(-7))));
}

#[test]
fn resolver_decisions() {
    assert_eq!(resolver_step(ResolverInput::Idle), ResolverAction::Wait);
    assert_eq!(resolver_step(ResolverInput::Closed), ResolverAction::Exit);
    assert_eq!(
        resolver_step(ResolverInput::Event(Err(BrowseError::ServiceError(5)))),
        ResolverAction::Forward(BrowseError::ServiceError(5))
    );
}

#[test]
fn reply_txt_reconstruction() {
    // A present-but-empty value and a valueless entry are dropped by the
    // resolve path; an entry with a nonempty value is kept.
    let rec = txt_record_from_bytes(b"\x0Btest=value1\x05more=\x04flag");
    assert!(rec.contains_key("test"));
    assert!(!rec.contains_key("more"));
    assert!(!rec.contains_key("flag"));
    assert_eq!(rec.record().raw_bytes(), b"\x0Btest=value1");
    // A later value of a key replaces an earlier one.
    let rec2 = txt_record_from_bytes(b"\x03k=a\x03k=b");
    assert!(rec2.contains_key("k"));
    assert_eq!(rec2.record().raw_bytes(), b"\x03k=b");
}

#[test]
fn recv_decisions() {
    assert!(matches!(
        recv_outcome(Some(-65537), ChannelRecv::Empty),
        Err(BrowseError::ServiceError(-65537))
    ));
    assert!(matches!(
        recv_outcome(Some(0), ChannelRecv::Empty),
        Err(BrowseError::Timeout)
    ));
    assert!(matches!(
        recv_outcome(None, ChannelRecv::Empty),
        Err(BrowseError::Timeout)
    ));
    assert!(matches!(
        recv_outcome(None, ChannelRecv::Closed),
        Err(BrowseError::Disconnected)
    ));
    let discovered = browse_reply_event(added_reply()).expect("well formed");
    let service = resolution_outcome(discovered, Ok(Vec::new())).expect("merge succeeds");
    let got = recv_outcome(None, ChannelRecv::Item(Ok(service))).expect("item is handed through");
    assert_eq!(got.name, "MyPrinter");
}
