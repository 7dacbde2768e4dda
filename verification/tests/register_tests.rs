use astro_dnssd::pipeline::u16_from_be;
use astro_dnssd::register::{
    pump_continue, register_reply_event, register_submit_check, register_wait_outcome,
};
use astro_dnssd::{
    DNSServiceBuilder, DNSServiceRegisterReply, RegisterReply, RegisterWait, RegisteredDnsService,
    RegistrationError, TxtRecord,
};

#[test]
fn builder_produces_request() {
    let mut txt = TxtRecord::new();
    assert!(txt.insert("status", "open").is_ok());
    let builder = DNSServiceBuilder::new("_http._tcp", 8080)
        .with_name("MyPrinter")
        .with_domain("local.")
        .with_host("host.local.")
        .with_txt_record(txt);
    let req = builder.register().expect("strings are valid");
    assert_eq!(req.regtype, "_http._tcp");
    assert_eq!(req.name.as_deref(), Some("MyPrinter"));
    assert_eq!(req.port_be, u16_from_be(8080));
    assert_eq!(&req.txt_bytes, b"\x0Bstatus=open");
}

#[test]
fn builder_key_value_starts_record() {
    let builder = DNSServiceBuilder::new("_http._tcp", 80)
        .with_key_value("a".to_string(), "1".to_string())
        .with_key_value("b".to_string(), "2".to_string());
    let req = builder.register().expect("valid");
    assert_eq!(&req.txt_bytes, b"\x03a=1\x03b=2");
}

#[test]
fn builder_without_txt_has_empty_bytes() {
    let req = DNSServiceBuilder::new("_ipp._tcp", 631)
        .register()
        .expect("valid");
    assert!(req.txt_bytes.is_empty());
    assert!(req.name.is_none());
}

#[test]
fn builder_rejects_interior_nul() {
    let r = DNSServiceBuilder::new("_http._tcp", 80)
        .with_name("bad\0name")
        .register();
    assert_eq!(r.err(), Some(RegistrationError::InvalidString));
    let r = DNSServiceBuilder::new("_http\0tcp", 80).register();
    assert_eq!(r.err(), Some(RegistrationError::InvalidString));
}

#[test]
fn reply_event_outcomes() {
    let good = RegisterReply {
        error_code: 0,
        name: Some("MyPrinter".to_string()),
        regtype: Some("_http._tcp".to_string()),
        domain: Some("local.".to_string()),
    };
    let ok = register_reply_event(good).expect("confirmed");
    assert_eq!(ok.name, "MyPrinter");
    assert_eq!(ok.regtype, "_http._tcp");
    assert_eq!(ok.domain, "local.");

    let failed = RegisterReply {
        error_code: -65537,
        name: Some("x".to_string()),
        regtype: Some("y".to_string()),
        domain: Some("z".to_string()),
    };
    assert_eq!(
        register_reply_event(failed).err(),
        Some(RegistrationError::ServiceError(-65537))
    );

    let corrupt = RegisterReply {
        error_code: 0,
        name: None,
        regtype: Some("y".to_string()),
        domain: Some("z".to_string()),
    };
    assert_eq!(
        register_reply_event(corrupt).err(),
        Some(RegistrationError::InternalInvalidString)
    );
}

#[test]
fn submit_status_decides() {
    assert!(register_submit_check(0).is_ok());
    assert_eq!(
        register_submit_check(-65540).err(),
        Some(RegistrationError::ServiceError(-65540))
    );
}

#[test]
fn wait_timeout_produces_no_handle() {
    // With no confirmation within the budget, the outcome is a timeout
    // error and never a handle.
    let r = register_wait_outcome(RegisterWait::TimedOut);
    assert_eq!(r.err(), Some(RegistrationError::Timeout));
}

#[test]
fn wait_other_outcomes() {
    let reply = DNSServiceRegisterReply {
        regtype: "_http._tcp".to_string(),
        name: "MyPrinter".to_string(),
        domain: "local.".to_string(),
    };
    let r = register_wait_outcome(RegisterWait::Reply(Ok(reply.clone())));
    assert_eq!(r.ok(), Some(reply));
    let r = register_wait_outcome(RegisterWait::Reply(Err(RegistrationError::ServiceError(3))));
    assert_eq!(r.err(), Some(RegistrationError::ServiceError(3)));
    let r = register_wait_outcome(RegisterWait::ChannelDown);
    assert_eq!(r.err(), Some(RegistrationError::ServiceError(0)));
}

#[test]
fn pump_runs_only_on_success() {
    assert!(pump_continue(0));
    assert!(!pump_continue(-65563));
    assert!(!pump_continue(1));
}

#[test]
fn registered_service_reports_socket() {
    let service = RegisteredDnsService::new(42);
    assert_eq!(service.socket(), 42);
}
