use astro_dnssd::records::{
    process_name, query_submit_check, services_from_record_list, txt_record_from_strings,
};
use astro_dnssd::{BrowseError, DnsRecord, ServiceEventType};

#[test]
fn query_status_decides() {
    // 0x2522 announces an accepted, still-pending DNS query.
    assert!(query_submit_check(0x2522, 0x2522).is_ok());
    assert!(matches!(
        query_submit_check(5, 0x2522),
        Err(BrowseError::DnsError(5))
    ));
}

#[test]
fn process_name_splits_from_end() {
    let (name, regtype, domain) =
        process_name("MyPrinter._http._tcp.local").expect("three segments and more");
    assert_eq!(name, "MyPrinter");
    assert_eq!(regtype, "_http._tcp");
    assert_eq!(domain, "local");
}

#[test]
fn process_name_joins_leading_segments_reversed() {
    let (name, regtype, domain) = process_name("a.b._x._tcp.dom").expect("five segments");
    assert_eq!(name, "b.a");
    assert_eq!(regtype, "_x._tcp");
    assert_eq!(domain, "dom");
}

#[test]
fn process_name_needs_three_segments() {
    assert!(process_name("x.y").is_none());
    assert!(process_name("plain").is_none());
    assert!(process_name("").is_none());
}

#[test]
fn txt_strings_split_at_delimiters() {
    let strings = vec![
        "k=v".to_string(),
        "nodelimiter".to_string(),
        "a=b=c".to_string(),
    ];
    let rec = txt_record_from_strings(&strings);
    assert!(rec.contains_key("k"));
    assert!(!rec.contains_key("nodelimiter"));
    // Only the first `=` splits; later ones belong to the value.
    assert!(rec.contains_key("a"));
    assert_eq!(rec.record().raw_bytes(), b"\x03k=v\x05a=b=c");
}

#[test]
fn record_list_folds_into_service() {
    let txt = txt_record_from_strings(&vec!["k=v".to_string()]);
    let records = vec![
        DnsRecord::Ptr("MyPrinter._http._tcp.local".to_string()),
        DnsRecord::Srv(8080),
        DnsRecord::Txt(txt),
        DnsRecord::A(0x7F000001),
    ];
    let service = services_from_record_list(records);
    assert_eq!(service.name, "MyPrinter");
    assert_eq!(service.regtype, "_http._tcp");
    assert_eq!(service.domain, "local");
    assert_eq!(service.hostname, "MyPrinter.local");
    assert_eq!(service.port, 8080);
    assert_eq!(service.event_type, ServiceEventType::Added);
    assert!(service.interface_index.is_none());
    assert!(service.txt_record.is_some());
}

#[test]
fn record_list_defaults() {
    let service = services_from_record_list(Vec::new());
    assert_eq!(service.name, "");
    assert_eq!(service.hostname, "");
    assert_eq!(service.port, 0);
    assert!(service.txt_record.is_none());
}

#[test]
fn later_records_overwrite_earlier() {
    let records = vec![
        DnsRecord::Srv(80),
        DnsRecord::Srv(8080),
        DnsRecord::Ptr("One._a._tcp.local".to_string()),
        DnsRecord::Ptr("Two._b._udp.local".to_string()),
    ];
    let service = services_from_record_list(records);
    assert_eq!(service.port, 8080);
    assert_eq!(service.name, "Two");
    assert_eq!(service.regtype, "_b._udp");
}

#[test]
fn unparsed_name_and_empty_txt_change_nothing() {
    let records = vec![
        DnsRecord::Ptr("Good._http._tcp.local".to_string()),
        DnsRecord::Ptr("nodots".to_string()),
        DnsRecord::Txt(txt_record_from_strings(&Vec::new())),
    ];
    let service = services_from_record_list(records);
    assert_eq!(service.name, "Good");
    assert!(service.txt_record.is_none());
}
