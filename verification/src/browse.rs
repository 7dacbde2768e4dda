//! Service browsing: the event and service types of the discovery pipeline.

use vstd::prelude::*;

verus! {

use crate::txt::TxtRecord;

/// Flag bit a native browse callback sets on an announcement event.
pub const FLAG_ADD: u32 = 0x2;

/// Flag bit a native resolve callback sets when further replies for the same
/// query are imminent.
pub const FLAG_MORE_COMING: u32 = 0x1;

/// Whether a service is being added to or removed from the network.
#[derive(Debug, Clone, Copy, PartialEq, Eq, Structural)]
pub enum ServiceEventType {
    /// Service has been added to the network.
    Added,
    /// Service is removed from the network.
    Removed,
}

/// The event kind a native callback's flag word encodes: the add bit set
/// means an announcement, clear means a removal.
pub open spec fn spec_event_type(flags: u32) -> ServiceEventType {
    if flags & FLAG_ADD != 0 {
        ServiceEventType::Added
    } else {
        ServiceEventType::Removed
    }
}

impl From<u32> for ServiceEventType {
    /// Reads the event kind out of a native callback's flag word.
    fn from(flags: u32) -> (r: ServiceEventType) {
        if flags & FLAG_ADD != 0 {
            ServiceEventType::Added
        } else {
            ServiceEventType::Removed
        }
    }
}

impl vstd::std_specs::convert::FromSpecImpl<u32> for ServiceEventType {
    open spec fn obeys_from_spec() -> bool {
        true
    }

    open spec fn from_spec(flags: u32) -> ServiceEventType {
        spec_event_type(flags)
    }
}

/// Error while browsing for DNS-SD services.
#[derive(Debug, Clone, Copy, PartialEq, Eq, Structural)]
pub enum BrowseError {
    /// A caller-supplied string cannot cross the native boundary.
    InvalidString,
    /// The native library handed over a string that is not valid UTF-8.
    InternalInvalidString,
    /// The native library returned a non-success status code.
    ServiceError(i32),
    /// No event arrived within the caller's budget; the caller may retry.
    Timeout,
    /// The session or its background thread is gone.
    Disconnected,
    /// A native DNS query API returned a non-success status code.
    DnsError(u32),
}

impl BrowseError {
    /// A short description of the error; the numeric code of a native
    /// error travels in the variant itself.
    pub fn message(&self) -> (r: String)
        ensures
            r@ == match self {
                BrowseError::InvalidString => "Invalid string argument, must be C string compatible"@,
                BrowseError::InternalInvalidString => "DNSSD API returned invalid UTF-8 string"@,
                BrowseError::ServiceError(_) => "DNSSD Error"@,
                BrowseError::Timeout => "Timeout waiting for data"@,
                BrowseError::Disconnected => "Browse session disconnected"@,
                BrowseError::DnsError(_) => "Error from DNS Service APIs"@,
            },
    {
        match self {
            BrowseError::InvalidString => "Invalid string argument, must be C string compatible".to_owned(),
            BrowseError::InternalInvalidString => "DNSSD API returned invalid UTF-8 string".to_owned(),
            BrowseError::ServiceError(_) => "DNSSD Error".to_owned(),
            BrowseError::Timeout => "Timeout waiting for data".to_owned(),
            BrowseError::Disconnected => "Browse session disconnected".to_owned(),
            BrowseError::DnsError(_) => "Error from DNS Service APIs".to_owned(),
        }
    }
}

/// A service instance announced by the browse phase, before resolution.
#[derive(Debug, Clone, PartialEq, Eq)]
pub struct DiscoveredService {
    /// Name of service, usually a user friendly name.
    pub name: String,
    /// Registration type, such as `_http._tcp.`.
    pub regtype: String,
    /// Index of the interface the announcement arrived on.
    pub interface_index: u32,
    /// Domain the service is on, typically `local.`.
    pub domain: String,
    /// Whether this service is being added or removed.
    pub event_type: ServiceEventType,
}

/// A service instance with its connection details, after resolution.
#[derive(Debug)]
pub struct ResolvedService {
    /// Full name of the service.
    pub full_name: String,
    /// Hostname of the service, usable for address lookup.
    pub hostname: String,
    /// Port the service listens on, in host byte order.
    pub port: u16,
    /// TXT record of the service, if it announced one.
    pub txt_record: Option<TxtRecord>,
    /// Index of the interface the reply arrived on.
    pub interface_index: u32,
}

/// Which IP family to resolve a host for.
#[derive(Debug, Clone, Copy, PartialEq, Eq, Structural)]
pub enum ResolveIpType {
    /// Resolve IPv4.
    V4,
    /// Resolve IPv6.
    V6,
}

impl ResolveIpType {
    /// The native protocol flag for this IP family.
    pub fn protocol_flag(self) -> (r: u32)
        ensures
            r == match self {
                ResolveIpType::V4 => 1u32,
                ResolveIpType::V6 => 2u32,
            },
    {
        match self {
            ResolveIpType::V4 => 1,
            ResolveIpType::V6 => 2,
        }
    }
}

/// A discovered service merged with its resolution: what a browse session
/// hands to its consumer.
#[derive(Debug)]
pub struct Service {
    /// Name of service, usually a user friendly name.
    pub name: String,
    /// Registration type, such as `_http._tcp.`.
    pub regtype: String,
    /// Index of the interface the service was seen on, when known.
    pub interface_index: Option<u32>,
    /// Domain the service is on, typically `local.`.
    pub domain: String,
    /// Whether this service is being added or removed.
    pub event_type: ServiceEventType,
    /// Hostname of the service; empty when resolution returned nothing.
    pub hostname: String,
    /// Port the service listens on, in host byte order.
    pub port: u16,
    /// TXT record of the service, if it announced a nonempty one.
    pub txt_record: Option<TxtRecord>,
}

/// The verified core of a live browse session: the session's descriptor and
/// the bookkeeping of its native handle and callback context, torn down
/// exactly once on drop.
#[derive(Debug)]
pub struct ServiceBrowser {
    socket: i32,
    guard: crate::session::SessionGuard,
}

impl ServiceBrowser {
    /// Whether the native session handle has not been released yet.
    pub closed spec fn native_live(&self) -> bool {
        self.guard.native_live()
    }

    /// Whether the boxed callback context has not been reclaimed yet.
    pub closed spec fn context_live(&self) -> bool {
        self.guard.context_live()
    }

    /// The socket's value as the session reports it.
    pub closed spec fn socket_value(&self) -> i32 {
        self.socket
    }

    /// Wraps a freshly started browse session whose descriptor is `socket`.
    pub fn new(socket: i32) -> (r: ServiceBrowser)
        ensures
            r.socket_value() == socket,
            r.native_live(),
            r.context_live(),
    {
        ServiceBrowser { socket, guard: crate::session::SessionGuard::new() }
    }

    /// The socket of the underlying session, for readiness checks.
    pub fn socket(&self) -> (r: i32)
        ensures
            r == self.socket_value(),
    {
        self.socket
    }

    /// The release steps drop must perform: each live resource exactly
    /// once.
    pub fn teardown(&mut self) -> (actions: Vec<crate::session::TeardownAction>)
        ensures
            actions@ =~= crate::session::teardown_actions(
                old(self).native_live(),
                old(self).context_live(),
            ),
            !final(self).native_live(),
            !final(self).context_live(),
            final(self).socket_value() == old(self).socket_value(),
    {
        self.guard.teardown()
    }
}

/// A source of discovered services.
pub trait ServiceBrowserTrait {
    /// The next discovered service, when one is available.
    fn next_entry(&self) -> Result<Service, BrowseError>;
}

/// Builder for a browse session over one service type, optionally narrowed
/// to a domain.
#[derive(Debug, Clone, PartialEq, Eq)]
pub struct ServiceBrowserBuilder {
    /// Type to search for, such as `_http._tcp`.
    pub regtype: String,
    /// Domain to search in; the default domains when absent.
    pub domain: Option<String>,
}

impl ServiceBrowserBuilder {
    /// Creates a new service browser builder for the given service type.
    pub fn new(regtype: &str) -> (r: ServiceBrowserBuilder)
        ensures
            r.regtype@ == regtype@,
            r.domain is None,
    {
        ServiceBrowserBuilder { regtype: regtype.to_owned(), domain: None }
    }

    /// Adds a specific domain to the browser's search.
    pub fn with_domain(self, domain: &str) -> (r: ServiceBrowserBuilder)
        ensures
            r.regtype == self.regtype,
            r.domain matches Some(d) && d@ == domain@,
    {
        ServiceBrowserBuilder { regtype: self.regtype, domain: Some(domain.to_owned()) }
    }

    /// Builds the native browse call's request from this builder.  Fails
    /// with `InvalidString` exactly when the service type or domain cannot
    /// cross the native boundary.
    pub fn browse(self) -> (r: Result<BrowseRequest, BrowseError>)
        ensures
            match r {
                Ok(req) => {
                    &&& (match self.domain {
                        Some(d) => crate::register::cstr_ok(vstd::utf8::encode_utf8(d@)) && (
                        req.domain matches Some(rd) && rd == d),
                        None => req.domain is None,
                    })
                    &&& crate::register::cstr_ok(vstd::utf8::encode_utf8(self.regtype@))
                    &&& req.regtype == self.regtype
                },
                Err(err) => err == BrowseError::InvalidString && ((match self.domain {
                    Some(d) => !crate::register::cstr_ok(vstd::utf8::encode_utf8(d@)),
                    None => false,
                }) || !crate::register::cstr_ok(vstd::utf8::encode_utf8(self.regtype@))),
            },
    {
        if let Some(d) = &self.domain {
            if !crate::register::check_cstr(d.as_str()) {
                return Err(BrowseError::InvalidString);
            }
        }
        if !crate::register::check_cstr(self.regtype.as_str()) {
            return Err(BrowseError::InvalidString);
        }
        Ok(BrowseRequest { regtype: self.regtype, domain: self.domain })
    }
}

/// The plain values a native browse call is made of.
#[derive(Debug)]
pub struct BrowseRequest {
    /// The validated service type to browse for.
    pub regtype: String,
    /// The validated domain to browse in, if one was chosen.
    pub domain: Option<String>,
}

} // verus!
