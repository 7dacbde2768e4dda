//! Registration of DNS-SD services: building the native register request
//! and deciding the outcome of the asynchronous confirmation.

use vstd::prelude::*;

verus! {

use crate::pipeline::{spec_u16_from_be, u16_from_be};
use crate::session::{teardown_actions, SessionGuard, TeardownAction};
use crate::txt::TxtRecord;
use crate::txt_record::{entries_without, entry_bytes, insert_error, txt_entries};
use vstd::string::StringSliceAdditionalSpecFns;
use vstd::utf8::encode_utf8;

/// Common error for DNS-SD registration.
#[derive(Debug, Clone, Copy, PartialEq, Eq, Structural)]
pub enum RegistrationError {
    /// A caller-supplied string cannot cross the native boundary.
    InvalidString,
    /// The native library handed over a string that is not valid UTF-8.
    InternalInvalidString,
    /// The native library returned a non-success status code.
    ServiceError(i32),
    /// No confirmation callback fired within the configured timeout.
    Timeout,
}

impl RegistrationError {
    /// A short description of the error; the numeric code of a native
    /// error travels in the variant itself.
    pub fn message(&self) -> (r: String)
        ensures
            r@ == match self {
                RegistrationError::InvalidString => "Invalid string argument, must be C string compatible"@,
                RegistrationError::InternalInvalidString => "DNSSD API returned invalid UTF-8 string"@,
                RegistrationError::ServiceError(_) => "DNSSD Error"@,
                RegistrationError::Timeout => "Timeout waiting for registration confirmation"@,
            },
    {
        match self {
            RegistrationError::InvalidString => "Invalid string argument, must be C string compatible".to_owned(),
            RegistrationError::InternalInvalidString => "DNSSD API returned invalid UTF-8 string".to_owned(),
            RegistrationError::ServiceError(_) => "DNSSD Error".to_owned(),
            RegistrationError::Timeout => "Timeout waiting for registration confirmation".to_owned(),
        }
    }
}

/// A string that can be handed to the native library as a C string: free of
/// interior NUL bytes.
pub open spec fn cstr_ok(s: Seq<u8>) -> bool {
    !s.contains(0u8)
}

/// Reports whether a string can cross the native boundary as a C string.
pub(crate) fn check_cstr(s: &str) -> (r: bool)
    ensures
        r == cstr_ok(s.spec_bytes()),
{
    let b = s.as_bytes();
    let n = b.len();
    let mut i: usize = 0;
    while i < n
        invariant
            i <= n,
            n == b@.len(),
            b@ == s.spec_bytes(),
            forall|j: int| 0 <= j < i ==> #[trigger] b@[j] != 0u8,
        decreases n - i,
    {
        if *vstd::slice::slice_index_get(b, i) == 0 {
            proof {
                assert(b@.contains(0u8));
            }
            return false;
        }
        i = i + 1;
    }
    proof {
        assert(!b@.contains(0u8)) by {
            if b@.contains(0u8) {
                let w = choose|w: int| 0 <= w < b@.len() && b@[w] == 0u8;
                assert(b@[w] != 0u8);
            }
        }
    }
    true
}

/// Builder for a service registration.
#[derive(Debug)]
pub struct DNSServiceBuilder {
    /// Service type to register, such as `_http._tcp`.
    pub regtype: String,
    /// Name of the service; the machine's hostname when absent.
    pub name: Option<String>,
    /// Domain to register on; the default domain when absent.
    pub domain: Option<String>,
    /// Host the service runs on; the machine itself when absent.
    pub host: Option<String>,
    /// Port the service listens on, in host byte order.
    pub port: u16,
    /// TXT record to announce with the service, if any.
    pub txt: Option<TxtRecord>,
}

impl DNSServiceBuilder {
    /// The TXT record under construction, when there is one, is well
    /// formed.
    pub open spec fn wf(&self) -> bool {
        match self.txt {
            Some(t) => t.wf(),
            None => true,
        }
    }

    /// Starts a service builder with the given type and port.
    pub fn new(regtype: &str, port: u16) -> (r: DNSServiceBuilder)
        ensures
            r.regtype@ == regtype@,
            r.name is None,
            r.domain is None,
            r.host is None,
            r.port == port,
            r.txt is None,
            r.wf(),
    {
        DNSServiceBuilder {
            regtype: regtype.to_owned(),
            name: None,
            domain: None,
            host: None,
            port,
            txt: None,
        }
    }

    /// Names the service; without this the machine's hostname is used.
    pub fn with_name(self, name: &str) -> (r: DNSServiceBuilder)
        ensures
            r.name matches Some(n) && n@ == name@,
            r.regtype == self.regtype,
            r.domain == self.domain,
            r.host == self.host,
            r.port == self.port,
            r.txt == self.txt,
    {
        DNSServiceBuilder { name: Some(name.to_owned()), ..self }
    }

    /// Sets the domain to register the service on.
    pub fn with_domain(self, domain: &str) -> (r: DNSServiceBuilder)
        ensures
            r.domain matches Some(d) && d@ == domain@,
            r.regtype == self.regtype,
            r.name == self.name,
            r.host == self.host,
            r.port == self.port,
            r.txt == self.txt,
    {
        DNSServiceBuilder { domain: Some(domain.to_owned()), ..self }
    }

    /// Sets the host the service runs on.
    pub fn with_host(self, host: &str) -> (r: DNSServiceBuilder)
        ensures
            r.host matches Some(h) && h@ == host@,
            r.regtype == self.regtype,
            r.name == self.name,
            r.domain == self.domain,
            r.port == self.port,
            r.txt == self.txt,
    {
        DNSServiceBuilder { host: Some(host.to_owned()), ..self }
    }

    /// Includes a TXT record with the registration.
    pub fn with_txt_record(self, txt: TxtRecord) -> (r: DNSServiceBuilder)
        requires
            txt.wf(),
        ensures
            r.txt == Some(txt),
            r.regtype == self.regtype,
            r.name == self.name,
            r.domain == self.domain,
            r.host == self.host,
            r.port == self.port,
            r.wf(),
    {
        DNSServiceBuilder { txt: Some(txt), ..self }
    }

    /// Adds one key/value pair to the TXT record, starting one when none is
    /// there yet.  A pair the record cannot hold is left out.
    pub fn with_key_value(self, key: String, value: String) -> (r: DNSServiceBuilder)
        requires
            self.wf(),
        ensures
            r.regtype == self.regtype,
            r.name == self.name,
            r.domain == self.domain,
            r.host == self.host,
            r.port == self.port,
            r.wf(),
            r.txt matches Some(t) && {
                let base = match self.txt {
                    None => Seq::<Seq<u8>>::empty(),
                    Some(t0) => txt_entries(t0@),
                };
                match insert_error(base, encode_utf8(key@), Some(encode_utf8(value@))) {
                    Some(_) => txt_entries(t@) =~= base,
                    None => txt_entries(t@) =~= entries_without(base, encode_utf8(key@))
                        + seq![
                        entry_bytes(encode_utf8(key@), Some(encode_utf8(value@))),
                    ],
                }
            },
    {
        let mut txt = match self.txt {
            Some(t) => t,
            None => TxtRecord::new(),
        };
        let _ = txt.insert(key.as_str(), value.as_str());
        DNSServiceBuilder { txt: Some(txt), ..self }
    }

    /// Builds the native register request for this service: the validated
    /// strings, the port in network byte order, and the encoded TXT bytes.
    /// Fails with `InvalidString` exactly when the service name or type
    /// cannot cross the native boundary.  The domain and host are not part
    /// of the native call; the native library picks its defaults.
    pub fn register(self) -> (r: Result<RegisterRequest, RegistrationError>)
        requires
            self.wf(),
        ensures
            match r {
                Ok(req) => {
                    &&& (match self.name {
                        Some(n) => cstr_ok(encode_utf8(n@)) && (req.name matches Some(rn) && rn == n),
                        None => req.name is None,
                    })
                    &&& cstr_ok(encode_utf8(self.regtype@))
                    &&& req.regtype == self.regtype
                    &&& req.port_be == spec_u16_from_be(self.port)
                    &&& (match self.txt {
                        Some(t) => req.txt_bytes@ == t@,
                        None => req.txt_bytes@ =~= Seq::<u8>::empty(),
                    })
                },
                Err(err) => err == RegistrationError::InvalidString && ((match self.name {
                    Some(n) => !cstr_ok(encode_utf8(n@)),
                    None => false,
                }) || !cstr_ok(encode_utf8(self.regtype@))),
            },
    {
        if let Some(n) = &self.name {
            if !check_cstr(n.as_str()) {
                return Err(RegistrationError::InvalidString);
            }
        }
        if !check_cstr(self.regtype.as_str()) {
            return Err(RegistrationError::InvalidString);
        }
        let txt_bytes: Vec<u8> = match &self.txt {
            Some(t) => vstd::slice::slice_to_vec(t.record().raw_bytes()),
            None => Vec::new(),
        };
        Ok(
            RegisterRequest {
                name: self.name,
                regtype: self.regtype,
                port_be: u16_from_be(self.port),
                txt_bytes,
            },
        )
    }
}

/// The plain values a native register call is made of.
#[derive(Debug)]
pub struct RegisterRequest {
    /// The validated service name, if one was chosen.
    pub name: Option<String>,
    /// The validated service type.
    pub regtype: String,
    /// The port in network byte order.
    pub port_be: u16,
    /// The encoded TXT record; empty when none was provided.
    pub txt_bytes: Vec<u8>,
}

/// Reply information upon successful registration.
#[derive(Debug, Clone, PartialEq, Eq)]
pub struct DNSServiceRegisterReply {
    /// Service type of the registered service.
    pub regtype: String,
    /// Name of the registered service.
    pub name: String,
    /// Domain used for the registration.
    pub domain: String,
}

/// A register reply delivered by the native callback, its strings copied
/// out; `None` stands for a string that was not valid UTF-8.
#[derive(Debug)]
pub struct RegisterReply {
    /// The native status code; zero for success.
    pub error_code: i32,
    /// The name the service was registered under.
    pub name: Option<String>,
    /// The registered service type.
    pub regtype: Option<String>,
    /// The domain the service was registered on.
    pub domain: Option<String>,
}

/// Turns a native register reply into the registration's outcome: a string
/// the native library corrupted is reported first, then a non-zero status,
/// and otherwise the confirmed names.
pub fn register_reply_event(reply: RegisterReply) -> (r: Result<
    DNSServiceRegisterReply,
    RegistrationError,
>)
    ensures
        match (reply.name, reply.regtype, reply.domain) {
            (Some(name), Some(regtype), Some(domain)) => if reply.error_code == 0 {
                r matches Ok(ok) && ok.name == name && ok.regtype == regtype && ok.domain == domain
            } else {
                r == Err::<DNSServiceRegisterReply, _>(
                    RegistrationError::ServiceError(reply.error_code),
                )
            },
            _ => r == Err::<DNSServiceRegisterReply, _>(RegistrationError::InternalInvalidString),
        },
{
    match (reply.name, reply.regtype, reply.domain) {
        (Some(name), Some(regtype), Some(domain)) => {
            if reply.error_code == 0 {
                Ok(DNSServiceRegisterReply { regtype, name, domain })
            } else {
                Err(RegistrationError::ServiceError(reply.error_code))
            }
        },
        _ => Err(RegistrationError::InternalInvalidString),
    }
}

/// Judges the immediate status of the native register call: only success
/// lets the registration proceed to its asynchronous confirmation.
pub fn register_submit_check(status: i32) -> (r: Result<(), RegistrationError>)
    ensures
        status == 0 ==> r is Ok,
        status != 0 ==> r == Err::<(), _>(RegistrationError::ServiceError(status)),
{
    if status == 0 {
        Ok(())
    } else {
        Err(RegistrationError::ServiceError(status))
    }
}

/// How the synchronous wait for the confirmation callback ended.
#[derive(Debug)]
pub enum RegisterWait {
    /// The callback fired and reported this outcome.
    Reply(Result<DNSServiceRegisterReply, RegistrationError>),
    /// No callback fired within the configured timeout.
    TimedOut,
    /// The callback side went away without reporting.
    ChannelDown,
}

/// The registration's final outcome for a given end of the wait: the
/// callback's own verdict when it fired, a timeout error when it never
/// did within the budget, and a native-error report for a lost callback.
/// No handle is produced unless the callback confirmed success.
pub fn register_wait_outcome(wait: RegisterWait) -> (r: Result<
    DNSServiceRegisterReply,
    RegistrationError,
>)
    ensures
        match wait {
            RegisterWait::Reply(outcome) => r == outcome,
            RegisterWait::TimedOut => r == Err::<DNSServiceRegisterReply, _>(
                RegistrationError::Timeout,
            ),
            RegisterWait::ChannelDown => r == Err::<DNSServiceRegisterReply, _>(
                RegistrationError::ServiceError(0),
            ),
        },
{
    match wait {
        RegisterWait::Reply(outcome) => outcome,
        RegisterWait::TimedOut => Err(RegistrationError::Timeout),
        RegisterWait::ChannelDown => Err(RegistrationError::ServiceError(0)),
    }
}

/// Whether the event pump should keep driving the native session: only
/// while the processing call keeps succeeding.
pub fn pump_continue(status: i32) -> (r: bool)
    ensures
        r == (status == 0),
{
    status == 0
}

/// A live advertisement: the registered service's socket and the
/// bookkeeping of its native session, torn down exactly once on drop.
#[derive(Debug)]
pub struct RegisteredDnsService {
    socket: i32,
    guard: SessionGuard,
}

impl RegisteredDnsService {
    /// Whether the native session handle has not been released yet.
    pub closed spec fn native_live(&self) -> bool {
        self.guard.native_live()
    }

    /// Whether the boxed callback context has not been reclaimed yet.
    pub closed spec fn context_live(&self) -> bool {
        self.guard.context_live()
    }

    /// Wraps a freshly registered session whose descriptor is `socket`.
    pub fn new(socket: i32) -> (r: RegisteredDnsService)
        ensures
            r.socket_value() == socket,
            r.native_live(),
            r.context_live(),
    {
        RegisteredDnsService { socket, guard: SessionGuard::new() }
    }

    /// The socket's value as the session reports it.
    pub closed spec fn socket_value(&self) -> i32 {
        self.socket
    }

    /// The descriptor of the underlying session, whose closure unblocks the
    /// pump thread.
    pub fn socket(&self) -> (r: i32)
        ensures
            r == self.socket_value(),
    {
        self.socket
    }

    /// Takes the callback context for the callback's own reclamation path.
    pub fn take_context(&mut self) -> (took: bool)
        ensures
            took == old(self).context_live(),
            !final(self).context_live(),
            final(self).native_live() == old(self).native_live(),
            final(self).socket_value() == old(self).socket_value(),
    {
        self.guard.take_context()
    }

    /// The release steps drop must perform: each live resource exactly
    /// once.
    pub fn teardown(&mut self) -> (actions: Vec<TeardownAction>)
        ensures
            actions@ =~= teardown_actions(old(self).native_live(), old(self).context_live()),
            !final(self).native_live(),
            !final(self).context_live(),
            final(self).socket_value() == old(self).socket_value(),
    {
        self.guard.teardown()
    }
}

} // verus!
