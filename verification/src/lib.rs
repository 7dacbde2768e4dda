//! DNS-SD building blocks: a verified TXT attribute codec, browse/resolve
//! event handling, and the decision logic of a discovery and registration
//! bridge over a native multicast-DNS responder.

pub mod browse;
pub mod pipeline;
pub mod readiness;
pub mod records;
pub mod register;
pub mod session;
pub mod txt;
pub mod txt_codec;
pub mod txt_record;

pub use browse::{
    BrowseError, BrowseRequest, DiscoveredService, ResolveIpType, ResolvedService, Service,
    ServiceBrowser, ServiceBrowserBuilder, ServiceBrowserTrait, ServiceEventType,
};
pub use pipeline::{
    BrowseReply, ChannelRecv, PendingResolution, ResolveReply, ResolveRequest, ResolverAction,
    ResolverInput,
};
pub use records::DnsRecord;
pub use register::{
    DNSServiceBuilder, DNSServiceRegisterReply, RegisterReply, RegisterRequest, RegisterWait,
    RegisteredDnsService, RegistrationError,
};
pub use session::TeardownAction;
pub use txt::{TxtRecord, TxtRecordError};
pub use txt_record::{TXTHash, TXTRecord};
