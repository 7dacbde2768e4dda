//! The browse → resolve pipeline: mapping native callback replies to typed
//! events, accumulating resolve replies, and merging discovery with
//! resolution.

use vstd::prelude::*;

verus! {

use crate::browse::{
    spec_event_type, BrowseError, DiscoveredService, ResolvedService, Service, ServiceEventType,
    FLAG_MORE_COMING,
};
use crate::txt::TxtRecord;
use crate::txt_record::{
    entries_without, entry_bytes, entry_key, entry_value, insert_error, txt_entries,
};
use vstd::string::StringSliceAdditionalSpecFns;
use vstd::utf8::{decode_utf8, decode_utf8_encode_utf8, encode_utf8, valid_utf8};

/// A 16-bit value with its two bytes swapped: what a little-endian host
/// reads out of a wire value in network byte order.
pub open spec fn spec_u16_from_be(x: u16) -> u16 {
    ((x & 0xff) << 8) | (x >> 8)
}

/// Reorders a 16-bit value between network and host byte order by
/// swapping its two bytes: the conversion a little-endian host needs.
pub fn u16_from_be(x: u16) -> (r: u16)
    ensures
        r == spec_u16_from_be(x),
{
    ((x & 0xff) << 8) | (x >> 8)
}

/// A browse reply delivered by a native callback, its strings already copied
/// out of the native buffers; `None` stands for a string that was not valid
/// UTF-8.
#[derive(Debug)]
pub struct BrowseReply {
    /// The callback's flag word.
    pub flags: u32,
    /// Index of the interface the announcement arrived on.
    pub interface_index: u32,
    /// The native status code; zero for success.
    pub error_code: i32,
    /// The announced service name.
    pub service_name: Option<String>,
    /// The announced registration type.
    pub regtype: Option<String>,
    /// The announced domain.
    pub domain: Option<String>,
}

/// Turns a browse reply into a discovered service, or the error to forward:
/// a native error code is forwarded as is, and a string the native library
/// corrupted is reported rather than passed on.
pub fn browse_reply_event(reply: BrowseReply) -> (r: Result<DiscoveredService, BrowseError>)
    ensures
        reply.error_code != 0 ==> r == Err::<DiscoveredService, _>(
            BrowseError::ServiceError(reply.error_code),
        ),
        reply.error_code == 0 ==> match (reply.service_name, reply.regtype, reply.domain) {
            (Some(name), Some(regtype), Some(domain)) => r matches Ok(d) && d.name == name
                && d.regtype == regtype && d.domain == domain && d.interface_index
                == reply.interface_index && d.event_type == spec_event_type(reply.flags),
            _ => r == Err::<DiscoveredService, _>(BrowseError::InternalInvalidString),
        },
{
    if reply.error_code != 0 {
        return Err(BrowseError::ServiceError(reply.error_code));
    }
    match (reply.service_name, reply.regtype, reply.domain) {
        (Some(name), Some(regtype), Some(domain)) => Ok(
            DiscoveredService {
                name,
                regtype,
                interface_index: reply.interface_index,
                domain,
                event_type: ServiceEventType::from(reply.flags),
            },
        ),
        _ => Err(BrowseError::InternalInvalidString),
    }
}

/// The string pairs among a buffer's entries that the resolve path keeps:
/// those with a nonempty UTF-8 key and a present, nonempty UTF-8 value.
pub open spec fn resolve_txt_pairs(es: Seq<Seq<u8>>) -> Seq<(Seq<char>, Seq<char>)>
    decreases es.len(),
{
    if es.len() == 0 {
        Seq::empty()
    } else {
        let k = entry_key(es[0]);
        let rest = resolve_txt_pairs(es.drop_first());
        match entry_value(es[0]) {
            Some(v) => if k.len() > 0 && valid_utf8(k) && v.len() > 0 && valid_utf8(v) {
                seq![(decode_utf8(k), decode_utf8(v))] + rest
            } else {
                rest
            },
            None => rest,
        }
    }
}

/// The entries of a record after storing the string pairs in order, each
/// replacing the key's earlier value; a pair the record cannot hold is
/// skipped.
pub open spec fn string_pairs_fold(es: Seq<Seq<u8>>, pairs: Seq<(Seq<char>, Seq<char>)>) -> Seq<
    Seq<u8>,
>
    decreases pairs.len(),
{
    if pairs.len() == 0 {
        es
    } else {
        let kb = encode_utf8(pairs[0].0);
        let vb = encode_utf8(pairs[0].1);
        let es2 = match insert_error(es, kb, Some(vb)) {
            Some(_) => es,
            None => entries_without(es, kb) + seq![entry_bytes(kb, Some(vb))],
        };
        string_pairs_fold(es2, pairs.drop_first())
    }
}

/// The entries of the record that a resolve reply's TXT bytes reconstruct.
pub open spec fn reply_txt_entries(data: Seq<u8>) -> Seq<Seq<u8>> {
    string_pairs_fold(Seq::empty(), resolve_txt_pairs(txt_entries(data)))
}

/// Rebuilds a key/value record from the TXT bytes of a resolve reply,
/// keeping the entries with a nonempty UTF-8 key and a nonempty UTF-8
/// value, a later entry replacing an earlier one with the same key.
pub fn txt_record_from_bytes(data: &[u8]) -> (r: TxtRecord)
    ensures
        r.wf(),
        txt_entries(r@) =~= reply_txt_entries(data@),
{
    let ghost all = resolve_txt_pairs(txt_entries(data@));
    let n: usize = data.len();
    let mut rec = TxtRecord::new();
    let mut i: usize = 0;
    proof {
        assert(data@.skip(0) =~= data@);
        assert(txt_entries(rec@) =~= Seq::<Seq<u8>>::empty());
    }
    while i < n
        invariant
            i <= n,
            n == data@.len(),
            rec.wf(),
            string_pairs_fold(txt_entries(rec@), resolve_txt_pairs(txt_entries(data@.skip(i as int))))
                =~= reply_txt_entries(data@),
        decreases n - i,
    {
        let l = *vstd::slice::slice_index_get(data, i) as usize;
        proof {
            assert(data@.skip(i as int)[0] == data@[i as int]);
        }
        if l >= n - i {
            proof {
                assert(txt_entries(data@.skip(i as int)) =~= Seq::<Seq<u8>>::empty());
                assert(data@.skip(n as int) =~= Seq::<u8>::empty());
            }
            i = n;
            continue;
        }
        let ghost e = data@.subrange(i as int + 1, i as int + 1 + l as int);
        let ghost rest = txt_entries(data@.skip(i as int + 1 + l as int));
        proof {
            assert(data@.skip(i as int).subrange(1, 1 + l as int) =~= e);
            assert(data@.skip(i as int).skip(1 + l as int) =~= data@.skip(i as int + 1 + l as int));
            assert(txt_entries(data@.skip(i as int)) =~= seq![e] + rest);
            assert((seq![e] + rest)[0] == e);
            assert((seq![e] + rest).drop_first() =~= rest);
        }
        let ghost ps_rest = resolve_txt_pairs(rest);
        let k = crate::txt_record::entry_eq_pos(data, i, l);
        proof {
            assert(e.len() == l);
        }
        if k > 0 && k < l {
            proof {
                assert(entry_key(e) =~= data@.subrange(i as int + 1, i as int + 1 + k as int));
                assert(e.skip(crate::txt_record::first_eq(e) + 1) =~= data@.subrange(
                    i as int + 1 + k as int + 1,
                    i as int + 1 + l as int,
                ));
                assert(entry_value(e) == Some(
                    data@.subrange(i as int + 1 + k as int + 1, i as int + 1 + l as int),
                ));
            }
            if k + 1 < l {
                let key_bytes = vstd::slice::slice_subrange(data, i + 1, i + 1 + k);
                let val_bytes = vstd::slice::slice_subrange(data, i + 1 + k + 1, i + 1 + l);
                proof {
                    assert(key_bytes@ == entry_key(e));
                    assert(val_bytes@ == entry_value(e)->Some_0);
                    assert(val_bytes@.len() > 0);
                }
                match (
                    crate::txt_codec::bytes_to_string(key_bytes),
                    crate::txt_codec::bytes_to_string(val_bytes),
                ) {
                    (Some(key), Some(value)) => {
                        let ghost before = txt_entries(rec@);
                        let ghost p = (decode_utf8(entry_key(e)), decode_utf8(
                            entry_value(e)->Some_0,
                        ));
                        proof {
                            decode_utf8_encode_utf8(key_bytes@);
                            decode_utf8_encode_utf8(val_bytes@);
                            assert(resolve_txt_pairs(txt_entries(data@.skip(i as int))) =~= seq![p]
                                + ps_rest);
                            assert((seq![p] + ps_rest)[0] == p);
                            assert((seq![p] + ps_rest).drop_first() =~= ps_rest);
                            assert(encode_utf8(p.0) == entry_key(e));
                            assert(encode_utf8(p.1) == entry_value(e)->Some_0);
                        }
                        let _ = rec.insert(key.as_str(), value.as_str());
                        proof {
                            assert(encode_utf8(key@) == entry_key(e));
                            assert(encode_utf8(value@) == entry_value(e)->Some_0);
                            assert(string_pairs_fold(before, seq![p] + ps_rest)
                                == string_pairs_fold(txt_entries(rec@), ps_rest));
                        }
                    },
                    _ => {
                        proof {
                            assert(resolve_txt_pairs(txt_entries(data@.skip(i as int)))
                                =~= ps_rest);
                        }
                    },
                }
            } else {
                // Present but empty value: the resolve path drops the entry.
                proof {
                    assert(entry_value(e)->Some_0.len() == 0);
                    assert(resolve_txt_pairs(txt_entries(data@.skip(i as int))) =~= ps_rest);
                }
            }
        } else {
            proof {
                // An empty key, or an entry without a value: dropped.
                if k == 0 {
                    assert(entry_key(e).len() == 0);
                } else {
                    assert(crate::txt_record::first_eq(e) == e.len());
                    assert(entry_value(e) is None);
                }
                assert(resolve_txt_pairs(txt_entries(data@.skip(i as int))) =~= ps_rest);
            }
        }
        i = i + 1 + l;
    }
    proof {
        assert(string_pairs_fold(txt_entries(rec@), Seq::empty()) == txt_entries(rec@));
    }
    rec
}

/// The plain values a native resolve call is made of.
#[derive(Debug)]
pub struct ResolveRequest {
    /// The validated instance name.
    pub name: String,
    /// The validated registration type.
    pub regtype: String,
    /// The validated domain.
    pub domain: String,
    /// Index of the interface to resolve on.
    pub interface_index: u32,
}

impl DiscoveredService {
    /// Builds the native resolve call's request for this service.  Fails
    /// with `InvalidString` exactly when one of the service's strings
    /// cannot cross the native boundary.
    pub fn resolve_request(&self) -> (r: Result<ResolveRequest, BrowseError>)
        ensures
            match r {
                Ok(req) => {
                    &&& crate::register::cstr_ok(encode_utf8(self.name@))
                    &&& crate::register::cstr_ok(encode_utf8(self.regtype@))
                    &&& crate::register::cstr_ok(encode_utf8(self.domain@))
                    &&& req.name@ == self.name@
                    &&& req.regtype@ == self.regtype@
                    &&& req.domain@ == self.domain@
                    &&& req.interface_index == self.interface_index
                },
                Err(err) => err == BrowseError::InvalidString && (!crate::register::cstr_ok(
                    encode_utf8(self.name@),
                ) || !crate::register::cstr_ok(encode_utf8(self.regtype@))
                    || !crate::register::cstr_ok(encode_utf8(self.domain@))),
            },
    {
        if !crate::register::check_cstr(self.regtype.as_str()) {
            return Err(BrowseError::InvalidString);
        }
        if !crate::register::check_cstr(self.name.as_str()) {
            return Err(BrowseError::InvalidString);
        }
        if !crate::register::check_cstr(self.domain.as_str()) {
            return Err(BrowseError::InvalidString);
        }
        Ok(
            ResolveRequest {
                name: self.name.clone(),
                regtype: self.regtype.clone(),
                domain: self.domain.clone(),
                interface_index: self.interface_index,
            },
        )
    }
}

/// Judges the immediate status of the native resolve call: only success
/// lets the accumulation loop run.
pub fn resolve_submit_check(status: i32) -> (r: Result<(), BrowseError>)
    ensures
        status == 0 ==> r is Ok,
        status != 0 ==> r == Err::<(), _>(BrowseError::ServiceError(status)),
{
    if status == 0 {
        Ok(())
    } else {
        Err(BrowseError::ServiceError(status))
    }
}

/// A resolve reply delivered by a native callback, its strings copied out
/// (`None` where the native bytes were not valid UTF-8) and its TXT bytes
/// copied verbatim; empty when the reply carried none.
#[derive(Debug)]
pub struct ResolveReply {
    /// The callback's flag word.
    pub flags: u32,
    /// Index of the interface the reply arrived on.
    pub interface_index: u32,
    /// The native status code; zero for success.
    pub error_code: i32,
    /// The service's full name.
    pub full_name: Option<String>,
    /// The host the service runs on.
    pub host_target: Option<String>,
    /// The service's port, in network byte order.
    pub port: u16,
    /// The raw TXT record bytes of the reply.
    pub txt: Vec<u8>,
}

/// Resolve replies accumulated for one query, and whether more are
/// imminent.  Starts with `more_coming` set so the first reply is awaited.
#[derive(Debug)]
pub struct PendingResolution {
    /// Whether the native library announced further replies.
    pub more_coming: bool,
    /// Every resolved record observed so far, in arrival order.
    pub results: Vec<ResolvedService>,
}

impl PendingResolution {
    /// A fresh accumulation, awaiting its first reply.
    pub fn new() -> (r: PendingResolution)
        ensures
            r.more_coming,
            r.results@ =~= Seq::<ResolvedService>::empty(),
    {
        PendingResolution { more_coming: true, results: Vec::new() }
    }
}

impl Default for PendingResolution {
    /// A fresh accumulation, awaiting its first reply.
    fn default() -> (r: PendingResolution)
        ensures
            r.more_coming,
            r.results@ =~= Seq::<ResolvedService>::empty(),
    {
        PendingResolution::new()
    }
}

/// Feeds one resolve reply into an accumulation.  A native error stops the
/// wait; otherwise the more-coming flag bit decides whether to keep
/// waiting, and the reply's record is appended unless the native library
/// corrupted one of its strings, in which case it is dropped.
pub fn resolve_step(state: &mut PendingResolution, reply: ResolveReply)
    ensures
        reply.error_code != 0 ==> !final(state).more_coming && final(state).results
            == old(state).results,
        reply.error_code == 0 ==> final(state).more_coming == (reply.flags & FLAG_MORE_COMING
            != 0),
        reply.error_code == 0 ==> match (reply.full_name, reply.host_target) {
            (Some(full_name), Some(host)) => {
                &&& final(state).results@.len() == old(state).results@.len() + 1
                &&& forall|j: int|
                    0 <= j < old(state).results@.len() ==> final(state).results@[j] == old(
                        state,
                    ).results@[j]
                &&& ({
                    let added = final(state).results@.last();
                    &&& added.full_name == full_name
                    &&& added.hostname == host
                    &&& added.port == spec_u16_from_be(reply.port)
                    &&& added.interface_index == reply.interface_index
                    &&& match added.txt_record {
                        None => reply_txt_entries(reply.txt@).len() == 0,
                        Some(txt) => txt.wf() && txt_entries(txt@) =~= reply_txt_entries(
                            reply.txt@,
                        ) && reply_txt_entries(reply.txt@).len() > 0,
                    }
                })
            },
            _ => final(state).results == old(state).results,
        },
{
    if reply.error_code != 0 {
        state.more_coming = false;
        return ;
    }
    state.more_coming = reply.flags & FLAG_MORE_COMING != 0;
    let txt_record: Option<TxtRecord> = {
        let rec = txt_record_from_bytes(reply.txt.as_slice());
        if rec.is_empty() {
            None
        } else {
            Some(rec)
        }
    };
    match (reply.full_name, reply.host_target) {
        (Some(full_name), Some(host)) => {
            let port = u16_from_be(reply.port);
            state.results.push(
                ResolvedService {
                    full_name,
                    hostname: host,
                    port,
                    txt_record,
                    interface_index: reply.interface_index,
                },
            );
        },
        _ => {},
    }
}

/// Merges a discovered service with what its resolution returned.  When at
/// least one record was resolved the first one supplies hostname, port and
/// TXT data; with none, the hostname stays empty and the port zero.
pub fn service_from_resolved(discovered: DiscoveredService, resolved: Vec<ResolvedService>) -> (s:
    Service)
    ensures
        s.name == discovered.name,
        s.regtype == discovered.regtype,
        s.domain == discovered.domain,
        s.interface_index == Some(discovered.interface_index),
        s.event_type == discovered.event_type,
        resolved@.len() == 0 ==> s.hostname@ =~= Seq::<char>::empty() && s.port == 0
            && s.txt_record is None,
        resolved@.len() > 0 ==> s.hostname == resolved@[0].hostname && s.port == resolved@[0].port
            && s.txt_record == resolved@[0].txt_record,
{
    let mut resolved = resolved;
    let (port, hostname, txt_record) = if resolved.len() > 0 {
        let first = resolved.remove(0);
        (first.port, first.hostname, first.txt_record)
    } else {
        (0u16, String::new(), None)
    };
    Service {
        name: discovered.name,
        domain: discovered.domain,
        regtype: discovered.regtype,
        interface_index: Some(discovered.interface_index),
        event_type: discovered.event_type,
        hostname,
        port,
        txt_record,
    }
}

/// What the resolver stage pulled off its input channel in one round.
#[derive(Debug)]
pub enum ResolverInput {
    /// A browse event arrived: a discovered service, or an error to
    /// forward.
    Event(Result<DiscoveredService, BrowseError>),
    /// Nothing arrived within the poll interval.
    Idle,
    /// The browse side is gone and no more events will come.
    Closed,
}

/// What the resolver stage does next.
#[derive(Debug, PartialEq, Eq)]
pub enum ResolverAction {
    /// Resolve this service, then forward the merged result.
    Resolve(DiscoveredService),
    /// Forward this error to the consumer and keep going.
    Forward(BrowseError),
    /// Wait for the next input.
    Wait,
    /// Exit the resolver stage.
    Exit,
}

/// The resolver stage's decision for one input: resolve what was
/// discovered, pass an error through, keep waiting on a quiet interval, and
/// exit when the input channel closed.
pub fn resolver_step(input: ResolverInput) -> (r: ResolverAction)
    ensures
        match input {
            ResolverInput::Event(Ok(d)) => r == ResolverAction::Resolve(d),
            ResolverInput::Event(Err(e)) => r == ResolverAction::Forward(e),
            ResolverInput::Idle => r == ResolverAction::Wait,
            ResolverInput::Closed => r == ResolverAction::Exit,
        },
{
    match input {
        ResolverInput::Event(Ok(d)) => ResolverAction::Resolve(d),
        ResolverInput::Event(Err(e)) => ResolverAction::Forward(e),
        ResolverInput::Idle => ResolverAction::Wait,
        ResolverInput::Closed => ResolverAction::Exit,
    }
}

/// What the resolver forwards for one discovered service once its resolve
/// sub-operation finished: the merged service on success, the resolution's
/// error otherwise.
pub fn resolution_outcome(
    discovered: DiscoveredService,
    outcome: Result<Vec<ResolvedService>, BrowseError>,
) -> (r: Result<Service, BrowseError>)
    ensures
        outcome matches Err(e) ==> r == Err::<Service, _>(e),
        outcome matches Ok(resolved) ==> r matches Ok(s) && {
            &&& s.name == discovered.name
            &&& s.regtype == discovered.regtype
            &&& s.domain == discovered.domain
            &&& s.interface_index == Some(discovered.interface_index)
            &&& s.event_type == discovered.event_type
            &&& (resolved@.len() == 0 ==> s.hostname@ =~= Seq::<char>::empty() && s.port == 0
                && s.txt_record is None)
            &&& (resolved@.len() > 0 ==> s.hostname == resolved@[0].hostname && s.port
                == resolved@[0].port && s.txt_record == resolved@[0].txt_record)
        },
{
    match outcome {
        Ok(resolved) => Ok(service_from_resolved(discovered, resolved)),
        Err(e) => Err(e),
    }
}

/// What one receive round pulled off the output channel.
#[derive(Debug)]
pub enum ChannelRecv {
    /// An item was waiting: a merged service or a forwarded error.
    Item(Result<Service, BrowseError>),
    /// Nothing arrived within the timeout.
    Empty,
    /// The producing side is gone.
    Closed,
}

/// The result a drained channel state stands for: the waiting item itself,
/// a timeout for an empty channel, a lost session for a closed one.
pub open spec fn spec_channel_result(recv: ChannelRecv) -> Result<Service, BrowseError> {
    match recv {
        ChannelRecv::Item(item) => item,
        ChannelRecv::Empty => Err(BrowseError::Timeout),
        ChannelRecv::Closed => Err(BrowseError::Disconnected),
    }
}

/// The result a receive call reports, given how driving the native event
/// loop went and what the channel then held.  `processed` is the status of
/// the one event-processing call made because the descriptor was readable,
/// absent when it was not: a non-zero status fails the receive; otherwise
/// an empty channel reports a timeout, and a closed one a lost session.
pub fn recv_outcome(processed: Option<i32>, recv: ChannelRecv) -> (r: Result<Service, BrowseError>)
    ensures
        match processed {
            Some(status) => if status != 0 {
                r == Err::<Service, _>(BrowseError::ServiceError(status))
            } else {
                r == spec_channel_result(recv)
            },
            None => r == spec_channel_result(recv),
        },
{
    if let Some(status) = processed {
        if status != 0 {
            return Err(BrowseError::ServiceError(status));
        }
    }
    match recv {
        ChannelRecv::Item(item) => item,
        ChannelRecv::Empty => Err(BrowseError::Timeout),
        ChannelRecv::Closed => Err(BrowseError::Disconnected),
    }
}

} // verus!

