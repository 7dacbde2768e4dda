//! Key/value attribute records for DNS-SD services.

use vstd::prelude::*;

verus! {

use crate::txt_record::{
    entries_without, entry_bytes, insert_error, txt_entries, txt_lookup, wf_buf, TXTRecord,
};
use vstd::string::StringSliceAdditionalSpecFns;

/// Error raised when a key/value pair cannot be stored in a TXT record.
#[derive(Debug, Clone, Copy, PartialEq, Eq, Structural)]
pub enum TxtRecordError {
    /// The key exceeds the per-entry length limit.
    KeyTooLong,
    /// The value does not fit the entry or the record's total length limit.
    ValueTooLong,
    /// The key is empty, or contains the `=` delimiter or a NUL byte.
    InvalidKey,
}

impl TxtRecordError {
    /// A short description of the error.
    pub fn message(&self) -> (r: String)
        ensures
            r@ == match self {
                TxtRecordError::KeyTooLong => "Key string exceeds length limit"@,
                TxtRecordError::ValueTooLong => "Value string exceeds length limit"@,
                TxtRecordError::InvalidKey => "Key is empty or contains a delimiter or NUL byte"@,
            },
    {
        match self {
            TxtRecordError::KeyTooLong => "Key string exceeds length limit".to_owned(),
            TxtRecordError::ValueTooLong => "Value string exceeds length limit".to_owned(),
            TxtRecordError::InvalidKey => "Key is empty or contains a delimiter or NUL byte".to_owned(),
        }
    }
}

/// A key/value record for a DNS-SD service, stored in its wire encoding.
/// Every key maps to a string value; an entry without a value never arises
/// through this interface.
#[derive(Debug)]
pub struct TxtRecord {
    rec: TXTRecord,
}

impl TxtRecord {
    /// The encoded bytes of the record.
    pub closed spec fn view(&self) -> Seq<u8> {
        self.rec@
    }

    /// Structural invariant.
    pub open spec fn wf(&self) -> bool {
        wf_buf(self@)
    }

    /// Creates an empty record.
    pub fn new() -> (r: TxtRecord)
        ensures
            r@ =~= Seq::<u8>::empty(),
            r.wf(),
    {
        TxtRecord { rec: TXTRecord::new() }
    }

    /// Stores `value` under `key`, replacing any earlier value of the key.
    /// Fails, leaving the record unchanged, on an empty key, a key holding
    /// `=`, or an entry or record that would outgrow its length limit.
    pub fn insert(&mut self, key: &str, value: &str) -> (r: Result<(), TxtRecordError>)
        requires
            old(self).wf(),
        ensures
            final(self).wf(),
            match insert_error(
                txt_entries(old(self)@),
                key.spec_bytes(),
                Some(value.spec_bytes()),
            ) {
                Some(err) => r == Err::<(), TxtRecordError>(err) && final(self)@ == old(self)@,
                None => r == Ok::<(), TxtRecordError>(()) && txt_entries(final(self)@)
                    =~= entries_without(txt_entries(old(self)@), key.spec_bytes()) + seq![
                    entry_bytes(key.spec_bytes(), Some(value.spec_bytes())),
                ],
            },
            r is Ok ==> txt_lookup(txt_entries(final(self)@), key.spec_bytes()) == Some(
                Some(value.spec_bytes()),
            ),
    {
        self.rec.insert(key, Some(value.as_bytes()))
    }

    /// Removes the given key from the record, if present.
    pub fn remove(&mut self, key: &str)
        requires
            old(self).wf(),
        ensures
            final(self).wf(),
            txt_entries(final(self)@) =~= entries_without(txt_entries(old(self)@), key.spec_bytes()),
            txt_lookup(txt_entries(final(self)@), key.spec_bytes()) is None,
    {
        self.rec.remove(key)
    }

    /// Reports whether the record has an entry for `key`.
    pub fn contains_key(&self, key: &str) -> (r: bool)
        ensures
            r == (txt_lookup(txt_entries(self@), key.spec_bytes()) is Some),
    {
        self.rec.contains_key(key)
    }

    /// Reports whether the record has no entries.
    pub fn is_empty(&self) -> (r: bool)
        requires
            self.wf(),
        ensures
            r == (txt_entries(self@).len() == 0),
    {
        self.rec.is_empty()
    }

    /// The underlying TXT record, for encoding onto the wire.
    pub fn record(&self) -> (r: &TXTRecord)
        ensures
            r@ == self@,
    {
        &self.rec
    }
}

} // verus!
