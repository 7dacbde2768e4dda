//! Binary TXT attribute-list codec.
//!
//! A TXT record is a concatenation of entries; each entry is one length byte
//! `L` followed by `L` bytes of content.  Content up to the first `=` byte is
//! the key; everything after the first `=` is the value.  An entry without
//! `=` is a key with no value, distinct from a key with an empty value
//! (trailing `=`).

use vstd::prelude::*;

verus! {

use crate::txt::TxtRecordError;
use vstd::slice::{slice_index_get, slice_subrange, slice_to_vec};
use vstd::string::StringSliceAdditionalSpecFns;

/// The `=` delimiter that separates a key from its value inside an entry.
pub const EQ_BYTE: u8 = 0x3d;

/// A buffer is well formed when it splits completely into length-prefixed
/// entries: every length byte is followed by that many content bytes.
pub open spec fn wf_txt(buf: Seq<u8>) -> bool
    decreases buf.len(),
{
    if buf.len() == 0 {
        true
    } else {
        let l = buf[0] as int;
        1 + l <= buf.len() && wf_txt(buf.skip(1 + l))
    }
}

/// The entries of a buffer, in buffer order.  A trailing fragment whose
/// length byte overruns the buffer is dropped.
pub open spec fn txt_entries(buf: Seq<u8>) -> Seq<Seq<u8>>
    decreases buf.len(),
{
    if buf.len() == 0 {
        Seq::empty()
    } else {
        let l = buf[0] as int;
        if 1 + l <= buf.len() {
            seq![buf.subrange(1, 1 + l)] + txt_entries(buf.skip(1 + l))
        } else {
            Seq::empty()
        }
    }
}

/// Position of the first `=` in an entry; the entry's length when there is none.
pub open spec fn first_eq(e: Seq<u8>) -> int
    decreases e.len(),
{
    if e.len() == 0 {
        0
    } else if e[0] == EQ_BYTE {
        0
    } else {
        1 + first_eq(e.drop_first())
    }
}

/// The key of an entry: the content up to the first `=`.
pub open spec fn entry_key(e: Seq<u8>) -> Seq<u8> {
    e.take(first_eq(e))
}

/// The value of an entry: `None` when the entry has no `=`, otherwise the
/// (possibly empty) content after the first `=`.
pub open spec fn entry_value(e: Seq<u8>) -> Option<Seq<u8>> {
    if first_eq(e) < e.len() {
        Some(e.skip(first_eq(e) + 1))
    } else {
        None
    }
}

/// First-match lookup of a key among entries: `None` when the key has no
/// entry, `Some(v)` when it has one, where `v` is that entry's value.
pub open spec fn txt_lookup(es: Seq<Seq<u8>>, key: Seq<u8>) -> Option<Option<Seq<u8>>>
    decreases es.len(),
{
    if es.len() == 0 {
        None
    } else if entry_key(es[0]) == key {
        Some(entry_value(es[0]))
    } else {
        txt_lookup(es.drop_first(), key)
    }
}

/// The entries of `es` whose key differs from `key`, in order.
pub open spec fn entries_without(es: Seq<Seq<u8>>, key: Seq<u8>) -> Seq<Seq<u8>>
    decreases es.len(),
{
    if es.len() == 0 {
        Seq::empty()
    } else if entry_key(es[0]) == key {
        entries_without(es.drop_first(), key)
    } else {
        seq![es[0]] + entries_without(es.drop_first(), key)
    }
}

/// Number of bytes the entries occupy once encoded: one length byte each,
/// plus the content.
pub open spec fn encoded_len(es: Seq<Seq<u8>>) -> int
    decreases es.len(),
{
    if es.len() == 0 {
        0
    } else {
        1 + es[0].len() + encoded_len(es.drop_first())
    }
}

/// Keys are nonempty and pairwise distinct.
pub open spec fn keys_ok(es: Seq<Seq<u8>>) -> bool
    decreases es.len(),
{
    if es.len() == 0 {
        true
    } else {
        &&& entry_key(es[0]).len() > 0
        &&& txt_lookup(es.drop_first(), entry_key(es[0])) is None
        &&& keys_ok(es.drop_first())
    }
}

/// A buffer that holds a record built through this interface: well formed,
/// within the 65535-byte cap, with nonempty pairwise-distinct keys.
pub open spec fn wf_buf(buf: Seq<u8>) -> bool {
    &&& wf_txt(buf)
    &&& buf.len() <= 65535
    &&& keys_ok(txt_entries(buf))
}

/// A key this codec accepts: nonempty, free of the `=` delimiter, and free
/// of NUL bytes, which could not cross the native boundary as a C string.
pub open spec fn valid_key(kb: Seq<u8>) -> bool {
    kb.len() > 0 && !kb.contains(EQ_BYTE) && !kb.contains(0u8)
}

/// The content bytes of the entry that stores `kb` with value `v`.
pub open spec fn entry_bytes(kb: Seq<u8>, v: Option<Seq<u8>>) -> Seq<u8> {
    match v {
        None => kb,
        Some(vb) => kb + seq![EQ_BYTE] + vb,
    }
}

/// The value bytes an optional byte-slice argument stands for.
pub open spec fn opt_bytes(v: Option<&[u8]>) -> Option<Seq<u8>> {
    match v {
        None => None,
        Some(b) => Some(b@),
    }
}

/// The value stored under a key, flattened: `None` both when the key is
/// absent and when it is present without a value.
pub open spec fn txt_get(es: Seq<Seq<u8>>, key: Seq<u8>) -> Option<Seq<u8>> {
    match txt_lookup(es, key) {
        Some(Some(v)) => Some(v),
        _ => None,
    }
}

/// The error that inserting `(kb, v)` into a record with entries `es`
/// raises, if any.
pub open spec fn insert_error(es: Seq<Seq<u8>>, kb: Seq<u8>, v: Option<Seq<u8>>) -> Option<
    TxtRecordError,
> {
    if !valid_key(kb) {
        Some(TxtRecordError::InvalidKey)
    } else if kb.len() > 255 {
        Some(TxtRecordError::KeyTooLong)
    } else if entry_bytes(kb, v).len() > 255 {
        Some(TxtRecordError::ValueTooLong)
    } else if encoded_len(entries_without(es, kb)) + 1 + entry_bytes(kb, v).len() > 65535 {
        Some(TxtRecordError::ValueTooLong)
    } else {
        None
    }
}

/// A scan that saw no `=` before `k`, and either the end of the entry or an
/// `=` at `k`, found the first `=`.
pub proof fn lemma_first_eq_at(e: Seq<u8>, k: int)
    requires
        0 <= k <= e.len(),
        forall|j: int| 0 <= j < k ==> e[j] != EQ_BYTE,
        k < e.len() ==> e[k] == EQ_BYTE,
    ensures
        first_eq(e) == k,
    decreases e.len(),
{
    if e.len() > 0 && e[0] != EQ_BYTE {
        lemma_first_eq_at(e.drop_first(), k - 1);
    }
}

/// Entries parse independently past a well-formed prefix: parsing `a + b`
/// yields the entries of `a` followed by those of `b`.
pub proof fn lemma_txt_concat(a: Seq<u8>, b: Seq<u8>)
    requires
        wf_txt(a),
    ensures
        wf_txt(a + b) == wf_txt(b),
        txt_entries(a + b) =~= txt_entries(a) + txt_entries(b),
    decreases a.len(),
{
    if a.len() == 0 {
        assert(a + b =~= b);
    } else {
        let l = a[0] as int;
        assert((a + b).skip(1 + l) =~= a.skip(1 + l) + b);
        assert((a + b).subrange(1, 1 + l) =~= a.subrange(1, 1 + l));
        lemma_txt_concat(a.skip(1 + l), b);
    }
}

/// A single length-prefixed entry is a well-formed buffer holding exactly
/// that entry.
pub proof fn lemma_single_entry(e: Seq<u8>)
    requires
        e.len() <= 255,
    ensures
        wf_txt(seq![e.len() as u8] + e),
        txt_entries(seq![e.len() as u8] + e) =~= seq![e],
{
    reveal_with_fuel(wf_txt, 2);
    reveal_with_fuel(txt_entries, 2);
    let buf = seq![e.len() as u8] + e;
    assert(buf[0] == e.len() as u8);
    assert(buf[0] as int == e.len());
    assert(buf.skip(1 + e.len() as int) =~= Seq::<u8>::empty());
    assert(buf.subrange(1, 1 + e.len() as int) =~= e);
    assert(txt_entries(buf) =~= seq![e]);
}

/// Lookup on an entry followed by further entries: the head answers when its
/// key matches, otherwise the rest does.
pub proof fn lemma_lookup_cons(e: Seq<u8>, rest: Seq<Seq<u8>>, k: Seq<u8>)
    ensures
        txt_lookup(seq![e] + rest, k) == if entry_key(e) == k {
            Some(entry_value(e))
        } else {
            txt_lookup(rest, k)
        },
{
    let es = seq![e] + rest;
    assert(es[0] == e);
    assert(es.drop_first() =~= rest);
}

/// Removing a key's entries removes it from lookup.
pub proof fn lemma_without_lookup_same(es: Seq<Seq<u8>>, k: Seq<u8>)
    ensures
        txt_lookup(entries_without(es, k), k) is None,
    decreases es.len(),
{
    if es.len() > 0 {
        lemma_without_lookup_same(es.drop_first(), k);
        if entry_key(es[0]) != k {
            lemma_lookup_cons(es[0], entries_without(es.drop_first(), k), k);
        }
    }
}

/// Removing one key's entries leaves lookup of every other key unchanged.
pub proof fn lemma_without_lookup_other(es: Seq<Seq<u8>>, k: Seq<u8>, k2: Seq<u8>)
    requires
        k2 != k,
    ensures
        txt_lookup(entries_without(es, k), k2) == txt_lookup(es, k2),
    decreases es.len(),
{
    if es.len() > 0 {
        lemma_without_lookup_other(es.drop_first(), k, k2);
        if entry_key(es[0]) != k {
            lemma_lookup_cons(es[0], entries_without(es.drop_first(), k), k2);
        }
    }
}

/// Removing entries preserves nonempty, pairwise-distinct keys.
pub proof fn lemma_without_keys_ok(es: Seq<Seq<u8>>, k: Seq<u8>)
    requires
        keys_ok(es),
    ensures
        keys_ok(entries_without(es, k)),
    decreases es.len(),
{
    if es.len() > 0 {
        lemma_without_keys_ok(es.drop_first(), k);
        if entry_key(es[0]) != k {
            let hk = entry_key(es[0]);
            lemma_without_lookup_other(es.drop_first(), k, hk);
            let out = seq![es[0]] + entries_without(es.drop_first(), k);
            assert(out[0] == es[0]);
            assert(out.drop_first() =~= entries_without(es.drop_first(), k));
        }
    }
}

/// Appending an entry with a fresh, nonempty key keeps the keys distinct.
pub proof fn lemma_keys_ok_append(es: Seq<Seq<u8>>, e: Seq<u8>)
    requires
        keys_ok(es),
        txt_lookup(es, entry_key(e)) is None,
        entry_key(e).len() > 0,
    ensures
        keys_ok(es + seq![e]),
    decreases es.len(),
{
    reveal_with_fuel(keys_ok, 2);
    reveal_with_fuel(txt_lookup, 2);
    if es.len() == 0 {
        let out = es + seq![e];
        assert(out =~= seq![e]);
        assert(out.drop_first() =~= Seq::<Seq<u8>>::empty());
    } else {
        lemma_keys_ok_append(es.drop_first(), e);
        let out = es + seq![e];
        assert(out[0] == es[0]);
        assert(out.drop_first() =~= es.drop_first() + seq![e]);
        lemma_lookup_concat(es.drop_first(), seq![e], entry_key(es[0]));
        lemma_lookup_cons(e, Seq::empty(), entry_key(es[0]));
        assert(seq![e] + Seq::<Seq<u8>>::empty() =~= seq![e]);
    }
}

/// Lookup over concatenated entry lists: the first list answers when it
/// holds the key, otherwise the second does.
pub proof fn lemma_lookup_concat(a: Seq<Seq<u8>>, b: Seq<Seq<u8>>, k: Seq<u8>)
    ensures
        txt_lookup(a + b, k) == match txt_lookup(a, k) {
            Some(v) => Some(v),
            None => txt_lookup(b, k),
        },
    decreases a.len(),
{
    if a.len() == 0 {
        assert(a + b =~= b);
    } else {
        lemma_lookup_concat(a.drop_first(), b, k);
        let es = a + b;
        assert(es[0] == a[0]);
        assert(es.drop_first() =~= a.drop_first() + b);
    }
}

/// Encoded length adds up over concatenation.
pub proof fn lemma_encoded_len_concat(a: Seq<Seq<u8>>, b: Seq<Seq<u8>>)
    ensures
        encoded_len(a + b) == encoded_len(a) + encoded_len(b),
    decreases a.len(),
{
    if a.len() == 0 {
        assert(a + b =~= b);
    } else {
        lemma_encoded_len_concat(a.drop_first(), b);
        let es = a + b;
        assert(es[0] == a[0]);
        assert(es.drop_first() =~= a.drop_first() + b);
    }
}

/// Storing a key touches only that key: among the entries a successful
/// insert leaves behind, the stored key maps to the new value and every
/// other key maps to what it mapped to before.
pub proof fn lemma_insert_updates_one_key(
    es: Seq<Seq<u8>>,
    kb: Seq<u8>,
    v: Option<Seq<u8>>,
    other: Seq<u8>,
)
    requires
        valid_key(kb),
        other != kb,
    ensures
        txt_lookup(entries_without(es, kb) + seq![entry_bytes(kb, v)], kb) == Some(v),
        txt_lookup(entries_without(es, kb) + seq![entry_bytes(kb, v)], other) == txt_lookup(
            es,
            other,
        ),
{
    let e = entry_bytes(kb, v);
    lemma_entry_bytes(kb, v);
    lemma_without_lookup_same(es, kb);
    lemma_without_lookup_other(es, kb, other);
    lemma_lookup_concat(entries_without(es, kb), seq![e], kb);
    lemma_lookup_concat(entries_without(es, kb), seq![e], other);
    lemma_lookup_cons(e, Seq::empty(), kb);
    lemma_lookup_cons(e, Seq::empty(), other);
    assert(seq![e] + Seq::<Seq<u8>>::empty() =~= seq![e]);
}

/// A well-formed buffer is exactly as long as its encoded entries.
pub proof fn lemma_encoded_len(buf: Seq<u8>)
    requires
        wf_txt(buf),
    ensures
        encoded_len(txt_entries(buf)) == buf.len(),
    decreases buf.len(),
{
    if buf.len() > 0 {
        let l = buf[0] as int;
        lemma_encoded_len(buf.skip(1 + l));
        assert(txt_entries(buf).drop_first() =~= txt_entries(buf.skip(1 + l)));
    }
}

/// The content bytes of an entry for a valid key parse back into that key
/// and value.
pub proof fn lemma_entry_bytes(kb: Seq<u8>, v: Option<Seq<u8>>)
    requires
        valid_key(kb),
    ensures
        entry_key(entry_bytes(kb, v)) =~= kb,
        entry_value(entry_bytes(kb, v)) == v,
        entry_bytes(kb, v).len() == match v {
            None => kb.len() as int,
            Some(vb) => kb.len() + 1 + vb.len() as int,
        },
{
    let e = entry_bytes(kb, v);
    assert forall|j: int| 0 <= j < kb.len() implies e[j] != EQ_BYTE by {
        assert(e[j] == kb[j]);
        if kb[j] == EQ_BYTE {
            assert(kb.contains(EQ_BYTE));
        }
    }
    match v {
        None => {
            lemma_first_eq_at(e, kb.len() as int);
            assert(e.take(kb.len() as int) =~= kb);
        },
        Some(vb) => {
            assert(e[kb.len() as int] == EQ_BYTE);
            lemma_first_eq_at(e, kb.len() as int);
            assert(e.take(kb.len() as int) =~= kb);
            assert(e.skip(kb.len() as int + 1) =~= vb);
        },
    }
}

/// Copies the entries of a well-formed buffer, leaving out those whose key
/// is `kb`.
fn filtered_buf(data: &Vec<u8>, kb: &[u8]) -> (out: Vec<u8>)
    requires
        wf_txt(data@),
    ensures
        wf_txt(out@),
        txt_entries(out@) =~= entries_without(txt_entries(data@), kb@),
        out@.len() <= data@.len(),
{
    let n: usize = data.len();
    let mut out: Vec<u8> = Vec::new();
    let mut i: usize = 0;
    proof {
        assert(data@.skip(0) =~= data@);
    }
    while i < n
        invariant
            i <= n,
            n == data@.len(),
            wf_txt(data@.skip(i as int)),
            wf_txt(out@),
            out@.len() <= i,
            txt_entries(out@) + entries_without(txt_entries(data@.skip(i as int)), kb@)
                =~= entries_without(txt_entries(data@), kb@),
        decreases n - i,
    {
        let l = data[i] as usize;
        proof {
            assert(data@.skip(i as int)[0] == data@[i as int]);
        }
        let ghost e = data@.subrange(i as int + 1, i as int + 1 + l as int);
        let ghost rest = txt_entries(data@.skip(i as int + 1 + l as int));
        proof {
            assert(data@.skip(i as int).subrange(1, 1 + l as int) =~= e);
            assert(data@.skip(i as int).skip(1 + l as int) =~= data@.skip(i as int + 1 + l as int));
            assert(txt_entries(data@.skip(i as int)) =~= seq![e] + rest);
            assert((seq![e] + rest)[0] == e);
            assert((seq![e] + rest).drop_first() =~= rest);
        }
        let (_k, same) = entry_split(data.as_slice(), i, l, kb);
        if !same {
            let ghost out0 = out@;
            let mut m: usize = 0;
            while m < 1 + l
                invariant
                    m <= 1 + l,
                    i + 1 + l <= n,
                    n == data@.len(),
                    out@ =~= out0 + data@.subrange(i as int, i as int + m as int),
                decreases 1 + l - m,
            {
                out.push(data[i + m]);
                m = m + 1;
            }
            proof {
                let chunk = data@.subrange(i as int, i as int + 1 + l as int);
                assert(chunk =~= seq![e.len() as u8] + e);
                lemma_single_entry(e);
                lemma_txt_concat(out0, chunk);
                assert(txt_entries(out@) =~= txt_entries(out0) + seq![e]);
                assert(txt_entries(out0) + (seq![e] + entries_without(rest, kb@)) =~= (txt_entries(
                    out0,
                ) + seq![e]) + entries_without(rest, kb@));
            }
        }
        i = i + 1 + l;
    }
    proof {
        assert(data@.skip(n as int) =~= Seq::<u8>::empty());
        assert(txt_entries(out@) + Seq::<Seq<u8>>::empty() =~= txt_entries(out@));
    }
    out
}

/// Locates the first `=` inside the entry of content length `l` whose length
/// byte sits at offset `i`.
pub(crate) fn entry_eq_pos(data: &[u8], i: usize, l: usize) -> (k: usize)
    requires
        i + 1 + l <= data@.len(),
    ensures
        k == first_eq(data@.subrange(i as int + 1, i as int + 1 + l as int)),
        k <= l,
{
    let n: usize = data.len();
    let ghost e = data@.subrange(i as int + 1, i as int + 1 + l as int);
    let mut k: usize = 0;
    while k < l && *slice_index_get(data, i + 1 + k) != EQ_BYTE
        invariant
            k <= l,
            i + 1 + l <= n,
            n == data@.len(),
            forall|j: int| 0 <= j < k ==> #[trigger] data@[i + 1 + j] != EQ_BYTE,
        decreases l - k,
    {
        k = k + 1;
    }
    proof {
        assert forall|j: int| 0 <= j < k implies e[j] != EQ_BYTE by {
            assert(e[j] == data@[i + 1 + j]);
        }
        lemma_first_eq_at(e, k as int);
    }
    k
}

/// Splits the entry of content length `l` at offset `i` (whose length byte
/// sits at `i`): returns the position of its first `=` and whether its key
/// equals `kb`.
fn entry_split(data: &[u8], i: usize, l: usize, kb: &[u8]) -> (r: (usize, bool))
    requires
        i + 1 + l <= data@.len(),
    ensures
        ({
            let e = data@.subrange(i as int + 1, i as int + 1 + l as int);
            &&& r.0 == first_eq(e)
            &&& r.0 <= l
            &&& r.1 == (entry_key(e) == kb@)
        }),
{
    let n: usize = data.len();
    let ghost e = data@.subrange(i as int + 1, i as int + 1 + l as int);
    let k = entry_eq_pos(data, i, l);
    proof {
        assert(entry_key(e).len() == k);
    }
    // Compare the entry's key with the requested key.
    let mut same: bool = k == kb.len();
    let mut j: usize = 0;
    while same && j < k
        invariant
            j <= k,
            i + 1 + l <= n,
            n == data@.len(),
            k <= l,
            first_eq(e) == k,
            e == data@.subrange(i as int + 1, i as int + 1 + l as int),
            same ==> k == kb@.len() && (forall|m: int| 0 <= m < j ==> e[m] == kb@[m]),
            !same ==> entry_key(e) != kb@,
        decreases k - j,
    {
        if *slice_index_get(data, i + 1 + j) != *slice_index_get(kb, j) {
            same = false;
            proof {
                assert(entry_key(e)[j as int] == e[j as int]);
            }
        }
        j = j + 1;
    }
    proof {
        if same {
            assert(entry_key(e) =~= kb@);
        }
    }
    (k, same)
}

impl Default for TXTRecord {
    /// A new empty TXT record.
    fn default() -> (r: TXTRecord)
        ensures
            r@ =~= Seq::<u8>::empty(),
            r.wf(),
    {
        TXTRecord::new()
    }
}

/// First-match scan of an entry buffer for a key, tolerating a truncated
/// trailing fragment.  Returns `None` when the key has no entry,
/// `Some(None)` for an entry without a value, and `Some(Some(v))` for an
/// entry with value `v`.
fn scan_lookup(data: &[u8], kb: &[u8]) -> (r: Option<Option<Vec<u8>>>)
    ensures
        match r {
            None => txt_lookup(txt_entries(data@), kb@) is None,
            Some(None) => txt_lookup(txt_entries(data@), kb@) == Some(Option::<Seq<u8>>::None),
            Some(Some(v)) => txt_lookup(txt_entries(data@), kb@) == Some(Some(v@)),
        },
{
    let n: usize = data.len();
    let mut i: usize = 0;
    proof {
        assert(data@.skip(0) =~= data@);
    }
    loop
        invariant
            i <= n,
            n == data@.len(),
            txt_lookup(txt_entries(data@), kb@) == txt_lookup(
                txt_entries(data@.skip(i as int)),
                kb@,
            ),
        decreases n - i,
    {
        if i >= n {
            return None;
        }
        let l = *slice_index_get(data, i) as usize;
        proof {
            assert(data@.skip(i as int)[0] == data@[i as int]);
        }
        if l >= n - i {
            // The length byte overruns the buffer: the fragment parses to no
            // entries at all.
            return None;
        }
        let ghost e = data@.subrange(i as int + 1, i as int + 1 + l as int);
        proof {
            assert(data@.skip(i as int).subrange(1, 1 + l as int) =~= e);
            assert(data@.skip(i as int).skip(1 + l as int) =~= data@.skip(i as int + 1 + l as int));
            lemma_lookup_cons(e, txt_entries(data@.skip(i as int + 1 + l as int)), kb@);
        }
        let (k, same) = entry_split(data, i, l, kb);
        if same {
            if k < l {
                let v = slice_to_vec(slice_subrange(data, i + 1 + k + 1, i + 1 + l));
                proof {
                    assert(e.skip(first_eq(e) + 1) =~= data@.subrange(
                        i as int + 1 + k as int + 1,
                        i as int + 1 + l as int,
                    ));
                }
                return Some(Some(v));
            } else {
                return Some(None);
            }
        }
        i = i + 1 + l;
    }
}

/// A TXT record under construction: an exclusively owned, well-formed entry
/// buffer whose keys are nonempty and pairwise distinct, capped at 65535
/// bytes in total.
#[derive(Debug)]
pub struct TXTRecord {
    buf: Vec<u8>,
}

impl TXTRecord {
    /// The raw encoded bytes of the record.
    pub closed spec fn view(&self) -> Seq<u8> {
        self.buf@
    }

    /// Structural invariant of a record built through this interface.
    pub open spec fn wf(&self) -> bool {
        wf_buf(self@)
    }

    /// The entries of the record.
    pub open spec fn entries(&self) -> Seq<Seq<u8>> {
        txt_entries(self@)
    }

    /// Creates a new empty TXT record.
    pub fn new() -> (r: TXTRecord)
        ensures
            r@ =~= Seq::<u8>::empty(),
            r.wf(),
    {
        TXTRecord { buf: Vec::new() }
    }

    /// Length in bytes of the encoded record.
    pub fn raw_bytes_len(&self) -> (r: u16)
        requires
            self.wf(),
        ensures
            r == self@.len(),
    {
        self.buf.len() as u16
    }

    /// The encoded record as a byte slice.
    pub fn raw_bytes(&self) -> (r: &[u8])
        ensures
            r@ == self@,
    {
        self.buf.as_slice()
    }

    /// Stores `value` under `key`, replacing any entry the key already has
    /// and appending the new entry at the end of the record.  Fails, leaving
    /// the record unchanged, when the key is empty or contains `=`, when the
    /// serialized entry would exceed 255 bytes, or when the record would
    /// exceed 65535 bytes in total.
    pub fn insert(&mut self, key: &str, value: Option<&[u8]>) -> (r: Result<(), TxtRecordError>)
        requires
            old(self).wf(),
        ensures
            final(self).wf(),
            match insert_error(old(self).entries(), key.spec_bytes(), opt_bytes(value)) {
                Some(err) => r == Err::<(), TxtRecordError>(err) && final(self)@ == old(self)@,
                None => r == Ok::<(), TxtRecordError>(()) && final(self).entries()
                    =~= entries_without(old(self).entries(), key.spec_bytes()) + seq![
                    entry_bytes(key.spec_bytes(), opt_bytes(value)),
                ],
            },
            r is Ok ==> txt_lookup(final(self).entries(), key.spec_bytes()) == Some(
                opt_bytes(value),
            ),
    {
        let kb = key.as_bytes();
        if !check_key(kb) {
            return Err(TxtRecordError::InvalidKey);
        }
        if kb.len() > 255 {
            return Err(TxtRecordError::KeyTooLong);
        }
        proof {
            lemma_entry_bytes(kb@, opt_bytes(value));
        }
        let entry_len: usize = match value {
            None => kb.len(),
            Some(v) => {
                if v.len() > 255 {
                    return Err(TxtRecordError::ValueTooLong);
                }
                let el = kb.len() + 1 + v.len();
                if el > 255 {
                    return Err(TxtRecordError::ValueTooLong);
                }
                el
            },
        };
        // Drop any entry the key already has, then check the total length.
        let filtered = filtered_buf(&self.buf, kb);
        proof {
            lemma_encoded_len(filtered@);
        }
        if filtered.len() > 65535 - 1 - entry_len {
            return Err(TxtRecordError::ValueTooLong);
        }
        let ghost eb = entry_bytes(kb@, opt_bytes(value));
        let ghost old_entries = txt_entries(self@);
        let mut buf = filtered;
        let ghost filtered0 = buf@;
        buf.push(entry_len as u8);
        let mut m: usize = 0;
        while m < kb.len()
            invariant
                m <= kb@.len(),
                buf@ =~= filtered0 + seq![entry_len as u8] + kb@.take(m as int),
            decreases kb@.len() - m,
        {
            buf.push(*slice_index_get(kb, m));
            m = m + 1;
        }
        proof {
            assert(kb@.take(kb@.len() as int) =~= kb@);
        }
        if let Some(v) = value {
            buf.push(EQ_BYTE);
            let mut m2: usize = 0;
            while m2 < v.len()
                invariant
                    m2 <= v@.len(),
                    buf@ =~= filtered0 + seq![entry_len as u8] + kb@ + seq![EQ_BYTE] + v@.take(
                        m2 as int,
                    ),
                decreases v@.len() - m2,
            {
                buf.push(*slice_index_get(v, m2));
                m2 = m2 + 1;
            }
            proof {
                assert(v@.take(v@.len() as int) =~= v@);
            }
        }
        proof {
            assert(buf@ =~= filtered0 + (seq![eb.len() as u8] + eb));
            lemma_single_entry(eb);
            lemma_txt_concat(filtered0, seq![eb.len() as u8] + eb);
            assert(txt_entries(buf@) =~= txt_entries(filtered0) + seq![eb]);
            lemma_without_keys_ok(old_entries, kb@);
            lemma_without_lookup_same(old_entries, kb@);
            lemma_keys_ok_append(txt_entries(filtered0), eb);
            lemma_lookup_concat(txt_entries(filtered0), seq![eb], kb@);
            lemma_lookup_cons(eb, Seq::empty(), kb@);
            assert(seq![eb] + Seq::<Seq<u8>>::empty() =~= seq![eb]);
        }
        self.buf = buf;
        Ok(())
    }

    /// Removes the entry stored under `key`, if any.
    pub fn remove(&mut self, key: &str)
        requires
            old(self).wf(),
        ensures
            final(self).wf(),
            final(self).entries() =~= entries_without(old(self).entries(), key.spec_bytes()),
            txt_lookup(final(self).entries(), key.spec_bytes()) is None,
    {
        let ghost old_entries = txt_entries(self@);
        let filtered = filtered_buf(&self.buf, key.as_bytes());
        proof {
            lemma_without_keys_ok(old_entries, key.spec_bytes());
            lemma_without_lookup_same(old_entries, key.spec_bytes());
        }
        self.buf = filtered;
    }

    /// Reports whether the record has an entry for `key`, with or without a
    /// value.
    pub fn contains_key(&self, key: &str) -> (r: bool)
        ensures
            r == (txt_lookup(self.entries(), key.spec_bytes()) is Some),
    {
        scan_lookup(self.buf.as_slice(), key.as_bytes()).is_some()
    }

    /// The value stored under `key`.  Returns `None` both when the key is
    /// absent and when its entry has no value; `contains_key` tells the two
    /// apart.
    pub fn get(&self, key: &str) -> (r: Option<Vec<u8>>)
        ensures
            match r {
                None => txt_get(self.entries(), key.spec_bytes()) is None,
                Some(v) => txt_get(self.entries(), key.spec_bytes()) == Some(v@),
            },
    {
        match scan_lookup(self.buf.as_slice(), key.as_bytes()) {
            Some(Some(v)) => Some(v),
            _ => None,
        }
    }

    /// The number of entries in the record.
    pub fn len(&self) -> (r: u16)
        requires
            self.wf(),
        ensures
            r == self.entries().len(),
    {
        let n = self.buf.len();
        let mut i: usize = 0;
        let mut cnt: u16 = 0;
        proof {
            assert(self@.skip(0) =~= self@);
        }
        while i < n
            invariant
                i <= n,
                n == self@.len(),
                n <= 65535,
                wf_txt(self@.skip(i as int)),
                cnt <= i,
                cnt + txt_entries(self@.skip(i as int)).len() == self.entries().len(),
            decreases n - i,
        {
            let l = self.buf[i] as usize;
            proof {
                assert(self@.skip(i as int)[0] == self@[i as int]);
                assert(self@.skip(i as int).skip(1 + l as int) =~= self@.skip(
                    i as int + 1 + l as int,
                ));
            }
            cnt = cnt + 1;
            i = i + 1 + l;
        }
        proof {
            assert(self@.skip(n as int) =~= Seq::<u8>::empty());
        }
        cnt
    }

    /// Reports whether the record has no entries.
    pub fn is_empty(&self) -> (r: bool)
        requires
            self.wf(),
        ensures
            r == (self.entries().len() == 0),
    {
        self.buf.len() == 0
    }
}

/// A read-only TXT record reconstructed from bytes a resolve reply handed
/// over.  The bytes are kept as they arrived; reads tolerate malformed
/// fragments by ignoring them.
#[derive(Debug)]
pub struct TXTHash {
    data: Vec<u8>,
}

impl TXTHash {
    /// The raw bytes the record was built from.
    pub closed spec fn view(&self) -> Seq<u8> {
        self.data@
    }

    /// Creates a read-only record over the given bytes.
    pub fn new(data: Vec<u8>) -> (r: Result<TXTHash, TxtRecordError>)
        ensures
            r is Ok,
            r->Ok_0@ == data@,
    {
        Ok(TXTHash { data })
    }

    /// Reports whether the record has an entry for `key`.
    pub fn contains(&self, key: &str) -> (r: bool)
        ensures
            r == (txt_lookup(txt_entries(self@), key.spec_bytes()) is Some),
    {
        scan_lookup(self.data.as_slice(), key.as_bytes()).is_some()
    }

    /// The value stored under `key`, when its entry has one.
    pub fn get(&self, key: &str) -> (r: Option<Vec<u8>>)
        ensures
            match r {
                None => txt_get(txt_entries(self@), key.spec_bytes()) is None,
                Some(v) => txt_get(txt_entries(self@), key.spec_bytes()) == Some(v@),
            },
    {
        match scan_lookup(self.data.as_slice(), key.as_bytes()) {
            Some(Some(v)) => Some(v),
            _ => None,
        }
    }
}

/// Reports whether `kb` is a key this codec accepts.
fn check_key(kb: &[u8]) -> (r: bool)
    ensures
        r == valid_key(kb@),
{
    let n = kb.len();
    if n == 0 {
        return false;
    }
    let mut i: usize = 0;
    while i < n
        invariant
            i <= n,
            n == kb@.len(),
            forall|j: int| 0 <= j < i ==> #[trigger] kb@[j] != EQ_BYTE && kb@[j] != 0u8,
        decreases n - i,
    {
        let b = *slice_index_get(kb, i);
        if b == EQ_BYTE {
            proof {
                assert(kb@.contains(EQ_BYTE));
            }
            return false;
        }
        if b == 0 {
            proof {
                assert(kb@.contains(0u8));
            }
            return false;
        }
        i = i + 1;
    }
    proof {
        assert(!kb@.contains(EQ_BYTE)) by {
            if kb@.contains(EQ_BYTE) {
                let w = choose|w: int| 0 <= w < kb@.len() && kb@[w] == EQ_BYTE;
                assert(kb@[w] != EQ_BYTE);
            }
        }
        assert(!kb@.contains(0u8)) by {
            if kb@.contains(0u8) {
                let w = choose|w: int| 0 <= w < kb@.len() && kb@[w] == 0u8;
                assert(kb@[w] != 0u8);
            }
        }
    }
    true
}

} // verus!
