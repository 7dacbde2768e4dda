//! Encoding and decoding between key/value pairs and TXT entry buffers,
//! with the round-trip law relating the two.

use vstd::prelude::*;

verus! {

use crate::txt::TxtRecordError;
use crate::txt_record::{
    encoded_len, entries_without, entry_bytes, entry_eq_pos, entry_key, entry_value, first_eq,
    insert_error, lemma_encoded_len_concat, lemma_entry_bytes, lemma_lookup_concat,
    lemma_lookup_cons, txt_entries, txt_lookup, valid_key, TXTRecord,
};
use vstd::slice::{slice_subrange, slice_to_vec};
use vstd::string::StringSliceAdditionalSpecFns;
use vstd::utf8::{
    decode_utf8, encode_utf8, encode_utf8_decode_utf8, encode_utf8_valid_utf8, valid_utf8,
};

/// Relies on std::str::from_utf8: it succeeds exactly on the valid UTF-8
/// byte sequences, and returns the string those bytes encode.
#[verifier::external_body]
pub(crate) fn bytes_to_string(b: &[u8]) -> (r: Option<String>)
    ensures
        r is Some <==> valid_utf8(b@),
        r is Some ==> r->Some_0@ == decode_utf8(b@),
{
    match std::str::from_utf8(b) {
        Ok(s) => Some(s.to_owned()),
        Err(_) => None,
    }
}

/// UTF-8 encoding is injective: equal encodings come from equal strings.
pub proof fn lemma_utf8_injective(a: Seq<char>, b: Seq<char>)
    requires
        encode_utf8(a) == encode_utf8(b),
    ensures
        a == b,
{
    encode_utf8_decode_utf8(a);
    encode_utf8_decode_utf8(b);
}

/// The pairs a buffer's entries decode to: one pair per entry whose key is
/// nonempty and valid UTF-8; other entries are dropped as noise.
pub open spec fn decoded_pairs(es: Seq<Seq<u8>>) -> Seq<(Seq<char>, Option<Seq<u8>>)>
    decreases es.len(),
{
    if es.len() == 0 {
        Seq::empty()
    } else {
        let k = entry_key(es[0]);
        let rest = decoded_pairs(es.drop_first());
        if k.len() > 0 && valid_utf8(k) {
            seq![(decode_utf8(k), entry_value(es[0]))] + rest
        } else {
            rest
        }
    }
}

/// The bytes an optional owned value stands for.
pub open spec fn opt_vec_bytes(v: Option<Vec<u8>>) -> Option<Seq<u8>> {
    match v {
        None => None,
        Some(b) => Some(b@),
    }
}

/// The mathematical pair a `(String, Option<Vec<u8>>)` pair stands for.
pub open spec fn pair_view(p: (String, Option<Vec<u8>>)) -> (Seq<char>, Option<Seq<u8>>) {
    (p.0@, opt_vec_bytes(p.1))
}

/// The mathematical pairs a pair vector stands for.
pub open spec fn pairs_view(ps: Seq<(String, Option<Vec<u8>>)>) -> Seq<
    (Seq<char>, Option<Seq<u8>>),
> {
    ps.map_values(|p: (String, Option<Vec<u8>>)| pair_view(p))
}

/// Decodes a TXT entry buffer into its key/value pairs, in buffer order.
/// Tolerant: entries whose key is empty or not valid UTF-8, and a trailing
/// fragment whose length byte overruns the buffer, are dropped rather than
/// failing the whole decode.
pub fn decode(data: &[u8]) -> (r: Vec<(String, Option<Vec<u8>>)>)
    ensures
        pairs_view(r@) =~= decoded_pairs(txt_entries(data@)),
{
    let n: usize = data.len();
    let mut out: Vec<(String, Option<Vec<u8>>)> = Vec::new();
    let mut i: usize = 0;
    proof {
        assert(data@.skip(0) =~= data@);
        assert(pairs_view(out@) =~= Seq::empty());
    }
    while i < n
        invariant
            i <= n,
            n == data@.len(),
            pairs_view(out@) + decoded_pairs(txt_entries(data@.skip(i as int))) =~= decoded_pairs(
                txt_entries(data@),
            ),
        decreases n - i,
    {
        let l = *vstd::slice::slice_index_get(data, i) as usize;
        proof {
            assert(data@.skip(i as int)[0] == data@[i as int]);
        }
        if l >= n - i {
            // Truncated trailing fragment: nothing more decodes.
            proof {
                assert(decoded_pairs(txt_entries(data@.skip(i as int))) =~= Seq::empty());
                assert(data@.skip(n as int) =~= Seq::<u8>::empty());
            }
            i = n;
            continue;
        }
        let ghost e = data@.subrange(i as int + 1, i as int + 1 + l as int);
        let ghost rest = txt_entries(data@.skip(i as int + 1 + l as int));
        proof {
            assert(data@.skip(i as int).subrange(1, 1 + l as int) =~= e);
            assert(data@.skip(i as int).skip(1 + l as int) =~= data@.skip(i as int + 1 + l as int));
            assert(txt_entries(data@.skip(i as int)) =~= seq![e] + rest);
            assert((seq![e] + rest)[0] == e);
            assert((seq![e] + rest).drop_first() =~= rest);
        }
        let k = entry_eq_pos(data, i, l);
        if k > 0 {
            proof {
                assert(entry_key(e) =~= data@.subrange(i as int + 1, i as int + 1 + k as int));
            }
            let key_bytes = slice_subrange(data, i + 1, i + 1 + k);
            match bytes_to_string(key_bytes) {
                Some(key) => {
                    let value: Option<Vec<u8>> = if k < l {
                        let v = slice_to_vec(slice_subrange(data, i + 1 + k + 1, i + 1 + l));
                        proof {
                            assert(e.skip(first_eq(e) + 1) =~= data@.subrange(
                                i as int + 1 + k as int + 1,
                                i as int + 1 + l as int,
                            ));
                        }
                        Some(v)
                    } else {
                        None
                    };
                    let ghost out0 = out@;
                    out.push((key, value));
                    proof {
                        assert(pairs_view(out@) =~= pairs_view(out0) + seq![
                            (decode_utf8(entry_key(e)), entry_value(e)),
                        ]);
                    }
                },
                None => {},
            }
        }
        i = i + 1 + l;
    }
    proof {
        if i >= n {
            assert(data@.skip(i as int) =~= Seq::<u8>::empty());
        }
        assert(pairs_view(out@) + Seq::<(Seq<char>, Option<Seq<u8>>)>::empty() =~= pairs_view(
            out@,
        ));
    }
    out
}

/// The entries that store the given pairs, one entry per pair, in order.
pub open spec fn pairs_entries(pairs: Seq<(Seq<char>, Option<Seq<u8>>)>) -> Seq<Seq<u8>> {
    pairs.map_values(|p: (Seq<char>, Option<Seq<u8>>)| entry_bytes(encode_utf8(p.0), p.1))
}

/// A pair set that encodes without loss: every key is nonempty, free of `=`,
/// and distinct from the others; every entry fits in 255 bytes; and the
/// whole encoding fits in 65535 bytes.
pub open spec fn pairs_valid(pairs: Seq<(Seq<char>, Option<Seq<u8>>)>) -> bool {
    &&& forall|i: int| 0 <= i < pairs.len() ==> valid_key(encode_utf8(#[trigger] pairs[i].0))
    &&& forall|i: int|
        0 <= i < pairs.len() ==> entry_bytes(encode_utf8(#[trigger] pairs[i].0), pairs[i].1).len()
            <= 255
    &&& forall|i: int, j: int|
        0 <= i < j < pairs.len() ==> (#[trigger] pairs[i].0) != (#[trigger] pairs[j].0)
    &&& encoded_len(pairs_entries(pairs)) <= 65535
}

/// The entries that result from storing the pairs one after the other into a
/// record that already holds `es`, each insertion replacing the key's
/// earlier entry; or the error the first failing insertion raises.
pub open spec fn insert_fold(es: Seq<Seq<u8>>, pairs: Seq<(Seq<char>, Option<Seq<u8>>)>) -> Result<
    Seq<Seq<u8>>,
    TxtRecordError,
>
    decreases pairs.len(),
{
    if pairs.len() == 0 {
        Ok(es)
    } else {
        let kb = encode_utf8(pairs[0].0);
        match insert_error(es, kb, pairs[0].1) {
            Some(err) => Err(err),
            None => insert_fold(
                entries_without(es, kb) + seq![entry_bytes(kb, pairs[0].1)],
                pairs.drop_first(),
            ),
        }
    }
}

/// Entries never lose length-prefixed bytes: the encoded length is never
/// negative.
pub proof fn lemma_encoded_len_nonneg(es: Seq<Seq<u8>>)
    ensures
        encoded_len(es) >= 0,
    decreases es.len(),
{
    if es.len() > 0 {
        lemma_encoded_len_nonneg(es.drop_first());
    }
}

/// Removing an absent key leaves the entries untouched.
pub proof fn lemma_without_absent(es: Seq<Seq<u8>>, k: Seq<u8>)
    requires
        txt_lookup(es, k) is None,
    ensures
        entries_without(es, k) =~= es,
    decreases es.len(),
{
    if es.len() > 0 {
        lemma_without_absent(es.drop_first(), k);
        assert(seq![es[0]] + es.drop_first() =~= es);
    }
}

/// Storing pairs with fresh, pairwise-distinct keys into a record appends
/// their entries in order, and never fails while the total length fits.
proof fn lemma_fold_appends(es: Seq<Seq<u8>>, pairs: Seq<(Seq<char>, Option<Seq<u8>>)>)
    requires
        forall|i: int| 0 <= i < pairs.len() ==> valid_key(encode_utf8(#[trigger] pairs[i].0)),
        forall|i: int|
            0 <= i < pairs.len() ==> entry_bytes(
                encode_utf8(#[trigger] pairs[i].0),
                pairs[i].1,
            ).len() <= 255,
        forall|i: int, j: int|
            0 <= i < j < pairs.len() ==> (#[trigger] pairs[i].0) != (#[trigger] pairs[j].0),
        forall|i: int|
            0 <= i < pairs.len() ==> txt_lookup(es, encode_utf8(#[trigger] pairs[i].0)) is None,
        encoded_len(es) + encoded_len(pairs_entries(pairs)) <= 65535,
    ensures
        insert_fold(es, pairs) == Ok::<_, TxtRecordError>(es + pairs_entries(pairs)),
    decreases pairs.len(),
{
    if pairs.len() == 0 {
        assert(pairs_entries(pairs) =~= Seq::<Seq<u8>>::empty());
        assert(es + pairs_entries(pairs) =~= es);
    } else {
        let kb0 = encode_utf8(pairs[0].0);
        let v0 = pairs[0].1;
        let e0 = entry_bytes(kb0, v0);
        let rest = pairs.drop_first();
        lemma_entry_bytes(kb0, v0);
        assert(pairs_entries(pairs) =~= seq![e0] + pairs_entries(rest));
        assert((seq![e0] + pairs_entries(rest))[0] == e0);
        assert((seq![e0] + pairs_entries(rest)).drop_first() =~= pairs_entries(rest));
        lemma_encoded_len_nonneg(pairs_entries(rest));
        lemma_without_absent(es, kb0);
        assert(insert_error(es, kb0, v0) is None);
        let es2 = entries_without(es, kb0) + seq![e0];
        assert(es2 =~= es + seq![e0]);
        lemma_encoded_len_concat(es, seq![e0]);
        assert(encoded_len(seq![e0]) == 1 + e0.len()) by {
            reveal_with_fuel(encoded_len, 2);
            assert(seq![e0][0] == e0);
            assert(seq![e0].drop_first() =~= Seq::<Seq<u8>>::empty());
        }
        assert forall|i: int|
            0 <= i < rest.len() implies txt_lookup(es2, encode_utf8(#[trigger] rest[i].0))
            is None by {
            let ki = encode_utf8(rest[i].0);
            assert(rest[i] == pairs[i + 1]);
            assert(pairs[0].0 != pairs[i + 1].0);
            if kb0 == ki {
                lemma_utf8_injective(pairs[0].0, rest[i].0);
            }
            lemma_lookup_concat(es, seq![e0], ki);
            lemma_lookup_cons(e0, Seq::empty(), ki);
            assert(seq![e0] + Seq::<Seq<u8>>::empty() =~= seq![e0]);
        }
        assert forall|i: int|
            0 <= i < rest.len() implies valid_key(encode_utf8(#[trigger] rest[i].0)) by {
            assert(rest[i] == pairs[i + 1]);
        }
        assert forall|i: int|
            0 <= i < rest.len() implies entry_bytes(encode_utf8(#[trigger] rest[i].0), rest[i].1).len()
            <= 255 by {
            assert(rest[i] == pairs[i + 1]);
        }
        assert forall|i: int, j: int|
            0 <= i < j < rest.len() implies (#[trigger] rest[i].0) != (#[trigger] rest[j].0) by {
            assert(rest[i] == pairs[i + 1]);
            assert(rest[j] == pairs[j + 1]);
        }
        lemma_fold_appends(es2, rest);
        assert((es + seq![e0]) + pairs_entries(rest) =~= es + pairs_entries(pairs));
    }
}

/// The entries that store valid pairs decode back to exactly those pairs.
proof fn lemma_decoded_of_pairs(pairs: Seq<(Seq<char>, Option<Seq<u8>>)>)
    requires
        forall|i: int| 0 <= i < pairs.len() ==> valid_key(encode_utf8(#[trigger] pairs[i].0)),
    ensures
        decoded_pairs(pairs_entries(pairs)) =~= pairs,
    decreases pairs.len(),
{
    if pairs.len() > 0 {
        let kb0 = encode_utf8(pairs[0].0);
        let v0 = pairs[0].1;
        let e0 = entry_bytes(kb0, v0);
        let rest = pairs.drop_first();
        lemma_entry_bytes(kb0, v0);
        encode_utf8_valid_utf8(pairs[0].0);
        encode_utf8_decode_utf8(pairs[0].0);
        assert(pairs_entries(pairs) =~= seq![e0] + pairs_entries(rest));
        assert((seq![e0] + pairs_entries(rest))[0] == e0);
        assert((seq![e0] + pairs_entries(rest)).drop_first() =~= pairs_entries(rest));
        assert forall|i: int|
            0 <= i < rest.len() implies valid_key(encode_utf8(#[trigger] rest[i].0)) by {
            assert(rest[i] == pairs[i + 1]);
        }
        lemma_decoded_of_pairs(rest);
        assert(decoded_pairs(pairs_entries(pairs)) =~= seq![(pairs[0].0, pairs[0].1)] + rest);
        assert(seq![(pairs[0].0, pairs[0].1)] + rest =~= pairs);
    }
}

/// TXT round trip: encoding a set of pairs whose keys are nonempty, free of
/// `=` and pairwise distinct, and whose entries fit the per-entry and total
/// length limits, succeeds, and decoding the encoded record yields exactly
/// the original pairs.
pub proof fn lemma_txt_round_trip(pairs: Seq<(Seq<char>, Option<Seq<u8>>)>)
    requires
        pairs_valid(pairs),
    ensures
        insert_fold(Seq::empty(), pairs) == Ok::<_, TxtRecordError>(pairs_entries(pairs)),
        decoded_pairs(pairs_entries(pairs)) =~= pairs,
{
    lemma_fold_appends(Seq::empty(), pairs);
    assert(Seq::<Seq<u8>>::empty() + pairs_entries(pairs) =~= pairs_entries(pairs));
    lemma_decoded_of_pairs(pairs);
}

/// Encodes key/value pairs into a TXT record by storing them in order; a
/// later pair with the same key replaces an earlier one.  Fails exactly when
/// one of the insertions fails, with that insertion's error.
pub fn encode(pairs: &Vec<(String, Option<Vec<u8>>)>) -> (r: Result<TXTRecord, TxtRecordError>)
    ensures
        match r {
            Ok(rec) => rec.wf() && insert_fold(Seq::empty(), pairs_view(pairs@)) == Ok::<
                _,
                TxtRecordError,
            >(rec.entries()),
            Err(err) => insert_fold(Seq::empty(), pairs_view(pairs@)) == Err::<Seq<Seq<u8>>, _>(
                err,
            ),
        },
{
    let ghost all = pairs_view(pairs@);
    let mut rec = TXTRecord::new();
    let mut i: usize = 0;
    proof {
        assert(all.skip(0) =~= all);
        assert(rec.entries() =~= Seq::<Seq<u8>>::empty());
    }
    while i < pairs.len()
        invariant
            i <= pairs@.len(),
            all == pairs_view(pairs@),
            rec.wf(),
            insert_fold(rec.entries(), all.skip(i as int)) == insert_fold(Seq::empty(), all),
        decreases pairs@.len() - i,
    {
        let ghost before = rec.entries();
        let (key, value) = &pairs[i];
        let res = match value {
            Some(v) => rec.insert(key.as_str(), Some(v.as_slice())),
            None => rec.insert(key.as_str(), None),
        };
        proof {
            assert(all.skip(i as int)[0] == pair_view(pairs@[i as int]));
            assert(all.skip(i as int).drop_first() =~= all.skip(i as int + 1));
        }
        match res {
            Ok(()) => {},
            Err(err) => {
                return Err(err);
            },
        }
        i = i + 1;
    }
    proof {
        assert(all.skip(pairs@.len() as int) =~= Seq::<(Seq<char>, Option<Seq<u8>>)>::empty());
    }
    Ok(rec)
}

} // verus!
