//! Typed DNS records of a browse reply and their folding into a service:
//! name parsing, TXT string splitting, and the record-list walk.

use vstd::prelude::*;

verus! {

use crate::browse::{Service, ServiceEventType};
use crate::pipeline::string_pairs_fold;
use crate::txt::TxtRecord;
use crate::txt_record::txt_entries;
use vstd::string::{StrSliceExecFns, StringExecFns};

/// Position of the first occurrence of `c` in `s`; the length of `s` when
/// there is none.
pub open spec fn first_ch(s: Seq<char>, c: char) -> int
    decreases s.len(),
{
    if s.len() == 0 {
        0
    } else if s[0] == c {
        0
    } else {
        1 + first_ch(s.drop_first(), c)
    }
}

/// The segments of `s` between occurrences of `c`, in order; one more
/// segment than separators, so never empty.
pub open spec fn split_ch(s: Seq<char>, c: char) -> Seq<Seq<char>>
    decreases s.len(),
{
    if s.len() == 0 {
        seq![Seq::empty()]
    } else if s[0] == c {
        seq![Seq::<char>::empty()] + split_ch(s.drop_first(), c)
    } else {
        let r = split_ch(s.drop_first(), c);
        seq![seq![s[0]] + r[0]] + r.drop_first()
    }
}

/// The first separator lies between 0 and the length of `s`.
pub proof fn lemma_first_ch_bounds(s: Seq<char>, c: char)
    ensures
        0 <= first_ch(s, c) <= s.len(),
    decreases s.len(),
{
    if s.len() > 0 && s[0] != c {
        lemma_first_ch_bounds(s.drop_first(), c);
    }
}

/// A scan that saw no separator before `k`, and either the end of `s` or a
/// separator at `k`, found the first one.
pub proof fn lemma_first_ch_at(s: Seq<char>, c: char, k: int)
    requires
        0 <= k <= s.len(),
        forall|j: int| 0 <= j < k ==> s[j] != c,
        k < s.len() ==> s[k] == c,
    ensures
        first_ch(s, c) == k,
    decreases s.len(),
{
    if s.len() > 0 && s[0] != c {
        lemma_first_ch_at(s.drop_first(), c, k - 1);
    }
}

/// Splitting takes everything up to the first separator as the first
/// segment and continues after it; with no separator, the whole of `s` is
/// the only segment.
pub proof fn lemma_split_first(s: Seq<char>, c: char)
    ensures
        split_ch(s, c).len() >= 1,
        first_ch(s, c) < s.len() ==> split_ch(s, c) =~= seq![s.take(first_ch(s, c))] + split_ch(
            s.skip(first_ch(s, c) + 1),
            c,
        ),
        first_ch(s, c) == s.len() ==> split_ch(s, c) =~= seq![s],
    decreases s.len(),
{
    lemma_first_ch_bounds(s, c);
    if s.len() == 0 {
        assert(s =~= Seq::<char>::empty());
        assert(split_ch(s, c) =~= seq![s]);
    } else if s[0] == c {
        assert(s.take(0) =~= Seq::<char>::empty());
        assert(s.skip(1) =~= s.drop_first());
        lemma_split_first(s.drop_first(), c);
    } else {
        let d = s.drop_first();
        let f = first_ch(s, c);
        lemma_split_first(d, c);
        lemma_first_ch_bounds(d, c);
        if first_ch(d, c) < d.len() {
            let fd = first_ch(d, c);
            assert(split_ch(d, c)[0] == d.take(fd));
            assert(s.take(f) =~= seq![s[0]] + d.take(fd));
            assert(s.skip(f + 1) =~= d.skip(fd + 1));
            assert(split_ch(s, c) =~= seq![s.take(f)] + split_ch(d, c).drop_first());
            assert(split_ch(d, c).drop_first() =~= split_ch(d.skip(fd + 1), c));
        } else {
            assert(split_ch(d, c) =~= seq![d]);
            assert(split_ch(d, c)[0] == d);
            assert(seq![s[0]] + d =~= s);
            assert(split_ch(d, c).drop_first() =~= Seq::<Seq<char>>::empty());
            assert(split_ch(s, c) =~= seq![s]);
        }
    }
}

/// The views of a vector of strings.
pub open spec fn strings_view(ss: Seq<String>) -> Seq<Seq<char>> {
    ss.map_values(|p: String| p@)
}

/// Splits a name at each dot, keeping empty segments.
fn split_dots(name: &str) -> (parts: Vec<String>)
    ensures
        strings_view(parts@) =~= split_ch(name@, '.'),
{
    let total = name.unicode_len();
    let mut parts: Vec<String> = Vec::new();
    let mut start: usize = 0;
    let mut done: bool = false;
    proof {
        assert(name@.skip(0) =~= name@);
        assert(strings_view(parts@) =~= Seq::<Seq<char>>::empty());
    }
    while !done
        invariant
            start <= total,
            total == name@.len(),
            !done ==> split_ch(name@, '.') =~= strings_view(parts@) + split_ch(
                name@.skip(start as int),
                '.',
            ),
            done ==> strings_view(parts@) =~= split_ch(name@, '.'),
        decreases total - start + (if done {
            0int
        } else {
            1int
        }),
    {
        let ghost rest = name@.skip(start as int);
        let mut i: usize = start;
        while i < total && name.get_char(i) != '.'
            invariant
                start <= i <= total,
                total == name@.len(),
                forall|j: int| start <= j < i ==> name@[j] != '.',
            decreases total - i,
        {
            i = i + 1;
        }
        proof {
            assert forall|j: int| 0 <= j < i - start implies rest[j] != '.' by {
                assert(rest[j] == name@[start + j]);
            }
            lemma_first_ch_at(rest, '.', i - start);
            lemma_split_first(rest, '.');
        }
        let seg = name.substring_char(start, i).to_owned();
        proof {
            assert(seg@ =~= rest.take(i - start));
        }
        parts.push(seg);
        if i < total {
            proof {
                assert(rest.skip(i - start + 1) =~= name@.skip(i as int + 1));
                assert(strings_view(parts@) =~= strings_view(parts@.drop_last()) + seq![
                    rest.take(i - start),
                ]);
            }
            start = i + 1;
        } else {
            proof {
                assert(rest.take(i - start) =~= rest);
                assert(strings_view(parts@) =~= strings_view(parts@.drop_last()) + seq![rest]);
            }
            done = true;
        }
    }
    parts
}

/// The instance name that leading name segments spell: the segments in
/// reverse order, joined by dots.
pub open spec fn name_of_parts(parts: Seq<Seq<char>>) -> Seq<char>
    decreases parts.len(),
{
    if parts.len() == 0 {
        Seq::empty()
    } else if parts.len() == 1 {
        parts[0]
    } else {
        name_of_parts(parts.drop_first()) + seq!['.'] + parts[0]
    }
}

/// What a full service name splits into: the instance name, the
/// registration type (protocol and transport), and the domain — or nothing
/// when the name has fewer than three dot-separated segments.
pub open spec fn spec_process_name(s: Seq<char>) -> Option<(Seq<char>, Seq<char>, Seq<char>)> {
    let parts = split_ch(s, '.');
    if parts.len() < 3 {
        None
    } else {
        Some(
            (
                name_of_parts(parts.take(parts.len() - 3)),
                parts[parts.len() - 3] + seq!['.'] + parts[parts.len() - 2],
                parts[parts.len() - 1],
            ),
        )
    }
}

/// Splits a full service name into instance name, registration type and
/// domain, reading the segments from the end; fails when fewer than three
/// segments are there.
pub fn process_name(name: &str) -> (r: Option<(String, String, String)>)
    ensures
        match r {
            None => spec_process_name(name@) is None,
            Some(t) => spec_process_name(name@) matches Some(st) && t.0@ == st.0 && t.1@ == st.1
                && t.2@ == st.2,
        },
{
    let ghost pv = split_ch(name@, '.');
    let parts = split_dots(name);
    let m = parts.len();
    if m < 3 {
        return None;
    }
    proof {
        reveal_strlit(".");
        assert("."@ =~= seq!['.']);
    }
    let domain = parts[m - 1].clone();
    let mut regtype = parts[m - 3].clone();
    regtype.append(".");
    regtype.append(parts[m - 2].as_str());
    let k = m - 3;
    let mut nm = String::new();
    let mut j: usize = k;
    while j > 0
        invariant
            j <= k,
            k <= parts@.len(),
            strings_view(parts@) =~= pv,
            k == pv.len() - 3,
            j == k ==> nm@ =~= Seq::<char>::empty(),
            j < k ==> nm@ == name_of_parts(pv.subrange(j as int, k as int)),
        decreases j,
    {
        j = j - 1;
        proof {
            reveal_strlit(".");
            assert("."@ =~= seq!['.']);
            assert(strings_view(parts@)[j as int] == parts@[j as int]@);
        }
        if j + 1 < k {
            nm.append(".");
        }
        nm.append(parts[j].as_str());
        proof {
            if j + 1 < k {
                assert(pv.subrange(j as int, k as int).drop_first() =~= pv.subrange(
                    j as int + 1,
                    k as int,
                ));
                assert(pv.subrange(j as int, k as int)[0] == pv[j as int]);
            } else {
                assert(pv.subrange(j as int, k as int) =~= seq![pv[j as int]]);
            }
        }
    }
    proof {
        if k > 0 {
            assert(pv.subrange(0, k as int) =~= pv.take(k as int));
        } else {
            assert(pv.take(0) =~= Seq::<Seq<char>>::empty());
        }
    }
    Some((nm, regtype, domain))
}

/// One DNS record of a browse reply, read out of the native record list as
/// plain values.
#[derive(Debug)]
pub enum DnsRecord {
    /// A PTR record: the instance's full name.
    Ptr(String),
    /// An SRV record: the instance's port, in host byte order.
    Srv(u16),
    /// A TXT record: the announced attributes.
    Txt(TxtRecord),
    /// An A record: the IPv4 address as its 32-bit value.
    A(u32),
    /// An AAAA record: the IPv6 address as its eight 16-bit groups.
    Aaaa([u16; 8]),
}

/// The key/value pairs that TXT strings spell: for each string holding a
/// `=`, the segment before the first `=` and everything after it — later
/// `=` characters belong to the value; a string without `=` is dropped.
pub open spec fn txt_pairs_of_strings(ss: Seq<Seq<char>>) -> Seq<(Seq<char>, Seq<char>)>
    decreases ss.len(),
{
    if ss.len() == 0 {
        Seq::empty()
    } else {
        let f = first_ch(ss[0], '=');
        let rest = txt_pairs_of_strings(ss.drop_first());
        if f < ss[0].len() {
            seq![(ss[0].take(f), ss[0].skip(f + 1))] + rest
        } else {
            rest
        }
    }
}

/// Rebuilds a key/value record from the strings of a TXT record reply,
/// splitting each at its first `=`, the whole remainder being the value; a
/// later string replaces an earlier one with the same key, and one the
/// record cannot hold is left out.
pub fn txt_record_from_strings(strings: &Vec<String>) -> (r: TxtRecord)
    ensures
        r.wf(),
        txt_entries(r@) =~= string_pairs_fold(
            Seq::empty(),
            txt_pairs_of_strings(strings_view(strings@)),
        ),
{
    let ghost sv = strings_view(strings@);
    let n = strings.len();
    let mut rec = TxtRecord::new();
    let mut idx: usize = 0;
    proof {
        assert(sv.skip(0) =~= sv);
        assert(txt_entries(rec@) =~= Seq::<Seq<u8>>::empty());
    }
    while idx < n
        invariant
            idx <= n,
            n == strings@.len(),
            sv == strings_view(strings@),
            rec.wf(),
            string_pairs_fold(txt_entries(rec@), txt_pairs_of_strings(sv.skip(idx as int)))
                =~= string_pairs_fold(Seq::empty(), txt_pairs_of_strings(sv)),
        decreases n - idx,
    {
        let s: &String = &strings[idx];
        let ghost sc = s@;
        proof {
            assert(sv.skip(idx as int)[0] == sv[idx as int]);
            assert(sv.skip(idx as int).drop_first() =~= sv.skip(idx as int + 1));
        }
        let slen = s.as_str().unicode_len();
        let mut i: usize = 0;
        while i < slen && s.as_str().get_char(i) != '='
            invariant
                i <= slen,
                slen == sc.len(),
                sc == s@,
                forall|j: int| 0 <= j < i ==> sc[j] != '=',
            decreases slen - i,
        {
            i = i + 1;
        }
        proof {
            lemma_first_ch_at(sc, '=', i as int);
        }
        if i < slen {
            let key = s.as_str().substring_char(0, i);
            let val = s.as_str().substring_char(i + 1, slen);
            proof {
                assert(key@ =~= sc.take(i as int));
                assert(val@ =~= sc.skip(i as int + 1));
            }
            let ghost before = txt_entries(rec@);
            let _ = rec.insert(key, val);
            proof {
                let p = (sc.take(i as int), sc.skip(i as int + 1));
                let ps = txt_pairs_of_strings(sv.skip(idx as int));
                assert(ps =~= seq![p] + txt_pairs_of_strings(sv.skip(idx as int + 1)));
                assert((seq![p] + txt_pairs_of_strings(sv.skip(idx as int + 1)))[0] == p);
                assert((seq![p] + txt_pairs_of_strings(sv.skip(idx as int + 1))).drop_first()
                    =~= txt_pairs_of_strings(sv.skip(idx as int + 1)));
                assert(string_pairs_fold(before, ps) == string_pairs_fold(
                    txt_entries(rec@),
                    txt_pairs_of_strings(sv.skip(idx as int + 1)),
                ));
            }
        } else {
            proof {
                assert(txt_pairs_of_strings(sv.skip(idx as int)) =~= txt_pairs_of_strings(
                    sv.skip(idx as int + 1),
                ));
            }
        }
        idx = idx + 1;
    }
    proof {
        assert(sv.skip(n as int) =~= Seq::<Seq<char>>::empty());
    }
    rec
}

/// Judges the immediate status of a native DNS query call against the
/// status that announces an accepted, pending query: anything else is a
/// query error carrying the status verbatim.
pub fn query_submit_check(status: u32, pending_status: u32) -> (r: Result<
    (),
    crate::browse::BrowseError,
>)
    ensures
        status == pending_status ==> r is Ok,
        status != pending_status ==> r == Err::<(), _>(crate::browse::BrowseError::DnsError(status)),
{
    if status == pending_status {
        Ok(())
    } else {
        Err(crate::browse::BrowseError::DnsError(status))
    }
}

/// The port after the records are applied in order to a service whose port
/// is `acc`: each SRV record overwrites it.
pub open spec fn fold_port(acc: u16, rs: Seq<DnsRecord>) -> u16
    decreases rs.len(),
{
    if rs.len() == 0 {
        acc
    } else {
        match rs[0] {
            DnsRecord::Srv(p) => fold_port(p, rs.drop_first()),
            _ => fold_port(acc, rs.drop_first()),
        }
    }
}

/// The full name the naming fields come from after the records are applied
/// in order: each PTR record whose name parses overwrites it.
pub open spec fn fold_ptr(acc: Option<Seq<char>>, rs: Seq<DnsRecord>) -> Option<Seq<char>>
    decreases rs.len(),
{
    if rs.len() == 0 {
        acc
    } else {
        match rs[0] {
            DnsRecord::Ptr(nm) => if spec_process_name(nm@) is Some {
                fold_ptr(Some(nm@), rs.drop_first())
            } else {
                fold_ptr(acc, rs.drop_first())
            },
            _ => fold_ptr(acc, rs.drop_first()),
        }
    }
}

/// The TXT record after the records are applied in order: each nonempty
/// TXT record overwrites it; an empty one changes nothing.
pub open spec fn fold_txt(acc: Option<TxtRecord>, rs: Seq<DnsRecord>) -> Option<TxtRecord>
    decreases rs.len(),
{
    if rs.len() == 0 {
        acc
    } else {
        match rs[0] {
            DnsRecord::Txt(t) => if txt_entries(t@).len() > 0 {
                fold_txt(Some(t), rs.drop_first())
            } else {
                fold_txt(acc, rs.drop_first())
            },
            _ => fold_txt(acc, rs.drop_first()),
        }
    }
}

/// Every TXT record among the records is well formed.
pub open spec fn records_wf(rs: Seq<DnsRecord>) -> bool {
    forall|i: int|
        0 <= i < rs.len() ==> match #[trigger] rs[i] {
            DnsRecord::Txt(t) => t.wf(),
            _ => true,
        }
}

/// Folds the records of one browse reply into a service: the last parsing
/// PTR record names it and gives its hostname, the last SRV record its
/// port, the last nonempty TXT record its attributes.  Address records
/// are ignored, and the event is an announcement.
pub fn services_from_record_list(records: Vec<DnsRecord>) -> (s: Service)
    requires
        records_wf(records@),
    ensures
        s.event_type == ServiceEventType::Added,
        s.interface_index is None,
        s.port == fold_port(0, records@),
        s.txt_record == fold_txt(None, records@),
        match fold_ptr(None, records@) {
            None => s.name@ =~= Seq::<char>::empty() && s.regtype@ =~= Seq::<char>::empty()
                && s.domain@ =~= Seq::<char>::empty() && s.hostname@ =~= Seq::<char>::empty(),
            Some(nm) => spec_process_name(nm) matches Some(t) && s.name@ == t.0 && s.regtype@
                == t.1 && s.domain@ == t.2 && s.hostname@ == t.0 + seq!['.'] + t.2,
        },
{
    let ghost all = records@;
    let mut records = records;
    let mut name = String::new();
    let mut regtype = String::new();
    let mut domain = String::new();
    let mut hostname = String::new();
    let mut port: u16 = 0;
    let mut txt_record: Option<TxtRecord> = None;
    let ghost mut cur_ptr: Option<Seq<char>> = None;
    while records.len() > 0
        invariant
            records_wf(records@),
            fold_port(port, records@) == fold_port(0, all),
            fold_txt(txt_record, records@) == fold_txt(None, all),
            fold_ptr(cur_ptr, records@) == fold_ptr(None, all),
            match cur_ptr {
                None => name@ =~= Seq::<char>::empty() && regtype@ =~= Seq::<char>::empty()
                    && domain@ =~= Seq::<char>::empty() && hostname@ =~= Seq::<char>::empty(),
                Some(nm) => spec_process_name(nm) matches Some(t) && name@ == t.0 && regtype@
                    == t.1 && domain@ == t.2 && hostname@ == t.0 + seq!['.'] + t.2,
            },
        decreases records@.len(),
    {
        let ghost rs = records@;
        let rec = records.remove(0);
        proof {
            assert(rs[0] == rec);
            assert(records@ =~= rs.drop_first());
        }
        match rec {
            DnsRecord::Ptr(nm) => {
                match process_name(nm.as_str()) {
                    Some((n, rt, d)) => {
                        proof {
                            reveal_strlit(".");
                            assert("."@ =~= seq!['.']);
                        }
                        let mut h = n.clone();
                        h.append(".");
                        h.append(d.as_str());
                        hostname = h;
                        name = n;
                        regtype = rt;
                        domain = d;
                        proof {
                            cur_ptr = Some(nm@);
                        }
                    },
                    None => {},
                }
            },
            DnsRecord::Srv(p) => {
                port = p;
            },
            DnsRecord::Txt(t) => {
                if !t.is_empty() {
                    txt_record = Some(t);
                }
            },
            DnsRecord::A(_ip) => {},
            DnsRecord::Aaaa(_ip) => {},
        }
    }
    Service {
        name,
        regtype,
        interface_index: None,
        domain,
        event_type: ServiceEventType::Added,
        hostname,
        port,
        txt_record,
    }
}

} // verus!
