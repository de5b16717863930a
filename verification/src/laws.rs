//! Properties of the library that relate several of its functions.

use vstd::prelude::*;
use vstd::utf8::*;

use vstd::bytes::{lemma_auto_spec_u64_to_from_le_bytes, spec_u64_to_le_bytes};

use crate::crypto::{ed25519_accepts, ed25519_key_decodes, ed25519_public_key};
use crate::crypto::sha256;
use crate::evidence::{
    accepted, appended, domain_tag, framed, genesis, head_message, padded, public_key_from,
    record_digest, record_preimage, scan_from, timeline_text, verdict, Head, LogLine, Record,
    VerifyError,
};
use crate::swarm::{count_set, dead_names};
use crate::text::{decimal_text, is_space, trimmed};
use crate::hex::{
    digit_value, hex_digit, hex_text, pair_decodes, pair_value, unhex_bytes, unhex_text,
    unhex_text_n,
};

verus! {

broadcast use vstd::utf8::is_ascii_chars_encode_utf8;

proof fn lemma_digit_value(n: int)
    requires
        0 <= n < 16,
    ensures
        (hex_digit(n) as u32) < 128,
        !is_space(hex_digit(n)),
        digit_value(hex_digit(n) as u8) == Some(n as u8),
{
    if n < 10 {
        assert(((n + 48) as char) as u32 == n + 48);
    } else {
        assert(((n + 87) as char) as u32 == n + 87);
    }
}

/// Hex text decodes to the bytes it encodes: `unhex(hex_encode(b)) == Some(b)`.
pub proof fn law_hex_roundtrip(b: Seq<u8>)
    ensures
        unhex_text(hex_text(b)) == Some(b),
        unhex_text_n(hex_text(b), b.len()) == Some(b),
{
    let t = hex_text(b);
    assert forall|i: int| 0 <= i < t.len() implies (t[i] as u32) < 128 by {
        if i % 2 == 0 {
            lemma_digit_value(b[i / 2] as int / 16);
        } else {
            lemma_digit_value(b[i / 2] as int % 16);
        }
    }
    assert(is_ascii_chars(t));
    let e = encode_utf8(t);
    assert(e.len() == t.len());
    assert forall|k: int| 0 <= k < b.len() implies #[trigger] pair_decodes(e, k) && pair_value(
        e[2 * k],
        e[2 * k + 1],
    ) == Some(b[k]) by {
        lemma_digit_value(b[k] as int / 16);
        lemma_digit_value(b[k] as int % 16);
        assert(t[2 * k] == hex_digit(b[(2 * k) / 2] as int / 16));
        assert(t[2 * k + 1] == hex_digit(b[(2 * k + 1) / 2] as int % 16));
        assert((2 * k) / 2 == k);
        assert((2 * k + 1) / 2 == k);
        assert(e[2 * k] == t[2 * k] as u8);
        assert(e[2 * k + 1] == t[2 * k + 1] as u8);
    }
    assert(e.len() / 2 == b.len());
    assert(unhex_bytes(e)->0 =~= b);
}


/// Hex text has no surrounding whitespace to trim.
proof fn lemma_hex_trimmed(b: Seq<u8>)
    ensures
        trimmed(hex_text(b)) == hex_text(b),
{
    let t = hex_text(b);
    if t.len() > 0 {
        lemma_digit_value(b[0] as int / 16);
        lemma_digit_value(b[b.len() - 1] as int % 16);
        assert(t[0] == hex_digit(b[0] as int / 16));
        assert(t.last() == hex_digit(b[(t.len() - 1) / 2] as int % 16));
        assert((t.len() - 1) / 2 == b.len() - 1);
    }
}

/// The public key file written for a host key (`public_key_hex`) reads back
/// (`parse_public_key`) as that key's public half.
pub proof fn law_public_key_file_roundtrip(seed: Seq<u8>)
    requires
        ed25519_public_key(seed).len() == 32,
        ed25519_key_decodes(ed25519_public_key(seed)),
    ensures
        public_key_from(hex_text(ed25519_public_key(seed))) == Ok::<Seq<u8>, VerifyError>(
            ed25519_public_key(seed),
        ),
{
    let pk = ed25519_public_key(seed);
    lemma_hex_trimmed(pk);
    law_hex_roundtrip(pk);
}

// ---- the records of a log ------------------------------------------------------

/// The records of a log, in order (blank and unparseable lines left out).
pub open spec fn entries(lines: Seq<LogLine>) -> Seq<Record>
    decreases lines.len(),
{
    if lines.len() == 0 {
        seq![]
    } else {
        let rest = entries(lines.drop_last());
        match lines.last() {
            LogLine::Entry(r) => rest.push(r),
            _ => rest,
        }
    }
}

/// A record's hash, over its decoded `prev_hash`.
pub open spec fn digest_of(r: Record) -> Seq<u8> {
    record_digest(r.seq, unhex_text(r.prev_hash@)->0, r.host_time@, r.event@, r.payload@)
}

/// The hash record `k` of `rs` must link to.
pub open spec fn link(rs: Seq<Record>, k: int) -> Seq<u8> {
    if k == 0 {
        genesis()
    } else {
        digest_of(rs[k - 1])
    }
}

/// Records that chain: numbered from 0, each naming the hash of the one before
/// (the genesis hash for the first) and carrying the hash of its contents.
pub open spec fn chained(rs: Seq<Record>) -> bool {
    forall|k: int| 0 <= k < rs.len() ==> #[trigger] chained_at(rs, k)
}

/// Record `k` of `rs` is numbered `k`, links to the record before it and
/// carries the hash of its contents.
pub open spec fn chained_at(rs: Seq<Record>, k: int) -> bool {
    &&& rs[k].seq == k
    &&& links_to(rs[k], link(rs, k))
    &&& hash_holds(rs[k])
}

/// The record's `prev_hash` decodes to the 32 bytes `l`.
#[verifier::opaque]
pub open spec fn links_to(r: Record, l: Seq<u8>) -> bool {
    unhex_text_n(r.prev_hash@, 32) == Some(l)
}

/// The record's stored hash is the hash of its contents.
#[verifier::opaque]
pub open spec fn hash_holds(r: Record) -> bool {
    r.hash@ == hex_text(digest_of(r))
}

proof fn lemma_entries_step(lines: Seq<LogLine>, i: int)
    requires
        0 <= i < lines.len(),
    ensures
        entries(lines.take(i + 1)) == match lines[i] {
            LogLine::Entry(r) => entries(lines.take(i)).push(r),
            _ => entries(lines.take(i)),
        },
{
    assert(lines.take(i + 1).drop_last() =~= lines.take(i));
}

proof fn lemma_chained_push(before: Seq<Record>, r: Record)
    requires
        chained(before),
        r.seq == before.len(),
        links_to(r, link(before, before.len() as int)),
        hash_holds(r),
    ensures
        chained(before.push(r)),
        link(before.push(r), before.len() + 1 as int) == digest_of(r),
{
    let after = before.push(r);
    assert forall|k: int| 0 <= k < after.len() implies #[trigger] chained_at(after, k) by {
        if 0 < k {
            assert(after[k - 1] == before[k - 1]);
        }
        assert(link(after, k) == link(before, k));
        if k < before.len() {
            assert(chained_at(before, k));
            assert(after[k] == before[k]);
        } else {
            assert(after[k] == r);
        }
    }
    assert(after[before.len() as int] == r);
}

/// A scan that ends well walks through records that chain, counting them.
proof fn lemma_scan_chained(lines: Seq<LogLine>, i: nat, prev: Seq<u8>, count: nat)
    requires
        i <= lines.len(),
        entries(lines.take(i as int)).len() == count,
        chained(entries(lines.take(i as int))),
        prev == link(entries(lines.take(i as int)), count as int),
        scan_from(lines, i, prev, count) matches Ok(_),
    ensures
        scan_from(lines, i, prev, count) matches Ok((last, n)) && {
            &&& entries(lines).len() == n
            &&& chained(entries(lines))
            &&& last == link(entries(lines), n as int)
        },
        forall|j: int| i <= j < lines.len() ==> #[trigger] lines[j] != LogLine::Unparseable,
    decreases lines.len() - i,
{
    if i == lines.len() {
        assert(lines.take(i as int) =~= lines);
    } else {
        lemma_entries_step(lines, i as int);
        let before = entries(lines.take(i as int));
        match lines[i as int] {
            LogLine::Blank => {
                lemma_scan_chained(lines, i + 1, prev, count);
            },
            LogLine::Unparseable => {},
            LogLine::Entry(r) => {
                let p = unhex_text_n(r.prev_hash@, 32)->0;
                let h = record_digest(r.seq, prev, r.host_time@, r.event@, r.payload@);
                assert(unhex_text(r.prev_hash@)->0 == p);
                assert(digest_of(r) == h);
                reveal(links_to);
                reveal(hash_holds);
                lemma_chained_push(before, r);
                lemma_scan_chained(lines, i + 1, h, (count + 1) as nat);
            },
        }
    }
}


proof fn lemma_scan_push(lines: Seq<LogLine>, x: LogLine, i: nat, prev: Seq<u8>, count: nat)
    requires
        i <= lines.len(),
        scan_from(lines, i, prev, count) matches Ok(_),
    ensures
        scan_from(lines, i, prev, count) matches Ok((p, c)) && scan_from(
            lines.push(x),
            i,
            prev,
            count,
        ) == scan_from(lines.push(x), lines.len(), p, c),
    decreases lines.len() - i,
{
    if i < lines.len() {
        assert(lines.push(x)[i as int] == lines[i as int]);
        match lines[i as int] {
            LogLine::Blank => lemma_scan_push(lines, x, i + 1, prev, count),
            LogLine::Unparseable => {},
            LogLine::Entry(r) => {
                let h = record_digest(r.seq, prev, r.host_time@, r.event@, r.payload@);
                lemma_scan_push(lines, x, i + 1, h, (count + 1) as nat);
            },
        }
    }
}

proof fn lemma_scan_prefix(lines: Seq<LogLine>, j: int, i: nat, prev: Seq<u8>, count: nat)
    requires
        i <= j <= lines.len(),
        scan_from(lines, i, prev, count) matches Ok(_),
    ensures
        scan_from(lines.take(j), i, prev, count) matches Ok(_),
    decreases j - i,
{
    if i < j {
        assert(lines.take(j)[i as int] == lines[i as int]);
        match lines[i as int] {
            LogLine::Blank => lemma_scan_prefix(lines, j, i + 1, prev, count),
            LogLine::Unparseable => {},
            LogLine::Entry(r) => {
                let h = record_digest(r.seq, prev, r.host_time@, r.event@, r.payload@);
                lemma_scan_prefix(lines, j, i + 1, h, (count + 1) as nat);
            },
        }
    }
}

/// What a scan from the start of a log that ends well says about its records.
proof fn lemma_scan_whole(lines: Seq<LogLine>)
    requires
        scan_from(lines, 0, genesis(), 0) matches Ok(_),
    ensures
        scan_from(lines, 0, genesis(), 0) matches Ok((last, n)) && {
            &&& entries(lines).len() == n
            &&& chained(entries(lines))
            &&& last == link(entries(lines), n as int)
        },
        all_parse(lines),
{
    assert(lines.take(0) =~= Seq::<LogLine>::empty());
    lemma_scan_chained(lines, 0, genesis(), 0);
}

/// Every line of the log is blank or a record.
pub open spec fn all_parse(lines: Seq<LogLine>) -> bool {
    forall|i: int| 0 <= i < lines.len() ==> #[trigger] lines[i] != LogLine::Unparseable
}

/// The records of a prefix of a log come first among the records of the log.
proof fn lemma_entries_prefix(lines: Seq<LogLine>, i: int)
    requires
        0 <= i <= lines.len(),
    ensures
        entries(lines.take(i)).len() <= entries(lines).len(),
        forall|k: int|
            0 <= k < entries(lines.take(i)).len() ==> #[trigger] entries(lines.take(i))[k]
                == entries(lines)[k],
    decreases lines.len(),
{
    if i < lines.len() {
        let d = lines.drop_last();
        assert(lines.take(i) =~= d.take(i));
        lemma_entries_prefix(d, i);
    } else {
        assert(lines.take(i) =~= lines);
    }
}

/// Over a log whose lines all parse and whose records chain, the scan runs to
/// the end and gives the last record's hash and the number of records.
proof fn lemma_scan_intact(lines: Seq<LogLine>, i: nat, prev: Seq<u8>, count: nat)
    requires
        i <= lines.len(),
        all_parse(lines),
        chained(entries(lines)),
        entries(lines.take(i as int)).len() == count,
        prev == link(entries(lines), count as int),
    ensures
        scan_from(lines, i, prev, count) == Ok::<(Seq<u8>, nat), VerifyError>(
            (link(entries(lines), entries(lines).len() as int), entries(lines).len()),
        ),
    decreases lines.len() - i,
{
    let rs = entries(lines);
    if i == lines.len() {
        assert(lines.take(i as int) =~= lines);
    } else {
        lemma_entries_step(lines, i as int);
        lemma_entries_prefix(lines, i as int + 1);
        assert(lines[i as int] != LogLine::Unparseable);
        match lines[i as int] {
            LogLine::Blank => {
                lemma_scan_intact(lines, i + 1, prev, count);
            },
            LogLine::Unparseable => {},
            LogLine::Entry(r) => {
                assert(entries(lines.take(i as int + 1))[count as int] == r);
                assert(rs[count as int] == r);
                assert(chained_at(rs, count as int));
                reveal(links_to);
                reveal(hash_holds);
                let h = record_digest(r.seq, prev, r.host_time@, r.event@, r.payload@);
                assert(unhex_text(r.prev_hash@)->0 == prev);
                assert(digest_of(r) == h);
                assert(link(rs, count as int + 1) == h);
                lemma_scan_intact(lines, i + 1, h, count + 1);
            },
        }
    }
}

/// A log that checks out, said directly: every line is blank or a record, the
/// records chain (numbered from 0, each naming the hash of the one before and
/// carrying the hash of its contents), the head names the last record and its
/// hash, and the head's signature over them verifies under `public_key`.
pub open spec fn intact_log(public_key: Seq<u8>, head: Head, lines: Seq<LogLine>) -> bool {
    let rs = entries(lines);
    let last = link(rs, rs.len() as int);
    &&& all_parse(lines)
    &&& chained(rs)
    &&& head.seq < u64::MAX
    &&& head.seq + 1 == rs.len()
    &&& unhex_text_n(head.head_hash@, 32) == Some(last)
    &&& unhex_text_n(head.sig@, 64) matches Some(sig)
    &&& ed25519_accepts(public_key, head_message(head.seq, last), sig)
}

/// `check_log` accepts a log exactly when it is intact: its lines parse, its
/// records chain from the genesis hash with `seq` counting from 0 and each
/// stored hash recomputed, and the signed head names the last record.
pub proof fn law_accepted_iff_intact(public_key: Seq<u8>, head: Head, lines: Seq<LogLine>)
    ensures
        accepted(public_key, head, lines) <==> intact_log(public_key, head, lines),
{
    if accepted(public_key, head, lines) {
        lemma_scan_whole(lines);
    }
    if intact_log(public_key, head, lines) {
        assert(lines.take(0) =~= Seq::<LogLine>::empty());
        lemma_scan_intact(lines, 0, genesis(), 0);
    }
}

/// A log that checks out holds exactly as many records as its head counts, so
/// dropping, inserting or removing records is always detected.
pub proof fn law_accepted_count(public_key: Seq<u8>, head: Head, lines: Seq<LogLine>)
    requires
        accepted(public_key, head, lines),
    ensures
        entries(lines).len() == head.seq + 1,
        verdict(public_key, head, lines) == Some(Ok::<u64, VerifyError>((head.seq + 1) as u64)),
{
    lemma_scan_whole(lines);
}

/// Appending an event (with `next_record`) to a log that checks out, and
/// writing the new head, gives a log that checks out, one record longer.
pub proof fn law_append_keeps_log_accepted(
    seed: Seq<u8>,
    head: Head,
    lines: Seq<LogLine>,
    host_time: Seq<char>,
    event: Seq<char>,
    payload: Seq<char>,
    rec: Record,
    new_head: Head,
)
    requires
        accepted(ed25519_public_key(seed), head, lines),
        appended(Some(head), seed, host_time, event, payload, rec, new_head),
        head.seq + 1 < u64::MAX,
    ensures
        verdict(ed25519_public_key(seed), new_head, lines.push(LogLine::Entry(rec))) == Some(
            Ok::<u64, VerifyError>((head.seq + 2) as u64),
        ),
{
    let pk = ed25519_public_key(seed);
    let hh = unhex_text_n(head.head_hash@, 32)->0;
    let n = (head.seq + 1) as nat;
    lemma_scan_push(lines, LogLine::Entry(rec), 0, genesis(), 0);
    let lines2 = lines.push(LogLine::Entry(rec));
    assert(lines2[lines.len() as int] == LogLine::Entry(rec));
    law_hex_roundtrip(hh);
    let h = record_digest(n as u64, hh, host_time, event, payload);
    assert(scan_from(lines2, lines.len() + 1, h, n + 1) == Ok::<(Seq<u8>, nat), VerifyError>(
        (h, n + 1),
    ));
    law_hex_roundtrip(h);
    let m = head_message(n as u64, h);
    law_hex_roundtrip(crate::crypto::ed25519_signature(seed, m));
}

/// The first event appended (with `next_record`, there being no head yet) to a
/// log of blank lines gives a log of one record that checks out.
pub proof fn law_first_record_accepted(
    seed: Seq<u8>,
    lines: Seq<LogLine>,
    host_time: Seq<char>,
    event: Seq<char>,
    payload: Seq<char>,
    rec: Record,
    new_head: Head,
)
    requires
        forall|i: int| 0 <= i < lines.len() ==> lines[i] == LogLine::Blank,
        appended(None, seed, host_time, event, payload, rec, new_head),
    ensures
        verdict(ed25519_public_key(seed), new_head, lines.push(LogLine::Entry(rec))) == Some(
            Ok::<u64, VerifyError>(1u64),
        ),
{
    lemma_blank_scan(lines, 0);
    lemma_scan_push(lines, LogLine::Entry(rec), 0, genesis(), 0);
    let lines2 = lines.push(LogLine::Entry(rec));
    assert(lines2[lines.len() as int] == LogLine::Entry(rec));
    law_hex_roundtrip(genesis());
    let h = record_digest(0u64, genesis(), host_time, event, payload);
    assert(scan_from(lines2, lines.len() + 1, h, 1) == Ok::<(Seq<u8>, nat), VerifyError>(
        (h, 1nat),
    ));
    law_hex_roundtrip(h);
    let m = head_message(0u64, h);
    law_hex_roundtrip(crate::crypto::ed25519_signature(seed, m));
}

proof fn lemma_blank_scan(lines: Seq<LogLine>, i: nat)
    requires
        i <= lines.len(),
        forall|k: int| 0 <= k < lines.len() ==> lines[k] == LogLine::Blank,
    ensures
        scan_from(lines, i, genesis(), 0) == Ok::<(Seq<u8>, nat), VerifyError>((genesis(), 0nat)),
    decreases lines.len() - i,
{
    if i < lines.len() {
        lemma_blank_scan(lines, i + 1);
    }
}

/// Dropping lines from the end of a log that checks out, at least one record
/// among them, is reported as truncation.
pub proof fn law_truncation_detected(public_key: Seq<u8>, head: Head, lines: Seq<LogLine>, j: int)
    requires
        accepted(public_key, head, lines),
        0 <= j <= lines.len(),
        entries(lines.take(j)).len() < entries(lines).len(),
    ensures
        verdict(public_key, head, lines.take(j)) == Some(
            Err::<u64, VerifyError>(
                VerifyError::Truncated {
                    head_seq: head.seq,
                    count: entries(lines.take(j)).len() as u64,
                },
            ),
        ),
{
    lemma_scan_whole(lines);
    lemma_scan_prefix(lines, j, 0, genesis(), 0);
    lemma_scan_whole(lines.take(j));
}

// ---- records are pinned down by the head -----------------------------------------

/// The length of a field fits its 8-byte prefix.
pub open spec fn field_fits(s: Seq<char>) -> bool {
    encode_utf8(s).len() <= u64::MAX
}

/// Every record's fields fit their length prefixes.
pub open spec fn fields_fit(rs: Seq<Record>) -> bool {
    forall|k: int|
        0 <= k < rs.len() ==> field_fits((#[trigger] rs[k]).host_time@) && field_fits(
            rs[k].event@,
        ) && field_fits(rs[k].payload@)
}

/// The bytes a record's hash is taken over, its `prev_hash` decoded.
pub open spec fn preimage_of(r: Record) -> Seq<u8> {
    record_preimage(r.seq, unhex_text(r.prev_hash@)->0, r.host_time@, r.event@, r.payload@)
}

/// Wherever the records at one place of `e1` and `e2` are hashed over
/// different bytes, their hashes differ: SHA-256 has no collision between
/// these records.
pub open spec fn hashes_separate(e1: Seq<Record>, e2: Seq<Record>) -> bool {
    forall|j: int|
        #![trigger digest_of(e1[j]), digest_of(e2[j])]
        0 <= j < e1.len() && j < e2.len() && preimage_of(e1[j]) != preimage_of(e2[j])
            ==> digest_of(e1[j]) != digest_of(e2[j])
}

/// Two records carry the same `seq`, fields and hash, and their `prev_hash`
/// texts decode to the same bytes.
pub open spec fn same_content(r1: Record, r2: Record) -> bool {
    &&& r1.seq == r2.seq
    &&& r1.host_time@ == r2.host_time@
    &&& r1.event@ == r2.event@
    &&& r1.payload@ == r2.payload@
    &&& r1.hash@ == r2.hash@
    &&& unhex_text(r1.prev_hash@) == unhex_text(r2.prev_hash@)
}

proof fn lemma_framed_split(u1: Seq<u8>, v1: Seq<u8>, w1: Seq<u8>, u2: Seq<u8>, v2: Seq<u8>, w2: Seq<u8>)
    requires
        u1.len() == u2.len(),
        v1.len() <= u64::MAX,
        v2.len() <= u64::MAX,
        u1 + framed(v1) + w1 == u2 + framed(v2) + w2,
    ensures
        u1 == u2,
        v1 == v2,
        w1 == w2,
{
    lemma_auto_spec_u64_to_from_le_bytes();
    let q1 = u1 + framed(v1) + w1;
    let q2 = u2 + framed(v2) + w2;
    let a = u1.len() as int;
    assert(q1.subrange(0, a) =~= u1);
    assert(q2.subrange(0, a) =~= u2);
    let l1 = spec_u64_to_le_bytes(v1.len() as u64);
    let l2 = spec_u64_to_le_bytes(v2.len() as u64);
    assert(q1.subrange(a, a + 8) =~= l1);
    assert(q2.subrange(a, a + 8) =~= l2);
    assert(v1.len() as u64 == v2.len() as u64);
    let b = a + 8 + v1.len();
    assert(q1.subrange(a + 8, b) =~= v1);
    assert(q2.subrange(a + 8, b) =~= v2);
    assert(q1.skip(b) =~= w1);
    assert(q2.skip(b) =~= w2);
}

/// The encoding under a record's hash is unambiguous: equal encodings come
/// from equal `seq`, previous hash and fields (previous hashes being 32 bytes,
/// fields fitting their length prefixes).
pub proof fn law_preimage_injective(
    s1: u64,
    p1: Seq<u8>,
    a1: Seq<char>,
    b1: Seq<char>,
    c1: Seq<char>,
    s2: u64,
    p2: Seq<u8>,
    a2: Seq<char>,
    b2: Seq<char>,
    c2: Seq<char>,
)
    requires
        p1.len() == 32,
        p2.len() == 32,
        field_fits(a1),
        field_fits(b1),
        field_fits(c1),
        field_fits(a2),
        field_fits(b2),
        field_fits(c2),
        record_preimage(s1, p1, a1, b1, c1) == record_preimage(s2, p2, a2, b2, c2),
    ensures
        s1 == s2,
        p1 == p2,
        a1 == a2,
        b1 == b2,
        c1 == c2,
{
    lemma_auto_spec_u64_to_from_le_bytes();
    let x1 = domain_tag() + spec_u64_to_le_bytes(s1) + p1;
    let x2 = domain_tag() + spec_u64_to_le_bytes(s2) + p2;
    let (ea1, eb1, ec1) = (encode_utf8(a1), encode_utf8(b1), encode_utf8(c1));
    let (ea2, eb2, ec2) = (encode_utf8(a2), encode_utf8(b2), encode_utf8(c2));
    assert(record_preimage(s1, p1, a1, b1, c1) =~= x1 + framed(ea1) + (framed(eb1) + framed(ec1)));
    assert(record_preimage(s2, p2, a2, b2, c2) =~= x2 + framed(ea2) + (framed(eb2) + framed(ec2)));
    lemma_framed_split(x1, ea1, framed(eb1) + framed(ec1), x2, ea2, framed(eb2) + framed(ec2));
    assert(framed(eb1) + framed(ec1) =~= Seq::<u8>::empty() + framed(eb1) + framed(ec1));
    assert(framed(eb2) + framed(ec2) =~= Seq::<u8>::empty() + framed(eb2) + framed(ec2));
    lemma_framed_split(Seq::empty(), eb1, framed(ec1), Seq::empty(), eb2, framed(ec2));
    assert(framed(ec1) =~= Seq::<u8>::empty() + framed(ec1) + Seq::<u8>::empty());
    assert(framed(ec2) =~= Seq::<u8>::empty() + framed(ec2) + Seq::<u8>::empty());
    lemma_framed_split(Seq::empty(), ec1, Seq::empty(), Seq::empty(), ec2, Seq::empty());
    assert(x1.subrange(8, 16) =~= spec_u64_to_le_bytes(s1));
    assert(x2.subrange(8, 16) =~= spec_u64_to_le_bytes(s2));
    assert(x1.subrange(16, 48) =~= p1);
    assert(x2.subrange(16, 48) =~= p2);
    vstd::utf8::encode_utf8_decode_utf8(a1);
    vstd::utf8::encode_utf8_decode_utf8(a2);
    vstd::utf8::encode_utf8_decode_utf8(b1);
    vstd::utf8::encode_utf8_decode_utf8(b2);
    vstd::utf8::encode_utf8_decode_utf8(c1);
    vstd::utf8::encode_utf8_decode_utf8(c2);
}

proof fn lemma_records_agree(r1: Record, r2: Record, l1: Seq<u8>, l2: Seq<u8>)
    requires
        links_to(r1, l1),
        links_to(r2, l2),
        field_fits(r1.host_time@) && field_fits(r1.event@) && field_fits(r1.payload@),
        field_fits(r2.host_time@) && field_fits(r2.event@) && field_fits(r2.payload@),
        hash_holds(r1),
        hash_holds(r2),
        digest_of(r1) == digest_of(r2),
        preimage_of(r1) != preimage_of(r2) ==> digest_of(r1) != digest_of(r2),
    ensures
        same_content(r1, r2),
        l1 == l2,
{
    reveal(links_to);
    reveal(hash_holds);
    let pre1 = record_preimage(r1.seq, l1, r1.host_time@, r1.event@, r1.payload@);
    let pre2 = record_preimage(r2.seq, l2, r2.host_time@, r2.event@, r2.payload@);
    assert(pre1 == preimage_of(r1));
    assert(pre2 == preimage_of(r2));
    law_preimage_injective(
        r1.seq,
        l1,
        r1.host_time@,
        r1.event@,
        r1.payload@,
        r2.seq,
        l2,
        r2.host_time@,
        r2.event@,
        r2.payload@,
    );
}

proof fn lemma_chains_agree(e1: Seq<Record>, e2: Seq<Record>, k: int)
    requires
        chained(e1),
        chained(e2),
        fields_fit(e1),
        fields_fit(e2),
        e1.len() == e2.len(),
        0 <= k <= e1.len(),
        link(e1, k) == link(e2, k),
        hashes_separate(e1, e2),
    ensures
        forall|j: int| 0 <= j < k ==> same_content(#[trigger] e1[j], e2[j]),
    decreases k,
{
    if k > 0 {
        let j = k - 1;
        let (r1, r2) = (e1[j], e2[j]);
        assert(chained_at(e1, j));
        assert(chained_at(e2, j));
        assert(digest_of(r1) == digest_of(e1[j]) && digest_of(r2) == digest_of(e2[j]));
        lemma_records_agree(r1, r2, link(e1, j), link(e2, j));
        lemma_chains_agree(e1, e2, j);
    }
}

/// Two logs that check out against the same head hold the same records, in
/// the same order (`seq`, fields and hash alike, `prev_hash` up to how its hex
/// is spelt), unless two of their records at one place are hashed over
/// different bytes to the same hash.  Records too long to frame are left out.
pub proof fn law_accepted_logs_agree(
    public_key: Seq<u8>,
    head: Head,
    lines1: Seq<LogLine>,
    lines2: Seq<LogLine>,
)
    requires
        accepted(public_key, head, lines1),
        accepted(public_key, head, lines2),
        fields_fit(entries(lines1)),
        fields_fit(entries(lines2)),
    ensures
        entries(lines1).len() == entries(lines2).len(),
        !hashes_separate(entries(lines1), entries(lines2)) || forall|k: int|
            0 <= k < entries(lines1).len() ==> same_content(
                #[trigger] entries(lines1)[k],
                entries(lines2)[k],
            ),
{
    lemma_scan_whole(lines1);
    lemma_scan_whole(lines2);
    if hashes_separate(entries(lines1), entries(lines2)) {
        lemma_chains_agree(
            entries(lines1),
            entries(lines2),
            entries(lines1).len() as int,
        );
    }
}


// ---- tampering is reported ------------------------------------------------------

/// A scan that runs well through the first `j` lines goes on from line `j`
/// with the hash and count it reached there.
proof fn lemma_scan_split(lines: Seq<LogLine>, j: int, i: nat, prev: Seq<u8>, count: nat)
    requires
        i <= j <= lines.len(),
        scan_from(lines.take(j), i, prev, count) matches Ok(_),
    ensures
        scan_from(lines.take(j), i, prev, count) matches Ok((p, c)) && scan_from(
            lines,
            i,
            prev,
            count,
        ) == scan_from(lines, j as nat, p, c),
    decreases j - i,
{
    if i < j {
        assert(lines.take(j)[i as int] == lines[i as int]);
        match lines[i as int] {
            LogLine::Blank => lemma_scan_split(lines, j, i + 1, prev, count),
            LogLine::Unparseable => {},
            LogLine::Entry(r) => {
                let h = record_digest(r.seq, prev, r.host_time@, r.event@, r.payload@);
                lemma_scan_split(lines, j, i + 1, h, (count + 1) as nat);
            },
        }
    }
}

/// Hex text spells one byte string only.
proof fn lemma_hex_text_injective(a: Seq<u8>, b: Seq<u8>)
    requires
        hex_text(a) == hex_text(b),
    ensures
        a == b,
{
    law_hex_roundtrip(a);
    law_hex_roundtrip(b);
}

/// Changing the time, event or payload of one record of a log that checks out,
/// and nothing else, is reported as a hash mismatch at that record, whenever
/// the change changes the record's hash.
pub proof fn law_edit_pinpointed(
    public_key: Seq<u8>,
    head: Head,
    lines: Seq<LogLine>,
    i: int,
    r: Record,
    edited: Record,
)
    requires
        accepted(public_key, head, lines),
        0 <= i < lines.len(),
        lines[i] == LogLine::Entry(r),
        edited.seq == r.seq,
        edited.prev_hash@ == r.prev_hash@,
        edited.hash@ == r.hash@,
        digest_of(edited) != digest_of(r),
    ensures
        verdict(public_key, head, lines.update(i, LogLine::Entry(edited))) == Some(
            Err::<u64, VerifyError>(VerifyError::HashMismatch { seq: r.seq }),
        ),
{
    let lines2 = lines.update(i, LogLine::Entry(edited));
    assert(lines2.take(i) =~= lines.take(i));
    lemma_scan_prefix(lines, i, 0, genesis(), 0);
    lemma_scan_split(lines, i, 0, genesis(), 0);
    lemma_scan_split(lines2, i, 0, genesis(), 0);
    let (p, c) = scan_from(lines.take(i), 0, genesis(), 0)->Ok_0;
    assert(lines2[i] == LogLine::Entry(edited));
    assert(unhex_text(r.prev_hash@)->0 == p);
    let h = record_digest(r.seq, p, r.host_time@, r.event@, r.payload@);
    let h2 = record_digest(r.seq, p, edited.host_time@, edited.event@, edited.payload@);
    assert(h == digest_of(r) && h2 == digest_of(edited));
    assert(r.hash@ == hex_text(h));
    if hex_text(h2) == hex_text(h) {
        lemma_hex_text_injective(h2, h);
    }
}

/// Replacing a log that checks out with another sequence of as many records
/// that chain among themselves, every line parsing, is reported as a head
/// mismatch: without the host key the signed head cannot follow.  This holds
/// where some record differs in content (`seq`, fields, hash, or what its
/// `prev_hash` decodes to), and where records at one place hashed over
/// different bytes have different hashes.  Fields too long to frame are left
/// out.
pub proof fn law_rewrite_detected(
    public_key: Seq<u8>,
    head: Head,
    lines: Seq<LogLine>,
    rewritten: Seq<LogLine>,
    k: int,
)
    requires
        accepted(public_key, head, lines),
        all_parse(rewritten),
        chained(entries(rewritten)),
        entries(rewritten).len() == entries(lines).len(),
        fields_fit(entries(lines)),
        fields_fit(entries(rewritten)),
        0 <= k < entries(lines).len(),
        !same_content(entries(lines)[k], entries(rewritten)[k]),
        hashes_separate(entries(lines), entries(rewritten)),
    ensures
        verdict(public_key, head, rewritten) == Some(
            Err::<u64, VerifyError>(VerifyError::HeadMismatch),
        ),
{
    let (e1, e2) = (entries(lines), entries(rewritten));
    let n = e1.len() as int;
    lemma_scan_whole(lines);
    assert(rewritten.take(0) =~= Seq::<LogLine>::empty());
    lemma_scan_intact(rewritten, 0, genesis(), 0);
    if link(e1, n) == link(e2, n) {
        lemma_chains_agree(e1, e2, n);
        assert(same_content(e1[k], e2[k]));
    }
}

proof fn lemma_blank_skip(lines: Seq<LogLine>, m: int, j: int, prev: Seq<u8>, count: nat)
    requires
        0 <= m <= j <= lines.len(),
        forall|k: int| m <= k < j ==> #[trigger] lines[k] == LogLine::Blank,
    ensures
        scan_from(lines, m as nat, prev, count) == scan_from(lines, j as nat, prev, count),
    decreases j - m,
{
    if m < j {
        assert(lines[m] == LogLine::Blank);
        lemma_blank_skip(lines, m + 1, j, prev, count);
    }
}

/// Where the scan of a log that checks out stands at line `i`: the hash it
/// links to and the number of records before it.
proof fn lemma_scan_at(public_key: Seq<u8>, head: Head, lines: Seq<LogLine>, i: int) -> (pc: (
    Seq<u8>,
    nat,
))
    requires
        accepted(public_key, head, lines),
        0 <= i <= lines.len(),
    ensures
        scan_from(lines.take(i), 0, genesis(), 0) == Ok::<(Seq<u8>, nat), VerifyError>(pc),
        scan_from(lines, 0, genesis(), 0) == scan_from(lines, i as nat, pc.0, pc.1),
        scan_from(lines, i as nat, pc.0, pc.1) is Ok,
{
    lemma_scan_prefix(lines, i, 0, genesis(), 0);
    lemma_scan_split(lines, i, 0, genesis(), 0);
    scan_from(lines.take(i), 0, genesis(), 0)->Ok_0
}

/// Removing a record (not the last) from a log that checks out is reported as
/// a `seq` mismatch at the line where the next record now stands: that record
/// is one past the count.
pub proof fn law_deletion_pinpointed(
    public_key: Seq<u8>,
    head: Head,
    lines: Seq<LogLine>,
    i: int,
    r: Record,
    j: int,
    next: Record,
)
    requires
        accepted(public_key, head, lines),
        0 <= i < j < lines.len(),
        lines[i] == LogLine::Entry(r),
        lines[j] == LogLine::Entry(next),
        forall|k: int| i < k < j ==> #[trigger] lines[k] == LogLine::Blank,
    ensures
        verdict(public_key, head, lines.remove(i)) == Some(
            Err::<u64, VerifyError>(
                VerifyError::SeqMismatch { line: j as usize, seq: (r.seq + 1) as u64, expected: r.seq },
            ),
        ),
{
    let (p, c) = lemma_scan_at(public_key, head, lines, i);
    let lines2 = lines.remove(i);
    assert(lines2.take(i) =~= lines.take(i));
    lemma_scan_split(lines2, i, 0, genesis(), 0);
    let h = record_digest(r.seq, p, r.host_time@, r.event@, r.payload@);
    assert(r.seq == c);
    assert(scan_from(lines, i as nat, p, c) == scan_from(lines, (i + 1) as nat, h, c + 1));
    lemma_blank_skip(lines, i + 1, j, h, c + 1);
    assert(next.seq == c + 1);
    assert forall|k: int| i <= k < j - 1 implies #[trigger] lines2[k] == LogLine::Blank by {
        assert(lines2[k] == lines[k + 1]);
    }
    lemma_blank_skip(lines2, i, j - 1, p, c);
    assert(lines2[j - 1] == LogLine::Entry(next));
}

/// What checking reports for a record `x` put, at line `line`, just before the
/// record `r` of a log that checks out, `r` linking to the hash `p`: a `seq`
/// out of order there, a `prev_hash` that is not hex or does not link, a hash
/// that does not hold, or, for a faithful copy, `r` out of order on the next
/// line.
pub open spec fn insertion_report(x: Record, r: Record, p: Seq<u8>, line: int) -> VerifyError {
    if x.seq != r.seq {
        VerifyError::SeqMismatch { line: line as usize, seq: x.seq, expected: r.seq }
    } else {
        match unhex_text_n(x.prev_hash@, 32) {
            None => VerifyError::MalformedPrevHash,
            Some(q) => if q != p {
                VerifyError::PrevHashBreak { seq: r.seq }
            } else if x.hash@ != hex_text(
                record_digest(r.seq, p, x.host_time@, x.event@, x.payload@),
            ) {
                VerifyError::HashMismatch { seq: r.seq }
            } else {
                VerifyError::SeqMismatch {
                    line: (line + 1) as usize,
                    seq: r.seq,
                    expected: (r.seq + 1) as u64,
                }
            },
        }
    }
}

/// Inserting a line holding a record just before a record of a log that
/// checks out is reported at the inserted record or, where it is a faithful
/// copy, at the record after it (`insertion_report`).
pub proof fn law_insertion_pinpointed(
    public_key: Seq<u8>,
    head: Head,
    lines: Seq<LogLine>,
    i: int,
    r: Record,
    x: Record,
)
    requires
        accepted(public_key, head, lines),
        0 <= i < lines.len(),
        lines[i] == LogLine::Entry(r),
    ensures
        verdict(public_key, head, lines.insert(i, LogLine::Entry(x))) == Some(
            Err::<u64, VerifyError>(
                insertion_report(x, r, unhex_text_n(r.prev_hash@, 32)->0, i + 1),
            ),
        ),
{
    let (p, c) = lemma_scan_at(public_key, head, lines, i);
    let lines2 = lines.insert(i, LogLine::Entry(x));
    assert(lines2.take(i) =~= lines.take(i));
    lemma_scan_split(lines2, i, 0, genesis(), 0);
    assert(r.seq == c);
    assert(unhex_text_n(r.prev_hash@, 32) == Some(p));
    assert(lines2[i] == LogLine::Entry(x));
    assert(lines2[i + 1] == LogLine::Entry(r));
    let h = record_digest(x.seq, p, x.host_time@, x.event@, x.payload@);
    assert(scan_from(lines2, (i + 1) as nat, h, c + 1) == Err::<(Seq<u8>, nat), VerifyError>(
        VerifyError::SeqMismatch { line: (i + 2) as usize, seq: r.seq, expected: (c + 1) as u64 },
    ));
}

// ---- what records are hashed over ----------------------------------------------

/// A record's hash, at every `seq`, is SHA-256 over the domain tag, the `seq`
/// (8 bytes, little-endian), the previous hash, and then the time, the event
/// and the payload, each framed by its length.
pub proof fn law_record_digest_covers_every_field(
    seq: u64,
    prev: Seq<u8>,
    host_time: Seq<char>,
    event: Seq<char>,
    payload: Seq<char>,
)
    ensures
        record_digest(seq, prev, host_time, event, payload) == sha256(
            domain_tag() + spec_u64_to_le_bytes(seq) + prev + framed(encode_utf8(host_time))
                + framed(encode_utf8(event)) + framed(encode_utf8(payload)),
        ),
{
}

/// Records that differ in one field only, at any `seq`, are hashed over
/// different bytes (fields fitting their length prefixes, the previous hash
/// being 32 bytes).
pub proof fn law_each_field_is_hashed(
    seq: u64,
    prev: Seq<u8>,
    t1: Seq<char>,
    e1: Seq<char>,
    p1: Seq<char>,
    t2: Seq<char>,
    e2: Seq<char>,
    p2: Seq<char>,
)
    requires
        prev.len() == 32,
        field_fits(t1) && field_fits(e1) && field_fits(p1),
        field_fits(t2) && field_fits(e2) && field_fits(p2),
        (t1, e1, p1) != (t2, e2, p2),
    ensures
        record_preimage(seq, prev, t1, e1, p1) != record_preimage(seq, prev, t2, e2, p2),
{
    if record_preimage(seq, prev, t1, e1, p1) == record_preimage(seq, prev, t2, e2, p2) {
        law_preimage_injective(seq, prev, t1, e1, p1, seq, prev, t2, e2, p2);
    }
}

// ---- numbers as text ---------------------------------------------------------------

/// Every character is a decimal digit.
pub open spec fn all_digits(s: Seq<char>) -> bool {
    forall|i: int| 0 <= i < s.len() ==> '0' <= #[trigger] s[i] <= '9'
}

/// The number that decimal digits stand for, most significant first.
pub open spec fn digits_value(s: Seq<char>) -> nat
    decreases s.len(),
{
    if s.len() == 0 {
        0
    } else {
        digits_value(s.drop_last()) * 10 + ((s.last() as int - 48) as nat)
    }
}

/// Decimal text is digits only, at least one, and reads back as its number.
pub proof fn law_decimal_text_reads_back(n: nat)
    ensures
        decimal_text(n).len() >= 1,
        all_digits(decimal_text(n)),
        digits_value(decimal_text(n)) == n,
    decreases n,
{
    let d = decimal_text(n);
    if n < 10 {
        assert(((n + 48) as char) as int == n + 48);
        assert(d.drop_last() =~= Seq::<char>::empty());
        assert(digits_value(d) == digits_value(d.drop_last()) * 10 + ((d.last() as int - 48) as nat));
    } else {
        law_decimal_text_reads_back(n / 10);
        let x = (n % 10) as int;
        assert(((x + 48) as char) as int == x + 48);
        assert(d.drop_last() =~= decimal_text(n / 10));
        assert(d.last() == ((x + 48) as char));
        assert(digits_value(d) == digits_value(d.drop_last()) * 10 + ((d.last() as int - 48) as nat));
        assert((n / 10) * 10 + n % 10 == n);
        assert forall|i: int| 0 <= i < d.len() implies '0' <= #[trigger] d[i] <= '9' by {
            if i < d.len() - 1 {
                assert(d[i] == decimal_text(n / 10)[i]);
            }
        }
    }
}

/// The line of the action history shows the record's own `seq`: after the
/// `#` come digits that read as `seq`, then a space.
pub proof fn law_timeline_shows_seq(r: Record)
    ensures
        timeline_text(r)[0] == '#',
        exists|k: int|
            1 < k < timeline_text(r).len() && all_digits(
                #[trigger] timeline_text(r).subrange(1, k),
            ) && timeline_text(r)[k] == ' ' && digits_value(timeline_text(r).subrange(1, k))
                == r.seq,
{
    let t = timeline_text(r);
    let d = decimal_text(r.seq as nat);
    law_decimal_text_reads_back(r.seq as nat);
    reveal_strlit("#");
    reveal_strlit(" t=");
    let pd = padded(d, 4);
    let tail = " t="@ + padded(r.host_time@, 14) + " "@ + padded(r.event@, 22) + " "@ + r.payload@;
    assert(t =~= "#"@ + pd + tail);
    let k: int = d.len() as int + 1;
    assert(pd.subrange(0, d.len() as int) =~= d);
    assert(t.subrange(1, k) =~= d);
    if d.len() < 4 {
        assert(pd[d.len() as int] == ' ');
        assert(t[k] == pd[d.len() as int]);
    } else {
        assert(t[k] == tail[0]);
    }
}

// ---- swarm bookkeeping -------------------------------------------------------------

/// `count_set` counts the flags that are set: it is the length of the flags
/// filtered to the set ones.
pub proof fn law_count_set_counts_true(flags: Seq<bool>)
    ensures
        count_set(flags) == flags.filter(|b: bool| b).len(),
    decreases flags.len(),
{
    reveal_with_fuel(Seq::filter, 1);
    if flags.len() > 0 {
        law_count_set_counts_true(flags.drop_last());
    }
}

/// The members reported dead are the names whose exited flag is set, in
/// order: the names paired with their flags, filtered to the set ones.
pub proof fn law_dead_names_are_the_exited(names: Seq<Seq<char>>, exited: Seq<bool>)
    requires
        names.len() == exited.len(),
    ensures
        dead_names(names, exited) == names.zip_with(exited).filter(
            |p: (Seq<char>, bool)| p.1,
        ).map_values(|p: (Seq<char>, bool)| p.0),
    decreases names.len(),
{
    reveal_with_fuel(Seq::filter, 1);
    let z = names.zip_with(exited);
    if names.len() > 0 {
        law_dead_names_are_the_exited(names.drop_last(), exited.drop_last());
        assert(z.drop_last() =~= names.drop_last().zip_with(exited.drop_last()));
        let f = z.drop_last().filter(|p: (Seq<char>, bool)| p.1);
        assert(z.last() == (names.last(), exited.last()));
        if exited.last() {
            assert(f.push(z.last()).map_values(|p: (Seq<char>, bool)| p.0) =~= f.map_values(
                |p: (Seq<char>, bool)| p.0,
            ).push(names.last()));
        }
    } else {
        assert(z =~= Seq::<(Seq<char>, bool)>::empty());
    }
}

} // verus!
