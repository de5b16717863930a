//! The tamper-evident evidence log.
//!
//! A log is a sequence of records, one per line.  Record `k` carries `seq == k`,
//! the hash of record `k - 1` (32 zero bytes for the first), its own fields,
//! and its hash: SHA-256 over a length-prefixed encoding of all of these.  The
//! head names the last record's `seq` and hash, signed with the host's Ed25519
//! key.  `check_log` recomputes the chain and reports the first divergence.

use vstd::prelude::*;
use vstd::bytes::*;
use vstd::utf8::*;
use vstd::string::{StrSliceExecFns, StringExecFns};

use crate::crypto::{
    ed25519_accepts, ed25519_key_decodes, ed25519_public_key, ed25519_signature, fill_random,
    key_decodes, public_key_of, sha256, sha256_digest, sign, signature_accepted,
};
use crate::text::{decimal, decimal_text, push_char, push_decimal, trim, trimmed};
use crate::hex::{hex32, hex64, hex_encode, hex_text, unhex_text_n};

verus! {

broadcast use vstd::array::array_len_matches_n;

// ---- data ----------------------------------------------------------------------

/// One line of the log.  Hashes are lower-case hexadecimal.
#[derive(Clone, Debug, PartialEq, Eq)]
pub struct Record {
    pub seq: u64,
    /// Hash of the previous record (hex).
    pub prev_hash: String,
    /// Host clock when the record was made, outside the guest's control.
    pub host_time: String,
    pub event: String,
    pub payload: String,
    /// Hash of this record (hex); recomputed, never trusted, on checking.
    pub hash: String,
}

/// The signed head of the chain: the last record's `seq` and hash, and an
/// Ed25519 signature (hex) over `head_message(seq, hash)`.
#[derive(Clone, Debug, PartialEq, Eq)]
pub struct Head {
    pub seq: u64,
    pub head_hash: String,
    pub sig: String,
}

/// A line of the log file as the reader found it.
#[derive(Clone, Debug, PartialEq, Eq)]
pub enum LogLine {
    /// Whitespace only; skipped.
    Blank,
    /// Not a record.
    Unparseable,
    /// A record.
    Entry(Record),
}

/// Why a log does not check out, or why checking could not start.
#[derive(Clone, Copy, Debug, PartialEq, Eq, Structural)]
pub enum VerifyError {
    /// The log has no public key beside it.
    NoPublicKey,
    /// The public key text is not 32 bytes of hex.
    MalformedPublicKey,
    /// The public key is not a point of the curve.
    InvalidPublicKey,
    /// The log has no signed head.
    NoHead,
    /// Line `line` (counted from 1) is not a record.
    Unparseable { line: usize },
    /// Line `line` holds record `seq` where record `expected` was due.
    SeqMismatch { line: usize, seq: u64, expected: u64 },
    /// A record's `prev_hash` is not 32 bytes of hex.
    MalformedPrevHash,
    /// Record `seq` does not name the hash of the record before it.
    PrevHashBreak { seq: u64 },
    /// Record `seq`'s stored hash is not the hash of its contents.
    HashMismatch { seq: u64 },
    /// The head names record `head_seq`, but the log holds `count` records.
    Truncated { head_seq: u64, count: u64 },
    /// The head's hash is not 32 bytes of hex.
    MalformedHeadHash,
    /// The head's hash is not the hash of the last record.
    HeadMismatch,
    /// The head's signature is not 64 bytes of hex.
    MalformedSignature,
    /// The head's signature does not verify.
    ForgedHead,
}

/// Why a record could not be appended.
#[derive(Clone, Copy, Debug, PartialEq, Eq, Structural)]
pub enum RecordError {
    /// The signed head's hash is not 32 bytes of hex.
    MalformedHead,
}

/// Why the host key could not be had.
#[derive(Clone, Copy, Debug, PartialEq, Eq, Structural)]
pub enum KeyError {
    /// The key file does not hold exactly 32 bytes.
    CorruptKeyFile,
    /// The system's random source failed.
    RngFailed,
}

// ---- hashing -------------------------------------------------------------------

/// The hash the first record links to.
pub open spec fn genesis() -> Seq<u8> {
    Seq::new(32, |i: int| 0u8)
}

/// `SENECAv1`, the domain tag in front of every record's encoding.
pub open spec fn domain_tag() -> Seq<u8> {
    seq![83u8, 69u8, 78u8, 69u8, 67u8, 65u8, 118u8, 49u8]
}

/// A field: its length (8 bytes, little-endian), then its bytes.
pub open spec fn framed(b: Seq<u8>) -> Seq<u8> {
    spec_u64_to_le_bytes(b.len() as u64) + b
}

/// The bytes a record's hash is taken over.
pub open spec fn record_preimage(
    seq: u64,
    prev: Seq<u8>,
    host_time: Seq<char>,
    event: Seq<char>,
    payload: Seq<char>,
) -> Seq<u8> {
    domain_tag() + spec_u64_to_le_bytes(seq) + prev + framed(encode_utf8(host_time)) + framed(
        encode_utf8(event),
    ) + framed(encode_utf8(payload))
}

/// A record's hash.
pub open spec fn record_digest(
    seq: u64,
    prev: Seq<u8>,
    host_time: Seq<char>,
    event: Seq<char>,
    payload: Seq<char>,
) -> Seq<u8> {
    sha256(record_preimage(seq, prev, host_time, event, payload))
}

/// The message the head's signature is over.
pub open spec fn head_message(seq: u64, hash: Seq<u8>) -> Seq<u8> {
    spec_u64_to_le_bytes(seq) + hash
}

fn genesis_hash() -> (g: [u8; 32])
    ensures
        g@ == genesis(),
{
    let mut g = [0u8; 32];
    for i in 0..32
        invariant
            forall|j: int| 0 <= j < i ==> g@[j] == 0u8,
    {
        g[i] = 0;
    }
    assert(g@ =~= genesis());
    g
}

fn append_bytes(v: &mut Vec<u8>, b: &[u8])
    ensures
        final(v)@ == old(v)@ + b@,
{
    let n = b.len();
    for i in 0..n
        invariant
            n == b@.len(),
            v@ == old(v)@ + b@.take(i as int),
    {
        v.push(b[i]);
        assert(v@ =~= old(v)@ + b@.take(i + 1));
    }
    assert(b@.take(n as int) =~= b@);
}

fn append_field(v: &mut Vec<u8>, f: &str)
    ensures
        final(v)@ == old(v)@ + framed(encode_utf8(f@)),
{
    let b = f.as_bytes();
    let len = u64_to_le_bytes(b.len() as u64);
    append_bytes(v, len.as_slice());
    append_bytes(v, b);
    assert(v@ =~= old(v)@ + framed(encode_utf8(f@)));
}

/// Length-prefixed canonical hash of a record, the same whatever its fields
/// hold: SHA-256 of `record_preimage`.
pub fn record_hash(seq: u64, prev: &[u8; 32], host_time: &str, event: &str, payload: &str) -> (h:
    [u8; 32])
    ensures
        h@ == record_digest(seq, prev@, host_time@, event@, payload@),
{
    let mut m: Vec<u8> = Vec::new();
    m.push(83);
    m.push(69);
    m.push(78);
    m.push(69);
    m.push(67);
    m.push(65);
    m.push(118);
    m.push(49);
    assert(m@ =~= domain_tag());
    let s = u64_to_le_bytes(seq);
    append_bytes(&mut m, s.as_slice());
    append_bytes(&mut m, prev);
    append_field(&mut m, host_time);
    append_field(&mut m, event);
    append_field(&mut m, payload);
    assert(m@ =~= record_preimage(seq, prev@, host_time@, event@, payload@));
    sha256_digest(m.as_slice())
}

/// The message the head signature covers: `seq` (little-endian) then the hash.
pub fn head_msg(seq: u64, hash: &[u8; 32]) -> (m: Vec<u8>)
    ensures
        m@ == head_message(seq, hash@),
{
    let mut m = u64_to_le_bytes(seq);
    append_bytes(&mut m, hash);
    m
}

fn bytes_eq(a: &[u8], b: &[u8]) -> (r: bool)
    ensures
        r == (a@ == b@),
{
    if a.len() != b.len() {
        return false;
    }
    let n = a.len();
    for i in 0..n
        invariant
            n == a@.len(),
            n == b@.len(),
            forall|j: int| 0 <= j < i ==> a@[j] == b@[j],
    {
        if a[i] != b[i] {
            return false;
        }
    }
    assert(a@ =~= b@);
    true
}

// ---- appending -----------------------------------------------------------------

/// Where the next record goes: its `seq` and the hash it links to.
pub open spec fn next_link(head: Option<Head>) -> Result<(u64, Seq<u8>), RecordError> {
    match head {
        None => Ok((0u64, genesis())),
        Some(h) => match unhex_text_n(h.head_hash@, 32) {
            None => Err(RecordError::MalformedHead),
            Some(p) => Ok(((h.seq + 1) as u64, p)),
        },
    }
}

/// Appending is defined on this head: one past its `seq` can be counted
/// whenever its hash decodes.
pub open spec fn appendable(head: Option<Head>) -> bool {
    head matches Some(h) ==> (unhex_text_n(h.head_hash@, 32) is Some ==> h.seq < u64::MAX)
}

/// `r` is the record at position `seq`, linking to `prev`, with these fields.
pub open spec fn is_record(
    r: Record,
    seq: u64,
    prev: Seq<u8>,
    host_time: Seq<char>,
    event: Seq<char>,
    payload: Seq<char>,
) -> bool {
    &&& r.seq == seq
    &&& r.prev_hash@ == hex_text(prev)
    &&& r.host_time@ == host_time
    &&& r.event@ == event
    &&& r.payload@ == payload
    &&& r.hash@ == hex_text(record_digest(seq, prev, host_time, event, payload))
}

/// `h` is the head for record `seq` with hash `hash`, signed with `seed`.
pub open spec fn is_signed_head(h: Head, seed: Seq<u8>, seq: u64, hash: Seq<u8>) -> bool {
    &&& h.seq == seq
    &&& h.head_hash@ == hex_text(hash)
    &&& h.sig@ == hex_text(ed25519_signature(seed, head_message(seq, hash)))
}

/// `rec` and `new_head` are what appending `(host_time, event, payload)` to a
/// log with head `head` gives, signed with `seed`; the new head's signature
/// verifies under the seed's public key.
pub open spec fn appended(
    head: Option<Head>,
    seed: Seq<u8>,
    host_time: Seq<char>,
    event: Seq<char>,
    payload: Seq<char>,
    rec: Record,
    new_head: Head,
) -> bool {
    next_link(head) matches Ok((seq, prev)) && {
        let h = record_digest(seq, prev, host_time, event, payload);
        let m = head_message(seq, h);
        &&& is_record(rec, seq, prev, host_time, event, payload)
        &&& is_signed_head(new_head, seed, seq, h)
        &&& h.len() == 32
        &&& ed25519_signature(seed, m).len() == 64
        &&& ed25519_accepts(ed25519_public_key(seed), m, ed25519_signature(seed, m))
    }
}

/// A new record with its hash: the record at `seq`, linking to `prev`.
pub fn new_record(seq: u64, prev: &[u8; 32], host_time: String, event: &str, payload: &str) -> (r: (
    Record,
    [u8; 32],
))
    ensures
        is_record(r.0, seq, prev@, host_time@, event@, payload@),
        r.1@ == record_digest(seq, prev@, host_time@, event@, payload@),
        r.1@.len() == 32,
{
    let hash = record_hash(seq, prev, host_time.as_str(), event, payload);
    let rec = Record {
        seq,
        prev_hash: hex_encode(prev),
        host_time,
        event: event.to_owned(),
        payload: payload.to_owned(),
        hash: hex_encode(&hash),
    };
    (rec, hash)
}

/// Signs the chain head `(seq, hash)` with the host key `seed`.  The signature
/// verifies under the key's public half.
pub fn sign_head(seed: &[u8; 32], seq: u64, hash: &[u8; 32]) -> (h: Head)
    ensures
        is_signed_head(h, seed@, seq, hash@),
        ed25519_signature(seed@, head_message(seq, hash@)).len() == 64,
        ed25519_accepts(
            ed25519_public_key(seed@),
            head_message(seq, hash@),
            ed25519_signature(seed@, head_message(seq, hash@)),
        ),
{
    let m = head_msg(seq, hash);
    let sig = sign(seed, m.as_slice());
    Head { seq, head_hash: hex_encode(hash), sig: hex_encode(&sig) }
}

/// Appends one event: the record that follows `head` (or the first record,
/// when there is no head yet) and the new head, signed with `seed`.  Fails
/// only when the head's hash is not 32 bytes of hex.
pub fn next_record(
    head: &Option<Head>,
    seed: &[u8; 32],
    host_time: String,
    event: &str,
    payload: &str,
) -> (r: Result<(Record, Head), RecordError>)
    requires
        appendable(*head),
    ensures
        next_link(*head) matches Err(e) ==> r == Err::<(Record, Head), RecordError>(e),
        next_link(*head) is Ok ==> (r matches Ok((rec, nh)) && appended(
            *head,
            seed@,
            host_time@,
            event@,
            payload@,
            rec,
            nh,
        )),
{
    let (seq, prev) = match head {
        None => (0u64, genesis_hash()),
        Some(h) => match hex32(h.head_hash.as_str()) {
            None => {
                return Err(RecordError::MalformedHead);
            },
            Some(p) => (h.seq + 1, p),
        },
    };
    let (rec, hash) = new_record(seq, &prev, host_time, event, payload);
    let nh = sign_head(seed, seq, &hash);
    Ok((rec, nh))
}


// ---- checking ------------------------------------------------------------------

/// Scanning lines `i..` of a log, the last hash being `prev` and `count`
/// records having been checked: the final `(last hash, count)`, or the first
/// divergence.
pub open spec fn scan_from(lines: Seq<LogLine>, i: nat, prev: Seq<u8>, count: nat) -> Result<
    (Seq<u8>, nat),
    VerifyError,
>
    decreases lines.len() - i,
{
    if i >= lines.len() {
        Ok((prev, count))
    } else {
        match lines[i as int] {
            LogLine::Blank => scan_from(lines, i + 1, prev, count),
            LogLine::Unparseable => Err(VerifyError::Unparseable { line: (i + 1) as usize }),
            LogLine::Entry(r) => if r.seq != count {
                Err(
                    VerifyError::SeqMismatch {
                        line: (i + 1) as usize,
                        seq: r.seq,
                        expected: count as u64,
                    },
                )
            } else {
                match unhex_text_n(r.prev_hash@, 32) {
                    None => Err(VerifyError::MalformedPrevHash),
                    Some(p) => if p != prev {
                        Err(VerifyError::PrevHashBreak { seq: r.seq })
                    } else {
                        let h = record_digest(r.seq, prev, r.host_time@, r.event@, r.payload@);
                        if r.hash@ != hex_text(h) {
                            Err(VerifyError::HashMismatch { seq: r.seq })
                        } else {
                            scan_from(lines, i + 1, h, count + 1)
                        }
                    },
                }
            },
        }
    }
}

/// What checking a log gives: the number of records when the chain is intact,
/// the head names its last record and the head's signature verifies under
/// `public_key`; else the first divergence.  `None` for a head at the largest
/// `seq` over records that show no divergence: one past it cannot be counted.
pub open spec fn verdict(public_key: Seq<u8>, head: Head, lines: Seq<LogLine>) -> Option<
    Result<u64, VerifyError>,
> {
    match scan_from(lines, 0, genesis(), 0) {
        Err(e) => Some(Err(e)),
        Ok((last, n)) => if head.seq == u64::MAX {
            None
        } else if head.seq + 1 != n {
            Some(Err(VerifyError::Truncated { head_seq: head.seq, count: n as u64 }))
        } else {
            match unhex_text_n(head.head_hash@, 32) {
                None => Some(Err(VerifyError::MalformedHeadHash)),
                Some(hh) => if hh != last {
                    Some(Err(VerifyError::HeadMismatch))
                } else {
                    match unhex_text_n(head.sig@, 64) {
                        None => Some(Err(VerifyError::MalformedSignature)),
                        Some(sig) => if ed25519_accepts(
                            public_key,
                            head_message(head.seq, hh),
                            sig,
                        ) {
                            Some(Ok(n as u64))
                        } else {
                            Some(Err(VerifyError::ForgedHead))
                        },
                    }
                },
            }
        }
    }
}

/// The log checks out: `verdict` is a count.
pub open spec fn accepted(public_key: Seq<u8>, head: Head, lines: Seq<LogLine>) -> bool {
    verdict(public_key, head, lines) matches Some(Ok(_))
}

/// The whole check of `check_log`, on every head: `None` for a head at the
/// largest `seq` over records that show no divergence, where one past the
/// head cannot be counted and `check_log` is not defined.
pub fn try_check_log(public_key: &[u8; 32], head: &Head, lines: &Vec<LogLine>) -> (r: Option<
    Result<u64, VerifyError>,
>)
    ensures
        r == verdict(public_key@, *head, lines@),
{
    let mut prev = genesis_hash();
    let mut count: u64 = 0;
    let n = lines.len();
    let mut i: usize = 0;
    while i < n
        invariant
            n == lines@.len(),
            i <= n,
            count <= i,
            prev@.len() == 32,
            scan_from(lines@, 0, genesis(), 0) == scan_from(lines@, i as nat, prev@, count as nat),
        decreases n - i,
    {
        match &lines[i] {
            LogLine::Blank => {},
            LogLine::Unparseable => {
                return Some(Err(VerifyError::Unparseable { line: i + 1 }));
            },
            LogLine::Entry(r) => {
                if r.seq != count {
                    return Some(
                        Err(VerifyError::SeqMismatch { line: i + 1, seq: r.seq, expected: count }),
                    );
                }
                let stored_prev = match hex32(r.prev_hash.as_str()) {
                    Some(p) => p,
                    None => {
                        return Some(Err(VerifyError::MalformedPrevHash));
                    },
                };
                if !bytes_eq(&stored_prev, &prev) {
                    return Some(Err(VerifyError::PrevHashBreak { seq: r.seq }));
                }
                let h = record_hash(
                    r.seq,
                    &prev,
                    r.host_time.as_str(),
                    r.event.as_str(),
                    r.payload.as_str(),
                );
                let text = hex_encode(&h);
                if text != r.hash {
                    return Some(Err(VerifyError::HashMismatch { seq: r.seq }));
                }
                prev = h;
                count = count + 1;
            },
        }
        i = i + 1;
    }
    if head.seq == u64::MAX {
        return None;
    }
    if head.seq + 1 != count {
        return Some(Err(VerifyError::Truncated { head_seq: head.seq, count }));
    }
    let head_hash = match hex32(head.head_hash.as_str()) {
        Some(p) => p,
        None => {
            return Some(Err(VerifyError::MalformedHeadHash));
        },
    };
    if !bytes_eq(&head_hash, &prev) {
        return Some(Err(VerifyError::HeadMismatch));
    }
    let sig = match hex64(head.sig.as_str()) {
        Some(s) => s,
        None => {
            return Some(Err(VerifyError::MalformedSignature));
        },
    };
    let m = head_msg(head.seq, &head_hash);
    if signature_accepted(public_key, m.as_slice(), &sig) {
        Some(Ok(count))
    } else {
        Some(Err(VerifyError::ForgedHead))
    }
}

/// Recomputes the chain of `lines`, checks that `head` names its last record
/// and that the head's signature verifies under `public_key`, and gives the
/// number of records, or the first point of divergence.
pub fn check_log(public_key: &[u8; 32], head: &Head, lines: &Vec<LogLine>) -> (r: Result<
    u64,
    VerifyError,
>)
    requires
        verdict(public_key@, *head, lines@) is Some,
    ensures
        verdict(public_key@, *head, lines@) == Some(r),
{
    match try_check_log(public_key, head, lines) {
        Some(r) => r,
        None => {
            proof {
                assert(false);
            }
            Err(VerifyError::HeadMismatch)
        },
    }
}

// ---- keys ----------------------------------------------------------------------

/// The host key from the bytes of its file: exactly 32 bytes.
pub fn parse_host_key(bytes: &[u8]) -> (r: Result<[u8; 32], KeyError>)
    ensures
        bytes@.len() == 32 <==> r is Ok,
        r matches Ok(k) ==> k@ == bytes@,
        r matches Err(e) ==> e == KeyError::CorruptKeyFile,
{
    if bytes.len() != 32 {
        return Err(KeyError::CorruptKeyFile);
    }
    let mut k = [0u8; 32];
    for i in 0..32
        invariant
            bytes@.len() == 32,
            forall|j: int| 0 <= j < i ==> k@[j] == bytes@[j],
    {
        k[i] = bytes[i];
    }
    assert(k@ =~= bytes@);
    Ok(k)
}

/// A fresh host key from the system's random source.  Whether the source
/// works, and what it gives, is the system's: the only error is `RngFailed`.
pub fn new_host_key() -> (r: Result<[u8; 32], KeyError>)
    ensures
        r matches Err(e) ==> e == KeyError::RngFailed,
{
    let mut seed = [0u8; 32];
    match fill_random(&mut seed) {
        Ok(()) => Ok(seed),
        Err(_) => Err(KeyError::RngFailed),
    }
}

/// The public half of the host key, in hex, as the `.pub` file holds it.
pub fn public_key_hex(seed: &[u8; 32]) -> (s: String)
    ensures
        s@ == hex_text(ed25519_public_key(seed@)),
        ed25519_public_key(seed@).len() == 32,
        ed25519_key_decodes(ed25519_public_key(seed@)),
{
    let pk = public_key_of(seed);
    hex_encode(&pk)
}

/// What reading a public key from the text of its file gives.
pub open spec fn public_key_from(text: Seq<char>) -> Result<Seq<u8>, VerifyError> {
    match unhex_text_n(trimmed(text), 32) {
        None => Err(VerifyError::MalformedPublicKey),
        Some(k) => if ed25519_key_decodes(k) {
            Ok(k)
        } else {
            Err(VerifyError::InvalidPublicKey)
        },
    }
}

/// The public key from the text of its file: 32 bytes of hex, surrounding
/// whitespace ignored, that decompress to a point of the curve.
pub fn parse_public_key(text: &str) -> (r: Result<[u8; 32], VerifyError>)
    ensures
        match r {
            Ok(k) => public_key_from(text@) == Ok::<Seq<u8>, VerifyError>(k@),
            Err(e) => public_key_from(text@) == Err::<Seq<u8>, VerifyError>(e),
        },
{
    let t = trim(text);
    match hex32(t.as_str()) {
        None => Err(VerifyError::MalformedPublicKey),
        Some(k) => if key_decodes(&k) {
            Ok(k)
        } else {
            Err(VerifyError::InvalidPublicKey)
        },
    }
}

// ---- timeline ------------------------------------------------------------------

/// `s` padded with spaces on the right to at least `width` characters, as
/// `{:<width}` formats it.
pub open spec fn padded(s: Seq<char>, width: nat) -> Seq<char> {
    if s.len() >= width {
        s
    } else {
        s + Seq::new((width - s.len()) as nat, |i: int| ' ')
    }
}

fn append_padded(line: &mut String, s: &str, width: usize)
    ensures
        final(line)@ == old(line)@ + padded(s@, width as nat),
{
    append_str(line, s);
    let n = s.unicode_len();
    let mut k = n;
    while k < width
        invariant
            n == s@.len(),
            n <= k,
            n < width ==> k <= width,
            n >= width ==> k == n,
            line@ == old(line)@ + s@ + Seq::new((k - n) as nat, |i: int| ' '),
        decreases width - k,
    {
        push_char(line, ' ');
        k = k + 1;
        assert(line@ =~= old(line)@ + s@ + Seq::new((k - n) as nat, |i: int| ' '));
    }
    if n >= width {
        assert(line@ =~= old(line)@ + s@);
    }
    assert(line@ =~= old(line)@ + padded(s@, width as nat));
}

/// One line of the action history: `#seq t=host_time event payload`, the
/// first three padded to 4, 14 and 22 characters.
pub open spec fn timeline_text(r: Record) -> Seq<char> {
    "#"@ + padded(decimal_text(r.seq as nat), 4) + " t="@ + padded(r.host_time@, 14) + " "@
        + padded(r.event@, 22) + " "@ + r.payload@
}

/// The line of the action history for a record.
pub fn timeline_line(r: &Record) -> (line: String)
    ensures
        line@ == timeline_text(*r),
{
    let mut line = "#".to_owned();
    let seq = decimal(r.seq as u128);
    append_padded(&mut line, seq.as_str(), 4);
    append_str(&mut line, " t=");
    append_padded(&mut line, r.host_time.as_str(), 14);
    append_str(&mut line, " ");
    append_padded(&mut line, r.event.as_str(), 22);
    append_str(&mut line, " ");
    append_str(&mut line, r.payload.as_str());
    line
}

// ---- messages ------------------------------------------------------------------

fn append_str(s: &mut String, t: &str)
    ensures
        final(s)@ == old(s)@ + t@,
{
    s.append(t);
}

fn append_number(s: &mut String, n: u64)
    ensures
        final(s)@ == old(s)@ + decimal_text(n as nat),
{
    push_decimal(s, n as u128);
}

/// The text that reports a `VerifyError`.
pub open spec fn verify_message(e: VerifyError) -> Seq<char> {
    match e {
        VerifyError::NoPublicKey => "no public key for this log"@,
        VerifyError::MalformedPublicKey => "public key file is malformed"@,
        VerifyError::InvalidPublicKey => "public key is invalid"@,
        VerifyError::NoHead => "no signed head — nothing to verify"@,
        VerifyError::Unparseable { line } => "DIVERGENCE at line "@ + decimal_text(line as nat)
            + ": record is not parseable (altered)"@,
        VerifyError::SeqMismatch { line, seq, expected } => "DIVERGENCE at line "@ + decimal_text(
            line as nat,
        ) + ": seq "@ + decimal_text(seq as nat) + " (expected "@ + decimal_text(expected as nat)
            + ") — record inserted or removed"@,
        VerifyError::MalformedPrevHash => "malformed prev_hash"@,
        VerifyError::PrevHashBreak { seq } => "DIVERGENCE at seq "@ + decimal_text(seq as nat)
            + ": prev_hash does not chain"@,
        VerifyError::HashMismatch { seq } => "DIVERGENCE at seq "@ + decimal_text(seq as nat)
            + ": record contents were altered (hash mismatch)"@,
        VerifyError::Truncated { head_seq, count } => "TRUNCATION: signed head is seq "@
            + decimal_text(head_seq as nat) + " but log holds "@ + decimal_text(count as nat)
            + " record(s) — records were dropped"@,
        VerifyError::MalformedHeadHash => "malformed head hash"@,
        VerifyError::HeadMismatch =>
            "DIVERGENCE: signed head does not match the recomputed chain (log altered)"@,
        VerifyError::MalformedSignature => "malformed head signature"@,
        VerifyError::ForgedHead => "signed head signature is INVALID (head was forged)"@,
    }
}

impl VerifyError {
    /// The report for this error.
    pub fn message(&self) -> (s: String)
        ensures
            s@ == verify_message(*self),
    {
        match *self {
            VerifyError::NoPublicKey => "no public key for this log".to_owned(),
            VerifyError::MalformedPublicKey => "public key file is malformed".to_owned(),
            VerifyError::InvalidPublicKey => "public key is invalid".to_owned(),
            VerifyError::NoHead => "no signed head — nothing to verify".to_owned(),
            VerifyError::Unparseable { line } => {
                let mut s = "DIVERGENCE at line ".to_owned();
                append_number(&mut s, line as u64);
                append_str(&mut s, ": record is not parseable (altered)");
                s
            },
            VerifyError::SeqMismatch { line, seq, expected } => {
                let mut s = "DIVERGENCE at line ".to_owned();
                append_number(&mut s, line as u64);
                append_str(&mut s, ": seq ");
                append_number(&mut s, seq);
                append_str(&mut s, " (expected ");
                append_number(&mut s, expected);
                append_str(&mut s, ") — record inserted or removed");
                s
            },
            VerifyError::MalformedPrevHash => "malformed prev_hash".to_owned(),
            VerifyError::PrevHashBreak { seq } => {
                let mut s = "DIVERGENCE at seq ".to_owned();
                append_number(&mut s, seq);
                append_str(&mut s, ": prev_hash does not chain");
                s
            },
            VerifyError::HashMismatch { seq } => {
                let mut s = "DIVERGENCE at seq ".to_owned();
                append_number(&mut s, seq);
                append_str(&mut s, ": record contents were altered (hash mismatch)");
                s
            },
            VerifyError::Truncated { head_seq, count } => {
                let mut s = "TRUNCATION: signed head is seq ".to_owned();
                append_number(&mut s, head_seq);
                append_str(&mut s, " but log holds ");
                append_number(&mut s, count);
                append_str(&mut s, " record(s) — records were dropped");
                s
            },
            VerifyError::MalformedHeadHash => "malformed head hash".to_owned(),
            VerifyError::HeadMismatch => {
                "DIVERGENCE: signed head does not match the recomputed chain (log altered)".to_owned()
            },
            VerifyError::MalformedSignature => "malformed head signature".to_owned(),
            VerifyError::ForgedHead => "signed head signature is INVALID (head was forged)".to_owned(),
        }
    }
}

impl RecordError {
    /// The report for this error.
    pub fn message(&self) -> (s: String)
        ensures
            s@ == "signed head is malformed"@,
    {
        "signed head is malformed".to_owned()
    }
}

impl KeyError {
    /// The report for this error.
    pub fn message(&self) -> (s: String)
        ensures
            s@ == (match *self {
                KeyError::CorruptKeyFile => "host key file is corrupt"@,
                KeyError::RngFailed => "rng failed"@,
            }),
    {
        match *self {
            KeyError::CorruptKeyFile => "host key file is corrupt".to_owned(),
            KeyError::RngFailed => "rng failed".to_owned(),
        }
    }
}

} // verus!
