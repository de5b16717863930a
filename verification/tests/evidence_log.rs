use ed25519_dalek::{Signature, SigningKey, Verifier, VerifyingKey};
use sha2::{Digest, Sha256};

use seneca::evidence::{
    check_log, head_msg, new_host_key, next_record, parse_host_key,
    parse_public_key, public_key_hex, record_hash, sign_head, timeline_line, try_check_log, Head, KeyError,
    LogLine, Record, RecordError, VerifyError,
};
use seneca::hex::{hex32, hex_encode};

const SEED: [u8; 32] = [7u8; 32];

fn public_key(seed: &[u8; 32]) -> [u8; 32] {
    SigningKey::from_bytes(seed).verifying_key().to_bytes()
}

/// Records the events in order, as the host recorder would, and returns the
/// log lines and the final head.
fn build_log(seed: &[u8; 32], events: &[(&str, &str)]) -> (Vec<LogLine>, Head) {
    let mut head: Option<Head> = None;
    let mut lines = Vec::new();
    for (i, (event, payload)) in events.iter().enumerate() {
        let (rec, h) = next_record(&head, seed, format!("{}", 1000 + i), event, payload).unwrap();
        lines.push(LogLine::Entry(rec));
        head = Some(h);
    }
    (lines, head.unwrap())
}

fn entry(lines: &mut Vec<LogLine>, i: usize) -> &mut Record {
    match &mut lines[i] {
        LogLine::Entry(r) => r,
        _ => panic!("not a record"),
    }
}

#[test]
fn tamper_and_truncation_are_detected() {
    let pk = public_key(&SEED);

    // 1. Tampering a record is detected.
    let (mut lines, head) = build_log(
        &SEED,
        &[("session.start", "run-1"), ("egress.DENY", "evil-exfil.net 4096B"), ("session.end", "run-1")],
    );
    assert_eq!(check_log(&pk, &head, &lines), Ok(3)); // intact
    let r = entry(&mut lines, 1);
    r.payload = r.payload.replace("evil-exfil.net", "cdn.example.com");
    assert!(check_log(&pk, &head, &lines).is_err(), "record tampering must be detected");
    assert_eq!(check_log(&pk, &head, &lines), Err(VerifyError::HashMismatch { seq: 1 }));

    // 2. Truncation (dropping the tail) is detected via the signed head.
    let (mut lines2, head2) = build_log(&SEED, &[("a", "1"), ("b", "2")]);
    assert_eq!(check_log(&pk, &head2, &lines2), Ok(2));
    lines2.pop();
    assert!(check_log(&pk, &head2, &lines2).is_err(), "truncation must be detected");
    assert_eq!(
        check_log(&pk, &head2, &lines2),
        Err(VerifyError::Truncated { head_seq: 1, count: 1 })
    );
}

#[test]
fn record_hash_is_sha256_of_the_framed_fields() {
    let prev = [9u8; 32];
    let mut h = Sha256::new();
    h.update(b"SENECAv1");
    h.update(5u64.to_le_bytes());
    h.update(prev);
    for f in ["1700000000000", "tool.call", "search q=\"é\""] {
        h.update((f.len() as u64).to_le_bytes());
        h.update(f.as_bytes());
    }
    let expected: [u8; 32] = h.finalize().into();
    assert_eq!(record_hash(5, &prev, "1700000000000", "tool.call", "search q=\"é\""), expected);
    assert_ne!(record_hash(5, &prev, "ab", "c", ""), record_hash(5, &prev, "a", "bc", ""));
}

#[test]
fn head_message_is_seq_then_hash() {
    let hash = [0xabu8; 32];
    let m = head_msg(0x0102, &hash);
    let mut expected = vec![2u8, 1, 0, 0, 0, 0, 0, 0];
    expected.extend_from_slice(&hash);
    assert_eq!(m, expected);
}

#[test]
fn signed_head_verifies_under_the_public_key() {
    let hash = [3u8; 32];
    let head = sign_head(&SEED, 4, &hash);
    assert_eq!(head.seq, 4);
    assert_eq!(head.head_hash, hex_encode(&hash));
    assert_eq!(head.sig.len(), 128);
    let sig_bytes: Vec<u8> = (0..64)
        .map(|i| u8::from_str_radix(&head.sig[2 * i..2 * i + 2], 16).unwrap())
        .collect();
    let sig = Signature::from_bytes(&sig_bytes.try_into().unwrap());
    let vk = VerifyingKey::from_bytes(&public_key(&SEED)).unwrap();
    assert!(vk.verify(&head_msg(4, &hash), &sig).is_ok());
}

#[test]
fn first_record_links_to_genesis() {
    let (rec, head) = next_record(&None, &SEED, "42".to_string(), "session.start", "agent").unwrap();
    assert_eq!(rec.seq, 0);
    assert_eq!(rec.prev_hash, "0".repeat(64));
    assert_eq!(rec.host_time, "42");
    assert_eq!(rec.event, "session.start");
    assert_eq!(rec.payload, "agent");
    let h = record_hash(0, &[0u8; 32], "42", "session.start", "agent");
    assert_eq!(rec.hash, hex_encode(&h));
    assert_eq!(head.seq, 0);
    assert_eq!(head.head_hash, rec.hash);
}

#[test]
fn next_record_follows_the_head() {
    let (lines, head) = build_log(&SEED, &[("a", "1")]);
    let (rec, new_head) = next_record(&Some(head.clone()), &SEED, "9".to_string(), "b", "2").unwrap();
    assert_eq!(rec.seq, 1);
    assert_eq!(rec.prev_hash, head.head_hash);
    assert_eq!(new_head.seq, 1);
    let mut lines = lines;
    lines.push(LogLine::Entry(rec));
    assert_eq!(check_log(&public_key(&SEED), &new_head, &lines), Ok(2));
}

#[test]
fn malformed_head_refuses_to_append() {
    let bad = Head { seq: 3, head_hash: "xyz".to_string(), sig: String::new() };
    assert_eq!(
        next_record(&Some(bad), &SEED, "1".to_string(), "e", "p"),
        Err(RecordError::MalformedHead)
    );
    assert_eq!(RecordError::MalformedHead.message(), "signed head is malformed");
}

#[test]
fn every_divergence_is_reported() {
    let pk = public_key(&SEED);
    let (lines, head) = build_log(&SEED, &[("a", "1"), ("b", "2"), ("c", "3")]);
    assert_eq!(check_log(&pk, &head, &lines), Ok(3));

    // blank lines are skipped; line numbers still count them
    let mut l = lines.clone();
    l.insert(0, LogLine::Blank);
    assert_eq!(check_log(&pk, &head, &l), Ok(3));
    l.insert(2, LogLine::Unparseable);
    assert_eq!(check_log(&pk, &head, &l), Err(VerifyError::Unparseable { line: 3 }));

    // a removed record: seq out of order
    let mut l = lines.clone();
    l.remove(1);
    assert_eq!(
        check_log(&pk, &head, &l),
        Err(VerifyError::SeqMismatch { line: 2, seq: 2, expected: 1 })
    );

    // an inserted copy
    let mut l = lines.clone();
    let copy = l[1].clone();
    l.insert(1, copy);
    assert_eq!(
        check_log(&pk, &head, &l),
        Err(VerifyError::SeqMismatch { line: 3, seq: 1, expected: 2 })
    );

    let mut l = lines.clone();
    entry(&mut l, 1).prev_hash = "nothex".to_string();
    assert_eq!(check_log(&pk, &head, &l), Err(VerifyError::MalformedPrevHash));

    let mut l = lines.clone();
    entry(&mut l, 1).prev_hash = "11".repeat(32);
    assert_eq!(check_log(&pk, &head, &l), Err(VerifyError::PrevHashBreak { seq: 1 }));

    // the prev hash may be spelt in upper case
    let mut l = lines.clone();
    let upper = entry(&mut l, 1).prev_hash.to_uppercase();
    entry(&mut l, 1).prev_hash = upper;
    assert_eq!(check_log(&pk, &head, &l), Ok(3));

    let mut l = lines.clone();
    entry(&mut l, 2).event = "c!".to_string();
    assert_eq!(check_log(&pk, &head, &l), Err(VerifyError::HashMismatch { seq: 2 }));

    let h = Head { head_hash: "zz".to_string(), ..head.clone() };
    assert_eq!(check_log(&pk, &h, &lines), Err(VerifyError::MalformedHeadHash));

    let h = Head { head_hash: "00".repeat(32), ..head.clone() };
    assert_eq!(check_log(&pk, &h, &lines), Err(VerifyError::HeadMismatch));

    let h = Head { sig: "00".repeat(10), ..head.clone() };
    assert_eq!(check_log(&pk, &h, &lines), Err(VerifyError::MalformedSignature));

    // a head signed by another key: the guest cannot re-sign
    let forged = sign_head(&[8u8; 32], head.seq, &hex32(&head.head_hash).unwrap());
    assert_eq!(check_log(&pk, &forged, &lines), Err(VerifyError::ForgedHead));

    let h = Head { seq: 7, ..head.clone() };
    assert_eq!(check_log(&pk, &h, &lines), Err(VerifyError::Truncated { head_seq: 7, count: 3 }));
}

#[test]
fn guest_text_in_hex_fields_is_reported() {
    let pk = public_key(&SEED);
    let (mut lines, head) = build_log(&SEED, &[("a", "1"), ("b", "2")]);
    assert_eq!(try_check_log(&pk, &head, &lines), Some(Ok(2)));
    entry(&mut lines, 1).prev_hash = "aéb".to_string();
    assert_eq!(check_log(&pk, &head, &lines), Err(VerifyError::MalformedPrevHash));
    let mut one = vec![LogLine::Entry(Record {
        seq: 0,
        prev_hash: "aéb".to_string(),
        host_time: "0".to_string(),
        event: "a".to_string(),
        payload: "1".to_string(),
        hash: "00".to_string(),
    })];
    assert_eq!(check_log(&pk, &head, &one), Err(VerifyError::MalformedPrevHash));
    entry(&mut one, 0).prev_hash = format!("+{}", "0".repeat(63));
    assert_eq!(check_log(&pk, &head, &one), Err(VerifyError::MalformedPrevHash));
    let (lines, head) = build_log(&SEED, &[("a", "1"), ("b", "2")]);
    let h = Head { head_hash: "é".repeat(32), ..head.clone() };
    assert_eq!(check_log(&pk, &h, &lines), Err(VerifyError::MalformedHeadHash));
    let h = Head { sig: "é".repeat(64), ..head.clone() };
    assert_eq!(check_log(&pk, &h, &lines), Err(VerifyError::MalformedSignature));
}

#[test]
fn a_head_at_the_largest_seq_is_not_counted_past() {
    let pk = public_key(&SEED);
    let (lines, head) = build_log(&SEED, &[("a", "1")]);
    let h = Head { seq: u64::MAX, ..head.clone() };
    assert_eq!(try_check_log(&pk, &h, &lines), None);
    // a divergence in the records is still reported first
    let bad = vec![LogLine::Unparseable];
    assert_eq!(try_check_log(&pk, &h, &bad), Some(Err(VerifyError::Unparseable { line: 1 })));
}

#[test]
fn error_messages() {
    assert_eq!(
        VerifyError::Truncated { head_seq: 1, count: 1 }.message(),
        "TRUNCATION: signed head is seq 1 but log holds 1 record(s) — records were dropped"
    );
    assert_eq!(
        VerifyError::SeqMismatch { line: 12, seq: 3, expected: 2 }.message(),
        "DIVERGENCE at line 12: seq 3 (expected 2) — record inserted or removed"
    );
    assert_eq!(
        VerifyError::HashMismatch { seq: 3 }.message(),
        "DIVERGENCE at seq 3: record contents were altered (hash mismatch)"
    );
    assert_eq!(
        VerifyError::Unparseable { line: 4 }.message(),
        "DIVERGENCE at line 4: record is not parseable (altered)"
    );
    assert_eq!(VerifyError::PrevHashBreak { seq: 0 }.message(), "DIVERGENCE at seq 0: prev_hash does not chain");
    assert_eq!(VerifyError::NoHead.message(), "no signed head — nothing to verify");
    assert_eq!(VerifyError::NoPublicKey.message(), "no public key for this log");
    assert_eq!(VerifyError::MalformedPrevHash.message(), "malformed prev_hash");
    assert_eq!(VerifyError::MalformedHeadHash.message(), "malformed head hash");
    assert_eq!(VerifyError::MalformedSignature.message(), "malformed head signature");
    assert_eq!(
        VerifyError::HeadMismatch.message(),
        "DIVERGENCE: signed head does not match the recomputed chain (log altered)"
    );
    assert_eq!(VerifyError::ForgedHead.message(), "signed head signature is INVALID (head was forged)");
    assert_eq!(VerifyError::MalformedPublicKey.message(), "public key file is malformed");
    assert_eq!(VerifyError::InvalidPublicKey.message(), "public key is invalid");
    assert_eq!(KeyError::CorruptKeyFile.message(), "host key file is corrupt");
    assert_eq!(KeyError::RngFailed.message(), "rng failed");
}

#[test]
fn host_key_file() {
    assert_eq!(parse_host_key(&[1u8; 31]), Err(KeyError::CorruptKeyFile));
    assert_eq!(parse_host_key(&[1u8; 33]), Err(KeyError::CorruptKeyFile));
    assert_eq!(parse_host_key(&[1u8; 32]), Ok([1u8; 32]));
    let k = new_host_key().unwrap();
    assert_eq!(k.len(), 32);
}

#[test]
fn public_key_file_round_trip() {
    let text = public_key_hex(&SEED);
    assert_eq!(text, hex_encode(&public_key(&SEED)));
    assert_eq!(parse_public_key(&text), Ok(public_key(&SEED)));
    assert_eq!(parse_public_key(&format!("  {}\n", text)), Ok(public_key(&SEED)));
    assert_eq!(parse_public_key("abcd"), Err(VerifyError::MalformedPublicKey));
    // 32 bytes that are not a point of the curve
    let mut bad = None;
    for b in 0u8..=255 {
        let mut cand = [0u8; 32];
        cand[0] = b;
        cand[1] = 0x5a;
        if VerifyingKey::from_bytes(&cand).is_err() {
            bad = Some(cand);
            break;
        }
    }
    let bad = bad.expect("some candidate is not a point");
    assert_eq!(parse_public_key(&hex_encode(&bad)), Err(VerifyError::InvalidPublicKey));
}

#[test]
fn timeline_line_pads_like_format() {
    let (lines, _) = build_log(&SEED, &[("session.start", "agent run-7")]);
    let r = match &lines[0] {
        LogLine::Entry(r) => r,
        _ => unreachable!(),
    };
    assert_eq!(
        timeline_line(r),
        format!("#{:<4} t={:<14} {:<22} {}", r.seq, r.host_time, r.event, r.payload)
    );
    assert_eq!(timeline_line(r), "#0    t=1000           session.start          agent run-7");
    let long = Record {
        seq: 123456,
        prev_hash: String::new(),
        host_time: "é".repeat(20),
        event: "x".repeat(30),
        payload: "p".to_string(),
        hash: String::new(),
    };
    assert_eq!(
        timeline_line(&long),
        format!("#{:<4} t={:<14} {:<22} {}", long.seq, long.host_time, long.event, long.payload)
    );
}

#[test]
fn first_record_after_blank_lines_checks_out() {
    let (rec, head) = next_record(&None, &SEED, "5".to_string(), "boot", "ok").unwrap();
    let lines = vec![LogLine::Blank, LogLine::Blank, LogLine::Entry(rec)];
    assert_eq!(check_log(&public_key(&SEED), &head, &lines), Ok(1));
}

#[test]
fn an_edit_of_any_field_is_pinpointed() {
    let pk = public_key(&SEED);
    let (lines, head) = build_log(&SEED, &[("a", "1"), ("b", "2"), ("c", "3"), ("d", "4")]);
    let mut l = lines.clone();
    entry(&mut l, 2).host_time = "1".to_string();
    assert_eq!(check_log(&pk, &head, &l), Err(VerifyError::HashMismatch { seq: 2 }));
    let mut l = lines.clone();
    entry(&mut l, 0).event = "a.".to_string();
    assert_eq!(check_log(&pk, &head, &l), Err(VerifyError::HashMismatch { seq: 0 }));
    let mut l = lines.clone();
    entry(&mut l, 3).payload = String::new();
    assert_eq!(check_log(&pk, &head, &l), Err(VerifyError::HashMismatch { seq: 3 }));
}

#[test]
fn a_rewritten_chain_does_not_match_the_signed_head() {
    let pk = public_key(&SEED);
    let (_, head) = build_log(&SEED, &[("session.start", "run-1"), ("egress.DENY", "evil.net")]);
    // the guest rebuilds a consistent chain of as many records, without the key
    let (forged, _) = build_log(&[9u8; 32], &[("session.start", "run-1"), ("egress.allow", "cdn")]);
    assert_eq!(check_log(&pk, &head, &forged), Err(VerifyError::HeadMismatch));
}

#[test]
fn deletions_and_insertions_are_pinpointed() {
    let pk = public_key(&SEED);
    let (lines, head) = build_log(&SEED, &[("a", "1"), ("b", "2"), ("c", "3")]);

    // a deleted record, with a blank line before the next one
    let mut l = lines.clone();
    l.insert(2, LogLine::Blank);
    l.remove(1);
    assert_eq!(
        check_log(&pk, &head, &l),
        Err(VerifyError::SeqMismatch { line: 3, seq: 2, expected: 1 })
    );

    // an inserted record out of order
    let mut l = lines.clone();
    let mut x = match &lines[0] {
        LogLine::Entry(r) => r.clone(),
        _ => unreachable!(),
    };
    x.seq = 7;
    l.insert(1, LogLine::Entry(x.clone()));
    assert_eq!(
        check_log(&pk, &head, &l),
        Err(VerifyError::SeqMismatch { line: 2, seq: 7, expected: 1 })
    );

    // an inserted record in order that does not link
    let mut l = lines.clone();
    x.seq = 1;
    l.insert(1, LogLine::Entry(x.clone()));
    assert_eq!(check_log(&pk, &head, &l), Err(VerifyError::PrevHashBreak { seq: 1 }));

    // an inserted record that links but whose hash does not hold
    let mut l = lines.clone();
    let mut y = match &lines[1] {
        LogLine::Entry(r) => r.clone(),
        _ => unreachable!(),
    };
    y.payload = "forged".to_string();
    l.insert(1, LogLine::Entry(y));
    assert_eq!(check_log(&pk, &head, &l), Err(VerifyError::HashMismatch { seq: 1 }));
}
