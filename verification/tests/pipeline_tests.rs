use badge_core::corpus::Corpus;
use badge_core::pipeline::{
    decode_payload, display_poem, encode_payload, ContentRequest, IdleOutcome, Presenter,
    Receiver, Sender, FALLBACK_THRESHOLD_SECS,
};
use badge_core::utils::mac_to_string;

fn chars(s: &str) -> Vec<char> {
    s.chars().collect()
}

#[test]
fn payload_round_trip() {
    let req = ContentRequest { id: 42, source_device: 7 };
    let wire = encode_payload(req);
    assert_eq!(wire, vec![42, 7]);
    assert_eq!(decode_payload(&wire), Some(req));
}

#[test]
fn decode_rejects_wrong_lengths() {
    assert_eq!(decode_payload(&[]), None);
    assert_eq!(decode_payload(&[1]), None);
    assert_eq!(decode_payload(&[1, 2, 3]), None);
}

#[test]
fn received_counts_every_valid_payload() {
    let mut rx = Receiver::new();
    let n = 12;
    for i in 0..n {
        let req = rx.on_payload(&[i as u8, 3]).unwrap();
        assert_eq!(req.id, i as u8);
        assert_eq!(rx.received, i + 1);
    }
    assert_eq!(rx.received, n);
    // A short payload is rejected and not counted.
    assert_eq!(rx.on_payload(&[9]), None);
    assert_eq!(rx.received, n);
}

#[test]
fn sent_counts_every_cycle() {
    let mut tx = Sender::new(5, 10);
    let m = 8;
    for i in 0..m {
        let wire = tx.next_broadcast();
        assert_eq!(wire.len(), 2);
        assert!(wire[0] < 10);
        assert_eq!(wire[1], 5);
        assert_eq!(tx.sent, i + 1);
    }
    assert_eq!(tx.sent, m);
}

#[test]
fn presenter_waits_within_threshold() {
    let mut p = Presenter::new(1, 10, 100);
    let out = p.idle_step(None, 100 + FALLBACK_THRESHOLD_SECS);
    assert_eq!(out, IdleOutcome::KeepWaiting);
    assert_eq!(p.last_received, 100);
}

#[test]
fn presenter_falls_back_after_threshold() {
    let mut p = Presenter::new(1, 10, 100);
    let out = p.idle_step(None, 100 + FALLBACK_THRESHOLD_SECS + 1);
    match out {
        IdleOutcome::ShowFallback(req) => {
            assert!(req.id < 10);
            assert_eq!(req.source_device, 1);
        }
        other => panic!("expected a fallback, got {:?}", other),
    }
    assert_eq!(p.last_received, 100);
}

#[test]
fn inbound_payload_reaches_presenter() {
    let mut rx = Receiver::new();
    let mut p = Presenter::new(1, 10, 0);
    let req = rx.on_payload(&[2, 7]).unwrap();
    assert_eq!(rx.received, 1);
    let out = p.idle_step(Some(req), 4);
    assert_eq!(
        out,
        IdleOutcome::ShowReceived(ContentRequest { id: 2, source_device: 7 })
    );
    assert_eq!(p.last_received, 4);
    // Having just received, a timeout right after keeps waiting.
    assert_eq!(p.idle_step(None, 5), IdleOutcome::KeepWaiting);
}

#[test]
fn malformed_id_displays_clamped_item() {
    let text = chars("i0\n\ni1\n\ni2\n\ni3\n\ni4\n\ni5\n\ni6\n\ni7\n\ni8\n\ni9");
    let corpus = Corpus::new(&text);
    assert_eq!(corpus.len(), 10);
    let req = ContentRequest { id: 250, source_device: 1 };
    assert!(corpus.resolve_id(req.id) < 10);
    let intro = chars("device 1\n");
    let frames = display_poem(&corpus, req, &intro);
    // The clamped item is i9; the full reveal is the intro plus that item.
    assert_eq!(frames.len(), intro.len() + 2);
    let last = frames.last().unwrap();
    assert_eq!(last.buffer, chars("device 1\ni9"));
}

#[test]
fn display_poem_types_intro_then_item() {
    let text = chars("alpha\n\nbeta");
    let corpus = Corpus::new(&text);
    let req = ContentRequest { id: 1, source_device: 7 };
    let intro = chars("device 7\n");
    let frames = display_poem(&corpus, req, &intro);
    assert_eq!(frames.len(), intro.len() + 4);
    assert_eq!(frames.last().unwrap().buffer, chars("device 7\nbeta"));
    assert!(frames.iter().all(|f| !f.cleared));
}

#[test]
fn mac_formats_as_hex_pairs() {
    assert_eq!(mac_to_string(&[0x12, 0x34, 0xab]), "12:34:ab");
    assert_eq!(mac_to_string(&[0xff]), "ff");
    assert_eq!(mac_to_string(&[]), "");
    assert_eq!(mac_to_string(&[0x00, 0x0f]), "00:0f");
}
