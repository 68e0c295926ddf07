use anytls::frame::CMD_WASTE;
use anytls::padding::PlanEntry;
use anytls::shaping::padded_chunks;

fn wire_of(chunks: &[Vec<u8>]) -> Vec<u8> {
    let mut all = Vec::new();
    for c in chunks {
        all.extend_from_slice(c);
    }
    all
}

#[test]
fn shaping_slices_long_payload() {
    let data = vec![7u8; 40];
    let plan = vec![PlanEntry::Size(30)];
    let chunks = padded_chunks(&data, &plan);
    assert_eq!(chunks.len(), 2);
    assert_eq!(chunks[0].len(), 30);
    assert_eq!(chunks[1].len(), 10);
    assert_eq!(wire_of(&chunks), data);
}

#[test]
fn shaping_pads_short_payload_to_step_size() {
    let data = vec![9u8; 10];
    let plan = vec![PlanEntry::Size(30)];
    let chunks = padded_chunks(&data, &plan);
    assert_eq!(chunks.len(), 1);
    let c = &chunks[0];
    // Exactly the step size: payload, then a WASTE frame of 13 padding bytes.
    assert_eq!(c.len(), 30);
    assert_eq!(&c[..10], &data[..]);
    assert_eq!(c[10], CMD_WASTE);
    assert_eq!(&c[11..15], &[0, 0, 0, 0]);
    assert_eq!(&c[15..17], &[0, 13]);
}

#[test]
fn shaping_emits_waste_only_step_without_payload() {
    let data: Vec<u8> = Vec::new();
    let plan = vec![PlanEntry::Size(30)];
    let chunks = padded_chunks(&data, &plan);
    assert_eq!(chunks.len(), 1);
    let c = &chunks[0];
    assert_eq!(c.len(), 30);
    assert_eq!(c[0], CMD_WASTE);
    assert_eq!(&c[5..7], &[0, 23]);
}

#[test]
fn shaping_check_mark_stops_without_payload() {
    let data: Vec<u8> = Vec::new();
    let plan = vec![PlanEntry::Check, PlanEntry::Size(30)];
    let chunks = padded_chunks(&data, &plan);
    assert!(chunks.is_empty());
}

#[test]
fn shaping_check_mark_continues_with_payload() {
    let data = vec![1u8; 50];
    let plan = vec![PlanEntry::Size(20), PlanEntry::Check, PlanEntry::Size(40)];
    let chunks = padded_chunks(&data, &plan);
    // 20 payload bytes, then the remaining 30 padded up to 40.
    assert_eq!(chunks.len(), 2);
    assert_eq!(chunks[0].len(), 20);
    assert_eq!(chunks[1].len(), 40);
    let all = wire_of(&chunks);
    assert_eq!(&all[..50], &data[..]);
}

#[test]
fn shaping_payload_after_plan_goes_raw() {
    let data = vec![2u8; 100];
    let plan = vec![PlanEntry::Size(30), PlanEntry::Size(30)];
    let chunks = padded_chunks(&data, &plan);
    assert_eq!(chunks.len(), 3);
    assert_eq!(chunks[0].len(), 30);
    assert_eq!(chunks[1].len(), 30);
    assert_eq!(chunks[2].len(), 40);
    assert_eq!(wire_of(&chunks), data);
}

#[test]
fn shaping_tight_step_skips_padding() {
    // 28 bytes left on a 30-byte step: no room for a 7-byte WASTE header,
    // the payload goes out as it stands.
    let data = vec![3u8; 28];
    let plan = vec![PlanEntry::Size(30)];
    let chunks = padded_chunks(&data, &plan);
    assert_eq!(chunks.len(), 1);
    assert_eq!(chunks[0], data);
}
