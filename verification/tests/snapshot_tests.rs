use base64::Engine as _;
use bozz_torio::sim::{Game, Kind};
use bozz_torio::snapshot::{
    accept_state_part, check_envelope, check_packet_size, expire_assembly, read_state,
    settle_assembly, split_snapshot, state_parts, validate_world, Assembly, SnapshotError, MAX_PACKET,
};
use bozz_torio::sim::{HEIGHT, WIDTH};
use bozz_torio::snapshot::PROTOCOL;
use serde_json::Value;
use std::io::{Read, Write};

fn payload(len: usize, seed: u64) -> Vec<u8> {
    let mut state = seed;
    let mut text = Vec::with_capacity(len);
    for _ in 0..len {
        state = state.wrapping_mul(6364136223846793005).wrapping_add(1442695040888963407);
        text.push(b'a' + ((state >> 33) % 26) as u8);
    }
    text
}

fn deflate(data: &[u8]) -> Vec<u8> {
    let mut e = flate2::write::ZlibEncoder::new(Vec::new(), flate2::Compression::fast());
    e.write_all(data).unwrap();
    e.finish().unwrap()
}

#[test]
fn snapshot_parts_round_trip_in_any_order() {
    let json = payload(40_000, 3);
    let parts = state_parts(7, &json).unwrap();
    assert!(parts.len() > 1);
    for (i, part) in parts.iter().enumerate() {
        assert_eq!(part.index as usize, i);
        assert_eq!(part.count as usize, parts.len());
        assert_eq!(part.revision, 7);
        assert!(part.data.len() <= 10924);
    }
    let mut assembly = None;
    let mut published = None;
    for part in parts.iter().rev() {
        let result =
            accept_state_part(&mut assembly, 0, 7, part.index, part.count, &part.data, 100).unwrap();
        if let Some(bytes) = result {
            assert!(published.is_none());
            published = Some(bytes);
        }
    }
    assert_eq!(published.unwrap(), json);
    assert!(assembly.as_ref().unwrap().chunks.iter().all(|c| c.is_some()));
    assert_eq!(settle_assembly(&mut assembly, &Game::new()), Ok(()));
    assert!(assembly.is_none());
}

#[test]
fn an_invalid_published_factory_keeps_its_assembly() {
    let json = payload(20_000, 5);
    let parts = state_parts(6, &json).unwrap();
    let mut assembly = None;
    let mut published = None;
    for part in &parts {
        if let Some(bytes) =
            accept_state_part(&mut assembly, 0, 6, part.index, part.count, &part.data, 1).unwrap()
        {
            published = Some(bytes);
        }
    }
    assert_eq!(published.unwrap(), json);
    let mut bad = Game::new();
    bad.first_order_amount = 0;
    assert_eq!(settle_assembly(&mut assembly, &bad), Err(SnapshotError::InvalidContract));
    assert_eq!(assembly.as_ref().unwrap().revision, 6);
    let again = &parts[0];
    assert!(accept_state_part(&mut assembly, 0, 6, again.index, again.count, &again.data, 2)
        .unwrap()
        .is_none());
    assert_eq!(settle_assembly(&mut assembly, &Game::new()), Ok(()));
    assert!(assembly.is_none());
}

#[test]
fn partial_snapshots_are_never_published_and_expire() {
    let older = state_parts(4, &payload(30_000, 1)).unwrap();
    let parts = state_parts(5, &payload(30_000, 2)).unwrap();
    assert!(parts.len() > 1);
    let mut assembly: Option<Assembly> = None;
    for part in parts.iter().skip(1) {
        let r = accept_state_part(&mut assembly, 0, 5, part.index, part.count, &part.data, 10).unwrap();
        assert!(r.is_none());
    }
    let again = &parts[1];
    assert!(accept_state_part(&mut assembly, 0, 5, again.index, again.count, &again.data, 10)
        .unwrap()
        .is_none());
    let old = &older[0];
    assert!(accept_state_part(&mut assembly, 0, 4, old.index, old.count, &old.data, 10)
        .unwrap()
        .is_none());
    assert_eq!(assembly.as_ref().unwrap().revision, 5);
    assert!(!expire_assembly(&mut assembly, 15_000_000_010, 15_000_000_000));
    assert!(expire_assembly(&mut assembly, 16_000_000_010, 15_000_000_000));
    assert!(assembly.is_none());
    let mut published = false;
    for part in parts.iter().rev() {
        let r = accept_state_part(&mut assembly, 0, 5, part.index, part.count, &part.data, 17).unwrap();
        assert_eq!(r.is_some(), part.index == 0);
        published |= r.is_some();
    }
    assert!(published);
    assert_eq!(settle_assembly(&mut assembly, &Game::new()), Ok(()));
    let stale = &parts[0];
    assert!(accept_state_part(&mut assembly, 5, 5, stale.index, stale.count, &stale.data, 18)
        .unwrap()
        .is_none());
    assert!(assembly.is_none());
}

#[test]
fn malformed_and_conflicting_parts_are_refused() {
    let parts = state_parts(3, &payload(20_000, 9)).unwrap();
    let mut assembly = None;
    let first = &parts[0];
    assert!(accept_state_part(&mut assembly, 0, 3, first.index, first.count, &first.data, 0)
        .unwrap()
        .is_none());
    let conflict = base64::engine::general_purpose::STANDARD.encode(b"conflict");
    assert_eq!(
        accept_state_part(&mut assembly, 0, 3, first.index, first.count, &conflict, 0).err(),
        Some(SnapshotError::ConflictingDuplicate)
    );
    let mut fresh = None;
    let bad = base64::engine::general_purpose::STANDARD.encode(b"invalid zlib");
    let refused = accept_state_part(&mut fresh, 0, 4, 0, 1, &bad, 0).err().unwrap();
    assert!(matches!(refused, SnapshotError::BadCompression(_)));
    let mut out = Vec::new();
    let zlib_error = flate2::read::ZlibDecoder::new(&b"invalid zlib"[..]).read_to_end(&mut out).unwrap_err();
    assert_eq!(refused.message(), zlib_error.to_string());
    assert_eq!(
        accept_state_part(&mut fresh, 0, 9, 2, 2, "AAAA", 0).err(),
        Some(SnapshotError::InvalidPart)
    );
    assert_eq!(
        accept_state_part(&mut fresh, 0, 9, 0, 0, "AAAA", 0).err(),
        Some(SnapshotError::InvalidPart)
    );
    for text in ["not base64!", "AAA", "AB==", "AA=A", "A\u{e9}AA"] {
        let refused = accept_state_part(&mut fresh, 0, 9, 0, 1, text, 0).err().unwrap();
        assert!(matches!(refused, SnapshotError::BadEncoding(_)), "{text}");
        let decode_error = base64::engine::general_purpose::STANDARD.decode(text).unwrap_err();
        assert_eq!(refused.message(), decode_error.to_string(), "{text}");
    }
    let long = "A".repeat(10928);
    assert_eq!(
        accept_state_part(&mut fresh, 0, 9, 0, 1, &long, 0).err(),
        Some(SnapshotError::OversizedPart)
    );
    assert_eq!(SnapshotError::ConflictingDuplicate.message(), "conflicting duplicate snapshot part");
}

#[test]
fn part_count_changes_are_refused() {
    let mut assembly = None;
    let one = base64::engine::general_purpose::STANDARD.encode(b"xy");
    assert!(accept_state_part(&mut assembly, 0, 6, 0, 3, &one, 0).unwrap().is_none());
    assert_eq!(
        accept_state_part(&mut assembly, 0, 6, 1, 2, &one, 0).err(),
        Some(SnapshotError::CountChanged)
    );
}

#[test]
fn reading_state_needs_every_part_within_bounds() {
    let json = payload(5_000, 4);
    let compressed = deflate(&json);
    assert_eq!(read_state(&[Some(compressed.clone())]).unwrap(), json);
    assert_eq!(
        read_state(&[Some(compressed.clone()), None]).err(),
        Some(SnapshotError::Incomplete)
    );
    assert_eq!(
        read_state(&[Some(vec![0u8; 2_097_152]), Some(vec![1])]).err(),
        Some(SnapshotError::TooLarge)
    );
    let huge = deflate(&vec![b' '; 16_777_217]);
    assert_eq!(read_state(&[Some(huge)]).err(), Some(SnapshotError::ExpandsTooFar));
}

#[test]
fn splitting_refuses_empty_and_oversized_snapshots() {
    assert_eq!(split_snapshot(1, &[]).err(), Some(SnapshotError::InvalidSize));
    assert_eq!(
        split_snapshot(1, &vec![0u8; 2_097_153]).err(),
        Some(SnapshotError::TooLargeToShare)
    );
    let parts = split_snapshot(2, &vec![7u8; 8193]).unwrap();
    assert_eq!(parts.len(), 2);
    let decoded = base64::engine::general_purpose::STANDARD.decode(&parts[1].data).unwrap();
    assert_eq!(decoded, vec![7u8]);
}

#[test]
fn packets_and_envelopes_are_checked() {
    assert_eq!(check_packet_size(MAX_PACKET), Ok(()));
    assert_eq!(check_packet_size(MAX_PACKET + 1), Err(SnapshotError::PacketTooLarge));
    assert_eq!(check_envelope(123, 1, 123), Ok(()));
    assert_eq!(check_envelope(124, 1, 123), Err(SnapshotError::WrongLobby));
    assert_eq!(check_envelope(123, 2, 123), Err(SnapshotError::WrongLobby));
}

#[test]
fn received_worlds_are_validated() {
    let game = Game::new();
    assert_eq!(validate_world(&game), Ok(()));
    let mut bad = game.clone();
    bad.terrain.pop();
    assert_eq!(validate_world(&bad), Err(SnapshotError::InvalidWorld));
    let mut bad = game.clone();
    bad.hub = [22, 0];
    assert_eq!(validate_world(&bad), Err(SnapshotError::HubOutside));
    let mut bad = game.clone();
    bad.hub = [0, 0];
    assert_eq!(validate_world(&bad), Err(SnapshotError::NoHub));
    let mut bad = game.clone();
    bad.first_order_amount = 0;
    assert_eq!(validate_world(&bad), Err(SnapshotError::InvalidContract));
    let mut bad = game.clone();
    bad.order_index = 1_000_001;
    assert_eq!(validate_world(&bad), Err(SnapshotError::ProgressionOutOfRange));
    let _ = Kind::Hub;
}

/// A factory snapshot's JSON: a world whose floor is drawn from `seed`, with `credits`.
fn factory_json(seed: u64, credits: u32) -> Vec<u8> {
    let mut state = seed;
    let tiles: Vec<Value> = (0..WIDTH * HEIGHT)
        .map(|i| Value::from((i % 7) as u64))
        .collect();
    let terrain: Vec<Value> = (0..24_000)
        .map(|_| {
            state = state.wrapping_mul(6364136223846793005).wrapping_add(1442695040888963407);
            Value::from((state >> 33) % 200)
        })
        .collect();
    let mut object = serde_json::Map::new();
    object.insert("seed".to_string(), Value::from(seed));
    object.insert("credits".to_string(), Value::from(credits));
    object.insert("tiles".to_string(), Value::Array(tiles));
    object.insert("terrain".to_string(), Value::Array(terrain));
    serde_json::to_vec(&Value::Object(object)).unwrap()
}

fn credits_of(json: &[u8]) -> u64 {
    serde_json::from_slice::<Value>(json).unwrap()["credits"].as_u64().unwrap()
}

#[test]
fn chunked_factory_state_roundtrips_and_rejects_other_lobbies() {
    let game = factory_json(7, 4);
    let packets = state_parts(7, &game).unwrap();
    assert!(packets.len() > 1);
    assert!(packets.iter().all(|part| part.data.len() <= 10924));
    let mut chunks = vec![None; packets.len()];
    for part in &packets {
        assert!(check_envelope(124, PROTOCOL, 123).is_err());
        assert!(check_envelope(123, PROTOCOL, 123).is_ok());
        chunks[part.index as usize] =
            Some(base64::engine::general_purpose::STANDARD.decode(&part.data).unwrap());
    }
    let restored: Value = serde_json::from_slice(&read_state(&chunks).unwrap()).unwrap();
    assert_eq!(restored["tiles"].as_array().unwrap().len(), WIDTH * HEIGHT);
    assert_eq!(restored["seed"], Value::from(7u64));
}

#[test]
fn fragmented_snapshots_never_publish_partial_state_and_recover_after_timeout() {
    let original = factory_json(7, 11);
    let newer = factory_json(7, 29);
    let old = state_parts(4, &original).unwrap();
    let packets = state_parts(5, &newer).unwrap();
    assert!(packets.len() > 1);
    let mut assembly = None;
    let mut displayed = factory_json(8, 4);
    let initial_credits = credits_of(&displayed);
    let start: u64 = 1_000_000_000;
    let second: u64 = 1_000_000_000;
    let ingest = |part: &bozz_torio::snapshot::StatePart,
                  at: u64,
                  assembly: &mut Option<Assembly>,
                  displayed: &mut Vec<u8>|
     -> Result<bool, SnapshotError> {
        if let Some(json) =
            accept_state_part(assembly, 0, part.revision, part.index, part.count, &part.data, at)?
        {
            *displayed = json;
            Ok(true)
        } else {
            Ok(false)
        }
    };
    // Missing part, reverse order, and identical duplicate keep the old presentation.
    for part in packets.iter().skip(1).rev() {
        assert!(!ingest(part, start, &mut assembly, &mut displayed).unwrap());
    }
    assert!(!ingest(&packets[1], start, &mut assembly, &mut displayed).unwrap());
    assert_eq!(credits_of(&displayed), initial_credits);
    // An older part cannot replace the newer partial assembly.
    assert!(!ingest(&old[0], start, &mut assembly, &mut displayed).unwrap());
    assert_eq!(assembly.as_ref().unwrap().revision, 5);
    // Timeout clears bounded partial memory; a complete resend recovers.
    assert!(expire_assembly(&mut assembly, start + 16 * second, 15 * second));
    assert!(assembly.is_none());
    for (index, part) in packets.iter().enumerate().rev() {
        let published = ingest(part, start + 17 * second, &mut assembly, &mut displayed).unwrap();
        assert_eq!(published, index == 0);
    }
    assert_eq!(credits_of(&displayed), 29);
    // The published factory reads as a valid world, which ends the assembly.
    assert_eq!(settle_assembly(&mut assembly, &Game::new()), Ok(()));
    assert!(assembly.is_none());
}

#[test]
fn malformed_and_conflicting_chunks_are_rejected_without_a_factory_swap() {
    let game = factory_json(9, 4);
    let packets = state_parts(3, &game).unwrap();
    let mut assembly = None;
    let now: u64 = 0;
    let first = &packets[0];
    assert!(
        accept_state_part(&mut assembly, 0, first.revision, first.index, first.count, &first.data, now)
            .unwrap()
            .is_none()
    );
    assert!(
        accept_state_part(
            &mut assembly,
            0,
            first.revision,
            first.index,
            first.count,
            &base64::engine::general_purpose::STANDARD.encode(b"conflict"),
            now
        )
        .is_err()
    );
    assembly = None; // Steam discards a rejected assembly.
    assert!(
        accept_state_part(
            &mut assembly,
            0,
            4,
            0,
            1,
            &base64::engine::general_purpose::STANDARD.encode(b"invalid zlib"),
            now
        )
        .is_err()
    );
    assembly = None;
    let mut published = None;
    for part in &packets {
        if let Some(next) =
            accept_state_part(&mut assembly, 0, part.revision, part.index, part.count, &part.data, now)
                .unwrap()
        {
            published = Some(next);
        }
    }
    let published: Value = serde_json::from_slice(&published.unwrap()).unwrap();
    assert_eq!(published["seed"], Value::from(9u64));
}

#[test]
fn parts_in_any_order_with_repeats_publish_once_the_last_missing_part_arrives() {
    let json = payload(45_000, 11);
    let parts = state_parts(8, &json).unwrap();
    let n = parts.len();
    assert!(n > 2);
    let mut order: Vec<usize> = Vec::new();
    for i in (0..n).rev() {
        order.push(i);
        order.push((i * 7 + 3) % n);
    }
    let mut seen = vec![false; n];
    let last = order
        .iter()
        .position(|&i| {
            seen[i] = true;
            seen.iter().all(|s| *s)
        })
        .unwrap();
    let mut assembly = None;
    for (t, &i) in order[..=last].iter().enumerate() {
        let part = &parts[i];
        let result =
            accept_state_part(&mut assembly, 2, 8, part.index, part.count, &part.data, 5).unwrap();
        if t < last {
            assert!(result.is_none());
        } else {
            assert_eq!(result.unwrap(), json);
        }
    }
}
