use mmftool::error::ParseError;
use mmftool::parser::{parse, FileInfo};

fn chunk_bytes(tag: [u8; 4], payload: &[u8]) -> Vec<u8> {
    let mut out = tag.to_vec();
    out.extend_from_slice(&(payload.len() as u32).to_be_bytes());
    out.extend_from_slice(payload);
    out
}

fn text_entry(tag: [u8; 2], data: &[u8]) -> Vec<u8> {
    let mut out = tag.to_vec();
    out.extend_from_slice(&(data.len() as u16).to_be_bytes());
    out.extend_from_slice(data);
    out
}

fn with_signature(body: &[u8]) -> Vec<u8> {
    let mut out = b"MMMD".to_vec();
    out.extend_from_slice(body);
    out
}

/// The chunks at the root of a file with tracks at three depths: each item
/// is one root chunk's bytes.
fn root_chunks() -> Vec<Vec<u8>> {
    let metadata = chunk_bytes(
        *b"OPDA",
        &[text_entry(*b"ST", b"Layers"), text_entry(*b"CA", b"Nobody")].concat(),
    );
    let deep = chunk_bytes(
        *b"MMMD",
        &[chunk_bytes(*b"ATR\x02", b"wave-two"), chunk_bytes(*b"MTR\x02", b"midi-two")].concat(),
    );
    let middle = chunk_bytes(
        *b"MMMD",
        &[chunk_bytes(*b"MTR\x01", b"midi-one"), deep, chunk_bytes(*b"ATR\x03", b"")].concat(),
    );
    vec![
        chunk_bytes(*b"ATR\x01", b"wave-one"),
        metadata,
        middle,
        chunk_bytes(*b"CNTI", b"\x00\x01\x02"),
        chunk_bytes(*b"MTR\x03", b"midi-three"),
    ]
}

fn layered_file() -> Vec<u8> {
    with_signature(&root_chunks().concat())
}

/// What a description says once its descriptors are followed into the
/// buffer: the texts, and for each track its number and payload.
fn content(info: &FileInfo, bytes: &[u8]) -> (Vec<String>, Vec<(u8, Vec<u8>)>, Vec<(u8, Vec<u8>)>) {
    let texts = vec![
        info.metadata.song_title.clone(),
        info.metadata.author.clone(),
        info.metadata.copyright.clone(),
    ];
    let midi = info
        .midi_tracks
        .iter()
        .map(|t| {
            assert_eq!(t.size as usize, t.payload.len);
            (t.track_no, t.payload.resolve(bytes).unwrap().to_vec())
        })
        .collect();
    let wave = info
        .wave_tracks
        .iter()
        .map(|t| {
            assert_eq!(t.size as usize, t.payload.len);
            (t.track_no, t.payload.resolve(bytes).unwrap().to_vec())
        })
        .collect();
    (texts, midi, wave)
}

#[test]
fn track_counts_equal_the_track_chunks_at_any_depth() {
    let info = parse(&layered_file()).unwrap();
    assert_eq!(info.midi_tracks.len(), 3);
    assert_eq!(info.wave_tracks.len(), 3);
}

#[test]
fn tracks_come_out_in_byte_order_regardless_of_nesting() {
    let bytes = layered_file();
    let info = parse(&bytes).unwrap();
    let (texts, midi, wave) = content(&info, &bytes);
    assert_eq!(texts, vec!["Layers".to_string(), "Nobody".to_string(), String::new()]);
    assert_eq!(
        midi,
        vec![
            (1, b"midi-one".to_vec()),
            (2, b"midi-two".to_vec()),
            (3, b"midi-three".to_vec()),
        ]
    );
    assert_eq!(
        wave,
        vec![(1, b"wave-one".to_vec()), (2, b"wave-two".to_vec()), (3, Vec::new())]
    );
    // The offsets rise with the order of the lists of each kind.
    for pair in info.midi_tracks.windows(2) {
        assert!(pair[0].payload.offset + pair[0].payload.len <= pair[1].payload.offset);
    }
    for pair in info.wave_tracks.windows(2) {
        assert!(pair[0].payload.offset + pair[0].payload.len <= pair[1].payload.offset);
    }
}

#[test]
fn a_missing_signature_gives_no_other_failure() {
    let good = layered_file();
    for first in 0..=255u8 {
        if first == b'M' {
            continue;
        }
        let mut bytes = good.clone();
        bytes[0] = first;
        assert_eq!(parse(&bytes), Err(ParseError::NotFoundSmafHeader));
        // Whatever else is wrong behind it.
        bytes.truncate(9);
        assert_eq!(parse(&bytes), Err(ParseError::NotFoundSmafHeader));
    }
}

#[test]
fn every_cut_inside_a_chunk_is_detected() {
    let good = layered_file();
    let mut boundaries = vec![4];
    for c in root_chunks() {
        let last = *boundaries.last().unwrap();
        boundaries.push(last + c.len());
    }
    assert_eq!(*boundaries.last().unwrap(), good.len());
    for k in 0..good.len() {
        let cut = parse(&good[..k]);
        if k < 4 {
            assert_eq!(cut, Err(ParseError::NotFoundSmafHeader));
        } else if boundaries.contains(&k) {
            // A cut between two root chunks leaves a shorter file.
            assert!(cut.is_ok());
        } else {
            let start = *boundaries.iter().filter(|b| **b < k).last().unwrap();
            if k < start + 8 {
                assert_eq!(cut, Err(ParseError::UnexpectedEof));
            } else {
                let tag = &good[start..start + 4];
                assert_eq!(
                    cut,
                    Err(ParseError::ChunkOverflow {
                        tag: mmftool::chunk::Tag(tag[0], tag[1], tag[2], tag[3]),
                        offset: start,
                    })
                );
            }
        }
    }
}

#[test]
fn no_track_is_reported_beyond_the_bytes_that_are_there() {
    let good = layered_file();
    for k in 0..=good.len() {
        if let Ok(info) = parse(&good[..k]) {
            for t in &info.midi_tracks {
                assert!(t.payload.offset + t.payload.len <= k);
                assert_eq!(t.size as usize, t.payload.len);
            }
            for t in &info.wave_tracks {
                assert!(t.payload.offset + t.payload.len <= k);
                assert_eq!(t.size as usize, t.payload.len);
            }
        }
    }
}

#[test]
fn parsing_twice_gives_the_same_result() {
    let good = layered_file();
    assert_eq!(parse(&good), parse(&good));
    let bad = &good[..good.len() - 3];
    assert_eq!(parse(bad), parse(bad));
    assert!(parse(bad).is_err());
    let before = good.clone();
    let _ = parse(&good);
    assert_eq!(good, before);
}

#[test]
fn an_unknown_chunk_among_the_root_chunks_changes_nothing() {
    let plain = layered_file();
    let expected = content(&parse(&plain).unwrap(), &plain);
    let extra = chunk_bytes(*b"Zzzz", b"opaque \xff\x00 bytes");
    let roots = root_chunks();
    for at in 0..=roots.len() {
        let mut parts = roots.clone();
        parts.insert(at, extra.clone());
        let bytes = with_signature(&parts.concat());
        let info = parse(&bytes).unwrap();
        assert_eq!(content(&info, &bytes), expected);
    }
}

#[test]
fn an_unknown_chunk_inside_a_container_changes_nothing() {
    let plain_inner = [chunk_bytes(*b"MTR\x01", b"one"), chunk_bytes(*b"ATR\x01", b"two")];
    let plain = with_signature(&chunk_bytes(*b"MMMD", &plain_inner.concat()));
    let expected = content(&parse(&plain).unwrap(), &plain);
    let extra = chunk_bytes(*b"\0\0\0\0", b"");
    for at in 0..=plain_inner.len() {
        let mut parts = plain_inner.to_vec();
        parts.insert(at, extra.clone());
        let bytes = with_signature(&chunk_bytes(*b"MMMD", &parts.concat()));
        let info = parse(&bytes).unwrap();
        assert_eq!(content(&info, &bytes), expected);
    }
}

#[test]
fn an_accepted_file_is_tiled_by_its_root_chunks() {
    // Stepping from header to header by the declared lengths ends exactly at
    // the end of the file.
    let good = layered_file();
    assert!(parse(&good).is_ok());
    let mut pos = 4;
    while pos < good.len() {
        let len = u32::from_be_bytes([good[pos + 4], good[pos + 5], good[pos + 6], good[pos + 7]]);
        pos += 8 + len as usize;
    }
    assert_eq!(pos, good.len());
}
