use mmftool::chunk::Tag;
use mmftool::error::ParseError;
use mmftool::metadata::Metadata;
use mmftool::parser::{parse, FileInfo};
use mmftool::track::{ByteRange, MidiTrack, WaveTrack};

fn chunk(tag: [u8; 4], payload: &[u8]) -> Vec<u8> {
    let mut out = tag.to_vec();
    out.extend_from_slice(&(payload.len() as u32).to_be_bytes());
    out.extend_from_slice(payload);
    out
}

fn entry(tag: [u8; 2], data: &[u8]) -> Vec<u8> {
    let mut out = tag.to_vec();
    out.extend_from_slice(&(data.len() as u16).to_be_bytes());
    out.extend_from_slice(data);
    out
}

fn sample_metadata() -> Vec<u8> {
    let mut payload = entry(*b"ST", b"Test");
    payload.extend(entry(*b"CA", b"A"));
    payload.extend(entry(*b"CR", b"C"));
    chunk(*b"OPDA", &payload)
}

fn sample() -> Vec<u8> {
    let mut file = b"MMMD".to_vec();
    file.extend(sample_metadata());
    file.extend(chunk(*b"MTR\x01", &[0x11; 10]));
    file.extend(chunk(*b"ATR\x01", &[0x22; 20]));
    file
}

#[test]
fn sample_file_decodes() {
    let file = sample();
    let info = parse(&file).unwrap();
    assert_eq!(
        info,
        FileInfo {
            metadata: Metadata {
                song_title: "Test".to_string(),
                author: "A".to_string(),
                copyright: "C".to_string(),
            },
            midi_tracks: vec![MidiTrack {
                track_no: 1,
                size: 10,
                payload: ByteRange { offset: 38, len: 10 },
            }],
            wave_tracks: vec![WaveTrack {
                track_no: 1,
                size: 20,
                payload: ByteRange { offset: 56, len: 20 },
            }],
        }
    );
    assert_eq!(info.midi_tracks[0].payload.resolve(&file), Ok(&[0x11u8; 10][..]));
    assert_eq!(info.wave_tracks[0].payload.resolve(&file), Ok(&[0x22u8; 20][..]));
}

#[test]
fn corrupted_signature_is_rejected() {
    let mut file = sample();
    file[0] = b'X';
    assert_eq!(parse(&file), Err(ParseError::NotFoundSmafHeader));
}

#[test]
fn overlong_midi_chunk_is_rejected() {
    let mut file = sample();
    // The score track's header starts at 30; its length field at 34.
    file[34..38].copy_from_slice(&1000u32.to_be_bytes());
    assert_eq!(
        parse(&file),
        Err(ParseError::ChunkOverflow { tag: Tag(b'M', b'T', b'R', 1), offset: 30 })
    );
}
