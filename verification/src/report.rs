//! The report that a command-line front end prints about a decoded file,
//! line by line.

use crate::parser::{FileInfo, FileInfoView};
use crate::track::{MidiTrack, WaveTrack};
use vstd::prelude::*;
use vstd::string::StringExecFns;

verus! {

/// The character that stands for a digit.
pub open spec fn digit_char(d: int) -> char {
    if d == 0 {
        '0'
    } else if d == 1 {
        '1'
    } else if d == 2 {
        '2'
    } else if d == 3 {
        '3'
    } else if d == 4 {
        '4'
    } else if d == 5 {
        '5'
    } else if d == 6 {
        '6'
    } else if d == 7 {
        '7'
    } else if d == 8 {
        '8'
    } else {
        '9'
    }
}

/// A number in decimal notation, without sign or leading zeros.
pub open spec fn decimal(n: nat) -> Seq<char>
    decreases n,
{
    if n < 10 {
        seq![digit_char(n as int)]
    } else {
        decimal(n / 10) + seq![digit_char((n % 10) as int)]
    }
}

/// The one-character string that stands for a digit.
fn digit_str(d: u64) -> (s: &'static str)
    requires
        d < 10,
    ensures
        s@ == seq![digit_char(d as int)],
{
    proof {
        reveal_strlit("0");
        reveal_strlit("1");
        reveal_strlit("2");
        reveal_strlit("3");
        reveal_strlit("4");
        reveal_strlit("5");
        reveal_strlit("6");
        reveal_strlit("7");
        reveal_strlit("8");
        reveal_strlit("9");
    }
    if d == 0 {
        "0"
    } else if d == 1 {
        "1"
    } else if d == 2 {
        "2"
    } else if d == 3 {
        "3"
    } else if d == 4 {
        "4"
    } else if d == 5 {
        "5"
    } else if d == 6 {
        "6"
    } else if d == 7 {
        "7"
    } else if d == 8 {
        "8"
    } else {
        "9"
    }
}

/// Writes a number in decimal notation.
pub fn decimal_string(n: u64) -> (s: String)
    ensures
        s@ == decimal(n as nat),
{
    let mut digits: Vec<u64> = Vec::new();
    let mut rest = n;
    while rest >= 10
        invariant
            forall|i: int| 0 <= i < digits.len() ==> digits[i] < 10,
            decimal(n as nat) == decimal(rest as nat) + Seq::new(
                digits.len() as nat,
                |i: int| digit_char(digits[digits.len() - 1 - i] as int),
            ),
        decreases rest,
    {
        let ghost before = digits@;
        digits.push(rest % 10);
        proof {
            let tail_before = Seq::new(
                before.len() as nat,
                |i: int| digit_char(before[before.len() - 1 - i] as int),
            );
            let tail = Seq::new(
                digits.len() as nat,
                |i: int| digit_char(digits[digits.len() - 1 - i] as int),
            );
            assert(tail =~= seq![digit_char((rest % 10) as int)] + tail_before);
        }
        rest = rest / 10;
    }
    let mut s = String::from_str(digit_str(rest));
    let mut k = digits.len();
    while k > 0
        invariant
            k <= digits.len(),
            forall|i: int| 0 <= i < digits.len() ==> digits[i] < 10,
            s@ == decimal(rest as nat) + Seq::new(
                (digits.len() - k) as nat,
                |i: int| digit_char(digits[digits.len() - 1 - i] as int),
            ),
        decreases k,
    {
        k = k - 1;
        s.append(digit_str(digits[k]));
    }
    s
}

/// What a list of lines says: the text of each, in order.
pub open spec fn texts(lines: Seq<String>) -> Seq<Seq<char>> {
    lines.map_values(|line: String| line@)
}

/// The four lines that describe one score track.
pub open spec fn midi_track_lines(t: MidiTrack) -> Seq<Seq<char>> {
    seq![
        "-------------------"@,
        "MIDI Track Number : "@ + decimal(t.track_no as nat),
        "MIDI Track Size : "@ + decimal(t.size as nat),
        "-------------------"@,
    ]
}

/// The four lines that describe one audio track.
pub open spec fn wave_track_lines(t: WaveTrack) -> Seq<Seq<char>> {
    seq![
        "-------------------"@,
        "WAVE Track Number : "@ + decimal(t.track_no as nat),
        "WAVE Track Size : "@ + decimal(t.size as nat),
        "-------------------"@,
    ]
}

/// The lines that describe the score tracks, track after track.
pub open spec fn midi_lines(tracks: Seq<MidiTrack>) -> Seq<Seq<char>>
    decreases tracks.len(),
{
    if tracks.len() == 0 {
        Seq::empty()
    } else {
        midi_lines(tracks.drop_last()) + midi_track_lines(tracks.last())
    }
}

/// The lines that describe the audio tracks, track after track.
pub open spec fn wave_lines(tracks: Seq<WaveTrack>) -> Seq<Seq<char>>
    decreases tracks.len(),
{
    if tracks.len() == 0 {
        Seq::empty()
    } else {
        wave_lines(tracks.drop_last()) + wave_track_lines(tracks.last())
    }
}

/// The report on a file: the three texts, a blank line, the number of score
/// tracks, the number of audio tracks, and behind each number, if
/// `show_track_info` is set, the lines of each track of that kind.
pub open spec fn report(info: FileInfoView, show_track_info: bool) -> Seq<Seq<char>> {
    seq![
        "Title : "@ + info.metadata.song_title,
        "Author : "@ + info.metadata.author,
        "Copyright : "@ + info.metadata.copyright,
        Seq::empty(),
        "MIDI Track Count : "@ + decimal(info.midi_tracks.len()),
    ] + (if show_track_info {
        midi_lines(info.midi_tracks)
    } else {
        Seq::empty()
    }) + seq!["WAVE Track Count : "@ + decimal(info.wave_tracks.len())] + (if show_track_info {
        wave_lines(info.wave_tracks)
    } else {
        Seq::empty()
    })
}

/// A label and, behind it, a value.
fn labelled(label: &str, value: &str) -> (line: String)
    ensures
        line@ == label@ + value@,
{
    let mut line = String::from_str(label);
    line.append(value);
    line
}

/// Adds a line to a list of lines.
fn push_line(lines: &mut Vec<String>, line: String)
    ensures
        texts(final(lines)@) == texts(old(lines)@).push(line@),
{
    lines.push(line);
}

/// Adds the four lines of a track of the kind named in the two labels.
fn push_track_lines(
    lines: &mut Vec<String>,
    number_label: &str,
    size_label: &str,
    track_no: u8,
    size: u32,
)
    ensures
        texts(final(lines)@) == texts(old(lines)@) + seq![
            "-------------------"@,
            number_label@ + decimal(track_no as nat),
            size_label@ + decimal(size as nat),
            "-------------------"@,
        ],
{
    push_line(lines, String::from_str("-------------------"));
    push_line(lines, labelled(number_label, decimal_string(track_no as u64).as_str()));
    push_line(lines, labelled(size_label, decimal_string(size as u64).as_str()));
    push_line(lines, String::from_str("-------------------"));
}

/// Writes the report on a decoded file, one string for each line.
pub fn report_lines(info: &FileInfo, show_track_info: bool) -> (lines: Vec<String>)
    ensures
        texts(lines@) == report(info@, show_track_info),
{
    let mut lines: Vec<String> = Vec::new();
    push_line(&mut lines, labelled("Title : ", info.metadata.song_title.as_str()));
    push_line(&mut lines, labelled("Author : ", info.metadata.author.as_str()));
    push_line(&mut lines, labelled("Copyright : ", info.metadata.copyright.as_str()));
    push_line(&mut lines, String::new());
    push_line(
        &mut lines,
        labelled("MIDI Track Count : ", decimal_string(info.midi_tracks.len() as u64).as_str()),
    );
    let ghost head = texts(lines@);
    if show_track_info {
        let mut i: usize = 0;
        while i < info.midi_tracks.len()
            invariant
                i <= info.midi_tracks.len(),
                texts(lines@) == head + midi_lines(info.midi_tracks@.take(i as int)),
            decreases info.midi_tracks.len() - i,
        {
            let t = &info.midi_tracks[i];
            push_track_lines(
                &mut lines,
                "MIDI Track Number : ",
                "MIDI Track Size : ",
                t.track_no,
                t.size,
            );
            proof {
                let upto = info.midi_tracks@.take(i + 1);
                assert(upto.drop_last() =~= info.midi_tracks@.take(i as int));
            }
            i = i + 1;
        }
        assert(info.midi_tracks@.take(i as int) =~= info.midi_tracks@);
    }
    push_line(
        &mut lines,
        labelled("WAVE Track Count : ", decimal_string(info.wave_tracks.len() as u64).as_str()),
    );
    let ghost upper = texts(lines@);
    if show_track_info {
        let mut i: usize = 0;
        while i < info.wave_tracks.len()
            invariant
                i <= info.wave_tracks.len(),
                texts(lines@) == upper + wave_lines(info.wave_tracks@.take(i as int)),
            decreases info.wave_tracks.len() - i,
        {
            let t = &info.wave_tracks[i];
            push_track_lines(
                &mut lines,
                "WAVE Track Number : ",
                "WAVE Track Size : ",
                t.track_no,
                t.size,
            );
            proof {
                let upto = info.wave_tracks@.take(i + 1);
                assert(upto.drop_last() =~= info.wave_tracks@.take(i as int));
            }
            i = i + 1;
        }
        assert(info.wave_tracks@.take(i as int) =~= info.wave_tracks@);
    }
    lines
}

} // verus!
