use mmftool::chunk::Tag;
use mmftool::cli::{
    classify_failure, decide, help_lines, read_arguments, Action, Arguments, Complaint,
};
use mmftool::error::ParseError;
use mmftool::metadata::Metadata;
use mmftool::parser::{parse, FileInfo};

fn words(list: &[&str]) -> Vec<String> {
    list.iter().map(|w| w.to_string()).collect()
}

fn decoded() -> Result<FileInfo, ParseError> {
    Ok(FileInfo { metadata: Metadata::empty(), midi_tracks: Vec::new(), wave_tracks: Vec::new() })
}

#[test]
fn a_command_line_needs_a_path() {
    assert_eq!(read_arguments(&words(&[])), Err(Complaint::NoFileArgument));
    assert_eq!(read_arguments(&words(&["mmftool"])), Err(Complaint::NoFileArgument));
}

#[test]
fn path_and_option_are_the_second_and_third_word() {
    assert_eq!(
        read_arguments(&words(&["mmftool", "song.mmf"])),
        Ok(Arguments { path: "song.mmf".to_string(), option: None })
    );
    assert_eq!(
        read_arguments(&words(&["mmftool", "song.mmf", "--help"])),
        Ok(Arguments { path: "song.mmf".to_string(), option: Some("--help".to_string()) })
    );
    assert_eq!(
        read_arguments(&words(&["mmftool", "song.mmf", "--help", "more", "words"])),
        Ok(Arguments { path: "song.mmf".to_string(), option: Some("--help".to_string()) })
    );
}

#[test]
fn without_an_option_the_report_is_printed() {
    assert_eq!(decide(&decoded(), &None), Action::PrintInfo);
}

#[test]
fn options_lead_to_their_actions() {
    let option = |o: &str| Some(o.to_string());
    assert_eq!(decide(&decoded(), &option("--help")), Action::PrintHelp);
    assert_eq!(decide(&decoded(), &option("--export-midi")), Action::Fail(Complaint::TodoCommand));
    assert_eq!(decide(&decoded(), &option("--export-wave")), Action::Fail(Complaint::TodoCommand));
    assert_eq!(decide(&decoded(), &option("--HELP")), Action::Fail(Complaint::UnknownArgument));
    assert_eq!(decide(&decoded(), &option("")), Action::Fail(Complaint::UnknownArgument));
    assert_eq!(decide(&decoded(), &option("--help ")), Action::Fail(Complaint::UnknownArgument));
    assert_eq!(decide(&decoded(), &option("--export")), Action::Fail(Complaint::UnknownArgument));
}

#[test]
fn a_rejected_file_fails_whatever_the_option() {
    let missing = parse(b"nope");
    assert_eq!(decide(&missing, &None), Action::Fail(Complaint::NotFoundSmafHeader));
    assert_eq!(
        decide(&missing, &Some("--help".to_string())),
        Action::Fail(Complaint::NotFoundSmafHeader)
    );
    let cut = parse(b"MMMDMTR");
    assert_eq!(cut, Err(ParseError::UnexpectedEof));
    assert_eq!(decide(&cut, &None), Action::Fail(Complaint::UnknownError));
    assert_eq!(
        decide(&cut, &Some("--export-midi".to_string())),
        Action::Fail(Complaint::UnknownError)
    );
}

#[test]
fn only_a_missing_signature_is_named() {
    assert_eq!(classify_failure(&ParseError::NotFoundSmafHeader), Complaint::NotFoundSmafHeader);
    assert_eq!(classify_failure(&ParseError::UnexpectedEof), Complaint::UnknownError);
    assert_eq!(
        classify_failure(&ParseError::ChunkOverflow { tag: Tag(1, 2, 3, 4), offset: 9 }),
        Complaint::UnknownError
    );
    assert_eq!(classify_failure(&ParseError::OutOfBounds), Complaint::UnknownError);
    assert_eq!(classify_failure(&ParseError::TooDeeplyNested), Complaint::UnknownError);
}

#[test]
fn complaints_have_their_messages() {
    assert_eq!(
        Complaint::NoFileArgument.message(),
        "No file argument. Please insert mmf file path first."
    );
    assert_eq!(Complaint::FileDoesNotExist.message(), "File does not exist");
    assert_eq!(Complaint::TodoCommand.message(), "TODO Command");
    assert_eq!(Complaint::UnknownArgument.message(), "Unknown argument");
    assert_eq!(Complaint::NotFoundSmafHeader.message(), "Not found SMAF File Header");
    assert_eq!(Complaint::UnknownError.message(), "Unknown error");
}

#[test]
fn help_lists_the_two_export_options() {
    assert_eq!(
        help_lines(),
        vec![
            "--export-midi : export midi track to mid files (TODO)",
            "--export-wave : export wave track to wav files (TODO)",
        ]
    );
}
