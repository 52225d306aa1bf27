//! What a command-line front end does with its arguments and with the
//! outcome of decoding: which action it takes and which message it ends on.
//! Reading the file and printing are left to the front end itself.

use crate::error::ParseError;
use crate::parser::FileInfo;
use crate::report::texts;
use vstd::prelude::*;
use vstd::string::StringExecFns;

verus! {

/// A reason for the front end to end in failure.
#[derive(Debug, Clone, Copy, PartialEq, Eq, Structural)]
pub enum Complaint {
    /// No path was given on the command line.
    NoFileArgument,
    /// The path names no file.
    FileDoesNotExist,
    /// The option asks for an export, which is not there yet.
    TodoCommand,
    /// The option is none that the front end knows.
    UnknownArgument,
    /// The file does not open with the signature.
    NotFoundSmafHeader,
    /// The file was rejected for any other reason.
    UnknownError,
}

/// What the front end does once the file has been read and decoded.
#[derive(Debug, Clone, Copy, PartialEq, Eq, Structural)]
pub enum Action {
    /// Print the report on the file, without the lines of each track.
    PrintInfo,
    /// Print the list of options.
    PrintHelp,
    /// End with the complaint's message.
    Fail(Complaint),
}

impl Complaint {
    /// The text of the message.
    pub open spec fn text(self) -> Seq<char> {
        match self {
            Complaint::NoFileArgument => "No file argument. Please insert mmf file path first."@,
            Complaint::FileDoesNotExist => "File does not exist"@,
            Complaint::TodoCommand => "TODO Command"@,
            Complaint::UnknownArgument => "Unknown argument"@,
            Complaint::NotFoundSmafHeader => "Not found SMAF File Header"@,
            Complaint::UnknownError => "Unknown error"@,
        }
    }

    /// The message that the front end ends on.
    pub fn message(&self) -> (m: &'static str)
        ensures
            m@ == self.text(),
    {
        match self {
            Complaint::NoFileArgument => "No file argument. Please insert mmf file path first.",
            Complaint::FileDoesNotExist => "File does not exist",
            Complaint::TodoCommand => "TODO Command",
            Complaint::UnknownArgument => "Unknown argument",
            Complaint::NotFoundSmafHeader => "Not found SMAF File Header",
            Complaint::UnknownError => "Unknown error",
        }
    }
}

/// What a command line asks for.
pub struct ArgumentsView {
    pub path: Seq<char>,
    pub option: Option<Seq<char>>,
}

/// What a command line asks for: the file to decode and, if there is one,
/// the option behind it.
#[derive(Debug, Clone, PartialEq, Eq)]
pub struct Arguments {
    pub path: String,
    pub option: Option<String>,
}

impl View for Arguments {
    type V = ArgumentsView;

    open spec fn view(&self) -> ArgumentsView {
        ArgumentsView {
            path: self.path@,
            option: match self.option {
                Some(o) => Some(o@),
                None => None,
            },
        }
    }
}

/// What a command line asks for. The first word is the program's own name;
/// the second is the path and must be there; the third, if there is one, is
/// the option. Further words are not looked at.
pub open spec fn arguments_of(words: Seq<Seq<char>>) -> Result<ArgumentsView, Complaint> {
    if words.len() < 2 {
        Err(Complaint::NoFileArgument)
    } else {
        Ok(
            ArgumentsView {
                path: words[1],
                option: if words.len() >= 3 {
                    Some(words[2])
                } else {
                    None
                },
            },
        )
    }
}

/// Takes the path and the option from the words of a command line.
pub fn read_arguments(words: &Vec<String>) -> (r: Result<Arguments, Complaint>)
    ensures
        match arguments_of(texts(words@)) {
            Ok(v) => r matches Ok(a) && a@ == v,
            Err(c) => r == Err::<Arguments, Complaint>(c),
        },
{
    if words.len() < 2 {
        return Err(Complaint::NoFileArgument);
    }
    let option = if words.len() >= 3 {
        Some(words[2].clone())
    } else {
        None
    };
    Ok(Arguments { path: words[1].clone(), option })
}

/// The complaint that a decoding failure leads to: a missing signature is
/// named, every other failure is reported alike.
pub open spec fn complaint_of(e: ParseError) -> Complaint {
    if e == ParseError::NotFoundSmafHeader {
        Complaint::NotFoundSmafHeader
    } else {
        Complaint::UnknownError
    }
}

/// The action that an option leads to on a file that was decoded: without an
/// option the report, with `--help` the list of options, with one of the two
/// export options the complaint that they are not there yet, and with any
/// other the complaint that it is unknown.
pub open spec fn action_for_option(option: Option<Seq<char>>) -> Action {
    match option {
        None => Action::PrintInfo,
        Some(o) => if o == "--export-midi"@ || o == "--export-wave"@ {
            Action::Fail(Complaint::TodoCommand)
        } else if o == "--help"@ {
            Action::PrintHelp
        } else {
            Action::Fail(Complaint::UnknownArgument)
        },
    }
}

/// The action that the outcome of decoding and the option lead to. A file
/// that was rejected ends in its complaint whatever the option says.
pub open spec fn action_for(failure: Option<ParseError>, option: Option<Seq<char>>) -> Action {
    match failure {
        Some(e) => Action::Fail(complaint_of(e)),
        None => action_for_option(option),
    }
}

/// Maps a decoding failure to the complaint that the front end ends on.
pub fn classify_failure(e: &ParseError) -> (c: Complaint)
    ensures
        c == complaint_of(*e),
{
    match e {
        ParseError::NotFoundSmafHeader => Complaint::NotFoundSmafHeader,
        _ => Complaint::UnknownError,
    }
}

/// Decides what to do once the file has been read: `decoded` is what the
/// decoder returned, `option` the argument behind the path, if there was one.
pub fn decide(decoded: &Result<FileInfo, ParseError>, option: &Option<String>) -> (a: Action)
    ensures
        a == action_for(
            match *decoded {
                Ok(_) => None,
                Err(e) => Some(e),
            },
            match *option {
                Some(o) => Some(o@),
                None => None,
            },
        ),
{
    match decoded {
        Err(e) => Action::Fail(classify_failure(e)),
        Ok(_) => match option {
            None => Action::PrintInfo,
            Some(o) => {
                if *o == String::from_str("--export-midi") || *o == String::from_str(
                    "--export-wave",
                ) {
                    Action::Fail(Complaint::TodoCommand)
                } else if *o == String::from_str("--help") {
                    Action::PrintHelp
                } else {
                    Action::Fail(Complaint::UnknownArgument)
                }
            },
        },
    }
}

/// The text of the list of options, line by line.
pub open spec fn help() -> Seq<Seq<char>> {
    seq![
        "--export-midi : export midi track to mid files (TODO)"@,
        "--export-wave : export wave track to wav files (TODO)"@,
    ]
}

/// Writes the list of options, one string for each line.
pub fn help_lines() -> (lines: Vec<String>)
    ensures
        texts(lines@) == help(),
{
    let mut lines: Vec<String> = Vec::new();
    lines.push(String::from_str("--export-midi : export midi track to mid files (TODO)"));
    lines.push(String::from_str("--export-wave : export wave track to wav files (TODO)"));
    lines
}

} // verus!
