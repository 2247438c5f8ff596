use vstd::prelude::*;
use vstd::string::StringExecFns;
use crate::frontend::lexer::{location_text, Location};

verus! {

/// The two kinds of error that the frontend reports.
#[derive(Clone, Copy, Debug, PartialEq, Eq, Structural)]
pub enum ErrorKind {
    /// The token sequence holds a token that the scanner could not classify.
    SyntaxError,
    /// The tokens are classified but do not make up what the parser expects.
    ParserError,
}

/// The kind of an error as it is shown to the user.
pub open spec fn kind_title(kind: ErrorKind) -> Seq<char> {
    match kind {
        ErrorKind::SyntaxError => "Syntax Error"@,
        ErrorKind::ParserError => "Parser Error"@,
    }
}

impl ErrorKind {
    /// The kind as it is shown to the user, its words apart.
    pub fn title(&self) -> (title: &'static str)
        ensures
            title@ == kind_title(*self),
    {
        match self {
            ErrorKind::SyntaxError => "Syntax Error",
            ErrorKind::ParserError => "Parser Error",
        }
    }
}

/// An error with the place in the source that it is reported at. The place
/// is borrowed from the token that the error is about.
#[derive(Debug)]
pub struct Error<'a> {
    pub kind: ErrorKind,
    pub message: &'a str,
    pub location: &'a Location,
}

/// The mathematical content of an [`Error`].
pub struct Diagnostic {
    pub kind: ErrorKind,
    pub message: Seq<char>,
    pub line: nat,
    pub ch: nat,
}

/// The line that reports an error: its kind, its message and its place.
pub open spec fn diagnostic_text(d: Diagnostic) -> Seq<char> {
    kind_title(d.kind) + ": "@ + d.message + " "@ + location_text(d.line, d.ch)
}

impl<'a> View for Error<'a> {
    type V = Diagnostic;

    open spec fn view(&self) -> Diagnostic {
        Diagnostic {
            kind: self.kind,
            message: self.message@,
            line: self.location.line as nat,
            ch: self.location.ch as nat,
        }
    }
}

impl<'a> Error<'a> {
    /// An error of the given kind.
    pub fn new(kind: ErrorKind, message: &'a str, location: &'a Location) -> (error: Error<'a>)
        ensures
            error.kind == kind,
            error.message == message,
            error.location == location,
    {
        Error { kind, message, location }
    }

    /// An error of kind [`ErrorKind::SyntaxError`].
    pub fn syntax(message: &'a str, location: &'a Location) -> (error: Error<'a>)
        ensures
            error.kind == ErrorKind::SyntaxError,
            error.message == message,
            error.location == location,
    {
        Self::new(ErrorKind::SyntaxError, message, location)
    }

    /// An error of kind [`ErrorKind::ParserError`].
    pub fn parser(message: &'a str, location: &'a Location) -> (error: Error<'a>)
        ensures
            error.kind == ErrorKind::ParserError,
            error.message == message,
            error.location == location,
    {
        Self::new(ErrorKind::ParserError, message, location)
    }

    /// The line that reports this error.
    pub fn render(&self) -> (text: String)
        ensures
            text@ == diagnostic_text(self@),
    {
        let mut text = self.kind.title().to_owned();
        text.append(": ");
        text.append(self.message);
        text.append(" ");
        let place = self.location.render();
        text.append(place.as_str());
        text
    }
}

} // verus!
