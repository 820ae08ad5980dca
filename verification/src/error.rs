//! What can go wrong while addons are listed, looked up and read.

use vstd::prelude::*;

verus! {

/// The failures that this library reports.
#[derive(Debug, PartialEq, Eq)]
pub enum Error {
    /// The root directory could not be opened. Holds the root's path.
    DirectoryUnreadable(String),
    /// An entry has no final path component to take a name from.
    NotFolder,
    /// An entry's name is not valid text.
    InvalidName,
    /// An addon's descriptor is missing or could not be read. Holds the
    /// descriptor's file name.
    DescriptorUnreadable(String),
    /// The declared version could not be brought into the strict form.
    /// Holds the version as it was written.
    VersionUnparseable(String),
    /// No directory bears the name that was looked up.
    NotFound,
}

/// What an [`Error`] stands for.
pub ghost enum ErrorView {
    DirectoryUnreadable(Seq<char>),
    NotFolder,
    InvalidName,
    DescriptorUnreadable(Seq<char>),
    VersionUnparseable(Seq<char>),
    NotFound,
}

impl View for Error {
    type V = ErrorView;

    open spec fn view(&self) -> ErrorView {
        match self {
            Error::DirectoryUnreadable(root) => ErrorView::DirectoryUnreadable(root@),
            Error::NotFolder => ErrorView::NotFolder,
            Error::InvalidName => ErrorView::InvalidName,
            Error::DescriptorUnreadable(file) => ErrorView::DescriptorUnreadable(file@),
            Error::VersionUnparseable(raw) => ErrorView::VersionUnparseable(raw@),
            Error::NotFound => ErrorView::NotFound,
        }
    }
}

/// The text that [`Error::message`] gives for an error.
pub open spec fn message_text(e: ErrorView) -> Seq<char> {
    match e {
        ErrorView::DirectoryUnreadable(root) => "cannot read the addon directory "@ + root,
        ErrorView::NotFolder => "not a folder"@,
        ErrorView::InvalidName => "not a valid utf8"@,
        ErrorView::DescriptorUnreadable(file) => "cannot read the descriptor "@ + file,
        ErrorView::VersionUnparseable(raw) => "cannot make a version of "@ + raw,
        ErrorView::NotFound => "no addon of that name is installed"@,
    }
}

impl Error {
    /// A sentence for the user that says what went wrong.
    pub fn message(&self) -> (text: String)
        ensures
            text@ == message_text(self@),
    {
        match self {
            Error::DirectoryUnreadable(root) => String::from_str(
                "cannot read the addon directory ",
            ).concat(root.as_str()),
            Error::NotFolder => String::from_str("not a folder"),
            Error::InvalidName => String::from_str("not a valid utf8"),
            Error::DescriptorUnreadable(file) => String::from_str(
                "cannot read the descriptor ",
            ).concat(file.as_str()),
            Error::VersionUnparseable(raw) => String::from_str("cannot make a version of ").concat(
                raw.as_str(),
            ),
            Error::NotFound => String::from_str("no addon of that name is installed"),
        }
    }
}

} // verus!
