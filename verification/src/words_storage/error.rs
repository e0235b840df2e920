use vstd::prelude::*;

verus! {

/// Why a word storage refused an operation.
#[derive(Debug)]
pub enum Error {
    WordAlreadyExists(String),
    WordNotFound(String),
    StorageFull,
    StorageReadError,
    StorageWriteError,
    StorageInitializationError,
    Other(String),
}

/// An [`Error`] as a mathematical value: the same cases, each text as a sequence of characters.
pub enum ErrorView {
    WordAlreadyExists(Seq<char>),
    WordNotFound(Seq<char>),
    StorageFull,
    StorageReadError,
    StorageWriteError,
    StorageInitializationError,
    Other(Seq<char>),
}

impl View for Error {
    type V = ErrorView;

    open spec fn view(&self) -> ErrorView {
        match self {
            Error::WordAlreadyExists(word) => ErrorView::WordAlreadyExists(word@),
            Error::WordNotFound(word) => ErrorView::WordNotFound(word@),
            Error::StorageFull => ErrorView::StorageFull,
            Error::StorageReadError => ErrorView::StorageReadError,
            Error::StorageWriteError => ErrorView::StorageWriteError,
            Error::StorageInitializationError => ErrorView::StorageInitializationError,
            Error::Other(reason) => ErrorView::Other(reason@),
        }
    }
}

impl ErrorView {
    /// The text shown to the user for this error.
    pub open spec fn message(self) -> Seq<char> {
        match self {
            ErrorView::WordAlreadyExists(word) => "Word '"@ + word + "' already exists in storage"@,
            ErrorView::WordNotFound(word) => "Word '"@ + word + "' not found in storage"@,
            ErrorView::StorageFull => "Storage is full"@,
            ErrorView::StorageReadError => "Error reading from storage"@,
            ErrorView::StorageWriteError => "Error writing to storage"@,
            ErrorView::StorageInitializationError => "Error initializing storage"@,
            ErrorView::Other(reason) => "Other error: "@ + reason,
        }
    }
}

impl Error {
    /// Renders the error as the text shown to the user.
    pub fn to_string(&self) -> (text: String)
        ensures
            text@ == self@.message(),
    {
        match self {
            Error::WordAlreadyExists(word) => {
                String::from_str("Word '").concat(word.as_str()).concat("' already exists in storage")
            },
            Error::WordNotFound(word) => {
                String::from_str("Word '").concat(word.as_str()).concat("' not found in storage")
            },
            Error::StorageFull => String::from_str("Storage is full"),
            Error::StorageReadError => String::from_str("Error reading from storage"),
            Error::StorageWriteError => String::from_str("Error writing to storage"),
            Error::StorageInitializationError => String::from_str("Error initializing storage"),
            Error::Other(reason) => String::from_str("Other error: ").concat(reason.as_str()),
        }
    }
}

} // verus!
