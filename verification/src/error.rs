//! The errors that ticket commands report, and what users are told.
use vstd::prelude::*;
use vstd::string::StringExecFns;

verus! {

/// serenity's error type, carried opaquely: nothing inside it is read here
/// but through `discord_code`.
#[verifier::external_type_specification]
#[verifier::external_body]
pub struct ExSerenityError(serenity::prelude::SerenityError);

/// Discord's code for an interaction that is unknown or has expired.
pub const UNKNOWN_INTERACTION: isize = 10062;
/// Discord's code for a message that no longer exists.
pub const UNKNOWN_MESSAGE: isize = 10008;
/// Discord's code for a thread that is archived.
pub const THREAD_ARCHIVED: isize = 50083;

/// Why a ticket command failed.
#[derive(Debug)]
pub enum Error {
    MissingGuildId,
    NotInSupportChannel,
    Serenity(serenity::prelude::SerenityError),
}

/// What a user is told about an error: one of the shared messages of the
/// bot framework, or a text of this library.
#[derive(Debug)]
pub enum ErrorMessage {
    /// The framework's message for a command used outside a guild.
    MissingGuildId,
    /// The framework's message for an interaction that is unknown.
    UnknownInteraction,
    Text(String),
}

/// The Discord error code that serenity's error `e` carries: the `code` of
/// the JSON error of an unsuccessful HTTP request, `None` for any other
/// error.
pub uninterp spec fn code_of(e: serenity::prelude::SerenityError) -> Option<isize>;

/// The Discord error code of a failed HTTP request, if `e` is one: reads
/// `Error::Http(HttpError::UnsuccessfulRequest(resp))` and gives
/// `resp.error.code`.  The result is named `code_of`; it depends on `e`
/// alone.
#[verifier::external_body]
fn discord_code(e: &serenity::prelude::SerenityError) -> (code: Option<isize>)
    ensures
        code == code_of(*e),
{
    match e {
        serenity::Error::Http(serenity::all::HttpError::UnsuccessfulRequest(resp)) => Some(resp.error.code),
        _ => None,
    }
}

/// `m` is the message for a failed Discord request with error code `code`:
/// the framework's unknown-interaction message for 10062, the archived-thread
/// text for 50083, and none for every other code.
pub open spec fn is_code_message(m: Option<ErrorMessage>, code: Option<isize>) -> bool {
    match code {
        Some(c) if c == UNKNOWN_INTERACTION => m matches Some(ErrorMessage::UnknownInteraction),
        Some(c) if c == THREAD_ARCHIVED => m matches Some(ErrorMessage::Text(t))
            && t@ == "This thread has already been closed and archived."@,
        _ => m is None,
    }
}

impl Error {
    /// The message for a failed Discord request with error code `code`.
    pub fn message_for_code(code: Option<isize>) -> (m: Option<ErrorMessage>)
        ensures
            is_code_message(m, code),
    {
        match code {
            Some(c) => {
                if c == UNKNOWN_INTERACTION {
                    Some(ErrorMessage::UnknownInteraction)
                } else if c == THREAD_ARCHIVED {
                    Some(ErrorMessage::Text(String::from_str("This thread has already been closed and archived.")))
                } else {
                    None
                }
            },
            None => None,
        }
    }
}


impl Error {
    /// What the user is told about this error, as the error's `Display`
    /// decides it; `None` for a failed Discord request with any code but
    /// the two that have a message (there `Display` stops with
    /// "unhandled serenity error").
    pub fn message(&self) -> (m: Option<ErrorMessage>)
        ensures
            match self {
                Error::MissingGuildId => m matches Some(ErrorMessage::MissingGuildId),
                Error::NotInSupportChannel => m matches Some(ErrorMessage::Text(t))
                    && t@ == "This command only works in the support channel."@,
                Error::Serenity(e) => is_code_message(m, code_of(*e)),
            },
    {
        match self {
            Error::MissingGuildId => Some(ErrorMessage::MissingGuildId),
            Error::NotInSupportChannel => Some(
                ErrorMessage::Text(String::from_str("This command only works in the support channel.")),
            ),
            Error::Serenity(e) => Error::serenity_message(e),
        }
    }

    /// What the user is told about a failed Discord request: the message
    /// for its error code.
    pub fn serenity_message(e: &serenity::prelude::SerenityError) -> (m: Option<ErrorMessage>)
        ensures
            is_code_message(m, code_of(*e)),
    {
        Error::message_for_code(discord_code(e))
    }

    /// The Discord error code of a failed request, if this error is one.
    pub fn discord_code(&self) -> (code: Option<isize>)
        ensures
            code == match self {
                Error::Serenity(e) => code_of(*e),
                _ => None,
            },
    {
        match self {
            Error::Serenity(e) => discord_code(e),
            _ => None,
        }
    }

    /// Whether this error says that a message was already gone, which
    /// deleting a message may ignore.
    pub fn is_unknown_message(&self) -> (b: bool)
        ensures
            b == (self matches Error::Serenity(e) && code_of(*e) == Some(UNKNOWN_MESSAGE)),
    {
        Error::is_unknown_message_code(self.discord_code())
    }

    /// Whether a failed request with this Discord error code says that the
    /// message was already gone.
    pub fn is_unknown_message_code(code: Option<isize>) -> (b: bool)
        ensures
            b == (code == Some(UNKNOWN_MESSAGE)),
    {
        match code {
            Some(c) => c == UNKNOWN_MESSAGE,
            None => false,
        }
    }
}

impl From<serenity::prelude::SerenityError> for Error {
    fn from(value: serenity::prelude::SerenityError) -> (e: Error) {
        Error::Serenity(value)
    }
}

impl vstd::std_specs::convert::FromSpecImpl<serenity::prelude::SerenityError> for Error {
    open spec fn obeys_from_spec() -> bool {
        true
    }

    open spec fn from_spec(v: serenity::prelude::SerenityError) -> Error {
        Error::Serenity(v)
    }
}

} // verus!
