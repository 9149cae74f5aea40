//! The application's error type and its user-facing messages.
use crate::text::{append_chars, append_str, chars_of, string_of};
use vstd::prelude::*;

verus! {

/// Everything that can go wrong in the library, by kind.
#[derive(Debug, Clone)]
pub enum AppError {
    Archive(String),
    Database(String),
    Sync(String),
    Validation(String),
    Auth(String),
    Io(String),
    ArchiveZipSlip { entry: String, reason: String },
    ArchiveEntryNotFound(String),
    ArchiveReservedName(String),
}

pub type AppResult<T> = Result<T, AppError>;

/// The message shown to the user for an error.
pub open spec fn error_message(e: AppError) -> Seq<char> {
    match e {
        AppError::Archive(s) => "Ошибка архива: "@ + s@,
        AppError::Database(s) => "Ошибка базы данных: "@ + s@,
        AppError::Sync(s) => "Ошибка синхронизации: "@ + s@,
        AppError::Validation(s) => "Ошибка валидации: "@ + s@,
        AppError::Auth(s) => "Ошибка аутентификации: "@ + s@,
        AppError::Io(s) => "IO: "@ + s@,
        AppError::ArchiveZipSlip { entry, reason } => "Zip Slip: "@ + entry@ + " — "@ + reason@,
        AppError::ArchiveEntryNotFound(s) => "Запись не найдена: "@ + s@,
        AppError::ArchiveReservedName(s) => "Зарезервированное имя Windows: "@ + s@,
    }
}

fn prefixed(prefix: &str, s: &String) -> (res: String)
    ensures
        res@ == prefix@ + s@,
{
    let mut v: Vec<char> = Vec::new();
    append_str(&mut v, prefix);
    let t = chars_of(s.as_str());
    append_chars(&mut v, &t);
    string_of(&v)
}

impl AppError {
    /// The message shown to the user (the error's display text).
    pub fn message(&self) -> (res: String)
        ensures
            res@ == error_message(*self),
    {
        match self {
            AppError::Archive(s) => prefixed("Ошибка архива: ", s),
            AppError::Database(s) => prefixed("Ошибка базы данных: ", s),
            AppError::Sync(s) => prefixed("Ошибка синхронизации: ", s),
            AppError::Validation(s) => prefixed("Ошибка валидации: ", s),
            AppError::Auth(s) => prefixed("Ошибка аутентификации: ", s),
            AppError::Io(s) => prefixed("IO: ", s),
            AppError::ArchiveZipSlip { entry, reason } => {
                let mut v: Vec<char> = Vec::new();
                append_str(&mut v, "Zip Slip: ");
                let e = chars_of(entry.as_str());
                append_chars(&mut v, &e);
                append_str(&mut v, " — ");
                let r = chars_of(reason.as_str());
                append_chars(&mut v, &r);
                string_of(&v)
            },
            AppError::ArchiveEntryNotFound(s) => prefixed("Запись не найдена: ", s),
            AppError::ArchiveReservedName(s) => prefixed("Зарезервированное имя Windows: ", s),
        }
    }
}


/// Whether `e` is an archive error whose text is `text`.
pub open spec fn is_archive_error(e: AppError, text: Seq<char>) -> bool {
    e matches AppError::Archive(m) && m@ == text
}

/// An archive error with the text `prefix` followed by `tail`.
pub fn archive_error(prefix: &str, tail: &Vec<char>) -> (res: AppError)
    ensures
        is_archive_error(res, prefix@ + tail@),
{
    let mut v: Vec<char> = Vec::new();
    append_str(&mut v, prefix);
    append_chars(&mut v, tail);
    AppError::Archive(string_of(&v))
}

/// An archive error with the text `text`.
pub fn archive_error_str(text: &str) -> (res: AppError)
    ensures
        is_archive_error(res, text@),
{
    AppError::Archive(String::from_str(text))
}


/// Whether `e` is a validation error whose text is `text`.
pub open spec fn is_validation_error(e: AppError, text: Seq<char>) -> bool {
    e matches AppError::Validation(m) && m@ == text
}

/// A validation error with the text `prefix` followed by `tail`.
pub fn validation_error(prefix: &str, tail: &Vec<char>) -> (res: AppError)
    ensures
        is_validation_error(res, prefix@ + tail@),
{
    let mut v: Vec<char> = Vec::new();
    append_str(&mut v, prefix);
    append_chars(&mut v, tail);
    AppError::Validation(string_of(&v))
}


/// Whether `e` is a sync error whose text is `text`.
pub open spec fn is_sync_error(e: AppError, text: Seq<char>) -> bool {
    e matches AppError::Sync(m) && m@ == text
}

/// Whether `e` is an authentication error whose text is `text`.
pub open spec fn is_auth_error(e: AppError, text: Seq<char>) -> bool {
    e matches AppError::Auth(m) && m@ == text
}

} // verus!
