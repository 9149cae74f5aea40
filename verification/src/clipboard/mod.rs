//! Copying files to the system clipboard, which this build does not offer (the
//! clipboard holds file lists on Windows only).
use crate::error::{is_archive_error, AppError, AppResult};
use vstd::prelude::*;

verus! {

/// Refused: files can be copied to the clipboard on Windows only.
pub fn copy_files_to_clipboard(paths: &[String]) -> (res: AppResult<()>)
    ensures
        res matches Err(e) && is_archive_error(
            e,
            "Копирование файлов в буфер поддерживается только на Windows"@,
        ),
{
    Err(AppError::Archive(String::from_str("Копирование файлов в буфер поддерживается только на Windows")))
}

/// No files: the clipboard holds no file list outside Windows.
pub fn read_clipboard_files() -> (res: AppResult<Vec<String>>)
    ensures
        res matches Ok(v) && v@.len() == 0,
{
    Ok(Vec::new())
}

} // verus!
