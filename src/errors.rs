use vstd::prelude::*;
use vstd::string::StringExecFns;

verus! {

/// Errors of the engine and of the application around it.
#[derive(Debug, Clone)]
pub enum EmojiError {
    Io(String),
    Json(String),
    Lock(String),
    Permission(String),
    Positioning(String),
    WindowHandle,
    MonitorNotFound,
    Panel(String),
    EmojiNotFound(String),
    InvalidInput(String),
    Tauri(String),
}

/// The message of an error: a fixed text for its kind, then its detail.
pub open spec fn error_message(e: EmojiError) -> Seq<char> {
    match e {
        EmojiError::Io(s) => "IO error: "@ + s@,
        EmojiError::Json(s) => "JSON error: "@ + s@,
        EmojiError::Lock(s) => "Lock error: "@ + s@,
        EmojiError::Permission(s) => "Permission error: "@ + s@,
        EmojiError::Positioning(s) => "Positioning error: "@ + s@,
        EmojiError::WindowHandle => "Window handle error"@,
        EmojiError::MonitorNotFound => "Monitor not found"@,
        EmojiError::Panel(s) => "Panel error: "@ + s@,
        EmojiError::EmojiNotFound(s) => "Emoji not found: "@ + s@,
        EmojiError::InvalidInput(s) => "Invalid input: "@ + s@,
        EmojiError::Tauri(s) => "Tauri error: "@ + s@,
    }
}

fn prefixed(prefix: &str, detail: &String) -> (r: String)
    ensures
        r@ == prefix@ + detail@,
{
    let mut r = prefix.to_owned();
    r.append(detail.as_str());
    r
}

impl EmojiError {
    /// The error's message, as it is shown to the user.
    pub fn message(&self) -> (r: String)
        ensures
            r@ == error_message(*self),
    {
        match self {
            EmojiError::Io(s) => prefixed("IO error: ", s),
            EmojiError::Json(s) => prefixed("JSON error: ", s),
            EmojiError::Lock(s) => prefixed("Lock error: ", s),
            EmojiError::Permission(s) => prefixed("Permission error: ", s),
            EmojiError::Positioning(s) => prefixed("Positioning error: ", s),
            EmojiError::WindowHandle => "Window handle error".to_owned(),
            EmojiError::MonitorNotFound => "Monitor not found".to_owned(),
            EmojiError::Panel(s) => prefixed("Panel error: ", s),
            EmojiError::EmojiNotFound(s) => prefixed("Emoji not found: ", s),
            EmojiError::InvalidInput(s) => prefixed("Invalid input: ", s),
            EmojiError::Tauri(s) => prefixed("Tauri error: ", s),
        }
    }
}

} // verus!
