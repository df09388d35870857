//! What the settings handlers answer: the status and text of each reply,
//! decided from what the request held and what the file system did.
use vstd::prelude::*;
use vstd::string::*;

verus! {

/// HTTP status of a request that was served.
pub const STATUS_OK: u16 = 200;

/// HTTP status of a request that is refused for what it holds.
pub const STATUS_BAD_REQUEST: u16 = 400;

/// HTTP status of a request that failed on the server's side.
pub const STATUS_INTERNAL_SERVER_ERROR: u16 = 500;

/// Why a request to change the fertiliser settings is refused.
#[derive(Clone, Copy, Debug, PartialEq, Eq, Structural)]
pub enum ChangeRejection {
    /// The request holds no field `name`.
    MissingName,
    /// The request holds a `name` but no field `kg`.
    MissingKg,
    /// The field `kg` is not a number.
    UnparsableKg,
}

/// The text sent back for each refusal.
pub open spec fn rejection_text(r: ChangeRejection) -> Seq<char> {
    match r {
        ChangeRejection::MissingName => "field missing: name"@,
        ChangeRejection::MissingKg => "field missing: kg"@,
        ChangeRejection::UnparsableKg => "cannot parse kg to float"@,
    }
}

/// A reply of a status and a text body.
pub struct TextReply {
    pub status: u16,
    pub body: String,
}

/// The reply to reading the settings file: JSON on success.
pub struct SettingsReply {
    pub status: u16,
    pub content_type: Option<String>,
    pub body: String,
}

impl ChangeRejection {
    /// The text sent back for this refusal.
    pub fn message(&self) -> (m: &'static str)
        ensures
            m@ == rejection_text(*self),
    {
        match self {
            ChangeRejection::MissingName => "field missing: name",
            ChangeRejection::MissingKg => "field missing: kg",
            ChangeRejection::UnparsableKg => "cannot parse kg to float",
        }
    }

    /// Every refusal is a bad request.
    pub fn status(&self) -> (s: u16)
        ensures
            s == STATUS_BAD_REQUEST,
    {
        STATUS_BAD_REQUEST
    }

    /// The reply that carries this refusal.
    pub fn reply(&self) -> (rep: TextReply)
        ensures
            rep.status == STATUS_BAD_REQUEST,
            rep.body@ == rejection_text(*self),
    {
        TextReply { status: self.status(), body: String::from_str(self.message()) }
    }
}

/// Checks the fields of a request to change the settings: the name comes
/// first, then the amount in kilograms, which the caller then reads as a
/// number. Returns both fields where both are there.
pub fn check_change_fields(name: Option<String>, kg: Option<String>) -> (r: Result<
    (String, String),
    ChangeRejection,
>)
    ensures
        name is None ==> r == Err::<(String, String), ChangeRejection>(
            ChangeRejection::MissingName,
        ),
        name is Some && kg is None ==> r == Err::<(String, String), ChangeRejection>(
            ChangeRejection::MissingKg,
        ),
        name is Some && kg is Some ==> r == Ok::<(String, String), ChangeRejection>(
            (name.unwrap(), kg.unwrap()),
        ),
{
    match name {
        None => Err(ChangeRejection::MissingName),
        Some(n) => match kg {
            None => Err(ChangeRejection::MissingKg),
            Some(k) => Ok((n, k)),
        },
    }
}

/// The reply to a change of settings that was applied.
pub fn accepted_reply() -> (rep: TextReply)
    ensures
        rep.status == STATUS_OK,
        rep.body@ == "ok"@,
{
    TextReply { status: STATUS_OK, body: String::from_str("ok") }
}

/// The reply to reading the settings file, from its content where it
/// could be read.
pub fn settings_reply(content: Option<String>) -> (rep: SettingsReply)
    ensures
        content is Some ==> {
            &&& rep.status == STATUS_OK
            &&& rep.content_type is Some
            &&& rep.content_type.unwrap()@ == "application/json; charset=utf-8"@
            &&& rep.body == content.unwrap()
        },
        content is None ==> {
            &&& rep.status == STATUS_INTERNAL_SERVER_ERROR
            &&& rep.content_type is None
            &&& rep.body@ == "duenger.json not found"@
        },
{
    match content {
        Some(json) => SettingsReply {
            status: STATUS_OK,
            content_type: Some(String::from_str("application/json; charset=utf-8")),
            body: json,
        },
        None => SettingsReply {
            status: STATUS_INTERNAL_SERVER_ERROR,
            content_type: None,
            body: String::from_str("duenger.json not found"),
        },
    }
}

/// The reply to writing the settings file, from the error's text where
/// the write failed.
pub fn save_reply(outcome: Result<(), String>) -> (rep: TextReply)
    ensures
        outcome is Ok ==> rep.status == STATUS_OK && rep.body@ == "ok"@,
        outcome is Err ==> rep.status == STATUS_INTERNAL_SERVER_ERROR && rep.body
            == outcome->Err_0,
{
    match outcome {
        Ok(()) => accepted_reply(),
        Err(e) => TextReply { status: STATUS_INTERNAL_SERVER_ERROR, body: e },
    }
}

} // verus!
