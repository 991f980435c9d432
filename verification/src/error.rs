//! Errors of the runtime, with the messages they display.
use vstd::prelude::*;
use crate::digest::{debug_strings, spec_debug_strings};
use crate::text::{append_str, chars_of, string_from_chars};

verus! {

/// Why a runtime operation failed.
#[derive(Debug)]
pub enum RuntimeError {
    Validation(String),
    Binding { missing: Vec<String>, available: Vec<String> },
    PolicyDeny(String),
    Engine(String),
    Json(String),
}

pub type Result<T> = core::result::Result<T, RuntimeError>;

/// The mathematical model of a runtime error.
pub enum ErrModel {
    Validation(Seq<char>),
    Binding(Seq<Seq<char>>, Seq<Seq<char>>),
    PolicyDeny(Seq<char>),
    Engine(Seq<char>),
    Json(Seq<char>),
}

impl View for RuntimeError {
    type V = ErrModel;

    open spec fn view(&self) -> ErrModel {
        match *self {
            RuntimeError::Validation(m) => ErrModel::Validation(m@),
            RuntimeError::Binding { missing, available } => ErrModel::Binding(
                strings_view(missing@),
                strings_view(available@),
            ),
            RuntimeError::PolicyDeny(m) => ErrModel::PolicyDeny(m@),
            RuntimeError::Engine(m) => ErrModel::Engine(m@),
            RuntimeError::Json(m) => ErrModel::Json(m@),
        }
    }
}

/// The views of a list of strings.
pub open spec fn strings_view(v: Seq<String>) -> Seq<Seq<char>> {
    v.map_values(|s: String| s@)
}

/// The text an error displays.
pub open spec fn err_text(e: ErrModel) -> Seq<char> {
    match e {
        ErrModel::Validation(m) => "validation: "@ + m,
        ErrModel::Binding(missing, available) => "binding: missing inputs: "@ + spec_debug_strings(
            missing,
        ) + ", available vars: "@ + spec_debug_strings(available),
        ErrModel::PolicyDeny(m) => "policy deny: "@ + m,
        ErrModel::Engine(m) => "engine: "@ + m,
        ErrModel::Json(m) => "serde-json: "@ + m,
    }
}

impl RuntimeError {
    /// The text this error displays.
    pub fn message(&self) -> (r: String)
        ensures
            r@ == err_text(self@),
    {
        let mut out: Vec<char> = Vec::new();
        match self {
            RuntimeError::Validation(m) => {
                append_str(&mut out, "validation: ");
                append_str(&mut out, m.as_str());
            },
            RuntimeError::Binding { missing, available } => {
                append_str(&mut out, "binding: missing inputs: ");
                let a = debug_strings(missing);
                assert(missing@.map_values(|s: String| s@) == strings_view(missing@));
                append_str(&mut out, a.as_str());
                append_str(&mut out, ", available vars: ");
                let b = debug_strings(available);
                assert(available@.map_values(|s: String| s@) == strings_view(available@));
                append_str(&mut out, b.as_str());
            },
            RuntimeError::PolicyDeny(m) => {
                append_str(&mut out, "policy deny: ");
                append_str(&mut out, m.as_str());
            },
            RuntimeError::Engine(m) => {
                append_str(&mut out, "engine: ");
                append_str(&mut out, m.as_str());
            },
            RuntimeError::Json(m) => {
                append_str(&mut out, "serde-json: ");
                append_str(&mut out, m.as_str());
            },
        }
        assert(out@ =~= err_text(self@));
        string_from_chars(&out)
    }
}

} // verus!
