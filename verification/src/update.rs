//! The message shown after looking for a new release.

use vstd::prelude::*;

use crate::text::{chars_of, extend_str, string_of};

verus! {

/// How a look for a new release ended.
#[derive(Clone, Debug)]
pub enum UpdateOutcome {
    /// Already at the newest release, with its version.
    UpToDate(String),
    /// Updated to the given version; a restart applies it.
    Updated(String),
    /// The look or the download failed, with the reason.
    Failed(String),
}

/// The message for an outcome.
pub open spec fn update_message_spec(o: UpdateOutcome) -> Seq<char> {
    match o {
        UpdateOutcome::UpToDate(v) => "Ya estás en la última versión ("@ + v@ + ")"@,
        UpdateOutcome::Updated(v) => "Actualizado a "@ + v@ + " — reinicia la app para aplicar"@,
        UpdateOutcome::Failed(e) => "No se pudo actualizar: "@ + e@,
    }
}

/// The message shown in the interface for an outcome.
pub fn update_message(o: &UpdateOutcome) -> (r: String)
    ensures
        r@ == update_message_spec(*o),
{
    let (pre, text, post) = match o {
        UpdateOutcome::UpToDate(v) => ("Ya estás en la última versión (", v, ")"),
        UpdateOutcome::Updated(v) => ("Actualizado a ", v, " — reinicia la app para aplicar"),
        UpdateOutcome::Failed(e) => ("No se pudo actualizar: ", e, ""),
    };
    let mut m = chars_of(pre);
    extend_str(&mut m, text.as_str());
    extend_str(&mut m, post);
    proof {
        reveal_strlit("");
    }
    string_of(&m)
}

} // verus!
