//! `POST /register`: another local app registers itself as a backend.
use vstd::prelude::*;

use crate::config::{ServerEntry, Transport, opt_pairs, opt_str, opt_strs};
use crate::text::{is_blank, is_blank_str};

verus! {

/// The body of a registration request, as parsed.
pub struct RegisterRequest {
    pub name: String,
    pub transport: Transport,
    pub command: Option<String>,
    pub args: Option<Vec<String>>,
    pub env: Option<Vec<(String, String)>>,
    pub url: Option<String>,
    /// Whether the server starts out active (`default_true` when absent).
    pub active: bool,
}

/// The default of `active` in a registration request: a registered server
/// is active unless the request says otherwise.
pub fn default_true() -> (r: bool)
    ensures
        r,
{
    true
}

/// Why a registration was refused.
pub enum RegisterError {
    /// The name is blank.
    NameRequired,
}

impl RegisterError {
    pub fn message(&self) -> (r: String)
        ensures
            r@ == "name is required"@,
    {
        "name is required".to_owned()
    }
}

/// The entry a registration request asks for: a blank id (a fresh one is
/// given when it is stored), the request's fields, and no extra headers.
/// A blank name is refused.
pub fn register_entry(req: RegisterRequest) -> (r: Result<ServerEntry, RegisterError>)
    ensures
        match r {
            Ok(e) => !is_blank(req.name@) && e.id@ == Seq::<char>::empty() && e.name@ == req.name@
                && e.transport == req.transport && opt_str(e.command) == opt_str(req.command)
                && opt_strs(e.args) == opt_strs(req.args) && opt_pairs(e.env) == opt_pairs(req.env)
                && opt_str(e.url) == opt_str(req.url) && e.headers is None && e.active == req.active,
            Err(_) => is_blank(req.name@),
        },
{
    if is_blank_str(req.name.as_str()) {
        return Err(RegisterError::NameRequired);
    }
    let e = ServerEntry {
        id: String::new(),
        name: req.name,
        transport: req.transport,
        command: req.command,
        args: req.args,
        env: req.env,
        url: req.url,
        headers: None,
        active: req.active,
    };
    assert(e.id@ =~= Seq::<char>::empty());
    Ok(e)
}

} // verus!
