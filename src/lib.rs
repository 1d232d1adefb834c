// A minimal text-mode web client: locators are read into addresses, requests are written
// for them, responses are split into status line, headers and body, and bodies are shown
// with their markup stripped. Connections and printing are left to the caller.
use vstd::prelude::*;

pub mod headers;
pub mod locator;
pub mod render;
pub mod response;
pub mod text;

verus! {

} // verus!
