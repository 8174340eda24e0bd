//! The core of a speech provider for the eSpeak NG engine: the conversion
//! of the engine's callback blocks into an ordered audio and event stream,
//! the voice catalog, and the choice of engine voice for a request.
use vstd::prelude::*;

pub mod catalog;
pub mod request;
pub mod text;
pub mod translator;

verus! {

/// The provider's name as shown to callers.
pub fn provider_name() -> (r: String)
    ensures
        r@ == "eSpeak NG"@,
{
    String::from_str("eSpeak NG")
}

} // verus!
