use vstd::prelude::*;

pub mod constants;
pub mod embed;
pub mod extract;
pub mod gui;
pub mod invocation;
pub mod markdown;
pub mod paths;
pub mod pdf_object;
pub mod roundtrip;
pub mod status_messages;
pub mod template;
pub mod template_enum;
pub mod templates;
pub mod text;

verus! {
}
