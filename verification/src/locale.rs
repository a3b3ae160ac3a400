//! The language in which the library words what the user reads.

use vstd::prelude::*;
use vstd::string::*;
use vstd::utf8::encode_utf8;
use crate::text::{has_prefix, opt_text, starts_with};

verus! {

/// Calls `sys_locale::get_locale`, which reads the user's preferred locale
/// from the system. The answer depends on the machine and its settings, so
/// the contract promises nothing of it.
#[verifier::external_body]
pub(crate) fn system_locale() -> (r: Option<String>) {
    sys_locale::get_locale()
}

/// The locale is there and its tag begins with `ja`.
pub open spec fn is_japanese(locale: Option<Seq<char>>) -> bool {
    locale matches Some(tag) && has_prefix(encode_utf8(tag), encode_utf8("ja"@))
}

/// Whether a locale asks for Japanese.
pub fn speaks_japanese(locale: &Option<String>) -> (r: bool)
    ensures
        r == is_japanese(opt_text(*locale)),
{
    match locale {
        Some(tag) => starts_with(tag.as_str(), "ja"),
        None => false,
    }
}

/// Whether the user's system asks for Japanese.
pub fn prefers_japanese() -> (r: bool) {
    let locale = system_locale();
    speaks_japanese(&locale)
}

} // verus!
