//! Writing values for people to read.

use vstd::prelude::*;

verus! {

/// `core::fmt::Formatter`; [`text_written`] names what has been written to it.
#[verifier::external_type_specification]
#[verifier::external_body]
pub struct ExFormatter<'a>(core::fmt::Formatter<'a>);

/// `core::fmt::Error`, carried and not looked into.
#[verifier::external_type_specification]
#[verifier::external_body]
pub struct ExFmtError(core::fmt::Error);

/// The text that has been written to a `core::fmt::Formatter`.
pub uninterp spec fn text_written(f: core::fmt::Formatter<'_>) -> Seq<char>;

/// `core::fmt::Formatter::write_str`: where it succeeds, the text has been written after
/// what was written before. Whether it succeeds is up to what the formatter writes to.
#[verifier::external_body]
pub(crate) fn write_text(f: &mut core::fmt::Formatter<'_>, text: &str) -> (r: Result<
    (),
    core::fmt::Error,
>)
    ensures
        r is Ok ==> text_written(*final(f)) == text_written(*old(f)) + text@,
{
    f.write_str(text)
}

} // verus!
