//! Printing, as far as the crate does it by itself.

use vstd::prelude::*;

verus! {

/// The formatters of the standard library. Nothing is known of what is inside.
#[verifier::external_type_specification]
#[verifier::external_body]
pub struct ExFormatter<'a>(core::fmt::Formatter<'a>);

/// The error of a formatter of the standard library.
#[verifier::external_type_specification]
#[verifier::external_body]
pub struct ExFormatError(core::fmt::Error);

/// The text that has been written through a formatter so far.
pub uninterp spec fn text_written(formatter: core::fmt::Formatter<'_>) -> Seq<char>;

/// `core::fmt::Formatter::write_str` writes the given text, all of it, behind what has been
/// written before, or fails. When it fails is left unsaid: that is up to what the text is written
/// to.
pub assume_specification<'a>[ core::fmt::Formatter::<'a>::write_str ](
    formatter: &mut core::fmt::Formatter<'a>,
    data: &str,
) -> (written: core::fmt::Result)
    ensures
        written is Ok ==> text_written(*final(formatter)) == text_written(*old(formatter)) + data@,
;

} // verus!
