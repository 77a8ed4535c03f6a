//! Text that is either borrowed from the parsed buffer or owned.

use vstd::prelude::*;
use vstd::string::StringSliceAdditionalSpecFns;
use vstd::utf8::valid_utf8;

verus! {

/// A run of bytes of the parsed document, borrowed from the input where no
/// copy was needed, or owned once it has been detached from it.
#[derive(Debug)]
pub enum Text<'a> {
    Borrowed(&'a [u8]),
    Owned(Vec<u8>),
}

impl<'a> View for Text<'a> {
    type V = Seq<u8>;

    open spec fn view(&self) -> Seq<u8> {
        match self {
            Text::Borrowed(b) => b@,
            Text::Owned(v) => v@,
        }
    }
}

impl<'a> Text<'a> {
    /// The bytes of this text.
    pub fn as_bytes(&self) -> (r: &[u8])
        ensures
            r@ == self@,
    {
        match self {
            Text::Borrowed(b) => b,
            Text::Owned(v) => v.as_slice(),
        }
    }

    /// A copy of this text that owns its bytes.
    pub fn into_owned(self) -> (r: Text<'static>)
        ensures
            r@ == self@,
            r is Owned,
    {
        match self {
            Text::Borrowed(b) => Text::Owned(vstd::slice::slice_to_vec(b)),
            Text::Owned(v) => Text::Owned(v),
        }
    }

    /// Whether this text holds the same bytes as `other`.
    pub fn eq_bytes(&self, other: &[u8]) -> (r: bool)
        ensures
            r == (self@ == other@),
    {
        crate::scan::bytes_eq(self.as_bytes(), other)
    }
}

impl<'a, 'b> PartialEq<Text<'b>> for Text<'a> {
    /// Texts are equal where their bytes are, borrowed or owned.
    fn eq(&self, other: &Text<'b>) -> (r: bool) {
        self.eq_bytes(other.as_bytes())
    }
}

impl<'a, 'b> vstd::std_specs::cmp::PartialEqSpecImpl<Text<'b>> for Text<'a> {
    open spec fn obeys_eq_spec() -> bool {
        true
    }

    open spec fn eq_spec(&self, other: &Text<'b>) -> bool {
        self@ == other@
    }
}

/// Relies on std::str::from_utf8: it succeeds exactly where `b` is valid UTF-8,
/// and then gives a string of the same bytes.
#[verifier::external_body]
pub(crate) fn utf8_str(b: &[u8]) -> (r: Option<&str>)
    ensures
        r is Some <==> valid_utf8(b@),
        r matches Some(s) ==> s.spec_bytes() == b@,
{
    std::str::from_utf8(b).ok()
}

} // verus!
