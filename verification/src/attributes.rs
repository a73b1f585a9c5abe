//! The fixed catalogue of recognized global markup attributes: attributes
//! that apply to every element, each with its defined serialized name.

use vstd::prelude::*;

verus! {

/// The global attributes, those which apply to every element within an
/// HTML file.
#[derive(Clone, Copy, Debug, PartialEq, Eq, Structural)]
pub enum GlobalAttributes {
    /// A hint for generating a keyboard shortcut for the element; a single
    /// printable character.
    AccessKey,
    /// How text is automatically capitalized on non-physical input devices
    /// such as virtual keyboards.
    AutoCapitalize,
    /// The language of the element; defaults to the empty string (language
    /// unknown), so it should always be set.
    Lang,
    /// Styling declarations applied to the element.
    Style,
    /// The title of the element, read to screen readers for frames.
    Title,
    /// The classes of the element, separated by ASCII whitespace.
    Class,
}

/// The total mapping from each catalogue entry to its serialized
/// attribute-name string.
pub open spec fn attr_name_spec(a: GlobalAttributes) -> Seq<char> {
    match a {
        GlobalAttributes::AccessKey => "accesskey"@,
        GlobalAttributes::AutoCapitalize => "autocapitalize"@,
        GlobalAttributes::Lang => "lang"@,
        GlobalAttributes::Style => "style"@,
        GlobalAttributes::Title => "title"@,
        GlobalAttributes::Class => "class"@,
    }
}

impl GlobalAttributes {
    /// The serialized name of this attribute.
    pub fn as_str(&self) -> (r: &'static str)
        ensures
            r@ == attr_name_spec(*self),
    {
        match self {
            GlobalAttributes::AccessKey => "accesskey",
            GlobalAttributes::AutoCapitalize => "autocapitalize",
            GlobalAttributes::Lang => "lang",
            GlobalAttributes::Style => "style",
            GlobalAttributes::Title => "title",
            GlobalAttributes::Class => "class",
        }
    }
}

} // verus!
