//! A named attribute value, as a downstream consumer of the token stream
//! would pair a name token with a following value token. The tokenizer never
//! builds this pairing itself; it only emits the flat token stream.

use vstd::prelude::*;
use vstd::string::StringExecFns;

verus! {

/// A `(name, value)` attribute pair.
#[derive(Clone, Eq, PartialEq, Hash, Debug)]
pub struct XmlAttribute {
    /// Attribute name.
    pub name: String,
    /// Attribute value.
    pub value: String,
}

/// The text an attribute renders to: `name="value"`.
pub open spec fn attribute_text(name: Seq<char>, value: Seq<char>) -> Seq<char> {
    name + seq!['=', '"'] + value + seq!['"']
}

impl XmlAttribute {
    /// Creates an attribute from an owned name and value.
    #[inline]
    pub fn new(name: String, value: String) -> (r: Option<XmlAttribute>)
        ensures
            r matches Some(a) && a.name == name && a.value == value,
    {
        Some(XmlAttribute { name, value })
    }

    /// Renders the attribute as `name="value"`.
    pub fn to_string(&self) -> (r: String)
        ensures
            r@ == attribute_text(self.name@, self.value@),
    {
        let mut r = self.name.clone();
        r.append("=\"");
        r.append(self.value.as_str());
        r.append("\"");
        proof {
            reveal_strlit("=\"");
            reveal_strlit("\"");
            assert(r@ =~= attribute_text(self.name@, self.value@));
        }
        r
    }
}

} // verus!
