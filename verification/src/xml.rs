//! The event model of the XML layer.  The surrounding binding tokenises
//! each part of the container and hands the decoder one plain event at a
//! time: element open, self-closing element, text, element close, or end
//! of the part.
use vstd::prelude::*;

verus! {

/// One event of a part's XML stream.  Attribute values arrive unescaped.
#[derive(Debug, Clone)]
pub enum XmlEvent {
    /// An opening tag with its attributes.
    Start { name: String, attrs: Vec<(String, String)> },
    /// A self-closing tag with its attributes.
    Empty { name: String, attrs: Vec<(String, String)> },
    /// Text content.
    Text { text: String },
    /// A closing tag.
    End { name: String },
    /// The end of the part.
    Eof,
}

/// The value of the first attribute with the given name, if any.
pub open spec fn spec_attr(attrs: Seq<(String, String)>, name: Seq<char>) -> Option<Seq<char>>
    decreases attrs.len(),
{
    if attrs.len() == 0 {
        None
    } else if attrs[0].0@ == name {
        Some(attrs[0].1@)
    } else {
        spec_attr(attrs.skip(1), name)
    }
}

/// Look up an attribute by name; the first occurrence wins.
pub fn find_attr<'a>(attrs: &'a Vec<(String, String)>, name: &str) -> (r: Option<&'a String>)
    ensures
        match r {
            Some(v) => spec_attr(attrs@, name@) == Some(v@),
            None => spec_attr(attrs@, name@) is None,
        },
{
    let n = attrs.len();
    let mut i: usize = 0;
    proof {
        assert(attrs@.skip(0) =~= attrs@);
    }
    while i < n
        invariant
            i <= n == attrs@.len(),
            spec_attr(attrs@, name@) == spec_attr(attrs@.skip(i as int), name@),
        decreases n - i,
    {
        proof {
            assert(attrs@.skip(i as int)[0] == attrs@[i as int]);
            assert(attrs@.skip(i as int).skip(1) =~= attrs@.skip(i + 1));
        }
        if crate::text::str_eq(attrs[i].0.as_str(), name) {
            return Some(&attrs[i].1);
        }
        i += 1;
    }
    proof {
        assert(attrs@.skip(n as int) =~= Seq::<(String, String)>::empty());
    }
    None
}

} // verus!
