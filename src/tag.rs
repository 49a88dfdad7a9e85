use vstd::prelude::*;
use vstd::utf8::encode_utf8;

verus! {

/// An annotation attached to a metric: a bare label or a `key:value` pair.
pub enum Tag {
    Single(String),
    KeyValue(String, String),
}

impl Tag {
    /// The characters this tag renders to on the wire.
    pub open spec fn rendered(&self) -> Seq<char> {
        match self {
            Tag::Single(t) => t@,
            Tag::KeyValue(k, v) => k@ + seq![':'] + v@,
        }
    }

    /// The bytes this tag contributes to a frame.
    pub open spec fn rendered_bytes(&self) -> Seq<u8> {
        match self {
            Tag::Single(t) => encode_utf8(t@),
            Tag::KeyValue(k, v) => encode_utf8(k@) + seq![58u8] + encode_utf8(v@),
        }
    }

    /// Renders the tag as text: `Single(t)` gives `t`, `KeyValue(k, v)` gives `k:v`.
    pub fn render(self) -> (r: String)
        ensures
            r@ == self.rendered(),
    {
        let r = match self {
            Tag::Single(single) => single,
            Tag::KeyValue(key, value) => {
                proof {
                    reveal_strlit(":");
                }
                let joined = key.concat(":");
                joined.concat(value.as_str())
            },
        };
        r
    }
}

} // verus!
