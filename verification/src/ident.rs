use vstd::prelude::*;
use vstd::string::StrSliceExecFns;
use vstd::utf8::is_ascii_chars;

verus! {

/// A block height tagged with the revision number of the chain it belongs to.
///
/// A height of zero is not a valid block height; constructors reject it.
#[derive(Clone, Copy, Debug, PartialEq, Eq, Structural)]
pub struct Height {
    pub revision_number: u64,
    pub revision_height: u64,
}

impl Height {
    /// A well-formed height points at an actual block.
    pub open spec fn wf(self) -> bool {
        self.revision_height >= 1
    }

    /// Builds a height, rejecting the zero block height.
    pub fn new(revision_number: u64, revision_height: u64) -> (r: Option<Height>)
        ensures
            r == if revision_height >= 1 {
                Some(Height { revision_number, revision_height })
            } else {
                None::<Height>
            },
            r is Some ==> r->Some_0.wf(),
    {
        if revision_height >= 1 {
            Some(Height { revision_number, revision_height })
        } else {
            None
        }
    }
}

/// A packet sequence number.
#[derive(Clone, Copy, Debug, PartialEq, Eq, Structural)]
pub struct Sequence(pub u64);

/// A chain epoch, used to bound fee and gas validity of a wrapper transaction.
#[derive(Clone, Copy, Debug, PartialEq, Eq, Structural)]
pub struct Epoch(pub u64);

/// A character allowed inside an identifier: ASCII and not the path
/// segment separator.
pub open spec fn is_id_char(c: char) -> bool {
    c != '/' && '\0' <= c <= '\u{7f}'
}

/// True when every character of `s` may appear inside an identifier.
pub open spec fn id_chars_ok(s: Seq<char>) -> bool {
    forall|i: int| 0 <= i < s.len() ==> is_id_char(#[trigger] s[i])
}

/// A valid identifier is non-empty and made of identifier characters.
pub open spec fn valid_id(s: Seq<char>) -> bool {
    s.len() >= 1 && id_chars_ok(s)
}

/// True when `s` is the literal `lit`.
pub fn text_is(s: &String, lit: &str) -> (r: bool)
    ensures
        r == (s@ == lit@),
{
    let owned: String = lit.to_owned();
    *s == owned
}

/// A protocol identifier (client, connection, channel or port id, or a
/// chain address), stored as text that contains no path separator.
#[derive(Clone, Debug, PartialEq, Eq)]
pub struct Ident {
    text: String,
}

impl View for Ident {
    type V = Seq<char>;

    closed spec fn view(&self) -> Seq<char> {
        self.text@
    }
}

impl Ident {
    /// Every identifier this module hands out satisfies this.
    pub open spec fn wf(&self) -> bool {
        valid_id(self@)
    }

    /// Validates `text` as an identifier: non-empty ASCII without `/`.
    pub fn new(text: String) -> (r: Option<Ident>)
        ensures
            r is Some <==> valid_id(text@),
            r is Some ==> r->Some_0@ == text@,
    {
        if !text.as_str().is_ascii() {
            proof {
                if valid_id(text@) {
                    assert forall|i: int|
                        0 <= i < text@.len() implies '\0' <= #[trigger] text@[i]
                        <= '\u{7f}' by {
                        assert(is_id_char(text@[i]));
                    }
                    assert(is_ascii_chars(text@));
                }
            }
            return None;
        }
        let len = text.as_str().unicode_len();
        if len == 0 {
            return None;
        }
        let mut i: usize = 0;
        while i < len
            invariant
                0 <= i <= len,
                len == text@.len(),
                is_ascii_chars(text@),
                forall|j: int| 0 <= j < i ==> is_id_char(#[trigger] text@[j]),
            decreases len - i,
        {
            let c = text.as_str().get_char(i);
            if c == '/' {
                return None;
            }
            assert('\0' <= text@[i as int] <= '\u{7f}');
            i += 1;
        }
        Some(Ident { text })
    }

    /// The identifier's text.
    pub fn as_string(&self) -> (r: &String)
        ensures
            r@ == self@,
    {
        &self.text
    }

    /// A copy of the identifier's text, for building path segments.
    pub fn to_text(&self) -> (r: String)
        ensures
            r@ == self@,
    {
        self.text.clone()
    }

    /// A copy of the identifier.
    pub fn clone_id(&self) -> (r: Ident)
        ensures
            r@ == self@,
    {
        Ident { text: self.text.clone() }
    }

    /// Structural equality of two identifiers.
    pub fn text_eq(&self, other: &Ident) -> (r: bool)
        ensures
            r == (self@ == other@),
    {
        self.text == other.text
    }
}

} // verus!
