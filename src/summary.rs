use vstd::prelude::*;
use vstd::string::{StringExecFns, StringSliceAdditionalSpecFns};
use vstd::utf8::{encode_utf8, is_char_boundary};

verus! {

pub trait Summary {
    fn summarize(&self) -> String;

    fn first_word(&self) -> &str;

    fn default(&self) -> (r: String)
        ensures
            r@ == "default words"@,
    {
        "default words".to_owned()
    }
}

pub struct Tweet {
    pub author: String,
    pub text: String,
}

/// Index of the first space among `bytes`, or their length when there is none.
pub open spec fn first_space(bytes: Seq<u8>) -> int
    decreases bytes.len(),
{
    if bytes.len() == 0 {
        0
    } else if bytes[0] == 32 {
        0
    } else {
        1 + first_space(bytes.subrange(1, bytes.len() as int))
    }
}

proof fn lemma_first_space(bytes: Seq<u8>, i: int)
    requires
        0 <= i <= bytes.len(),
        forall|k: int| 0 <= k < i ==> bytes[k] != 32,
        i == bytes.len() || bytes[i] == 32,
    ensures
        first_space(bytes) == i,
    decreases bytes.len(),
{
    if bytes.len() > 0 && bytes[0] != 32 {
        let rest = bytes.subrange(1, bytes.len() as int);
        lemma_first_space(rest, i - 1);
    }
}

impl Summary for Tweet {
    /// The author, then ". ", then the text.
    fn summarize(&self) -> (r: String)
        ensures
            r@ == self.author@ + ". "@ + self.text@,
    {
        self.author.clone().concat(". ").concat(self.text.as_str())
    }

    /// The text up to its first space, or the whole text when it has none. The cut falls on a
    /// character boundary in any valid text, and the whole text is returned where it would not.
    fn first_word(&self) -> (r: &str)
        ensures
            ({
                let b = encode_utf8(self.text@);
                is_char_boundary(b, first_space(b)) ==> r.spec_bytes() == b.subrange(0, first_space(b))
            }),
    {
        let s = self.text.as_str();
        let bytes = s.as_bytes();
        let mut i: usize = 0;
        while i < bytes.len() && bytes[i] != 32
            invariant
                0 <= i <= bytes@.len(),
                bytes@ == s.spec_bytes(),
                forall|k: int| 0 <= k < i ==> bytes@[k] != 32,
            decreases bytes@.len() - i,
        {
            i = i + 1;
        }
        proof {
            lemma_first_space(s.spec_bytes(), i as int);
        }
        if s.is_char_boundary(i) {
            s.split_at(i).0
        } else {
            s
        }
    }
}

} // verus!
