use vstd::prelude::*;
use vstd::string::StringSliceAdditionalSpecFns;

verus! {

pub struct BreakFast {
    pub toast: String,
    seasonal_fruit: String,
}

#[derive(Clone, Copy, PartialEq, Eq, Structural, Debug)]
pub enum Language {
    Japanese,
    English,
}

impl Language {
    /// The language of a code: "ja" (bytes 106, 97) is Japanese, "en" (bytes 101, 110)
    /// English, and no other code is known.
    pub fn from_code(lang: &str) -> (r: Option<Language>)
        ensures
            r == (if lang.spec_bytes() == seq![106u8, 97u8] {
                Some(Language::Japanese)
            } else if lang.spec_bytes() == seq![101u8, 110u8] {
                Some(Language::English)
            } else {
                None
            }),
    {
        let b = lang.as_bytes();
        if b.len() != 2 {
            return None;
        }
        if b[0] == 106 && b[1] == 97 {
            proof {
                assert(lang.spec_bytes() =~= seq![106u8, 97u8]);
            }
            Some(Language::Japanese)
        } else if b[0] == 101 && b[1] == 110 {
            proof {
                assert(lang.spec_bytes() =~= seq![101u8, 110u8]);
            }
            Some(Language::English)
        } else {
            None
        }
    }
}

impl std::str::FromStr for Language {
    type Err = ();

    fn from_str(lang: &str) -> Result<Self, Self::Err> {
        match Language::from_code(lang) {
            Some(l) => Ok(l),
            None => Err(()),
        }
    }
}

impl BreakFast {
    pub closed spec fn spec_toast(&self) -> Seq<char> {
        self.toast@
    }

    pub closed spec fn spec_seasonal_fruit(&self) -> Seq<char> {
        self.seasonal_fruit@
    }

    /// The summer breakfast: the toast asked for, and apple.
    pub fn summer(toast: &str) -> (r: BreakFast)
        ensures
            r.spec_toast() == toast@,
            r.spec_seasonal_fruit() == "apple"@,
    {
        BreakFast { toast: toast.to_owned(), seasonal_fruit: "apple".to_owned() }
    }
}

pub fn sample_function() -> (r: u32)
    ensures
        r == 239,
{
    239
}

} // verus!
