use vstd::prelude::*;

verus! {

/// What to search for, and in which file.
pub struct GrepConfg {
    query: String,
    filename: String,
}

impl GrepConfg {
    pub closed spec fn spec_query(&self) -> Seq<char> {
        self.query@
    }

    pub closed spec fn spec_filename(&self) -> Seq<char> {
        self.filename@
    }

    /// Reads the query and the file name from the command line's arguments, the program's
    /// name first.
    pub fn new(args: Vec<String>) -> (r: Result<GrepConfg, &'static str>)
        ensures
            r is Err <==> args@.len() < 3,
            r matches Ok(c) ==> c.spec_query() == args@[1]@ && c.spec_filename() == args@[2]@,
    {
        if args.len() < 3 {
            return Err("引数が足りません");
        }
        Ok(GrepConfg { query: args[1].clone(), filename: args[2].clone() })
    }

    pub fn query(&self) -> (r: &String)
        ensures
            r@ == self.spec_query(),
    {
        &self.query
    }

    pub fn filename(&self) -> (r: &String)
        ensures
            r@ == self.spec_filename(),
    {
        &self.filename
    }
}

} // verus!
