//! The run's configuration, taken from the command-line arguments.

use vstd::prelude::*;

verus! {

/// What to search for, where, and whether case matters.
pub struct Config<'a> {
    pub query: String,
    pub filenames: Vec<&'a String>,
    pub case_sensitive: bool,
}

impl<'a> Config<'a> {
    /// Builds the configuration from the program's arguments: the program
    /// name, the query, then one or more file names. Fails with "Not enough
    /// arguments" when there are fewer than three.
    pub fn new(args: &'a [String], case_sensitive: bool) -> (r: Result<Self, &'static str>)
        ensures
            r is Err <==> args@.len() < 3,
            match r {
                Ok(c) => {
                    &&& c.query@ == args@[1]@
                    &&& c.filenames@.len() == args@.len() - 2
                    &&& forall|i: int|
                        0 <= i < c.filenames@.len() ==> c.filenames@[i] == args@[i + 2]
                    &&& c.case_sensitive == case_sensitive
                },
                Err(msg) => msg@ == "Not enough arguments"@,
            },
    {
        if args.len() < 3 {
            return Err("Not enough arguments");
        }
        let query = args[1].clone();
        let mut filenames: Vec<&'a String> = Vec::new();
        let mut i: usize = 2;
        while i < args.len()
            invariant
                2 <= i <= args@.len(),
                filenames@.len() == i - 2,
                forall|k: int| 0 <= k < filenames@.len() ==> filenames@[k] == args@[k + 2],
            decreases args@.len() - i,
        {
            filenames.push(&args[i]);
            i = i + 1;
        }
        Ok(Config { query, filenames, case_sensitive })
    }
}

} // verus!
