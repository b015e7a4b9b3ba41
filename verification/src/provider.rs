//! What a provider is asked to list in: the working directory and the flags
//! the user passed.

use vstd::prelude::*;
use vstd::string::*;

use crate::item::Item;
use crate::text::str_eq;

verus! {

/// The directory a listing is made in and the user's flags, e.g. `a`,
/// `all`, `hidden`. Flags form a set: order and repeats carry no meaning.
#[derive(Debug, Clone)]
pub struct Context {
    pub cwd: String,
    pub flags: Vec<String>,
}

/// The set of flags, by their characters.
pub open spec fn flag_set(flags: Seq<String>) -> Set<Seq<char>> {
    Set::new(|f: Seq<char>| exists|i: int| 0 <= i < flags.len() && flags[i]@ == f)
}

impl Context {
    /// A context with no flags.
    pub fn new(cwd: &str) -> (r: Context)
        ensures
            r.cwd@ == cwd@,
            flag_set(r.flags@) == Set::<Seq<char>>::empty(),
    {
        let r = Context { cwd: String::from_str(cwd), flags: Vec::new() };
        assert(flag_set(r.flags@) =~= Set::<Seq<char>>::empty());
        r
    }

    /// This context with its flags replaced.
    pub fn with_flags(self, flags: Vec<String>) -> (r: Context)
        ensures
            r.cwd == self.cwd,
            r.flags == flags,
    {
        Context { cwd: self.cwd, flags }
    }

    /// Whether the flag `name` was passed.
    pub fn has_flag(&self, name: &str) -> (r: bool)
        ensures
            r == flag_set(self.flags@).contains(name@),
    {
        let n = self.flags.len();
        for i in 0..n
            invariant
                n == self.flags@.len(),
                forall|j: int| 0 <= j < i ==> self.flags@[j]@ != name@,
        {
            if str_eq(self.flags[i].as_str(), name) {
                return true;
            }
        }
        false
    }
}

/// What every provider answers without listing: its name and the shell
/// command that previews one of its items, if it has one. Listing itself
/// reads the machine and is done where I/O is.
pub trait Provider {
    fn name(&self) -> &str;

    fn preview_cmd(&self, item: &Item) -> Option<String>;
}

} // verus!
