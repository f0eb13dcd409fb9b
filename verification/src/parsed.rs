//! The parse result tree: what one concrete argument vector yielded at one
//! grammar scope.  Built once, at adapter construction, from the parsing
//! collaborator's output; read-only afterwards.

use vstd::prelude::*;

verus! {

/// One supplied argument: its supplied values, in order of occurrence on the
/// argument vector, and how often it occurred.
pub struct ArgMatch {
    pub name: String,
    pub values: Vec<String>,
    pub occurrences: u64,
}

/// The subcommand invoked at a scope, with its own nested parse results.
pub struct SubMatches {
    pub name: String,
    pub matches: Matches,
}

/// Parse results for one grammar scope: the supplied arguments, and the
/// invoked subcommand, if any.  An argument that was not supplied has no
/// entry.
pub struct Matches {
    pub args: Vec<ArgMatch>,
    pub sub: Option<Box<SubMatches>>,
}

/// First entry of the given name, if any.
pub open spec fn arg_at(args: Seq<ArgMatch>, k: Seq<char>) -> Option<ArgMatch>
    decreases args.len(),
{
    if args.len() == 0 {
        None
    } else if args[0].name@ == k {
        Some(args[0])
    } else {
        arg_at(args.subrange(1, args.len() as int), k)
    }
}

impl Matches {
    /// The values supplied for an argument, empty if it was not supplied.
    pub open spec fn spec_values(&self, k: Seq<char>) -> Seq<Seq<char>> {
        match arg_at(self.args@, k) {
            Some(a) => a.values.deep_view(),
            None => Seq::empty(),
        }
    }

    /// How often an argument was supplied, zero if never.
    pub open spec fn spec_occurrences(&self, k: Seq<char>) -> u64 {
        match arg_at(self.args@, k) {
            Some(a) => a.occurrences,
            None => 0,
        }
    }

    /// Whether an argument was supplied at all.
    pub open spec fn spec_present(&self, k: Seq<char>) -> bool {
        arg_at(self.args@, k) is Some
    }

    /// The name of the subcommand invoked at this scope, if any.
    pub open spec fn spec_sub_name(&self) -> Option<Seq<char>> {
        match self.sub {
            Some(b) => Some(b.name@),
            None => None,
        }
    }

    /// Look up the supplied argument of the given name.
    pub fn get_arg(&self, name: &String) -> (r: Option<&ArgMatch>)
        ensures
            match r {
                Some(a) => arg_at(self.args@, name@) == Some(*a),
                None => arg_at(self.args@, name@) is None,
            },
    {
        let n = self.args.len();
        let mut i: usize = 0;
        proof {
            assert(self.args@.subrange(0, n as int) =~= self.args@);
        }
        while i < n
            invariant
                i <= n,
                n == self.args.len(),
                arg_at(self.args@, name@) == arg_at(
                    self.args@.subrange(i as int, n as int),
                    name@,
                ),
            decreases n - i,
        {
            if self.args[i].name.eq(name) {
                proof {
                    let rest = self.args@.subrange(i as int, n as int);
                    assert(rest[0] == self.args@[i as int]);
                }
                return Some(&self.args[i]);
            }
            proof {
                let rest = self.args@.subrange(i as int, n as int);
                assert(rest[0] == self.args@[i as int]);
                assert(rest.subrange(1, rest.len() as int) =~= self.args@.subrange(
                    i + 1,
                    n as int,
                ));
            }
            i += 1;
        }
        proof {
            assert(self.args@.subrange(n as int, n as int) =~= Seq::<ArgMatch>::empty());
        }
        None
    }
}

} // verus!
