//! The value extractor and the adapter: walks parse results in lock-step
//! with the classification tree and produces the extracted value tree,
//! optionally recording the invoked top-level subcommand under a synthetic
//! key.

use crate::parsed::Matches;
use crate::schema::{class_view, get_args_types, schema_of, tbl_view, ArgTypes, Class, CliType,
    Grammar};
use crate::tables::{tbl_insert, tbl_unique};
use crate::value::{val_view, Val, Value, ValueMap};
use vstd::prelude::*;

verus! {

/// The value one classified argument contributes at a scope, or `None` where
/// the key is omitted.
pub open spec fn entry_val(k: Seq<char>, c: Class, m: Matches) -> Option<Val>
    decreases c,
{
    match c {
        Class::Multiple => if m.spec_values(k).len() > 0 {
            Some(Val::Arr(m.spec_values(k)))
        } else {
            None
        },
        Class::Single => if m.spec_values(k).len() > 0 {
            Some(Val::Str(m.spec_values(k)[0]))
        } else {
            None
        },
        Class::Count => Some(Val::Int(m.spec_occurrences(k))),
        Class::Boolean => Some(Val::Bool(m.spec_present(k))),
        Class::Sub(st) => match m.sub {
            Some(b) => if b.name@ == k {
                Some(Val::Table(extract_of(st, b.matches)))
            } else {
                None
            },
            None => None,
        },
    }
}

/// The extracted value tree of one scope: each classified argument, in table
/// order, contributes its value or is omitted.
pub open spec fn extract_of(t: Seq<(Seq<char>, Class)>, m: Matches) -> Seq<(Seq<char>, Val)>
    decreases t,
{
    if t.len() == 0 {
        Seq::empty()
    } else {
        let pre = extract_of(t.subrange(0, t.len() - 1), m);
        match entry_val(t[t.len() - 1].0, t[t.len() - 1].1, m) {
            Some(v) => pre.push((t[t.len() - 1].0, v)),
            None => pre,
        }
    }
}

/// The adapter: a classification tree and the parse results it was built
/// beside, plus the optional name of the synthetic subcommand key.
pub struct Clap {
    pub args: ArgTypes,
    pub matches: Matches,
    pub subcommand_field: Option<String>,
}

/// What `Clap::collect` returns: the root scope's extracted value tree, with
/// the synthetic subcommand key inserted when configured and a subcommand was
/// invoked.
pub open spec fn collect_of(c: Clap) -> Seq<(Seq<char>, Val)> {
    let base = extract_of(c.args@, c.matches);
    match (c.subcommand_field, c.matches.spec_sub_name()) {
        (Some(f), Some(s)) => tbl_insert(base, f@, Val::Str(s)),
        _ => base,
    }
}

/// Copy a list of supplied values.
fn clone_strings(v: &Vec<String>) -> (r: Vec<String>)
    ensures
        r@ == v@,
{
    let mut r: Vec<String> = Vec::new();
    let n = v.len();
    let mut i: usize = 0;
    while i < n
        invariant
            i <= n,
            n == v.len(),
            r@ == v@.subrange(0, i as int),
        decreases n - i,
    {
        r.push(v[i].clone());
        proof {
            assert(r@ =~= v@.subrange(0, i + 1));
        }
        i += 1;
    }
    proof {
        assert(v@.subrange(0, n as int) =~= v@);
    }
    r
}

/// Append one key/value entry to a value table.
fn push_entry(out: &mut ValueMap, name: &String, v: Value)
    ensures
        final(out)@ == old(out)@.push((name@, val_view(v))),
{
    out.entries.push((name.clone(), v));
    proof {
        assert(out.entries@.subrange(0, out.entries@.len() - 1) =~= old(out).entries@);
        assert(out@ =~= old(out)@.push(
            (out.entries@[out.entries@.len() - 1].0@, val_view(
                out.entries@[out.entries@.len() - 1].1,
            )),
        ));
    }
}

/// Walk one scope of the classification tree against its parse results.
fn extract_matches(t: &ArgTypes, m: &Matches) -> (r: ValueMap)
    ensures
        r@ == extract_of(t@, *m),
    decreases *t,
{
    let mut out = ValueMap { entries: Vec::new() };
    let n = t.entries.len();
    let mut i: usize = 0;
    proof {
        assert(out@ =~= Seq::<(Seq<char>, Val)>::empty());
        assert(t.entries@.subrange(0, 0) =~= Seq::<(String, CliType)>::empty());
    }
    while i < n
        invariant
            i <= n,
            n == t.entries.len(),
            out@ == extract_of(tbl_view(t.entries@.subrange(0, i as int)), *m),
        decreases n - i,
    {
        let ghost pre_out = out@;
        let name = &t.entries[i].0;
        let ghost k = t.entries@[i as int].0@;
        let ghost c = class_view(t.entries@[i as int].1);
        match &t.entries[i].1 {
            CliType::Multiple => {
                match m.get_arg(name) {
                    Some(a) => {
                        if a.values.len() > 0 {
                            let vals = clone_strings(&a.values);
                            proof {
                                assert(vals.deep_view() =~= a.values.deep_view());
                            }
                            push_entry(&mut out, name, Value::Arr(vals));
                            proof {
                                assert(out@ == pre_out.push((k, Val::Arr(m.spec_values(k)))));
                            }
                        }
                    },
                    None => {},
                }
            },
            CliType::Single => {
                match m.get_arg(name) {
                    Some(a) => {
                        if a.values.len() > 0 {
                            let v0 = a.values[0].clone();
                            push_entry(&mut out, name, Value::Str(v0));
                            proof {
                                assert(m.spec_values(k)[0] == a.values@[0]@);
                                assert(out@ == pre_out.push((k, Val::Str(m.spec_values(k)[0]))));
                            }
                        }
                    },
                    None => {},
                }
            },
            CliType::Count => {
                let cnt = match m.get_arg(name) {
                    Some(a) => a.occurrences,
                    None => 0,
                };
                push_entry(&mut out, name, Value::Int(cnt));
                proof {
                    assert(out@ == pre_out.push((k, Val::Int(m.spec_occurrences(k)))));
                }
            },
            CliType::Boolean => {
                let present = match m.get_arg(name) {
                    Some(_) => true,
                    None => false,
                };
                push_entry(&mut out, name, Value::Bool(present));
                proof {
                    assert(out@ == pre_out.push((k, Val::Bool(m.spec_present(k)))));
                }
            },
            CliType::Subcommand(sub_t) => {
                match &m.sub {
                    Some(b) => {
                        if b.name.eq(name) {
                            proof {
                                assert(decreases_to!(*t => *sub_t));
                            }
                            let subv = extract_matches(sub_t, &b.matches);
                            push_entry(&mut out, name, Value::Table(subv));
                            proof {
                                assert(out@ == pre_out.push(
                                    (k, Val::Table(extract_of(sub_t@, b.matches))),
                                ));
                            }
                        }
                    },
                    None => {},
                }
            },
        }
        proof {
            let pre_s = t.entries@.subrange(0, i as int);
            let cur_s = t.entries@.subrange(0, i + 1);
            assert(cur_s.subrange(0, cur_s.len() - 1) =~= pre_s);
            assert(cur_s[cur_s.len() - 1] == t.entries@[i as int]);
            let tv = tbl_view(cur_s);
            assert(tv.subrange(0, tv.len() - 1) =~= tbl_view(pre_s));
            assert(tv[tv.len() - 1] == (k, c));
            assert(extract_of(tv.subrange(0, tv.len() - 1), *m) == pre_out);
            let ev = entry_val(k, c, *m);
            assert(out@ == (match ev {
                Some(v) => pre_out.push((k, v)),
                None => pre_out,
            }));
            assert(extract_of(tv, *m) == (match ev {
                Some(v) => pre_out.push((k, v)),
                None => pre_out,
            }));
        }
        i += 1;
    }
    proof {
        assert(t.entries@.subrange(0, n as int) =~= t.entries@);
    }
    out
}

impl Clap {
    /// Pair an already built classification tree with parse results.
    pub fn from_matches(args: ArgTypes, matches: Matches) -> (r: Self)
        ensures
            r.args == args,
            r.matches == matches,
            r.subcommand_field is None,
    {
        Clap { args, matches, subcommand_field: None }
    }

    /// Build the adapter for a grammar and the parse results of one argument
    /// vector against it.
    pub fn new(grammar: &Grammar, matches: Matches) -> (r: Self)
        ensures
            r.args@ == schema_of(*grammar),
            tbl_unique(r.args@),
            r.matches == matches,
            r.subcommand_field is None,
    {
        Clap { args: get_args_types(grammar), matches, subcommand_field: None }
    }

    /// Configure the synthetic key under which the invoked top-level
    /// subcommand's name is recorded.
    pub fn subcommand_field(self, field: &str) -> (r: Self)
        ensures
            r.args == self.args,
            r.matches == self.matches,
            r.subcommand_field matches Some(f) && f@ == field@,
    {
        Clap {
            args: self.args,
            matches: self.matches,
            subcommand_field: Some(field.to_owned()),
        }
    }

    /// Produce the extracted value tree for the whole adapter: every
    /// classified argument's value per the arity rules, nested trees for
    /// invoked subcommands, and, when configured and a top-level subcommand
    /// was invoked, the synthetic subcommand key.
    pub fn collect(&self) -> (r: ValueMap)
        ensures
            r@ == collect_of(*self),
    {
        let mut out = extract_matches(&self.args, &self.matches);
        if let Some(f) = &self.subcommand_field {
            if let Some(b) = &self.matches.sub {
                out.insert(f.clone(), Value::Str(b.name.clone()));
            }
        }
        out
    }
}

} // verus!
