//! The schema extractor: walks a declared argument grammar and classifies
//! every named argument and subcommand by how its value is read out of parse
//! results.

use crate::tables::{tbl_insert, tbl_unique};
use crate::tables::{lemma_tbl_insert_absent, lemma_tbl_insert_present, lemma_tbl_insert_unique};
use vstd::prelude::*;

verus! {

/// One declared option, flag or positional: a name plus the two grammar
/// properties that determine its arity classification.
pub struct ArgSpec {
    pub name: String,
    pub takes_value: bool,
    pub multiple: bool,
}

/// One grammar scope: the declared arguments, in their three syntactic
/// categories, and the nested subcommand grammars.
pub struct Grammar {
    pub name: String,
    pub opts: Vec<ArgSpec>,
    pub flags: Vec<ArgSpec>,
    pub positionals: Vec<ArgSpec>,
    pub subcommands: Vec<Grammar>,
}

/// How to read one argument's value out of parse results.
#[derive(Debug, PartialEq, Eq)]
pub enum CliType {
    Multiple,
    Single,
    Count,
    Boolean,
    Subcommand(ArgTypes),
}

/// A classification tree for one grammar scope: argument name to
/// classification, with unique names.
#[derive(Debug, PartialEq, Eq)]
pub struct ArgTypes {
    pub entries: Vec<(String, CliType)>,
}

/// The mathematical model of a classification.
pub enum Class {
    Multiple,
    Single,
    Count,
    Boolean,
    Sub(Seq<(Seq<char>, Class)>),
}

pub open spec fn class_view(c: CliType) -> Class
    decreases c,
{
    match c {
        CliType::Multiple => Class::Multiple,
        CliType::Single => Class::Single,
        CliType::Count => Class::Count,
        CliType::Boolean => Class::Boolean,
        CliType::Subcommand(t) => Class::Sub(tbl_view(t.entries@)),
    }
}

pub open spec fn tbl_view(s: Seq<(String, CliType)>) -> Seq<(Seq<char>, Class)>
    decreases s,
{
    if s.len() == 0 {
        Seq::empty()
    } else {
        tbl_view(s.subrange(0, s.len() - 1)).push(
            (s[s.len() - 1].0@, class_view(s[s.len() - 1].1)),
        )
    }
}

impl View for ArgTypes {
    type V = Seq<(Seq<char>, Class)>;

    open spec fn view(&self) -> Seq<(Seq<char>, Class)> {
        tbl_view(self.entries@)
    }
}

/// The model table mirrors the entry list index for index.
pub proof fn lemma_tbl_view_index(s: Seq<(String, CliType)>)
    ensures
        tbl_view(s).len() == s.len(),
        forall|i: int|
            0 <= i < s.len() ==> #[trigger] tbl_view(s)[i] == (s[i].0@, class_view(s[i].1)),
    decreases s.len(),
{
    if s.len() > 0 {
        lemma_tbl_view_index(s.subrange(0, s.len() - 1));
    }
}

/// The arity classification rule: does the argument take a value, and may it
/// be supplied more than once.
pub open spec fn spec_classify(takes_value: bool, multiple: bool) -> Class {
    if takes_value && multiple {
        Class::Multiple
    } else if takes_value {
        Class::Single
    } else if multiple {
        Class::Count
    } else {
        Class::Boolean
    }
}

/// Classify one declared argument.  The 2x2 rule is total: every combination
/// of the two properties yields exactly one of the four scalar
/// classifications.
pub fn classify(takes_value: bool, multiple: bool) -> (r: CliType)
    ensures
        class_view(r) == spec_classify(takes_value, multiple),
        takes_value && multiple ==> r == CliType::Multiple,
        takes_value && !multiple ==> r == CliType::Single,
        !takes_value && multiple ==> r == CliType::Count,
        !takes_value && !multiple ==> r == CliType::Boolean,
{
    match (takes_value, multiple) {
        (true, true) => CliType::Multiple,
        (true, false) => CliType::Single,
        (false, true) => CliType::Count,
        (false, false) => CliType::Boolean,
    }
}

/// Fold the declared arguments of one category into a classification table,
/// in declaration order, a later entry replacing an earlier one of the same
/// name.
pub open spec fn classes_of_args(t: Seq<(Seq<char>, Class)>, args: Seq<ArgSpec>) -> Seq<
    (Seq<char>, Class),
>
    decreases args.len(),
{
    if args.len() == 0 {
        t
    } else {
        let a = args[args.len() - 1];
        tbl_insert(
            classes_of_args(t, args.subrange(0, args.len() - 1)),
            a.name@,
            spec_classify(a.takes_value, a.multiple),
        )
    }
}

/// Fold the declared subcommands into a classification table, each under its
/// name with its own full classification tree.
pub open spec fn subs_of(t: Seq<(Seq<char>, Class)>, subs: Seq<Grammar>) -> Seq<
    (Seq<char>, Class),
>
    decreases subs,
{
    if subs.len() == 0 {
        t
    } else {
        let g = subs[subs.len() - 1];
        tbl_insert(
            subs_of(t, subs.subrange(0, subs.len() - 1)),
            g.name@,
            Class::Sub(schema_of(g)),
        )
    }
}

/// The classification tree of a grammar scope: subcommands, then options,
/// flags and positionals, all merged into one namespace, a later insertion
/// winning on a name collision.
pub open spec fn schema_of(g: Grammar) -> Seq<(Seq<char>, Class)>
    decreases g,
{
    classes_of_args(
        classes_of_args(
            classes_of_args(subs_of(Seq::empty(), g.subcommands@), g.opts@),
            g.flags@,
        ),
        g.positionals@,
    )
}

impl ArgTypes {
    /// Record a classification under a name, replacing any entry the name
    /// already has.
    pub fn insert(&mut self, name: String, t: CliType)
        ensures
            final(self)@ == tbl_insert(old(self)@, name@, class_view(t)),
    {
        let n = self.entries.len();
        let mut i: usize = 0;
        while i < n
            invariant
                i <= n,
                n == self.entries.len(),
                self.entries@ == old(self).entries@,
                forall|j: int| 0 <= j < i ==> self.entries@[j].0@ != name@,
            decreases n - i,
        {
            if self.entries[i].0.eq(&name) {
                let _ = self.entries.remove(i);
                self.entries.insert(i, (name, t));
                proof {
                    assert(self.entries@ =~= old(self).entries@.update(
                        i as int,
                        self.entries@[i as int],
                    ));
                    lemma_tbl_view_index(old(self).entries@);
                    lemma_tbl_view_index(self.entries@);
                    lemma_tbl_insert_present(
                        old(self)@,
                        self.entries@[i as int].0@,
                        class_view(self.entries@[i as int].1),
                        i as int,
                    );
                    assert(self@ =~= tbl_insert(
                        old(self)@,
                        self.entries@[i as int].0@,
                        class_view(self.entries@[i as int].1),
                    ));
                }
                return;
            }
            i += 1;
        }
        self.entries.push((name, t));
        proof {
            assert(self.entries@ =~= old(self).entries@.push(
                self.entries@[self.entries@.len() - 1],
            ));
            lemma_tbl_view_index(old(self).entries@);
            lemma_tbl_view_index(self.entries@);
            lemma_tbl_insert_absent(
                old(self)@,
                self.entries@[self.entries@.len() - 1].0@,
                class_view(self.entries@[self.entries@.len() - 1].1),
            );
            assert(self@ =~= tbl_insert(
                old(self)@,
                self.entries@[self.entries@.len() - 1].0@,
                class_view(self.entries@[self.entries@.len() - 1].1),
            ));
        }
    }
}

/// Build the classification tree for a grammar scope, recursing into every
/// subcommand.
pub fn get_args_types(g: &Grammar) -> (r: ArgTypes)
    ensures
        r@ == schema_of(*g),
        tbl_unique(r@),
    decreases *g,
{
    proof {
        lemma_schema_unique(*g);
    }
    let mut r = ArgTypes { entries: Vec::new() };
    proof {
        assert(r@ =~= Seq::<(Seq<char>, Class)>::empty());
    }
    let mut i: usize = 0;
    let n = g.subcommands.len();
    while i < n
        invariant
            i <= n,
            n == g.subcommands.len(),
            r@ == subs_of(Seq::empty(), g.subcommands@.subrange(0, i as int)),
        decreases n - i,
    {
        proof {
            assert(decreases_to!(*g => g.subcommands@[i as int]));
        }
        let sub = get_args_types(&g.subcommands[i]);
        r.insert(g.subcommands[i].name.clone(), CliType::Subcommand(sub));
        proof {
            let pre = g.subcommands@.subrange(0, i as int);
            let cur = g.subcommands@.subrange(0, i + 1);
            assert(cur.subrange(0, cur.len() - 1) =~= pre);
            assert(cur[cur.len() - 1] == g.subcommands@[i as int]);
        }
        i += 1;
    }
    proof {
        assert(g.subcommands@.subrange(0, n as int) =~= g.subcommands@);
    }
    insert_category(&mut r, &g.opts);
    insert_category(&mut r, &g.flags);
    insert_category(&mut r, &g.positionals);
    r
}

/// Fold one syntactic category of declared arguments into the table.
fn insert_category(r: &mut ArgTypes, args: &Vec<ArgSpec>)
    ensures
        final(r)@ == classes_of_args(old(r)@, args@),
{
    let mut i: usize = 0;
    let n = args.len();
    while i < n
        invariant
            i <= n,
            n == args.len(),
            r@ == classes_of_args(old(r)@, args@.subrange(0, i as int)),
        decreases n - i,
    {
        let a = &args[i];
        let c = classify(a.takes_value, a.multiple);
        r.insert(a.name.clone(), c);
        proof {
            let pre = args@.subrange(0, i as int);
            let cur = args@.subrange(0, i + 1);
            assert(cur.subrange(0, cur.len() - 1) =~= pre);
            assert(cur[cur.len() - 1] == args@[i as int]);
        }
        i += 1;
    }
    proof {
        assert(args@.subrange(0, n as int) =~= args@);
    }
}

/// Folding a category of arguments keeps the table duplicate-free.
proof fn lemma_classes_of_args_unique(t: Seq<(Seq<char>, Class)>, args: Seq<ArgSpec>)
    requires
        tbl_unique(t),
    ensures
        tbl_unique(classes_of_args(t, args)),
    decreases args.len(),
{
    if args.len() > 0 {
        let a = args[args.len() - 1];
        lemma_classes_of_args_unique(t, args.subrange(0, args.len() - 1));
        lemma_tbl_insert_unique(
            classes_of_args(t, args.subrange(0, args.len() - 1)),
            a.name@,
            spec_classify(a.takes_value, a.multiple),
        );
    }
}

/// Folding the subcommands keeps the table duplicate-free.
proof fn lemma_subs_of_unique(t: Seq<(Seq<char>, Class)>, subs: Seq<Grammar>)
    requires
        tbl_unique(t),
    ensures
        tbl_unique(subs_of(t, subs)),
    decreases subs.len(),
{
    if subs.len() > 0 {
        let g = subs[subs.len() - 1];
        lemma_subs_of_unique(t, subs.subrange(0, subs.len() - 1));
        lemma_tbl_insert_unique(
            subs_of(t, subs.subrange(0, subs.len() - 1)),
            g.name@,
            Class::Sub(schema_of(g)),
        );
    }
}

/// A classification tree never holds two entries of one name: whichever
/// declaration was merged last owns the name.
pub proof fn lemma_schema_unique(g: Grammar)
    ensures
        tbl_unique(schema_of(g)),
{
    lemma_subs_of_unique(Seq::empty(), g.subcommands@);
    lemma_classes_of_args_unique(subs_of(Seq::empty(), g.subcommands@), g.opts@);
    lemma_classes_of_args_unique(
        classes_of_args(subs_of(Seq::empty(), g.subcommands@), g.opts@),
        g.flags@,
    );
    lemma_classes_of_args_unique(
        classes_of_args(
            classes_of_args(subs_of(Seq::empty(), g.subcommands@), g.opts@),
            g.flags@,
        ),
        g.positionals@,
    );
}

} // verus!
