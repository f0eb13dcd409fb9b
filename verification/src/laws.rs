//! The laws the extraction obeys, stated over the model and proved once for
//! every classification tree, parse result and key.

use crate::adapter::{collect_of, entry_val, extract_of, Clap};
use crate::parsed::Matches;
use crate::schema::Class;
use crate::tables::{
    lemma_tbl_get_has_index, lemma_tbl_get_insert, lemma_tbl_get_push, tbl_get, tbl_has,
    tbl_unique,
};
use crate::value::{Val, ValueMap};
use vstd::prelude::*;

verus! {

/// What extraction serves for every key: exactly the value its
/// classification calls for, and nothing for a key the tree does not hold.
pub proof fn lemma_extract_get(t: Seq<(Seq<char>, Class)>, m: Matches, k: Seq<char>)
    requires
        tbl_unique(t),
    ensures
        tbl_get(extract_of(t, m), k) == (match tbl_get(t, k) {
            Some(c) => entry_val(k, c, m),
            None => None::<Val>,
        }),
    decreases t.len(),
{
    if t.len() > 0 {
        let dl = t.subrange(0, t.len() - 1);
        let p = t[t.len() - 1];
        assert(t =~= dl.push(p));
        assert(tbl_unique(dl)) by {
            assert(forall|i: int| 0 <= i < dl.len() ==> dl[i] == t[i]);
        }
        lemma_extract_get(dl, m, k);
        lemma_tbl_get_push(dl, p, k);
        lemma_tbl_get_has_index(dl, k);
        if tbl_get(dl, k) is Some && p.0 == k {
            let i = choose|i: int| 0 <= i < dl.len() && #[trigger] dl[i].0 == k;
            assert(t[i].0 == t[t.len() - 1].0);
            assert(false);
        }
        match entry_val(p.0, p.1, m) {
            Some(v) => {
                assert(extract_of(t, m) == extract_of(dl, m).push((p.0, v)));
                lemma_tbl_get_push(extract_of(dl, m), (p.0, v), k);
            },
            None => {
                assert(extract_of(t, m) == extract_of(dl, m));
            },
        }
    }
}

/// The value the root extraction owes a key before the synthetic subcommand
/// key is considered.
pub open spec fn base_val(c: Clap, k: Seq<char>) -> Option<Val> {
    match tbl_get(c.args@, k) {
        Some(cl) => entry_val(k, cl, c.matches),
        None => None,
    }
}

/// The value `collect` owes a key: the synthetic subcommand key when it is
/// configured, a subcommand was invoked and the key is the configured field
/// name; otherwise whatever the root extraction owes it.
pub open spec fn collected_val(c: Clap, k: Seq<char>) -> Option<Val> {
    match (c.subcommand_field, c.matches.spec_sub_name()) {
        (Some(f), Some(s)) => if f@ == k {
            Some(Val::Str(s))
        } else {
            base_val(c, k)
        },
        _ => base_val(c, k),
    }
}

/// What `collect` serves for every key.
pub proof fn lemma_collect_get(c: Clap, k: Seq<char>)
    requires
        tbl_unique(c.args@),
    ensures
        tbl_get(collect_of(c), k) == collected_val(c, k),
{
    lemma_extract_get(c.args@, c.matches, k);
    match (c.subcommand_field, c.matches.spec_sub_name()) {
        (Some(f), Some(s)) => {
            lemma_tbl_get_insert(extract_of(c.args@, c.matches), f@, Val::Str(s), k);
        },
        _ => {},
    }
}

/// Collecting twice from one adapter, with nothing mutated in between,
/// yields identical value trees.
pub proof fn lemma_collect_idempotent(c: Clap, r1: ValueMap, r2: ValueMap)
    requires
        r1@ == collect_of(c),
        r2@ == collect_of(c),
    ensures
        r1@ == r2@,
{
}

/// Omission: a `Single` or `Multiple` key with no supplied value never
/// appears in the extracted tree, not even as an empty placeholder.
pub proof fn lemma_omitted_when_absent(t: Seq<(Seq<char>, Class)>, m: Matches, k: Seq<char>)
    requires
        tbl_unique(t),
        tbl_get(t, k) matches Some(c) && (c is Single || c is Multiple),
        m.spec_values(k).len() == 0,
    ensures
        !tbl_has(extract_of(t, m), k),
{
    lemma_extract_get(t, m, k);
}

/// Always present: a `Count` or `Boolean` key is served on every
/// extraction, whether or not the argument was supplied, with the
/// occurrence count or the presence flag.
pub proof fn lemma_count_boolean_present(t: Seq<(Seq<char>, Class)>, m: Matches, k: Seq<char>)
    requires
        tbl_unique(t),
        tbl_get(t, k) matches Some(c) && (c is Count || c is Boolean),
    ensures
        tbl_get(t, k) matches Some(c) && tbl_get(extract_of(t, m), k) == (if c is Count {
            Some(Val::Int(m.spec_occurrences(k)))
        } else {
            Some(Val::Bool(m.spec_present(k)))
        }),
        tbl_has(extract_of(t, m), k),
{
    lemma_extract_get(t, m, k);
}

/// An uninvoked subcommand contributes nothing: no key of its name appears
/// at its scope, even where its own sub-grammar declares `Count` or
/// `Boolean` arguments.
pub proof fn lemma_uninvoked_subcommand_omitted(
    t: Seq<(Seq<char>, Class)>,
    m: Matches,
    k: Seq<char>,
)
    requires
        tbl_unique(t),
        tbl_get(t, k) matches Some(c) && c is Sub,
        m.spec_sub_name() != Some(k),
    ensures
        !tbl_has(extract_of(t, m), k),
{
    lemma_extract_get(t, m, k);
}

/// An uninvoked subcommand's name is absent from the collected tree too,
/// as long as the synthetic key is not configured to that very name.
pub proof fn lemma_uninvoked_subcommand_omitted_from_collect(c: Clap, k: Seq<char>)
    requires
        tbl_unique(c.args@),
        tbl_get(c.args@, k) matches Some(cl) && cl is Sub,
        c.matches.spec_sub_name() != Some(k),
        c.subcommand_field matches Some(f) ==> f@ != k,
    ensures
        !tbl_has(collect_of(c), k),
{
    lemma_collect_get(c, k);
}

/// The synthetic subcommand key coexists with the invoked subcommand's
/// nested tree: `collect` serves both, each under its own name.
pub proof fn lemma_subcommand_field_coexists(
    c: Clap,
    f: Seq<char>,
    s: Seq<char>,
    st: Seq<(Seq<char>, Class)>,
)
    requires
        tbl_unique(c.args@),
        c.subcommand_field matches Some(fs) && fs@ == f,
        c.matches.spec_sub_name() == Some(s),
        tbl_get(c.args@, s) == Some(Class::Sub(st)),
        f != s,
    ensures
        tbl_get(collect_of(c), f) == Some(Val::Str(s)),
        tbl_get(collect_of(c), s) == entry_val(s, Class::Sub(st), c.matches),
        entry_val(s, Class::Sub(st), c.matches) matches Some(v) && v is Table,
{
    lemma_collect_get(c, f);
    lemma_collect_get(c, s);
}

} // verus!
