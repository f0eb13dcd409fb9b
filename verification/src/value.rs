//! The extracted value tree: configuration keys mapped to typed values, with
//! nested tables for subcommands.

use crate::tables::{lemma_tbl_insert_absent, lemma_tbl_insert_present, tbl_insert};
use vstd::prelude::*;

verus! {

/// A typed configuration value.
#[derive(Debug, PartialEq, Eq)]
pub enum Value {
    Str(String),
    Arr(Vec<String>),
    Int(u64),
    Bool(bool),
    Table(ValueMap),
}

/// A table of configuration keys and values.
#[derive(Debug, PartialEq, Eq)]
pub struct ValueMap {
    pub entries: Vec<(String, Value)>,
}

/// The mathematical model of a typed configuration value.
pub enum Val {
    Str(Seq<char>),
    Arr(Seq<Seq<char>>),
    Int(u64),
    Bool(bool),
    Table(Seq<(Seq<char>, Val)>),
}

pub open spec fn val_view(v: Value) -> Val
    decreases v,
{
    match v {
        Value::Str(s) => Val::Str(s@),
        Value::Arr(a) => Val::Arr(a.deep_view()),
        Value::Int(n) => Val::Int(n),
        Value::Bool(b) => Val::Bool(b),
        Value::Table(m) => Val::Table(val_tbl_view(m.entries@)),
    }
}

pub open spec fn val_tbl_view(s: Seq<(String, Value)>) -> Seq<(Seq<char>, Val)>
    decreases s,
{
    if s.len() == 0 {
        Seq::empty()
    } else {
        val_tbl_view(s.subrange(0, s.len() - 1)).push(
            (s[s.len() - 1].0@, val_view(s[s.len() - 1].1)),
        )
    }
}

impl View for ValueMap {
    type V = Seq<(Seq<char>, Val)>;

    open spec fn view(&self) -> Seq<(Seq<char>, Val)> {
        val_tbl_view(self.entries@)
    }
}

/// The model table mirrors the entry list index for index.
pub proof fn lemma_val_tbl_view_index(s: Seq<(String, Value)>)
    ensures
        val_tbl_view(s).len() == s.len(),
        forall|i: int|
            0 <= i < s.len() ==> #[trigger] val_tbl_view(s)[i] == (s[i].0@, val_view(s[i].1)),
    decreases s.len(),
{
    if s.len() > 0 {
        lemma_val_tbl_view_index(s.subrange(0, s.len() - 1));
    }
}

impl ValueMap {
    /// Record a value under a key, replacing any entry the key already has.
    pub fn insert(&mut self, name: String, v: Value)
        ensures
            final(self)@ == tbl_insert(old(self)@, name@, val_view(v)),
    {
        let n = self.entries.len();
        let mut i: usize = 0;
        while i < n
            invariant
                i <= n,
                n == self.entries.len(),
                self.entries@ == old(self).entries@,
                forall|j: int| 0 <= j < i ==> self.entries@[j].0@ != name@,
            decreases n - i,
        {
            if self.entries[i].0.eq(&name) {
                let _ = self.entries.remove(i);
                self.entries.insert(i, (name, v));
                proof {
                    assert(self.entries@ =~= old(self).entries@.update(
                        i as int,
                        self.entries@[i as int],
                    ));
                    lemma_val_tbl_view_index(old(self).entries@);
                    lemma_val_tbl_view_index(self.entries@);
                    lemma_tbl_insert_present(
                        old(self)@,
                        self.entries@[i as int].0@,
                        val_view(self.entries@[i as int].1),
                        i as int,
                    );
                    assert(self@ =~= tbl_insert(
                        old(self)@,
                        self.entries@[i as int].0@,
                        val_view(self.entries@[i as int].1),
                    ));
                }
                return;
            }
            i += 1;
        }
        self.entries.push((name, v));
        proof {
            assert(self.entries@ =~= old(self).entries@.push(
                self.entries@[self.entries@.len() - 1],
            ));
            lemma_val_tbl_view_index(old(self).entries@);
            lemma_val_tbl_view_index(self.entries@);
            lemma_tbl_insert_absent(
                old(self)@,
                self.entries@[self.entries@.len() - 1].0@,
                val_view(self.entries@[self.entries@.len() - 1].1),
            );
            assert(self@ =~= tbl_insert(
                old(self)@,
                self.entries@[self.entries@.len() - 1].0@,
                val_view(self.entries@[self.entries@.len() - 1].1),
            ));
        }
    }
}

} // verus!
