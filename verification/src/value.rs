//! The structured values that handlers receive and return.
//!
//! The host language's value system is an external collaborator; this
//! module models exactly what the server core reads of it: scalars,
//! strings, arrays, string-keyed records, error markers, the unit
//! marker, handler callables (kept as an opaque token into the host's
//! table), an early-return wrapper, and an opaque catch-all for every
//! host value the encoder rejects as a bad return.

use vstd::prelude::*;

verus! {

/// A structured value exchanged with handler logic.
#[derive(Debug)]
pub enum Value {
    /// The null value.
    Null,
    /// A boolean.
    Bool(bool),
    /// An integer; every integer width of the host folds into this one.
    Int(i128),
    /// A text value.
    Str(String),
    /// An ordered list of values.
    Array(Vec<Value>),
    /// A string-keyed record; lookups take the first entry with the key.
    Record(Vec<(String, Value)>),
    /// An error marker carrying a message.
    Error(String),
    /// The unit marker (no value).
    Unit,
    /// A handler callable: its parameter count and an opaque token by
    /// which the host finds the callable itself.
    Function { arity: usize, token: usize },
    /// Any host value the server core never looks into (doubles, native
    /// handles, and the like); the encoder treats it as a bad return.
    Opaque,
    /// An early-return wrapper around another value; the encoder unwraps
    /// it before inspecting the result.
    EarlyReturn(Box<Value>),
}

/// The value under `key` in a record's entry list: the first entry with
/// an equal key, searched front to back.
pub open spec fn record_lookup(entries: Seq<(String, Value)>, key: Seq<char>) -> Option<Value>
    decreases entries.len(),
{
    if entries.len() == 0 {
        None
    } else if entries[0].0@ == key {
        Some(entries[0].1)
    } else {
        record_lookup(entries.drop_first(), key)
    }
}

/// True when no two entries share a key.
pub open spec fn record_keys_unique(entries: Seq<(String, Value)>) -> bool {
    forall|i: int, j: int|
        0 <= i < j < entries.len() ==> entries[i].0@ != entries[j].0@
}

proof fn lemma_record_lookup_prefix(entries: Seq<(String, Value)>, n: int, key: Seq<char>)
    requires
        0 <= n <= entries.len(),
        forall|i: int| 0 <= i < n ==> entries[i].0@ != key,
    ensures
        record_lookup(entries, key) == record_lookup(entries.subrange(n, entries.len() as int), key),
    decreases n,
{
    if n > 0 {
        assert(entries.drop_first() =~= entries.subrange(1, entries.len() as int));
        lemma_record_lookup_prefix(entries.drop_first(), n - 1, key);
        assert(entries.drop_first().subrange(n - 1, entries.drop_first().len() as int)
            =~= entries.subrange(n, entries.len() as int));
    } else {
        assert(entries.subrange(0, entries.len() as int) =~= entries);
    }
}

/// A reference to the value under `key`, or `None` when the record has
/// no such entry.
pub fn record_get<'a>(entries: &'a Vec<(String, Value)>, key: &str) -> (r: Option<&'a Value>)
    ensures
        match r {
            Some(v) => record_lookup(entries@, key@) == Some(*v),
            None => record_lookup(entries@, key@) is None,
        },
{
    let k = key.to_owned();
    let n = entries.len();
    for i in 0..n
        invariant
            k@ == key@,
            n == entries@.len(),
            forall|j: int| 0 <= j < i ==> entries@[j].0@ != key@,
    {
        if entries[i].0 == k {
            proof {
                lemma_record_lookup_prefix(entries@, i as int, key@);
                assert(entries@.subrange(i as int, entries@.len() as int)[0] == entries@[i as int]);
            }
            return Some(&entries[i].1);
        }
    }
    proof {
        lemma_record_lookup_prefix(entries@, entries@.len() as int, key@);
    }
    None
}

/// Replaces the first entry under `key`, or appends one when the key is
/// new; later lookups of `key` yield `value` and every other key is
/// untouched.
pub fn record_insert(entries: &mut Vec<(String, Value)>, key: String, value: Value)
    ensures
        record_lookup(final(entries)@, key@) == Some(value),
        forall|k: Seq<char>|
            k != key@ ==> #[trigger] record_lookup(final(entries)@, k) == record_lookup(
                old(entries)@,
                k,
            ),
        old(entries)@.len() <= final(entries)@.len() <= old(entries)@.len() + 1,
        record_lookup(old(entries)@, key@) is None ==> final(entries)@.len() == old(entries)@.len()
            + 1,
        record_keys_unique(old(entries)@) ==> record_keys_unique(final(entries)@),
{
    let n = entries.len();
    for i in 0..n
        invariant
            n == entries@.len(),
            entries@ == old(entries)@,
            forall|j: int| 0 <= j < i ==> entries@[j].0@ != key@,
    {
        if entries[i].0 == key {
            proof {
                lemma_record_lookup_prefix(old(entries)@, i as int, key@);
                assert(old(entries)@.subrange(i as int, old(entries)@.len() as int)[0]
                    == old(entries)@[i as int]);
                assert(record_lookup(old(entries)@, key@) is Some);
            }
            entries.set(i, (key, value));
            proof {
                lemma_set_entry_lookup(old(entries)@, entries@, i as int, key@);
            }
            return;
        }
    }
    entries.push((key, value));
    proof {
        lemma_push_entry_lookup(old(entries)@, entries@, key@);
    }
}

proof fn lemma_set_entry_lookup(
    before: Seq<(String, Value)>,
    after: Seq<(String, Value)>,
    i: int,
    key: Seq<char>,
)
    requires
        0 <= i < before.len(),
        after.len() == before.len(),
        after[i].0@ == key,
        forall|j: int| 0 <= j < before.len() && j != i ==> after[j] == before[j],
        forall|j: int| 0 <= j < i ==> before[j].0@ != key,
        before[i].0@ == key,
    ensures
        record_lookup(after, key) == Some(after[i].1),
        forall|k: Seq<char>|
            k != key ==> #[trigger] record_lookup(after, k) == record_lookup(before, k),
        record_keys_unique(before) ==> record_keys_unique(after),
    decreases i,
{
    if i == 0 {
        assert forall|k: Seq<char>| k != key implies record_lookup(after, k) == record_lookup(
            before,
            k,
        ) by {
            assert(after.drop_first() =~= before.drop_first());
            assert(record_lookup(after, k) == record_lookup(after.drop_first(), k));
            assert(record_lookup(before, k) == record_lookup(before.drop_first(), k));
        }
    } else {
        lemma_set_entry_lookup(before.drop_first(), after.drop_first(), i - 1, key);
        assert(after[0] == before[0]);
        assert(record_lookup(after, key) == record_lookup(after.drop_first(), key));
        assert(after.drop_first()[i - 1] == after[i]);
        assert forall|k: Seq<char>| k != key implies record_lookup(after, k) == record_lookup(
            before,
            k,
        ) by {
            if after[0].0@ != k {
                assert(record_lookup(after, k) == record_lookup(after.drop_first(), k));
                assert(record_lookup(before, k) == record_lookup(before.drop_first(), k));
            }
        }
    }
}

proof fn lemma_push_entry_lookup(
    before: Seq<(String, Value)>,
    after: Seq<(String, Value)>,
    key: Seq<char>,
)
    requires
        after =~= before.push(after.last()),
        after.len() == before.len() + 1,
        after.last().0@ == key,
        forall|j: int| 0 <= j < before.len() ==> before[j].0@ != key,
    ensures
        record_lookup(after, key) == Some(after.last().1),
        forall|k: Seq<char>|
            k != key ==> #[trigger] record_lookup(after, k) == record_lookup(before, k),
        record_keys_unique(before) ==> record_keys_unique(after),
    decreases before.len(),
{
    if before.len() == 0 {
        assert forall|k: Seq<char>| k != key implies record_lookup(after, k) == record_lookup(
            before,
            k,
        ) by {
            assert(after.drop_first() =~= Seq::<(String, Value)>::empty());
            assert(record_lookup(after, k) == record_lookup(after.drop_first(), k));
            assert(record_lookup(after.drop_first(), k) is None);
        }
    } else {
        assert(after.drop_first() =~= before.drop_first().push(after.last()));
        lemma_push_entry_lookup(before.drop_first(), after.drop_first(), key);
        assert(after[0] == before[0]);
        assert forall|k: Seq<char>| k != key implies record_lookup(after, k) == record_lookup(
            before,
            k,
        ) by {
            if after[0].0@ != k {
                assert(record_lookup(after, k) == record_lookup(after.drop_first(), k));
                assert(record_lookup(before, k) == record_lookup(before.drop_first(), k));
            }
        }
    }
}


} // verus!
