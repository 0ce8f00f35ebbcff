//! Decoded records and the lossless field map of the dump output.

use vstd::prelude::*;
use crate::names::{
    compare_names, lemma_lex_irreflexive, lemma_lex_total, lemma_lex_transitive,
    lemma_name_key_injective, name_key, name_lt,
};

verus! {

/// A decoded record: its message kind and its fields, each a name and a value,
/// in decode order.
#[derive(Clone, Debug)]
pub struct GenericRecord<V> {
    pub kind: String,
    pub fields: Vec<(String, V)>,
}

/// A record's fields, one entry per field name, in ascending name order.
#[derive(Clone, Debug)]
pub struct FitDataMap<V> {
    pub kind: String,
    pub fields: Vec<(String, V)>,
}

/// What a field list says of each name: the value of the last field so named.
pub open spec fn field_map<V>(fs: Seq<(String, V)>) -> Map<Seq<char>, V>
    decreases fs.len(),
{
    if fs.len() == 0 {
        Map::empty()
    } else {
        field_map(fs.drop_last()).insert(fs.last().0@, fs.last().1)
    }
}

/// The names of a field list, strictly ascending.
pub open spec fn sorted_by_name<V>(fs: Seq<(String, V)>) -> bool {
    forall|i: int, j: int| 0 <= i < j < fs.len() ==> name_lt(#[trigger] fs[i].0@, #[trigger] fs[j].0@)
}

/// No two fields of the list share a name.
pub open spec fn distinct_names<V>(fs: Seq<(String, V)>) -> bool {
    forall|i: int, j: int| 0 <= i < fs.len() && 0 <= j < fs.len() && i != j ==> #[trigger] fs[i].0@ != #[trigger] fs[j].0@
}

/// The set of names in a field list.
pub open spec fn name_set<V>(fs: Seq<(String, V)>) -> Set<Seq<char>> {
    Set::new(|k: Seq<char>| exists|i: int| 0 <= i < fs.len() && #[trigger] fs[i].0@ == k)
}

/// A list with strictly ascending names repeats none.
pub proof fn lemma_sorted_distinct<V>(fs: Seq<(String, V)>)
    requires
        sorted_by_name(fs),
    ensures
        distinct_names(fs),
{
    assert forall|i: int, j: int| 0 <= i < fs.len() && 0 <= j < fs.len() && i != j implies #[trigger] fs[i].0@ != #[trigger] fs[j].0@ by {
        lemma_lex_irreflexive(name_key(fs[i].0@));
        if i < j {
            assert(name_lt(fs[i].0@, fs[j].0@));
        } else {
            assert(name_lt(fs[j].0@, fs[i].0@));
        }
    }
}

/// The map of a field list has exactly its names as keys, and is finite.
pub proof fn lemma_field_map_domain<V>(fs: Seq<(String, V)>)
    ensures
        field_map(fs).dom() == name_set(fs),
        field_map(fs).dom().finite(),
    decreases fs.len(),
{
    if fs.len() > 0 {
        let init = fs.drop_last();
        lemma_field_map_domain(init);
        assert forall|k: Seq<char>| name_set(fs).contains(k) <==> field_map(fs).dom().contains(k) by {
            if name_set(fs).contains(k) {
                let i = choose|i: int| 0 <= i < fs.len() && #[trigger] fs[i].0@ == k;
                if i < fs.len() - 1 {
                    assert(init[i].0@ == k);
                }
            }
            if name_set(init).contains(k) {
                let i = choose|i: int| 0 <= i < init.len() && #[trigger] init[i].0@ == k;
                assert(fs[i].0@ == k);
            }
            if k == fs.last().0@ {
                assert(fs[fs.len() - 1].0@ == k);
            }
        }
        assert(field_map(fs).dom() =~= name_set(fs));
    } else {
        assert(name_set(fs) =~= Set::empty());
    }
}

/// Dropping the last field keeps the names distinct.
proof fn lemma_distinct_drop_last<V>(fs: Seq<(String, V)>)
    requires
        fs.len() > 0,
        distinct_names(fs),
    ensures
        distinct_names(fs.drop_last()),
{
    let init = fs.drop_last();
    assert forall|i: int, j: int| 0 <= i < init.len() && 0 <= j < init.len() && i != j implies #[trigger] init[i].0@ != #[trigger] init[j].0@ by {
        assert(init[i] == fs[i] && init[j] == fs[j]);
    }
}

/// In a list without repeated names, each field's value is what the map holds for its name.
pub proof fn lemma_field_map_values<V>(fs: Seq<(String, V)>)
    requires
        distinct_names(fs),
    ensures
        forall|i: int| 0 <= i < fs.len() ==> field_map(fs)[#[trigger] fs[i].0@] == fs[i].1,
    decreases fs.len(),
{
    if fs.len() > 0 {
        let init = fs.drop_last();
        lemma_distinct_drop_last(fs);
        lemma_field_map_values(init);
        assert forall|i: int| 0 <= i < fs.len() implies field_map(fs)[#[trigger] fs[i].0@] == fs[i].1 by {
            if i < fs.len() - 1 {
                assert(init[i] == fs[i]);
                assert(fs[i].0@ != fs[fs.len() - 1].0@);
            }
        }
    }
}

/// A list without repeated names has one map entry per field.
pub proof fn lemma_field_map_len<V>(fs: Seq<(String, V)>)
    requires
        distinct_names(fs),
    ensures
        field_map(fs).dom().len() == fs.len(),
    decreases fs.len(),
{
    if fs.len() > 0 {
        let init = fs.drop_last();
        lemma_distinct_drop_last(fs);
        lemma_field_map_len(init);
        lemma_field_map_domain(init);
        let k = fs.last().0@;
        if name_set(init).contains(k) {
            let i = choose|i: int| 0 <= i < init.len() && #[trigger] init[i].0@ == k;
            assert(fs[i].0@ == fs[fs.len() - 1].0@);
        }
    }
}

/// Where in the sorted list `name` belongs: after every smaller name.
fn position_for<V>(fs: &Vec<(String, V)>, name: &String) -> (j: usize)
    ensures
        j <= fs.len(),
        forall|t: int| 0 <= t < j ==> name_lt(#[trigger] fs@[t].0@, name@),
        j < fs.len() ==> !name_lt(fs@[j as int].0@, name@),
{
    let mut j: usize = 0;
    loop
        invariant
            j <= fs.len(),
            forall|t: int| 0 <= t < j ==> name_lt(#[trigger] fs@[t].0@, name@),
        decreases fs.len() - j,
    {
        if j == fs.len() {
            return j;
        }
        let c = compare_names(fs[j].0.as_str(), name.as_str());
        if c >= 0 {
            return j;
        }
        j = j + 1;
    }
}

/// Adds a field to a sorted list, replacing the field of the same name if there is one.
fn insert_sorted<V>(out: &mut Vec<(String, V)>, name: String, v: V)
    requires
        sorted_by_name(old(out)@),
    ensures
        sorted_by_name(final(out)@),
        field_map(final(out)@) == field_map(old(out)@).insert(name@, v),
{
    let ghost s0 = out@;
    let ghost k = name@;
    let j = position_for(out, &name);
    let same = j < out.len() && compare_names(out[j].0.as_str(), name.as_str()) == 0;
    if same {
        out.remove(j);
        out.insert(j, (name, v));
        proof {
            let s1 = out@;
            assert(s1 =~= s0.update(j as int, s1[j as int]));
            assert(sorted_by_name(s1)) by {
                assert forall|a: int, b: int| 0 <= a < b < s1.len() implies name_lt(#[trigger] s1[a].0@, #[trigger] s1[b].0@) by {
                    assert(s1[a].0@ == s0[a].0@);
                    assert(s1[b].0@ == s0[b].0@);
                }
            }
        }
    } else {
        out.insert(j, (name, v));
        proof {
            let s1 = out@;
            assert(s1 =~= s0.insert(j as int, s1[j as int]));
            assert(sorted_by_name(s1)) by {
                if j < s0.len() {
                    lemma_name_key_injective(s0[j as int].0@, k);
                    lemma_lex_total(name_key(s0[j as int].0@), name_key(k));
                }
                assert forall|a: int, b: int| 0 <= a < b < s1.len() implies name_lt(#[trigger] s1[a].0@, #[trigger] s1[b].0@) by {
                    if b < j {
                        assert(s1[a] == s0[a] && s1[b] == s0[b]);
                    } else if a < j && b == j {
                    } else if a < j && b > j {
                        assert(s1[b] == s0[b - 1]);
                    } else if a == j {
                        assert(s1[b] == s0[b - 1]);
                        if b - 1 > j {
                            lemma_lex_transitive(name_key(k), name_key(s0[j as int].0@), name_key(s0[b - 1].0@));
                        }
                    } else {
                        assert(s1[a] == s0[a - 1]);
                        assert(s1[b] == s0[b - 1]);
                    }
                }
            }
        }
    }
    proof {
        let s1 = out@;
        lemma_sorted_distinct(s0);
        lemma_sorted_distinct(s1);
        lemma_field_map_values(s0);
        lemma_field_map_values(s1);
        lemma_field_map_domain(s0);
        lemma_field_map_domain(s1);
        assert(s1[j as int].0@ == k && s1[j as int].1 == v);
        let m0 = field_map(s0).insert(k, v);
        let m1 = field_map(s1);
        assert forall|key: Seq<char>| m1.dom().contains(key) <==> m0.dom().contains(key) by {
            if name_set(s1).contains(key) {
                let i = choose|i: int| 0 <= i < s1.len() && #[trigger] s1[i].0@ == key;
                if i < j {
                    assert(s0[i] == s1[i]);
                } else if i > j {
                    if same {
                        assert(s0[i] == s1[i]);
                    } else {
                        assert(s0[i - 1] == s1[i]);
                    }
                }
            }
            if name_set(s0).contains(key) {
                let i = choose|i: int| 0 <= i < s0.len() && #[trigger] s0[i].0@ == key;
                if i < j {
                    assert(s0[i] == s1[i]);
                } else if i > j || !same {
                    if same {
                        assert(s0[i] == s1[i]);
                    } else {
                        assert(s0[i] == s1[i + 1]);
                    }
                }
            }
        }
        assert forall|key: Seq<char>| #[trigger] m1.dom().contains(key) implies m1[key] == m0[key] by {
            let i = choose|i: int| 0 <= i < s1.len() && #[trigger] s1[i].0@ == key;
            if i < j {
                assert(s0[i] == s1[i]);
            } else if i > j {
                if same {
                    assert(s0[i] == s1[i]);
                } else {
                    assert(s0[i - 1] == s1[i]);
                }
            }
        }
        assert(m1 =~= m0);
    }
}

/// The dump keeps every field: for a record whose field names are distinct, the
/// field map has exactly the record's names as keys, one key per field, and
/// holds under each name that field's value.
pub proof fn lemma_dump_keeps_every_field<V>(record: GenericRecord<V>)
    requires
        distinct_names(record.fields@),
    ensures
        field_map(record.fields@).dom() == name_set(record.fields@),
        field_map(record.fields@).dom().len() == record.fields.len(),
        forall|i: int|
            0 <= i < record.fields.len() ==> field_map(record.fields@)[#[trigger] record.fields@[i].0@]
                == record.fields@[i].1,
{
    lemma_field_map_domain(record.fields@);
    lemma_field_map_len(record.fields@);
    lemma_field_map_values(record.fields@);
}

impl<V> FitDataMap<V> {
    /// The fields of `record`, one entry per name, in ascending name order; where
    /// a name repeats, its last value stands. The kind is kept.
    pub fn new(record: GenericRecord<V>) -> (r: FitDataMap<V>)
        ensures
            r.kind@ == record.kind@,
            sorted_by_name(r.fields@),
            field_map(r.fields@) == field_map(record.fields@),
            r.fields.len() == field_map(record.fields@).dom().len(),
    {
        let GenericRecord { kind, fields } = record;
        let ghost all = fields@;
        let mut rest = fields;
        let mut out: Vec<(String, V)> = Vec::new();
        let ghost mut done: int = 0;
        proof {
            assert(all.take(0) =~= Seq::<(String, V)>::empty());
            assert(rest@ =~= all.skip(0));
        }
        while rest.len() > 0
            invariant
                0 <= done <= all.len(),
                rest@ == all.skip(done),
                sorted_by_name(out@),
                field_map(out@) == field_map(all.take(done)),
            decreases rest.len(),
        {
            let (name, v) = rest.remove(0);
            proof {
                assert(all.take(done + 1).drop_last() =~= all.take(done));
                assert(all[done] == (name, v));
            }
            insert_sorted(&mut out, name, v);
            proof {
                done = done + 1;
                assert(rest@ =~= all.skip(done));
            }
        }
        proof {
            assert(all.take(done) =~= all);
            lemma_sorted_distinct(out@);
            lemma_field_map_len(out@);
        }
        FitDataMap { kind, fields: out }
    }
}

} // verus!
