//! Where dump output goes, and the one output that gathers every input unit.

use vstd::prelude::*;

verus! {

/// Where the dump of each input unit is written.
#[derive(Clone, Debug)]
pub enum OutputTarget {
    /// Beside each input, under its name with a `.json` extension.
    Inplace,
    /// Inside this directory, under each input's stem with a `.json` extension.
    LocalDirectory(String),
    /// Into this one file; several inputs are gathered into one array.
    LocalFile(String),
    /// To standard output, one line per input.
    Stdout,
}

/// The output path that names standard output.
pub open spec fn stdout_path() -> Seq<char> {
    seq!['-']
}

/// Picks the output target from the optional output path; `is_directory` tells
/// whether that path names an existing directory.
pub fn resolve_output(path: Option<String>, is_directory: bool) -> (r: OutputTarget)
    ensures
        match path {
            None => r is Inplace,
            Some(p) => if is_directory {
                r matches OutputTarget::LocalDirectory(d) && d@ == p@
            } else if p@ == stdout_path() {
                r is Stdout
            } else {
                r matches OutputTarget::LocalFile(f) && f@ == p@
            },
        },
{
    match path {
        None => OutputTarget::Inplace,
        Some(p) => {
            if is_directory {
                OutputTarget::LocalDirectory(p)
            } else {
                let is_dash = crate::names::compare_names(p.as_str(), "-") == 0;
                proof {
                    reveal_strlit("-");
                    assert("-"@ =~= stdout_path());
                }
                if is_dash {
                    OutputTarget::Stdout
                } else {
                    OutputTarget::LocalFile(p)
                }
            }
        },
    }
}

/// Whether the records of every input are gathered into one output.
pub open spec fn gathers(target: OutputTarget, inputs: nat) -> bool {
    target is LocalFile && inputs >= 2
}

/// Decides whether the records of `inputs` input units are gathered into one output.
pub fn gathers_inputs(target: &OutputTarget, inputs: usize) -> (r: bool)
    ensures
        r == gathers(*target, inputs as nat),
{
    match target {
        OutputTarget::LocalFile(_) => inputs >= 2,
        _ => false,
    }
}

/// The number of items in all the units together.
pub open spec fn total_len<T>(units: Seq<Seq<T>>) -> nat
    decreases units.len(),
{
    if units.len() == 0 {
        0
    } else {
        total_len(units.drop_last()) + units.last().len()
    }
}

/// The views of the units.
pub open spec fn unit_views<T>(units: Seq<Vec<T>>) -> Seq<Seq<T>> {
    units.map_values(|u: Vec<T>| u@)
}

/// Gathered output holds as many records as the units together.
pub proof fn lemma_gathered_len<T>(units: Seq<Seq<T>>)
    ensures
        units.flatten().len() == total_len(units),
    decreases units.len(),
{
    if units.len() > 0 {
        let init = units.drop_last();
        lemma_gathered_len(init);
        init.lemma_flatten_push(units.last());
        assert(init.push(units.last()) =~= units);
    }
}

/// The records of every unit, unit after unit, each in its own order.
pub fn aggregate<T>(units: Vec<Vec<T>>) -> (r: Vec<T>)
    ensures
        r@ == unit_views(units@).flatten(),
        r.len() == total_len(unit_views(units@)),
{
    let ghost all = unit_views(units@);
    let mut out: Vec<T> = Vec::new();
    let mut rest = units;
    let ghost mut done: int = 0;
    proof {
        assert(all.take(0) =~= Seq::<Seq<T>>::empty());
        assert(unit_views(rest@) =~= all.skip(0));
    }
    while rest.len() > 0
        invariant
            0 <= done <= all.len(),
            unit_views(rest@) == all.skip(done),
            out@ == all.take(done).flatten(),
        decreases rest.len(),
    {
        let ghost before = rest@;
        let mut unit = rest.remove(0);
        proof {
            assert(unit_views(before).len() == before.len());
            assert(unit_views(before)[0] == before[0]@);
            assert(all.skip(done)[0] == all[done]);
            assert(all[done] == unit@);
            assert(all.take(done + 1) =~= all.take(done).push(unit@));
            all.take(done).lemma_flatten_push(unit@);
        }
        out.append(&mut unit);
        proof {
            assert(rest@ =~= before.drop_first());
            done = done + 1;
            assert(unit_views(rest@) =~= all.skip(done)) by {
                assert forall|i: int| 0 <= i < rest@.len() implies unit_views(rest@)[i] == all.skip(done)[i] by {
                    assert(unit_views(before)[i + 1] == before[i + 1]@);
                    assert(all.skip(done - 1)[i + 1] == all.skip(done)[i]);
                }
            }
        }
    }
    proof {
        assert(all.take(done) =~= all);
        lemma_gathered_len(all);
    }
    out
}

} // verus!
