//! Writing declarations back over the lines of a file.
//!
//! Each declaration is written as its canonical line at the position it
//! carries. A position within the file replaces the line that stands there; a
//! position beyond the end of the file adds a line at the end. Lines that no
//! declaration names stay as they are.

use crate::config_file::EnvVariable;
use crate::line::{render, rendered, Declaration};
use crate::text::{join, join_with};
use vstd::prelude::*;

verus! {

/// The positions and declarations of `entries`, in the same order.
pub open spec fn walk_of(entries: Seq<(u64, EnvVariable)>) -> Seq<(u64, Declaration)> {
    entries.map_values(|e: (u64, EnvVariable)| (e.0, e.1@))
}

/// Whether `walk` names each declaration of `vars` once, at its position, in
/// whatever order.
pub open spec fn is_walk_of(walk: Seq<(u64, Declaration)>, vars: Map<u64, Declaration>) -> bool {
    &&& forall|i: int|
        0 <= i < walk.len() ==> vars.contains_key((#[trigger] walk[i]).0) && vars[walk[i].0]
            == walk[i].1
    &&& forall|i: int, j: int|
        0 <= i < j < walk.len() ==> (#[trigger] walk[i]).0 != (#[trigger] walk[j]).0
    &&& forall|p: u64| #[trigger]
        vars.contains_key(p) ==> exists|i: int| 0 <= i < walk.len() && (#[trigger] walk[i]).0 == p
}

/// Whether the positions of `walk` start at 1 and none comes twice.
pub open spec fn positions_are_distinct(walk: Seq<(u64, Declaration)>) -> bool {
    &&& forall|i: int| 0 <= i < walk.len() ==> (#[trigger] walk[i]).0 >= 1
    &&& forall|i: int, j: int|
        0 <= i < j < walk.len() ==> (#[trigger] walk[i]).0 != (#[trigger] walk[j]).0
}

/// The lines of a file after the declarations of `walk` have been written over
/// them, one after the other in the order of `walk`: a declaration whose
/// position lies within the lines as they are by then replaces the line at
/// that position, and any other is added as a new last line.
pub open spec fn overlaid(lines: Seq<Seq<char>>, walk: Seq<(u64, Declaration)>) -> Seq<Seq<char>>
    decreases walk.len(),
{
    if walk.len() == 0 {
        lines
    } else {
        let before = overlaid(lines, walk.drop_last());
        let (position, d) = walk.last();
        if position - 1 >= before.len() {
            before.push(rendered(d))
        } else {
            before.update(position - 1, rendered(d))
        }
    }
}

/// The text of a file with the given lines: each line is followed by a line
/// feed, and a file without lines is one line feed.
pub open spec fn file_text(lines: Seq<Seq<char>>) -> Seq<char> {
    join_with(lines, seq!['\n']) + seq!['\n']
}

/// What writing does to the lines that were there, whatever the order: the
/// file gets no shorter, a declaration whose position lies within the file
/// stands at that position, and a line that no declaration names is
/// untouched.
pub proof fn lemma_overlaid_within(lines: Seq<Seq<char>>, walk: Seq<(u64, Declaration)>)
    requires
        positions_are_distinct(walk),
    ensures
        overlaid(lines, walk).len() >= lines.len(),
        forall|j: int|
            0 <= j < walk.len() && (#[trigger] walk[j]).0 <= lines.len() ==> overlaid(
                lines,
                walk,
            )[walk[j].0 - 1] == rendered(walk[j].1),
        forall|i: int|
            0 <= i < lines.len() && (forall|j: int|
                0 <= j < walk.len() ==> (#[trigger] walk[j]).0 != i + 1) ==> #[trigger] overlaid(
                lines,
                walk,
            )[i] == lines[i],
    decreases walk.len(),
{
    if walk.len() > 0 {
        let earlier = walk.drop_last();
        let before = overlaid(lines, earlier);
        let after = overlaid(lines, walk);
        let (position, d) = walk.last();
        assert(positions_are_distinct(earlier)) by {
            assert forall|i: int| 0 <= i < earlier.len() implies (#[trigger] earlier[i]).0 >= 1 by {
                assert(earlier[i] == walk[i]);
            }
            assert forall|i: int, j: int| 0 <= i < j < earlier.len() implies (#[trigger] earlier[i]).0
                != (#[trigger] earlier[j]).0 by {
                assert(earlier[i] == walk[i] && earlier[j] == walk[j]);
            }
        }
        lemma_overlaid_within(lines, earlier);
        assert(walk[walk.len() - 1] == walk.last());
        assert forall|j: int| 0 <= j < walk.len() && (#[trigger] walk[j]).0 <= lines.len() implies after[walk[j].0
            - 1] == rendered(walk[j].1) by {
            if j < walk.len() - 1 {
                assert(earlier[j] == walk[j]);
                assert(walk[j].0 != position);
            }
        }
        assert forall|i: int|
            0 <= i < lines.len() && (forall|j: int|
                0 <= j < walk.len() ==> (#[trigger] walk[j]).0 != i + 1) implies #[trigger] after[i]
            == lines[i] by {
            assert forall|j: int| 0 <= j < earlier.len() implies (#[trigger] earlier[j]).0 != i
                + 1 by {
                assert(earlier[j] == walk[j]);
            }
            assert(before[i] == lines[i]);
            assert(position != i + 1);
        }
    }
}

/// Where no position lies more than one line beyond the end of the file, the
/// outcome does not depend on the order: the file grows by at most one line,
/// and the declaration at the position after the last line, if there is one,
/// becomes the new last line.
pub proof fn lemma_overlaid_next_line(lines: Seq<Seq<char>>, walk: Seq<(u64, Declaration)>)
    requires
        positions_are_distinct(walk),
        forall|j: int| 0 <= j < walk.len() ==> (#[trigger] walk[j]).0 <= lines.len() + 1,
    ensures
        (forall|j: int| 0 <= j < walk.len() ==> (#[trigger] walk[j]).0 <= lines.len())
            ==> overlaid(lines, walk).len() == lines.len(),
        forall|j: int|
            0 <= j < walk.len() && (#[trigger] walk[j]).0 == lines.len() + 1 ==> overlaid(
                lines,
                walk,
            ) == overlaid(lines, walk).take(lines.len() as int).push(rendered(walk[j].1)),
    decreases walk.len(),
{
    if walk.len() > 0 {
        let earlier = walk.drop_last();
        let before = overlaid(lines, earlier);
        let after = overlaid(lines, walk);
        let (position, d) = walk.last();
        assert forall|i: int| 0 <= i < earlier.len() implies (#[trigger] earlier[i]).0 >= 1
            && earlier[i].0 <= lines.len() + 1 && earlier[i].0 != position by {
            assert(earlier[i] == walk[i]);
        }
        assert(positions_are_distinct(earlier)) by {
            assert forall|i: int, j: int| 0 <= i < j < earlier.len() implies (#[trigger] earlier[i]).0
                != (#[trigger] earlier[j]).0 by {
                assert(earlier[i] == walk[i] && earlier[j] == walk[j]);
            }
        }
        lemma_overlaid_next_line(lines, earlier);
        lemma_overlaid_within(lines, earlier);
        assert(walk[walk.len() - 1] == walk.last());
        if position == lines.len() + 1 {
            assert forall|i: int| 0 <= i < earlier.len() implies (#[trigger] earlier[i]).0
                <= lines.len() by {}
            assert(before.len() == lines.len());
            assert(after == before.push(rendered(d)));
            assert(after.take(lines.len() as int) == before);
        } else {
            assert(after.len() == before.len());
            assert(after.take(lines.len() as int) == before.take(lines.len() as int).update(
                position - 1,
                rendered(d),
            ));
        }
        assert forall|j: int| 0 <= j < walk.len() && (#[trigger] walk[j]).0 == lines.len()
            + 1 implies after == after.take(lines.len() as int).push(rendered(walk[j].1)) by {
            if j < walk.len() - 1 {
                assert(earlier[j] == walk[j]);
                assert(before == before.take(lines.len() as int).push(rendered(walk[j].1)));
                assert(before.len() == lines.len() + 1);
                assert(after == before.update(position - 1, rendered(d)));
                assert(after =~= after.take(lines.len() as int).push(rendered(walk[j].1)));
            }
        }
    }
}

/// A walk through declarations that stand at positions from 1 on names
/// positions that start at 1 and are distinct.
pub proof fn lemma_walk_positions(walk: Seq<(u64, Declaration)>, vars: Map<u64, Declaration>)
    requires
        is_walk_of(walk, vars),
        forall|p: u64| vars.contains_key(p) ==> p >= 1,
    ensures
        positions_are_distinct(walk),
{
    assert forall|i: int| 0 <= i < walk.len() implies (#[trigger] walk[i]).0 >= 1 by {
        assert(vars.contains_key(walk[i].0));
    }
}

/// Saving never shortens the file and never touches a line without a
/// declaration: whatever the order of the walk, each declaration whose
/// position lies within the file stands there as its canonical line, and each
/// line at whose number no declaration stands is the line that was read.
pub proof fn lemma_saved_lines(
    lines: Seq<Seq<char>>,
    vars: Map<u64, Declaration>,
    walk: Seq<(u64, Declaration)>,
)
    requires
        is_walk_of(walk, vars),
        forall|p: u64| vars.contains_key(p) ==> p >= 1,
    ensures
        overlaid(lines, walk).len() >= lines.len(),
        forall|p: u64| #[trigger]
            vars.contains_key(p) && p <= lines.len() ==> overlaid(lines, walk)[p - 1] == rendered(
                vars[p],
            ),
        forall|i: int|
            0 <= i < lines.len() && (forall|p: u64| vars.contains_key(p) ==> p != i + 1)
                ==> #[trigger] overlaid(lines, walk)[i] == lines[i],
{
    lemma_walk_positions(walk, vars);
    lemma_overlaid_within(lines, walk);
    assert forall|p: u64| #[trigger] vars.contains_key(p) && p <= lines.len() implies overlaid(
        lines,
        walk,
    )[p - 1] == rendered(vars[p]) by {
        let j = choose|j: int| 0 <= j < walk.len() && (#[trigger] walk[j]).0 == p;
        assert(walk[j].1 == vars[p]);
    }
    assert forall|i: int|
        0 <= i < lines.len() && (forall|p: u64|
            vars.contains_key(p) ==> p != i + 1) implies #[trigger] overlaid(lines, walk)[i]
        == lines[i] by {
        assert forall|j: int| 0 <= j < walk.len() implies (#[trigger] walk[j]).0 != i + 1 by {
            assert(vars.contains_key(walk[j].0));
        }
    }
}

/// Where every declaration stands within the file or on the line after its
/// last, saving gives one outcome whatever the order of the walk: the file
/// keeps its length where no declaration stands on that next line, and else
/// grows by that declaration's canonical line.
pub proof fn lemma_saved_next_line(
    lines: Seq<Seq<char>>,
    vars: Map<u64, Declaration>,
    walk: Seq<(u64, Declaration)>,
)
    requires
        is_walk_of(walk, vars),
        forall|p: u64| vars.contains_key(p) ==> 1 <= p <= lines.len() + 1,
    ensures
        (forall|p: u64| vars.contains_key(p) ==> p <= lines.len()) ==> overlaid(lines, walk).len()
            == lines.len(),
        forall|p: u64| #[trigger]
            vars.contains_key(p) && p == lines.len() + 1 ==> overlaid(lines, walk) == overlaid(
                lines,
                walk,
            ).take(lines.len() as int).push(rendered(vars[p])),
{
    lemma_walk_positions(walk, vars);
    assert forall|j: int| 0 <= j < walk.len() implies (#[trigger] walk[j]).0 <= lines.len()
        + 1 by {
        assert(vars.contains_key(walk[j].0));
    }
    lemma_overlaid_next_line(lines, walk);
    if forall|p: u64| vars.contains_key(p) ==> p <= lines.len() {
        assert forall|j: int| 0 <= j < walk.len() implies (#[trigger] walk[j]).0
            <= lines.len() by {
            assert(vars.contains_key(walk[j].0));
        }
    }
    assert forall|p: u64| #[trigger] vars.contains_key(p) && p == lines.len() + 1 implies overlaid(
        lines,
        walk,
    ) == overlaid(lines, walk).take(lines.len() as int).push(rendered(vars[p])) by {
        let j = choose|j: int| 0 <= j < walk.len() && (#[trigger] walk[j]).0 == p;
        assert(walk[j].1 == vars[p]);
    }
}

/// The lines with each declaration of `entries` written over them, in the
/// order of `entries`.
pub fn merge(lines: Vec<String>, entries: &Vec<(u64, EnvVariable)>) -> (merged: Vec<String>)
    requires
        forall|i: int| 0 <= i < entries.len() ==> (#[trigger] entries[i]).0 >= 1,
    ensures
        merged.deep_view() == overlaid(lines.deep_view(), walk_of(entries@)),
{
    let ghost given = lines.deep_view();
    let ghost walk = walk_of(entries@);
    let mut merged = lines;
    let mut i: usize = 0;
    while i < entries.len()
        invariant
            i <= entries.len(),
            walk == walk_of(entries@),
            forall|k: int| 0 <= k < entries.len() ==> (#[trigger] entries[k]).0 >= 1,
            merged.deep_view() == overlaid(given, walk.take(i as int)),
        decreases entries.len() - i,
    {
        let position = entries[i].0;
        let text = render(&entries[i].1);
        let at: u64 = position - 1;
        let ghost before = merged.deep_view();
        proof {
            let done = walk.take(i + 1);
            assert(done.drop_last() == walk.take(i as int));
            assert(done.last() == (position, entries[i as int].1@));
        }
        if at >= merged.len() as u64 {
            merged.push(text);
            assert(merged.deep_view() == before.push(text@));
        } else {
            merged.set(at as usize, text);
            assert(merged.deep_view() == before.update(at as int, text@));
        }
        i += 1;
    }
    assert(walk.take(i as int) == walk);
    merged
}

/// The text of a file with the given lines.
pub fn file_content(lines: &Vec<String>) -> (text: String)
    ensures
        text@ == file_text(lines.deep_view()),
{
    let mut text = join(lines, "\n");
    proof {
        reveal_strlit("\n");
        assert("\n"@ == seq!['\n']);
    }
    text.append("\n");
    text
}

} // verus!
