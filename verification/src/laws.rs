//! Document-level laws of the transform.

use vstd::prelude::*;

use crate::rewriter::emitted_lines;
use crate::rewriter::joined;
use crate::rewriter::marker_count;
use crate::rewriter::rewritten;

verus! {

/// Rewriting a document extended by one last line rewrites the document and
/// then appends what that line emits.
pub proof fn lemma_rewritten_push(
    lines: Seq<Seq<char>>,
    line: Seq<char>,
    marker: Seq<char>,
    before: Seq<char>,
    after: Seq<char>,
)
    ensures
        rewritten(lines.push(line), marker, before, after) == rewritten(
            lines,
            marker,
            before,
            after,
        ) + emitted_lines(line, marker, before, after),
    decreases lines.len(),
{
    let p = lines.push(line);
    let e = emitted_lines(line, marker, before, after);
    if lines.len() == 0 {
        assert(p[0] == line);
        assert(p.drop_first() =~= Seq::<Seq<char>>::empty());
        assert(rewritten(p, marker, before, after) == e + rewritten(
            p.drop_first(),
            marker,
            before,
            after,
        ));
        assert(rewritten(p, marker, before, after) =~= rewritten(lines, marker, before, after) + e);
    } else {
        assert(p[0] == lines[0]);
        assert(p.drop_first() =~= lines.drop_first().push(line));
        lemma_rewritten_push(lines.drop_first(), line, marker, before, after);
        assert(rewritten(p, marker, before, after) =~= rewritten(lines, marker, before, after) + e);
    }
}

/// Flattening a document extended by one last line flattens the document and
/// then appends that line and a newline.
pub proof fn lemma_joined_push(lines: Seq<Seq<char>>, line: Seq<char>)
    ensures
        joined(lines.push(line)) == joined(lines) + line + seq!['\n'],
    decreases lines.len(),
{
    let p = lines.push(line);
    if lines.len() == 0 {
        assert(p[0] == line);
        assert(p.drop_first() =~= Seq::<Seq<char>>::empty());
        assert(joined(p) == line + seq!['\n'] + joined(p.drop_first()));
        assert(joined(p) =~= joined(lines) + line + seq!['\n']);
    } else {
        assert(p[0] == lines[0]);
        assert(p.drop_first() =~= lines.drop_first().push(line));
        lemma_joined_push(lines.drop_first(), line);
        assert(joined(p) =~= joined(lines) + line + seq!['\n']);
    }
}

/// A line that does not start with the marker prefix passes through the
/// transform unchanged and alone.
pub proof fn lemma_skipped_line(
    line: Seq<char>,
    marker: Seq<char>,
    before: Seq<char>,
    after: Seq<char>,
)
    requires
        !marker.is_prefix_of(line),
    ensures
        rewritten(seq![line], marker, before, after) == seq![line],
{
    let s = seq![line];
    assert(s[0] == line);
    assert(s.drop_first() =~= Seq::<Seq<char>>::empty());
    assert(rewritten(s.drop_first(), marker, before, after) == Seq::<Seq<char>>::empty());
    assert(rewritten(s, marker, before, after) =~= seq![line]);
}

/// A line that starts with the marker prefix comes out surrounded by the two
/// guard lines: guard-before, the line itself, guard-after.
pub proof fn lemma_marked_line(
    line: Seq<char>,
    marker: Seq<char>,
    before: Seq<char>,
    after: Seq<char>,
)
    requires
        marker.is_prefix_of(line),
    ensures
        rewritten(seq![line], marker, before, after) == seq![before, line, after],
{
    let s = seq![line];
    assert(s[0] == line);
    assert(s.drop_first() =~= Seq::<Seq<char>>::empty());
    assert(rewritten(s.drop_first(), marker, before, after) == Seq::<Seq<char>>::empty());
    assert(rewritten(s, marker, before, after) =~= seq![before, line, after]);
}

/// The output is exactly two lines longer than the input for every input
/// line that starts with the marker prefix.
pub proof fn lemma_rewritten_length(
    lines: Seq<Seq<char>>,
    marker: Seq<char>,
    before: Seq<char>,
    after: Seq<char>,
)
    ensures
        rewritten(lines, marker, before, after).len() == lines.len() + 2 * marker_count(
            lines,
            marker,
        ),
    decreases lines.len(),
{
    if lines.len() > 0 {
        lemma_rewritten_length(lines.drop_first(), marker, before, after);
    }
}

/// Counting marked lines distributes over appending one line.
proof fn lemma_marker_count_push(lines: Seq<Seq<char>>, line: Seq<char>, marker: Seq<char>)
    ensures
        marker_count(lines.push(line), marker) == marker_count(lines, marker) + (
        if marker.is_prefix_of(line) {
            1nat
        } else {
            0nat
        }),
    decreases lines.len(),
{
    let p = lines.push(line);
    if lines.len() == 0 {
        assert(p[0] == line);
        assert(p.drop_first() =~= Seq::<Seq<char>>::empty());
        assert(marker_count(p.drop_first(), marker) == 0);
    } else {
        assert(p[0] == lines[0]);
        assert(p.drop_first() =~= lines.drop_first().push(line));
        lemma_marker_count_push(lines.drop_first(), line, marker);
        assert(marker_count(p, marker) == (if marker.is_prefix_of(p[0]) {
            1nat
        } else {
            0nat
        }) + marker_count(p.drop_first(), marker));
    }
}

/// Where line `i` of the input stands in the output: each earlier line
/// contributes itself plus two guards if it is marked, and a marked line `i`
/// stands right behind its own guard-before.
pub open spec fn output_index(lines: Seq<Seq<char>>, marker: Seq<char>, i: int) -> int {
    i + 2 * marker_count(lines.take(i), marker) + (if marker.is_prefix_of(lines[i]) {
        1int
    } else {
        0int
    })
}

/// Every input line reappears in the output, at its output index.
pub proof fn lemma_order_preserved_at(
    lines: Seq<Seq<char>>,
    marker: Seq<char>,
    before: Seq<char>,
    after: Seq<char>,
    i: int,
)
    requires
        0 <= i < lines.len(),
    ensures
        0 <= output_index(lines, marker, i) < rewritten(lines, marker, before, after).len(),
        rewritten(lines, marker, before, after)[output_index(lines, marker, i)] == lines[i],
    decreases i,
{
    let rest = lines.drop_first();
    let head = emitted_lines(lines[0], marker, before, after);
    lemma_rewritten_length(lines, marker, before, after);
    if i == 0 {
        assert(lines.take(0) =~= Seq::<Seq<char>>::empty());
    } else {
        lemma_order_preserved_at(rest, marker, before, after, i - 1);
        assert(lines.take(i)[0] == lines[0]);
        assert(lines.take(i).drop_first() =~= rest.take(i - 1));
        assert(output_index(lines, marker, i) == head.len() + output_index(rest, marker, i - 1));
    }
}

/// The output indices grow strictly with the input indices, so the original
/// lines keep their relative order in the output.
pub proof fn lemma_output_index_increasing(
    lines: Seq<Seq<char>>,
    marker: Seq<char>,
    i: int,
    j: int,
)
    requires
        0 <= i < j < lines.len(),
    ensures
        output_index(lines, marker, i) < output_index(lines, marker, j),
    decreases j - i,
{
    if j == i + 1 {
        lemma_marker_count_push(lines.take(i), lines[i], marker);
        assert(lines.take(j) =~= lines.take(i).push(lines[i]));
    } else {
        lemma_output_index_increasing(lines, marker, i, j - 1);
        lemma_output_index_increasing(lines, marker, j - 1, j);
    }
}

} // verus!
