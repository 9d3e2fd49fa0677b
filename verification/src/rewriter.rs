//! The line-rewriting transform and its mathematical model.

use vstd::prelude::*;

verus! {

/// What one input line contributes to the output: a line that starts with
/// the marker prefix is surrounded by the two guard lines; any other line
/// passes through alone.
pub open spec fn emitted_lines(
    line: Seq<char>,
    marker: Seq<char>,
    before: Seq<char>,
    after: Seq<char>,
) -> Seq<Seq<char>> {
    if marker.is_prefix_of(line) {
        seq![before, line, after]
    } else {
        seq![line]
    }
}

/// The whole transform: the concatenation, in input order, of what each
/// line emits.
pub open spec fn rewritten(
    lines: Seq<Seq<char>>,
    marker: Seq<char>,
    before: Seq<char>,
    after: Seq<char>,
) -> Seq<Seq<char>>
    decreases lines.len(),
{
    if lines.len() == 0 {
        Seq::empty()
    } else {
        emitted_lines(lines[0], marker, before, after) + rewritten(
            lines.drop_first(),
            marker,
            before,
            after,
        )
    }
}

/// How many lines of the document start with the marker prefix.
pub open spec fn marker_count(lines: Seq<Seq<char>>, marker: Seq<char>) -> nat
    decreases lines.len(),
{
    if lines.len() == 0 {
        0
    } else {
        (if marker.is_prefix_of(lines[0]) {
            1nat
        } else {
            0nat
        }) + marker_count(lines.drop_first(), marker)
    }
}

/// Whether `line` starts with `prefix`, character for character.
pub fn has_prefix(line: &str, prefix: &str) -> (r: bool)
    ensures
        r == prefix@.is_prefix_of(line@),
{
    let n = prefix.unicode_len();
    if n > line.unicode_len() {
        return false;
    }
    let mut i: usize = 0;
    while i < n
        invariant
            n == prefix@.len(),
            n <= line@.len(),
            i <= n,
            forall|j: int| 0 <= j < i ==> line@[j] == prefix@[j],
        decreases n - i,
    {
        if line.get_char(i) != prefix.get_char(i) {
            assert(line@.subrange(0, n as int)[i as int] != prefix@[i as int]);
            return false;
        }
        i = i + 1;
    }
    assert(prefix@ =~= line@.subrange(0, n as int));
    true
}

/// A document flattened back to raw text: every line followed by one
/// newline character.
pub open spec fn joined(lines: Seq<Seq<char>>) -> Seq<char>
    decreases lines.len(),
{
    if lines.len() == 0 {
        Seq::empty()
    } else {
        lines[0] + seq!['\n'] + joined(lines.drop_first())
    }
}

/// Rewrites a document. Every line that starts with `marker` is replaced by
/// the three lines guard-before, the line itself, guard-after; every other
/// line is kept as it is, and the input order is preserved.
pub fn rewrite(lines: &Vec<String>, marker: &str, before: &str, after: &str) -> (out: Vec<String>)
    ensures
        out.deep_view() == rewritten(lines.deep_view(), marker@, before@, after@),
{
    let ghost doc = lines.deep_view();
    let mut out: Vec<String> = Vec::new();
    let mut i: usize = 0;
    while i < lines.len()
        invariant
            i <= lines.len(),
            doc == lines.deep_view(),
            out.deep_view() == rewritten(doc.take(i as int), marker@, before@, after@),
        decreases lines.len() - i,
    {
        let ghost prev = out.deep_view();
        if has_prefix(&lines[i], marker) {
            out.push(before.to_owned());
            out.push(lines[i].clone());
            out.push(after.to_owned());
            proof {
                assert(out.deep_view() =~= prev + emitted_lines(doc[i as int], marker@, before@, after@));
            }
        } else {
            out.push(lines[i].clone());
            proof {
                assert(out.deep_view() =~= prev + emitted_lines(doc[i as int], marker@, before@, after@));
            }
        }
        proof {
            crate::laws::lemma_rewritten_push(
                doc.take(i as int),
                doc[i as int],
                marker@,
                before@,
                after@,
            );
            assert(doc.take(i + 1 as int) =~= doc.take(i as int).push(doc[i as int]));
        }
        i = i + 1;
    }
    proof {
        assert(doc.take(lines@.len() as int) =~= doc);
    }
    out
}

/// Flattens a document to raw text, terminating every line with a newline.
pub fn render(lines: &Vec<String>) -> (out: String)
    ensures
        out@ == joined(lines.deep_view()),
{
    let ghost doc = lines.deep_view();
    let mut out = String::new();
    let mut i: usize = 0;
    while i < lines.len()
        invariant
            i <= lines.len(),
            doc == lines.deep_view(),
            out@ == joined(doc.take(i as int)),
        decreases lines.len() - i,
    {
        out.append(lines[i].as_str());
        out.append("\n");
        proof {
            reveal_strlit("\n");
            assert("\n"@ =~= seq!['\n']);
            crate::laws::lemma_joined_push(doc.take(i as int), doc[i as int]);
            assert(doc.take(i + 1 as int) =~= doc.take(i as int).push(doc[i as int]));
            assert(out@ =~= joined(doc.take(i + 1 as int)));
        }
        i = i + 1;
    }
    proof {
        assert(doc.take(lines@.len() as int) =~= doc);
    }
    out
}

/// Rewrites a document with the stock configuration: marker prefix `"G0"`,
/// guard-before `"M5"`, guard-after `"M3"`.
pub fn rewrite_gcode(lines: &Vec<String>) -> (out: Vec<String>)
    ensures
        out.deep_view() == rewritten(lines.deep_view(), "G0"@, "M5"@, "M3"@),
{
    rewrite(lines, "G0", "M5", "M3")
}

/// Processes one document end to end: rewrites it with the stock
/// configuration and flattens the result to raw text, one newline-terminated
/// record per output line.
pub fn rewrite_document(lines: &Vec<String>) -> (out: String)
    ensures
        out@ == joined(rewritten(lines.deep_view(), "G0"@, "M5"@, "M3"@)),
{
    let guarded = rewrite_gcode(lines);
    render(&guarded)
}

} // verus!
