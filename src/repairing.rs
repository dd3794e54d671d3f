//! Rewriting a manifest so that flagged lines are commented out or removed.
use crate::issues::{ValidationIssue, issue_views, IssueView};
use crate::text::{append_str, lines_of, split_lines, views};
use vstd::prelude::*;
use vstd::string::*;

verus! {

/// A flagged line kept as a comment.
pub open spec fn preserved(line: Seq<char>) -> Seq<char> {
    "# "@ + line + " (preserved by canopus)"@
}

/// The lines, with each flagged one commented out.
pub open spec fn patched_lines(ls: Seq<Seq<char>>, flagged: Seq<usize>) -> Seq<Seq<char>> {
    Seq::new(
        ls.len(),
        |i: int|
            if flagged.contains(i as usize) {
                preserved(ls[i])
            } else {
                ls[i]
            },
    )
}

/// The lines that are not flagged, in order.
pub open spec fn kept_lines(ls: Seq<Seq<char>>, flagged: Seq<usize>) -> Seq<Seq<char>>
    decreases ls.len(),
{
    if ls.len() == 0 {
        seq![]
    } else {
        kept_lines(ls.drop_last(), flagged) + if flagged.contains((ls.len() - 1) as usize) {
            seq![]
        } else {
            seq![ls.last()]
        }
    }
}

/// Lines joined by `\n`.
pub open spec fn joined_lines(ls: Seq<Seq<char>>) -> Seq<char>
    decreases ls.len(),
{
    if ls.len() == 0 {
        seq![]
    } else if ls.len() == 1 {
        ls[0]
    } else {
        joined_lines(ls.drop_last()) + "\n"@ + ls.last()
    }
}

/// The repaired text: the lines of `text`, flagged ones removed or commented
/// out, joined by `\n` and ended by one `\n`.
pub open spec fn repaired(text: Seq<char>, flagged: Seq<usize>, remove_lines: bool) -> Seq<char> {
    let ls = lines_of(text);
    joined_lines(
        if remove_lines {
            kept_lines(ls, flagged)
        } else {
            patched_lines(ls, flagged)
        },
    ) + "\n"@
}

fn is_flagged(flagged: &Vec<usize>, line: usize) -> (r: bool)
    ensures
        r == flagged@.contains(line),
{
    let mut i: usize = 0;
    while i < flagged.len()
        invariant
            i <= flagged.len(),
            forall|j: int| 0 <= j < i ==> flagged@[j] != line,
        decreases flagged.len() - i,
    {
        if flagged[i] == line {
            assert(flagged@[i as int] == line);
            return true;
        }
        i += 1;
    }
    false
}

/// The lines, each flagged one turned into a comment that keeps its text.
pub fn patch_flagged_lines(lines_to_repair: &Vec<usize>, codeowners_lines: &Vec<String>) -> (r: Vec<String>)
    ensures
        views(r@) == patched_lines(views(codeowners_lines@), lines_to_repair@),
{
    let ghost ls = views(codeowners_lines@);
    let mut r: Vec<String> = Vec::new();
    let mut i: usize = 0;
    while i < codeowners_lines.len()
        invariant
            i <= codeowners_lines.len(),
            ls == views(codeowners_lines@),
            views(r@) == patched_lines(ls, lines_to_repair@).take(i as int),
        decreases codeowners_lines.len() - i,
    {
        let line = if is_flagged(lines_to_repair, i) {
            let mut l = String::from_str("# ");
            append_str(&mut l, codeowners_lines[i].as_str());
            append_str(&mut l, " (preserved by canopus)");
            l
        } else {
            codeowners_lines[i].clone()
        };
        let ghost before = views(r@);
        r.push(line);
        assert(views(r@) =~= before.push(line@));
        assert(views(r@) =~= patched_lines(ls, lines_to_repair@).take(i + 1));
        i += 1;
    }
    assert(patched_lines(ls, lines_to_repair@).take(codeowners_lines.len() as int) =~= patched_lines(
        ls,
        lines_to_repair@,
    ));
    r
}

/// The lines that are not flagged.
pub fn remove_flagged_lines(lines_to_repair: &Vec<usize>, codeowners_lines: &Vec<String>) -> (r: Vec<String>)
    ensures
        views(r@) == kept_lines(views(codeowners_lines@), lines_to_repair@),
{
    let ghost ls = views(codeowners_lines@);
    let mut r: Vec<String> = Vec::new();
    let mut i: usize = 0;
    assert(ls.take(0) =~= Seq::<Seq<char>>::empty());
    assert(views(r@) =~= Seq::<Seq<char>>::empty());
    while i < codeowners_lines.len()
        invariant
            i <= codeowners_lines.len(),
            ls == views(codeowners_lines@),
            views(r@) == kept_lines(ls.take(i as int), lines_to_repair@),
        decreases codeowners_lines.len() - i,
    {
        assert(ls.take(i + 1).drop_last() =~= ls.take(i as int));
        let ghost before = views(r@);
        if !is_flagged(lines_to_repair, i) {
            r.push(codeowners_lines[i].clone());
            assert(views(r@) =~= before.push(ls[i as int]));
        }
        assert(views(r@) =~= kept_lines(ls.take(i + 1), lines_to_repair@));
        i += 1;
    }
    assert(ls.take(codeowners_lines.len() as int) =~= ls);
    r
}

fn join_lines(ls: &Vec<String>) -> (r: String)
    ensures
        r@ == joined_lines(views(ls@)),
{
    let ghost v = views(ls@);
    let mut r = String::new();
    let mut i: usize = 0;
    assert(v.take(0) =~= Seq::<Seq<char>>::empty());
    while i < ls.len()
        invariant
            i <= ls.len(),
            v == views(ls@),
            r@ == joined_lines(v.take(i as int)),
        decreases ls.len() - i,
    {
        assert(v.take(i + 1).drop_last() =~= v.take(i as int));
        if i > 0 {
            append_str(&mut r, "\n");
        }
        append_str(&mut r, ls[i].as_str());
        proof {
            if i == 0 {
                assert(r@ =~= joined_lines(v.take(1)));
            }
        }
        i += 1;
    }
    assert(v.take(ls.len() as int) =~= v);
    r
}

/// The manifest's text after repair: flagged lines (0-based) are removed when
/// `remove_lines`, else commented out; other lines are kept as they are.
pub fn repair_contents(contents: &str, lines_to_repair: &Vec<usize>, remove_lines: bool) -> (r: String)
    ensures
        r@ == repaired(contents@, lines_to_repair@, remove_lines),
{
    let lines = split_lines(contents);
    let new_lines = if remove_lines {
        remove_flagged_lines(lines_to_repair, &lines)
    } else {
        patch_flagged_lines(lines_to_repair, &lines)
    };
    let mut r = join_lines(&new_lines);
    append_str(&mut r, "\n");
    r
}

/// The distinct lines of the diagnostics, in order of first appearance.
pub open spec fn distinct_lines(issues: Seq<IssueView>) -> Seq<usize>
    decreases issues.len(),
{
    if issues.len() == 0 {
        seq![]
    } else {
        let d = distinct_lines(issues.drop_last());
        if d.contains(issues.last().line) {
            d
        } else {
            d.push(issues.last().line)
        }
    }
}

/// The lines to repair: each line that a diagnostic names, once.
pub fn lines_to_repair(issues: &Vec<ValidationIssue>) -> (r: Vec<usize>)
    ensures
        r@ == distinct_lines(issue_views(issues@)),
{
    let ghost v = issue_views(issues@);
    let mut r: Vec<usize> = Vec::new();
    let mut i: usize = 0;
    assert(v.take(0) =~= Seq::<IssueView>::empty());
    while i < issues.len()
        invariant
            i <= issues.len(),
            v == issue_views(issues@),
            r@ == distinct_lines(v.take(i as int)),
        decreases issues.len() - i,
    {
        assert(v.take(i + 1).drop_last() =~= v.take(i as int));
        assert(v.take(i + 1).last().line == issues@[i as int].line);
        if !is_flagged(&r, issues[i].line) {
            r.push(issues[i].line);
        }
        i += 1;
    }
    assert(v.take(issues.len() as int) =~= v);
    r
}

} // verus!
