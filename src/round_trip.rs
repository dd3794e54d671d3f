//! Writing a parsed manifest back as text, and reading that text again.
use crate::codeowners::{
    CodeOwners, EntryView, RuleView, ScanView, document_of, entry_of, owners_text, parse_lines,
    rendered_entry, scan_owners, scan_step, token_issues, valid_glob,
};
use crate::handles::{OwnerView, lemma_owner_text_round_trip, owner_of, owner_text};
use crate::text::{
    append_str, is_ws, join_words, lemma_join_append, lemma_tokens_join, lemma_tokens_plain, lines_from,
    lines_of, plain_words, strip_cr, tokens_from, tokens_of, trim, trim_end, trim_start, without_hashes,
    ws_free,
};
use vstd::prelude::*;
use vstd::string::*;

verus! {

/// Lines, each followed by `\n`.
pub open spec fn line_text(ls: Seq<Seq<char>>) -> Seq<char>
    decreases ls.len(),
{
    if ls.len() == 0 {
        seq![]
    } else {
        ls[0] + "\n"@ + line_text(ls.drop_first())
    }
}

/// The manifest text of the entries, one line each.
pub open spec fn rendered_text(es: Seq<EntryView>) -> Seq<char> {
    line_text(es.map_values(|e: EntryView| rendered_entry(e)))
}

/// A line that reads back as itself: no `\n`, and no `\r` at its end.
pub open spec fn plain_line(l: Seq<char>) -> bool {
    !l.contains('\n') && (l.len() == 0 || l.last() != '\r')
}

proof fn lemma_lines_from_line(l: Seq<char>, rest: Seq<char>, cur: Seq<char>)
    requires
        !l.contains('\n'),
    ensures
        lines_from(l + "\n"@ + rest, cur) == seq![strip_cr(cur + l)] + lines_from(rest, seq![]),
    decreases l.len(),
{
    reveal_strlit("\n");
    let s = l + "\n"@ + rest;
    if l.len() == 0 {
        assert(cur + l =~= cur);
        assert(s[0] == '\n');
        assert(s.drop_first() =~= rest);
    } else {
        assert(s[0] == l[0]);
        assert(l[0] != '\n') by {
            if l[0] == '\n' {
                assert(l.contains('\n'));
            }
        }
        let l2 = l.drop_first();
        assert(!l2.contains('\n')) by {
            if l2.contains('\n') {
                let i = choose|i: int| 0 <= i < l2.len() && l2[i] == '\n';
                assert(l[i + 1] == '\n');
            }
        }
        assert(s.drop_first() =~= l2 + "\n"@ + rest);
        assert(cur.push(l[0]) + l2 =~= cur + l);
        lemma_lines_from_line(l2, rest, cur.push(l[0]));
    }
}

/// Lines written one per line read back as the same lines.
pub proof fn lemma_lines_of_line_text(ls: Seq<Seq<char>>)
    requires
        forall|i: int| 0 <= i < ls.len() ==> plain_line(#[trigger] ls[i]),
    ensures
        lines_of(line_text(ls)) == ls,
    decreases ls.len(),
{
    if ls.len() > 0 {
        let t = ls.drop_first();
        assert forall|i: int| 0 <= i < t.len() implies plain_line(#[trigger] t[i]) by {
            assert(t[i] == ls[i + 1]);
        }
        lemma_lines_of_line_text(t);
        assert(plain_line(ls[0]));
        lemma_lines_from_line(ls[0], line_text(t), seq![]);
        assert(seq![] + ls[0] =~= ls[0]);
        assert(strip_cr(ls[0]) == ls[0]);
        assert(ls =~= seq![ls[0]] + t);
    }
}

/// Lines read from a text hold no `\n`.
proof fn lemma_lines_no_newline(s: Seq<char>, cur: Seq<char>)
    requires
        !cur.contains('\n'),
    ensures
        forall|i: int| 0 <= i < lines_from(s, cur).len() ==> !(#[trigger] lines_from(s, cur)[i]).contains('\n'),
    decreases s.len(),
{
    if s.len() == 0 {
        if cur.len() > 0 {
            assert(lines_from(s, cur) == seq![cur]);
            assert(lines_from(s, cur)[0] == cur);
        } else {
            assert(lines_from(s, cur).len() == 0);
        }
    } else if s[0] == '\n' {
        lemma_lines_no_newline(s.drop_first(), seq![]);
        let c = strip_cr(cur);
        assert(!c.contains('\n')) by {
            if c.contains('\n') {
                let i = choose|i: int| 0 <= i < c.len() && c[i] == '\n';
                assert(cur[i] == '\n');
            }
        }
        let rest = lines_from(s.drop_first(), seq![]);
        assert forall|i: int| 0 <= i < lines_from(s, cur).len() implies !(#[trigger] lines_from(s, cur)[i]).contains('\n') by {
            assert(lines_from(s, cur) == seq![c] + rest);
            if i > 0 {
                assert(lines_from(s, cur)[i] == rest[i - 1]);
            } else {
                assert(lines_from(s, cur)[i] == c);
            }
        }
    } else {
        let c2 = cur.push(s[0]);
        assert(!c2.contains('\n')) by {
            if c2.contains('\n') {
                let i = choose|i: int| 0 <= i < c2.len() && c2[i] == '\n';
                if i < cur.len() {
                    assert(cur[i] == '\n');
                }
            }
        }
        lemma_lines_no_newline(s.drop_first(), c2);
        assert(lines_from(s, cur) == lines_from(s.drop_first(), c2));
    }
}

/// An owner that reads back from its written form, a single word that is
/// not `#`.
pub open spec fn rewritable_owner(o: OwnerView) -> bool {
    &&& owner_text(o).len() > 0
    &&& ws_free(owner_text(o))
    &&& owner_text(o) != seq!['#']
    &&& owner_of(owner_text(o)) == Some(o)
}

/// What reading a rule line guarantees of the rule.
pub open spec fn rewritable_rule(k: usize, r: RuleView) -> bool {
    &&& r.line == k
    &&& r.glob.len() > 0
    &&& ws_free(r.glob)
    &&& valid_glob(r.glob)
    &&& r.owners.len() > 0
    &&& forall|i: int| 0 <= i < r.owners.len() ==> rewritable_owner(#[trigger] r.owners[i])
    &&& match r.comment {
        Some(c) => {
            &&& tokens_of(c).len() > 0
            &&& join_words(tokens_of(c)) == c
            &&& forall|i: int| 0 <= i < tokens_of(c).len() ==> #[trigger] tokens_of(c)[i] != seq!['#']
        },
        None => true,
    }
}

/// What reading a line guarantees of its entry.
pub open spec fn rewritable_entry(k: usize, e: EntryView) -> bool {
    match e {
        EntryView::BlankLine => true,
        EntryView::Comment(t) => {
            &&& !t.contains('#')
            &&& !t.contains('\n')
            &&& (t.len() == 0 || (!is_ws(t[0]) && !is_ws(t.last())))
        },
        EntryView::Rule(r) => rewritable_rule(k, r),
    }
}

proof fn lemma_without_hashes(s: Seq<char>)
    ensures
        !without_hashes(s).contains('#'),
        !s.contains('\n') ==> !without_hashes(s).contains('\n'),
        !s.contains('#') ==> without_hashes(s) == s,
    decreases s.len(),
{
    if s.len() > 0 {
        let p = s.drop_last();
        lemma_without_hashes(p);
        assert(!s.contains('\n') ==> !p.contains('\n')) by {
            if p.contains('\n') {
                let i = choose|i: int| 0 <= i < p.len() && p[i] == '\n';
                assert(s[i] == '\n');
            }
        }
        assert(!s.contains('#') ==> !p.contains('#')) by {
            if p.contains('#') {
                let i = choose|i: int| 0 <= i < p.len() && p[i] == '#';
                assert(s[i] == '#');
            }
        }
        if s.last() != '#' {
            let w = without_hashes(p).push(s.last());
            assert(!w.contains('#')) by {
                if w.contains('#') {
                    let i = choose|i: int| 0 <= i < w.len() && w[i] == '#';
                    if i < w.len() - 1 {
                        assert(without_hashes(p)[i] == '#');
                    }
                }
            }
            assert(!s.contains('\n') ==> !w.contains('\n')) by {
                if !s.contains('\n') && w.contains('\n') {
                    let i = choose|i: int| 0 <= i < w.len() && w[i] == '\n';
                    if i < w.len() - 1 {
                        assert(without_hashes(p)[i] == '\n');
                    } else {
                        assert(s[s.len() - 1] == '\n');
                    }
                }
            }
            assert(!s.contains('#') ==> w =~= s);
        } else {
            assert(s.contains('#')) by {
                assert(s[s.len() - 1] == '#');
            }
        }
    }
}

proof fn lemma_trim_start_suffix(s: Seq<char>)
    ensures
        exists|k: int| 0 <= k <= s.len() && trim_start(s) == s.skip(k),
        trim_start(s).len() == 0 || !is_ws(trim_start(s)[0]),
    decreases s.len(),
{
    if s.len() > 0 && is_ws(s[0]) {
        lemma_trim_start_suffix(s.drop_first());
        let k = choose|k: int| 0 <= k <= s.drop_first().len() && trim_start(s.drop_first()) == s.drop_first().skip(k);
        assert(s.drop_first().skip(k) =~= s.skip(k + 1));
    } else {
        assert(s.skip(0) =~= s);
    }
}

proof fn lemma_trim_end_prefix(s: Seq<char>)
    ensures
        exists|k: int| 0 <= k <= s.len() && trim_end(s) == s.take(k),
        trim_end(s).len() == 0 || !is_ws(trim_end(s).last()),
    decreases s.len(),
{
    if s.len() > 0 && is_ws(s.last()) {
        lemma_trim_end_prefix(s.drop_last());
        let k = choose|k: int| 0 <= k <= s.drop_last().len() && trim_end(s.drop_last()) == s.drop_last().take(k);
        assert(s.drop_last().take(k) =~= s.take(k));
    } else {
        assert(s.take(s.len() as int) =~= s);
    }
}

proof fn lemma_trim_comment(s: Seq<char>)
    requires
        !s.contains('\n'),
    ensures
        ({
            let t = trim(without_hashes(s));
            &&& !t.contains('#')
            &&& !t.contains('\n')
            &&& (t.len() == 0 || (!is_ws(t[0]) && !is_ws(t.last())))
        }),
{
    let w = without_hashes(s);
    lemma_without_hashes(s);
    let u = trim_start(w);
    lemma_trim_start_suffix(w);
    let k = choose|k: int| 0 <= k <= w.len() && u == w.skip(k);
    let t = trim_end(u);
    lemma_trim_end_prefix(u);
    let j = choose|j: int| 0 <= j <= u.len() && t == u.take(j);
    assert forall|i: int| 0 <= i < t.len() implies t[i] == w[i + k] by {}
    assert(!t.contains('#')) by {
        if t.contains('#') {
            let i = choose|i: int| 0 <= i < t.len() && t[i] == '#';
            assert(w[i + k] == '#');
        }
    }
    assert(!t.contains('\n')) by {
        if t.contains('\n') {
            let i = choose|i: int| 0 <= i < t.len() && t[i] == '\n';
            assert(w[i + k] == '\n');
        }
    }
    if t.len() > 0 {
        assert(t[0] == u[0]);
    }
}

proof fn lemma_scan_rewritable(toks: Seq<Seq<char>>)
    requires
        plain_words(toks),
    ensures
        ({
            let st = scan_owners(toks);
            &&& forall|i: int| 0 <= i < st.owners.len() ==> rewritable_owner(#[trigger] st.owners[i])
            &&& plain_words(st.words)
            &&& forall|i: int| 0 <= i < st.words.len() ==> #[trigger] st.words[i] != seq!['#']
        }),
    decreases toks.len(),
{
    if toks.len() > 0 {
        let p = toks.drop_last();
        assert(plain_words(p)) by {
            assert forall|i: int| 0 <= i < p.len() implies (#[trigger] p[i]).len() > 0 && ws_free(p[i]) by {
                assert(p[i] == toks[i]);
            }
        }
        lemma_scan_rewritable(p);
        let tok = toks.last();
        assert(tok == toks[toks.len() - 1]);
        let prev = scan_owners(p);
        let st = scan_owners(toks);
        assert(st == scan_step(prev, tok));
        if tok != seq!['#'] && !prev.detected {
            match owner_of(tok) {
                Some(o) => {
                    lemma_owner_text_round_trip(tok, o);
                    assert forall|i: int| 0 <= i < st.owners.len() implies rewritable_owner(#[trigger] st.owners[i]) by {
                        if i < prev.owners.len() {
                            assert(st.owners[i] == prev.owners[i]);
                        }
                    }
                },
                None => {},
            }
        }
        if tok != seq!['#'] && prev.detected {
            assert forall|i: int| 0 <= i < st.words.len() implies (#[trigger] st.words[i]).len() > 0 && ws_free(st.words[i]) && st.words[i] != seq!['#'] by {
                if i < prev.words.len() {
                    assert(st.words[i] == prev.words[i]);
                }
            }
        }
    }
}

/// Every entry read from a line of a text has the facts that writing it back
/// relies on.
proof fn lemma_read_entry_rewritable(k: usize, line: Seq<char>, e: EntryView)
    requires
        !line.contains('\n'),
        entry_of(k, line) == Ok::<EntryView, Seq<crate::issues::IssueView>>(e),
    ensures
        rewritable_entry(k, e),
{
    let toks = tokens_of(line);
    if toks.len() == 0 {
    } else if line[0] == '#' {
        lemma_trim_comment(line);
    } else {
        lemma_tokens_plain(line, seq![]);
        let rest = toks.skip(1);
        assert(plain_words(rest)) by {
            assert forall|i: int| 0 <= i < rest.len() implies (#[trigger] rest[i]).len() > 0 && ws_free(rest[i]) by {
                assert(rest[i] == toks[i + 1]);
            }
        }
        lemma_scan_rewritable(rest);
        let st = scan_owners(rest);
        assert(token_issues(k, toks).len() == 0);
        assert(valid_glob(toks[0])) by {
            if !valid_glob(toks[0]) {
                assert(token_issues(k, toks).len() >= 1);
            }
        }
        assert(toks[0].len() > 0 && ws_free(toks[0]));
        if st.detected {
            lemma_tokens_join(st.words);
        }
    }
}

/// Errors always come with at least one diagnostic.
proof fn lemma_entry_error_nonempty(k: usize, line: Seq<char>)
    ensures
        entry_of(k, line) matches Err(d) ==> d.len() > 0,
{
}

/// A manifest that reads without diagnostics has one entry per line, each
/// read from its line.
pub(crate) proof fn lemma_parse_lines_ok(ls: Seq<Seq<char>>)
    requires
        parse_lines(ls).1.len() == 0,
    ensures
        parse_lines(ls).0.len() == ls.len(),
        forall|k: int| 0 <= k < ls.len() ==> entry_of(k as usize, #[trigger] ls[k]) == Ok::<EntryView, Seq<crate::issues::IssueView>>(parse_lines(ls).0[k]),
    decreases ls.len(),
{
    if ls.len() > 0 {
        let p = ls.drop_last();
        let n = (ls.len() - 1) as usize;
        lemma_entry_error_nonempty(n, ls.last());
        assert(parse_lines(p).1.len() == 0);
        lemma_parse_lines_ok(p);
        assert forall|k: int| 0 <= k < ls.len() implies entry_of(k as usize, #[trigger] ls[k]) == Ok::<EntryView, Seq<crate::issues::IssueView>>(parse_lines(ls).0[k]) by {
            if k < ls.len() - 1 {
                assert(ls[k] == p[k]);
            }
        }
    }
}

proof fn lemma_parse_lines_all(ls: Seq<Seq<char>>, es: Seq<EntryView>)
    requires
        ls.len() == es.len(),
        forall|k: int| 0 <= k < ls.len() ==> entry_of(k as usize, #[trigger] ls[k]) == Ok::<EntryView, Seq<crate::issues::IssueView>>(es[k]),
    ensures
        parse_lines(ls) == (es, Seq::<crate::issues::IssueView>::empty()),
    decreases ls.len(),
{
    if ls.len() > 0 {
        let p = ls.drop_last();
        let q = es.drop_last();
        assert forall|k: int| 0 <= k < p.len() implies entry_of(k as usize, #[trigger] p[k]) == Ok::<EntryView, Seq<crate::issues::IssueView>>(q[k]) by {
            assert(p[k] == ls[k]);
        }
        lemma_parse_lines_all(p, q);
        assert(entry_of((ls.len() - 1) as usize, ls.last()) == Ok::<EntryView, Seq<crate::issues::IssueView>>(es.last()));
        assert(q.push(es.last()) =~= es);
    }
}

proof fn lemma_tokens_nonempty(s: Seq<char>, cur: Seq<char>)
    requires
        cur.len() > 0 || (s.len() > 0 && !is_ws(s[0])),
    ensures
        tokens_from(s, cur).len() > 0,
    decreases s.len(),
{
    if s.len() > 0 && !is_ws(s[0]) {
        lemma_tokens_nonempty(s.drop_first(), cur.push(s[0]));
    }
}

proof fn lemma_without_hashes_concat(a: Seq<char>, b: Seq<char>)
    ensures
        without_hashes(a + b) == without_hashes(a) + without_hashes(b),
    decreases b.len(),
{
    if b.len() == 0 {
        assert(a + b =~= a);
        assert(without_hashes(a) + without_hashes(b) =~= without_hashes(a));
    } else {
        lemma_without_hashes_concat(a, b.drop_last());
        assert((a + b).drop_last() =~= a + b.drop_last());
        assert((a + b).last() == b.last());
        if b.last() == '#' {
        } else {
            assert(without_hashes(a + b) =~= without_hashes(a) + without_hashes(b));
        }
    }
}

proof fn lemma_comment_round_trip(t: Seq<char>)
    requires
        !t.contains('#'),
        !t.contains('\n'),
        t.len() == 0 || (!is_ws(t[0]) && !is_ws(t.last())),
    ensures
        entry_of(0, "# "@ + t) == Ok::<EntryView, Seq<crate::issues::IssueView>>(EntryView::Comment(t)),
        plain_line("# "@ + t),
{
    reveal_strlit("# ");
    reveal_strlit(" ");
    let line = "# "@ + t;
    assert(line[0] == '#');
    lemma_tokens_nonempty(line, seq![]);
    lemma_without_hashes(t);
    let head = seq!['#', ' '];
    assert("# "@ =~= head);
    assert(head.drop_last() =~= seq!['#']);
    assert(seq!['#'].drop_last() =~= Seq::<char>::empty());
    assert(without_hashes(seq!['#']) == without_hashes(Seq::<char>::empty()));
    assert(without_hashes(head) =~= seq![' ']);
    lemma_without_hashes_concat(head, t);
    let spaced = seq![' '] + t;
    assert(without_hashes(line) == spaced);
    assert(spaced.drop_first() =~= t);
    assert(trim_start(spaced) == trim_start(t));
    assert(trim_start(t) == t);
    assert(trim_end(t) == t);
    assert(!line.contains('\n')) by {
        if line.contains('\n') {
            let i = choose|i: int| 0 <= i < line.len() && line[i] == '\n';
            assert(i >= 2);
            assert(t[i - 2] == '\n');
        }
    }
    assert(line.last() != '\r') by {
        if t.len() > 0 {
            assert(line.last() == t.last());
        }
    }
}

proof fn lemma_join_chars(ws: Seq<Seq<char>>)
    requires
        plain_words(ws),
        ws.len() > 0,
    ensures
        join_words(ws).len() > 0,
        !is_ws(join_words(ws).last()),
        forall|i: int| 0 <= i < join_words(ws).len() ==> #[trigger] join_words(ws)[i] == ' ' || !is_ws(join_words(ws)[i]),
    decreases ws.len(),
{
    reveal_strlit(" ");
    let j = join_words(ws);
    assert(ws[ws.len() - 1].len() > 0 && ws_free(ws[ws.len() - 1]));
    if ws.len() == 1 {
        assert(ws[0].len() > 0 && ws_free(ws[0]));
    } else {
        let p = ws.drop_last();
        assert(plain_words(p)) by {
            assert forall|i: int| 0 <= i < p.len() implies (#[trigger] p[i]).len() > 0 && ws_free(p[i]) by {
                assert(p[i] == ws[i]);
            }
        }
        lemma_join_chars(p);
        let a = join_words(p);
        let l = ws.last();
        assert(j == a + " "@ + l);
        assert forall|i: int| 0 <= i < j.len() implies #[trigger] j[i] == ' ' || !is_ws(j[i]) by {
            if i < a.len() {
                assert(j[i] == a[i]);
            } else if i > a.len() {
                assert(j[i] == l[i - a.len() - 1]);
            }
        }
        assert(j.last() == l.last());
    }
}

proof fn lemma_scan_owner_texts(os: Seq<OwnerView>)
    requires
        forall|i: int| 0 <= i < os.len() ==> rewritable_owner(#[trigger] os[i]),
    ensures
        scan_owners(os.map_values(|o: OwnerView| owner_text(o))) == (ScanView {
            owners: os,
            words: seq![],
            detected: false,
            bad: 0,
        }),
    decreases os.len(),
{
    let ots = os.map_values(|o: OwnerView| owner_text(o));
    if os.len() > 0 {
        let p = os.drop_last();
        assert forall|i: int| 0 <= i < p.len() implies rewritable_owner(#[trigger] p[i]) by {
            assert(p[i] == os[i]);
        }
        lemma_scan_owner_texts(p);
        assert(ots.drop_last() =~= p.map_values(|o: OwnerView| owner_text(o)));
        assert(ots.last() == owner_text(os.last()));
        assert(rewritable_owner(os[os.len() - 1]));
        assert(p.push(os.last()) =~= os);
    } else {
        assert(ots.len() == 0);
        assert(os =~= Seq::<OwnerView>::empty());
    }
}

proof fn lemma_scan_comment(p: Seq<Seq<char>>, cw: Seq<Seq<char>>)
    requires
        !scan_owners(p).detected,
        scan_owners(p).words.len() == 0,
        forall|i: int| 0 <= i < cw.len() ==> #[trigger] cw[i] != seq!['#'],
    ensures
        scan_owners(p + seq![seq!['#']] + cw) == (ScanView { detected: true, words: cw, ..scan_owners(p) }),
    decreases cw.len(),
{
    let all = p + seq![seq!['#']] + cw;
    if cw.len() == 0 {
        assert(all.drop_last() =~= p);
        assert(all.last() == seq!['#']);
        assert(scan_owners(p).words =~= cw);
    } else {
        let q = cw.drop_last();
        assert forall|i: int| 0 <= i < q.len() implies #[trigger] q[i] != seq!['#'] by {
            assert(q[i] == cw[i]);
        }
        lemma_scan_comment(p, q);
        assert(all.drop_last() =~= p + seq![seq!['#']] + q);
        assert(all.last() == cw.last());
        assert(cw[cw.len() - 1] != seq!['#']);
        assert(q.push(cw.last()) =~= cw);
    }
}

/// An entry with the facts of a read entry, and no rule pattern starting with
/// `#`, reads back from its written line.
proof fn lemma_rewritten_entry(k: usize, e: EntryView)
    requires
        rewritable_entry(k, e),
        e matches EntryView::Rule(r) ==> r.glob[0] != '#',
    ensures
        entry_of(k, rendered_entry(e)) == Ok::<EntryView, Seq<crate::issues::IssueView>>(e),
        plain_line(rendered_entry(e)),
{
    reveal_strlit(" ");
    reveal_strlit(" # ");
    match e {
        EntryView::BlankLine => {
            assert(tokens_of(rendered_entry(e)).len() == 0);
        },
        EntryView::Comment(t) => {
            lemma_comment_round_trip(t);
        },
        EntryView::Rule(r) => {
            let os = r.owners;
            let ots = os.map_values(|o: OwnerView| owner_text(o));
            lemma_scan_owner_texts(os);
            let head = seq![r.glob] + ots;
            assert(plain_words(head)) by {
                assert forall|i: int| 0 <= i < head.len() implies (#[trigger] head[i]).len() > 0 && ws_free(head[i]) by {
                    if i > 0 {
                        assert(head[i] == owner_text(os[i - 1]));
                        assert(rewritable_owner(os[i - 1]));
                    }
                }
            }
            lemma_join_append(seq![r.glob], ots);
            assert(join_words(seq![r.glob]) == r.glob);
            assert(join_words(head) == r.glob + " "@ + owners_text(os));
            assert(head.skip(1) =~= ots);
            match r.comment {
                None => {
                    assert(rendered_entry(e) =~= join_words(head));
                    lemma_tokens_join(head);
                    lemma_join_chars(head);
                    assert(join_words(head)[0] == r.glob[0]);
                    assert(token_issues(k, head) =~= Seq::<crate::issues::IssueView>::empty());
                },
                Some(c) => {
                    let cw = tokens_of(c);
                    lemma_tokens_plain(c, seq![]);
                    let tail = seq![seq!['#']] + cw;
                    let all = head + tail;
                    assert(plain_words(tail)) by {
                        assert forall|i: int| 0 <= i < tail.len() implies (#[trigger] tail[i]).len() > 0 && ws_free(tail[i]) by {
                            if i > 0 {
                                assert(tail[i] == cw[i - 1]);
                            } else {
                                assert(tail[0] == seq!['#']);
                                assert(!is_ws('#'));
                            }
                        }
                    }
                    assert(plain_words(all)) by {
                        assert forall|i: int| 0 <= i < all.len() implies (#[trigger] all[i]).len() > 0 && ws_free(all[i]) by {
                            if i < head.len() {
                                assert(all[i] == head[i]);
                            } else {
                                assert(all[i] == tail[i - head.len()]);
                            }
                        }
                    }
                    lemma_join_append(seq![seq!['#']], cw);
                    lemma_join_append(head, tail);
                    assert(join_words(seq![seq!['#']]) == seq!['#']);
                    assert(join_words(all) =~= rendered_entry(e));
                    lemma_tokens_join(all);
                    lemma_join_chars(all);
                    assert(join_words(all)[0] == r.glob[0]);
                    assert(all.skip(1) =~= ots + seq![seq!['#']] + cw);
                    lemma_scan_comment(ots, cw);
                    assert(token_issues(k, all) =~= Seq::<crate::issues::IssueView>::empty());
                    assert(all[0] == r.glob);
                },
            }
        },
    }
}

/// No rule's pattern starts with `#` (such a rule would be written back as a
/// line that reads as a comment).
pub open spec fn no_hash_patterns(es: Seq<EntryView>) -> bool {
    forall|i: int| 0 <= i < es.len() ==> (#[trigger] es[i] matches EntryView::Rule(r) ==> r.glob[0] != '#')
}

/// Reading a manifest's written-back text gives the same entries, and no
/// diagnostic.
pub proof fn lemma_reparse_rendered(text: Seq<char>)
    requires
        document_of(text).1.len() == 0,
        no_hash_patterns(document_of(text).0),
    ensures
        document_of(rendered_text(document_of(text).0)) == (document_of(text).0, Seq::<crate::issues::IssueView>::empty()),
{
    let ls = lines_of(text);
    let es = document_of(text).0;
    lemma_parse_lines_ok(ls);
    lemma_lines_no_newline(text, seq![]);
    let rs = es.map_values(|e: EntryView| rendered_entry(e));
    assert forall|k: int| 0 <= k < es.len() implies plain_line(#[trigger] rs[k]) && entry_of(
        k as usize,
        rs[k],
    ) == Ok::<EntryView, Seq<crate::issues::IssueView>>(es[k]) by {
        assert(entry_of(k as usize, ls[k]) == Ok::<EntryView, Seq<crate::issues::IssueView>>(es[k]));
        assert(!ls[k].contains('\n'));
        lemma_read_entry_rewritable(k as usize, ls[k], es[k]);
        lemma_rewritten_entry(k as usize, es[k]);
    }
    lemma_lines_of_line_text(rs);
    lemma_parse_lines_all(rs, es);
}

impl CodeOwners {
    /// The manifest written back as text, one line per entry.
    pub fn render(&self) -> (r: String)
        ensures
            r@ == rendered_text(self@),
    {
        let entries = self.entries();
        let ghost es = self@;
        let ghost rs = es.map_values(|e: EntryView| rendered_entry(e));
        let mut r = String::new();
        let mut i: usize = 0;
        assert(rs.skip(0) =~= rs);
        while i < entries.len()
            invariant
                i <= entries.len(),
                es == crate::codeowners::entry_views(entries@),
                rs == es.map_values(|e: EntryView| rendered_entry(e)),
                line_text(rs) == r@ + line_text(rs.skip(i as int)),
            decreases entries.len() - i,
        {
            assert(rs.skip(i as int).drop_first() =~= rs.skip(i + 1));
            assert(rs.skip(i as int)[0] == rendered_entry(entries@[i as int]@));
            let line = entries[i].render();
            append_str(&mut r, line.as_str());
            append_str(&mut r, "\n");
            assert(line_text(rs) =~= r@ + line_text(rs.skip(i + 1)));
            i += 1;
        }
        assert(rs.skip(entries.len() as int) =~= Seq::<Seq<char>>::empty());
        assert(r@ + Seq::<char>::empty() =~= r@);
        r
    }
}

} // verus!
