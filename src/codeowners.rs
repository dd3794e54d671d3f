//! The manifest: its entries, one per line, and the index of who owns what.
use crate::handles::{Owner, OwnerView, owner_of, owner_text};
use crate::issues::{CodeownersParsingOutcome, IssueKind, IssueKindView, IssueView, StructuralIssue, ValidationIssue, issue_views};
use crate::text::{
    append_str, chars_of, join_words, lines_of, split_lines, split_tokens, tokens_of, trim, trimmed_without_hashes,
    views, without_hashes,
};
use vstd::prelude::*;
use vstd::string::*;

verus! {

/// Whether `globset` accepts the text as a glob pattern.
pub uninterp spec fn valid_glob(pattern: Seq<char>) -> bool;

/// Relies on `globset::Glob::new`: whether the pattern parses as a glob; the
/// answer depends on the pattern alone.
#[verifier::external_body]
fn glob_is_valid(pattern: &str) -> (r: bool)
    ensures
        r == valid_glob(pattern@),
{
    globset::Glob::new(pattern).is_ok()
}

/// A line that gives owners to the paths that its pattern matches.
#[derive(Debug, Clone, PartialEq, Eq)]
pub struct OwnershipRule {
    pub line_number: usize,
    pub glob: String,
    pub owners: Vec<Owner>,
    pub inline_comment: Option<String>,
}

pub struct RuleView {
    pub line: usize,
    pub glob: Seq<char>,
    pub owners: Seq<OwnerView>,
    pub comment: Option<Seq<char>>,
}

pub open spec fn owner_views(v: Seq<Owner>) -> Seq<OwnerView> {
    v.map_values(|o: Owner| o@)
}

impl View for OwnershipRule {
    type V = RuleView;

    open spec fn view(&self) -> RuleView {
        RuleView {
            line: self.line_number,
            glob: self.glob@,
            owners: owner_views(self.owners@),
            comment: match self.inline_comment {
                Some(c) => Some(c@),
                None => None,
            },
        }
    }
}

/// One line of the manifest.
#[derive(Debug, Clone, PartialEq, Eq)]
pub enum CodeOwnersEntry {
    BlankLine,
    Comment(String),
    Rule(OwnershipRule),
}

pub enum EntryView {
    BlankLine,
    Comment(Seq<char>),
    Rule(RuleView),
}

impl View for CodeOwnersEntry {
    type V = EntryView;

    open spec fn view(&self) -> EntryView {
        match self {
            CodeOwnersEntry::BlankLine => EntryView::BlankLine,
            CodeOwnersEntry::Comment(c) => EntryView::Comment(c@),
            CodeOwnersEntry::Rule(r) => EntryView::Rule(r@),
        }
    }
}

/// An `InvalidSyntax` diagnostic.
pub open spec fn syntax_issue(line: usize, message: Seq<char>) -> IssueView {
    IssueView { kind: IssueKindView::Structure(StructuralIssue::InvalidSyntax), line, message }
}

/// What the tokens after a rule's pattern hold, read from left to right.
pub struct ScanView {
    pub owners: Seq<OwnerView>,
    pub words: Seq<Seq<char>>,
    pub detected: bool,
    pub bad: nat,
}

pub open spec fn scan_step(st: ScanView, tok: Seq<char>) -> ScanView {
    if tok == seq!['#'] {
        ScanView { detected: true, ..st }
    } else if st.detected {
        ScanView { words: st.words.push(tok), ..st }
    } else {
        match owner_of(tok) {
            Some(o) => ScanView { owners: st.owners.push(o), ..st },
            None => ScanView { bad: st.bad + 1, ..st },
        }
    }
}

/// Reads owners up to a lone `#`, and the words of an inline comment after it.
pub open spec fn scan_owners(toks: Seq<Seq<char>>) -> ScanView
    decreases toks.len(),
{
    if toks.len() == 0 {
        ScanView { owners: seq![], words: seq![], detected: false, bad: 0 }
    } else {
        scan_step(scan_owners(toks.drop_last()), toks.last())
    }
}

/// The diagnostics of a rule line's tokens: one for a bad pattern, then one
/// for each token that names no owner.
pub open spec fn token_issues(line: usize, toks: Seq<Seq<char>>) -> Seq<IssueView> {
    (if valid_glob(toks[0]) {
        seq![]
    } else {
        seq![syntax_issue(line, "invalid glob pattern"@)]
    }) + Seq::new(scan_owners(toks.skip(1)).bad, |i: int| syntax_issue(line, "cannot parse owner"@))
}

/// A rule line, given its tokens.
pub open spec fn rule_of(line: usize, toks: Seq<Seq<char>>) -> Result<EntryView, Seq<IssueView>> {
    let st = scan_owners(toks.skip(1));
    let issues = token_issues(line, toks);
    if issues.len() > 0 {
        Err(issues)
    } else if st.detected && st.words.len() == 0 {
        Err(seq![syntax_issue(line, "expected non-empty comment"@)])
    } else if st.owners.len() == 0 {
        Err(seq![syntax_issue(line, "expected non-empty owners list"@)])
    } else {
        Ok(
            EntryView::Rule(
                RuleView {
                    line,
                    glob: toks[0],
                    owners: st.owners,
                    comment: if st.detected {
                        Some(join_words(st.words))
                    } else {
                        None
                    },
                },
            ),
        )
    }
}

/// One line of the manifest: blank (or only whitespace), a comment starting
/// with `#`, or a rule `pattern owner... [# comment]`.
pub open spec fn entry_of(line: usize, text: Seq<char>) -> Result<EntryView, Seq<IssueView>> {
    let toks = tokens_of(text);
    if toks.len() == 0 {
        Ok(EntryView::BlankLine)
    } else if text[0] == '#' {
        Ok(EntryView::Comment(trim(without_hashes(text))))
    } else {
        rule_of(line, toks)
    }
}

/// A rule line whose pattern is invalid and whose one other token names no
/// owner yields two diagnostics on its line: the pattern's, then the owner's.
pub proof fn lemma_glob_and_owner_errors(line: usize, text: Seq<char>, pattern: Seq<char>, token: Seq<char>)
    requires
        tokens_of(text) == seq![pattern, token],
        text[0] != '#',
        !valid_glob(pattern),
        token != seq!['#'],
        owner_of(token) is None,
    ensures
        entry_of(line, text) == Err::<EntryView, Seq<IssueView>>(
            seq![syntax_issue(line, "invalid glob pattern"@), syntax_issue(line, "cannot parse owner"@)],
        ),
{
    let toks = tokens_of(text);
    let rest = toks.skip(1);
    assert(rest =~= seq![token]);
    assert(rest.drop_last() =~= Seq::<Seq<char>>::empty());
    let init = scan_owners(rest.drop_last());
    assert(init == scan_owners(Seq::<Seq<char>>::empty()));
    assert(init.bad == 0 && !init.detected);
    assert(rest.last() == token);
    let st = scan_owners(rest);
    assert(st == scan_step(init, token));
    assert(st.bad == 1);
    assert(token_issues(line, toks) =~= seq![
        syntax_issue(line, "invalid glob pattern"@),
        syntax_issue(line, "cannot parse owner"@),
    ]);
}

fn syntax_error(line: usize, message: &str) -> (r: ValidationIssue)
    ensures
        r@ == syntax_issue(line, message@),
{
    ValidationIssue {
        line,
        context: message.to_owned(),
        kind: IssueKind::Structure(StructuralIssue::InvalidSyntax),
    }
}

fn is_lone_hash(tok: &String) -> (r: bool)
    ensures
        r == (tok@ == seq!['#']),
{
    let cs = chars_of(tok.as_str());
    let r = cs.len() == 1 && cs[0] == '#';
    assert(r ==> cs@ =~= seq!['#']);
    r
}

fn join_with_spaces(ws: &Vec<String>) -> (r: String)
    ensures
        r@ == join_words(views(ws@)),
{
    let mut r = String::new();
    let mut i: usize = 0;
    while i < ws.len()
        invariant
            i <= ws.len(),
            r@ == join_words(views(ws@).take(i as int)),
        decreases ws.len() - i,
    {
        let ghost before = views(ws@).take(i as int);
        assert(views(ws@).take(i + 1).drop_last() =~= before);
        if i > 0 {
            append_str(&mut r, " ");
        } else {
            assert(before =~= Seq::<Seq<char>>::empty());
        }
        append_str(&mut r, ws[i].as_str());
        i += 1;
    }
    assert(views(ws@).take(ws.len() as int) =~= views(ws@));
    r
}

/// The owners of a rule as it writes them, separated by spaces.
pub open spec fn owners_text(os: Seq<OwnerView>) -> Seq<char> {
    join_words(os.map_values(|o: OwnerView| owner_text(o)))
}

/// The line that an entry is written as.
pub open spec fn rendered_entry(e: EntryView) -> Seq<char> {
    match e {
        EntryView::BlankLine => seq![],
        EntryView::Comment(t) => "# "@ + t,
        EntryView::Rule(r) => r.glob + " "@ + owners_text(r.owners) + match r.comment {
            Some(c) => " # "@ + c,
            None => seq![],
        },
    }
}

impl CodeOwnersEntry {
    /// The entry written back as a line of the manifest.
    pub fn render(&self) -> (r: String)
        ensures
            r@ == rendered_entry(self@),
    {
        match self {
            CodeOwnersEntry::BlankLine => String::new(),
            CodeOwnersEntry::Comment(t) => {
                let mut r = String::from_str("# ");
                append_str(&mut r, t.as_str());
                r
            },
            CodeOwnersEntry::Rule(rule) => {
                let mut r = rule.glob.clone();
                append_str(&mut r, " ");
                let ghost os = owner_views(rule.owners@).map_values(|o: OwnerView| owner_text(o));
                let mut i: usize = 0;
                let ghost start = r@;
                assert(os.take(0) =~= Seq::<Seq<char>>::empty());
                while i < rule.owners.len()
                    invariant
                        i <= rule.owners.len(),
                        os == owner_views(rule.owners@).map_values(|o: OwnerView| owner_text(o)),
                        r@ == start + join_words(os.take(i as int)),
                    decreases rule.owners.len() - i,
                {
                    assert(os.take(i + 1).drop_last() =~= os.take(i as int));
                    if i > 0 {
                        append_str(&mut r, " ");
                    }
                    let t = rule.owners[i].text();
                    append_str(&mut r, t.as_str());
                    proof {
                        if i == 0 {
                            assert(r@ =~= start + join_words(os.take(1)));
                        } else {
                            assert(r@ =~= start + join_words(os.take(i + 1)));
                        }
                    }
                    i += 1;
                }
                assert(os.take(rule.owners.len() as int) =~= os);
                if let Some(c) = &rule.inline_comment {
                    append_str(&mut r, " # ");
                    append_str(&mut r, c.as_str());
                }
                proof {
                    assert(r@ =~= rendered_entry(self@));
                }
                r
            },
        }
    }

    /// Reads one line; every problem on the line is reported, in the order of
    /// its tokens.
    pub fn parse(line_number: usize, line: &str) -> (r: Result<CodeOwnersEntry, Vec<ValidationIssue>>)
        ensures
            match r {
                Ok(e) => entry_of(line_number, line@) == Ok::<EntryView, Seq<IssueView>>(e@),
                Err(d) => entry_of(line_number, line@) == Err::<EntryView, Seq<IssueView>>(
                    issue_views(d@),
                ),
            },
    {
        let cs = chars_of(line);
        let toks = split_tokens(&cs);
        let ghost tv = views(toks@);
        if toks.len() == 0 {
            return Ok(CodeOwnersEntry::BlankLine);
        }
        if cs[0] == '#' {
            return Ok(CodeOwnersEntry::Comment(trimmed_without_hashes(&cs)));
        }
        let mut issues: Vec<ValidationIssue> = Vec::new();
        let glob_ok = glob_is_valid(toks[0].as_str());
        if !glob_ok {
            issues.push(syntax_error(line_number, "invalid glob pattern"));
        }
        let ghost glob_issues = issue_views(issues@);
        let mut owners: Vec<Owner> = Vec::new();
        let mut words: Vec<String> = Vec::new();
        let mut detected = false;
        let ghost rest = tv.skip(1);
        let mut i: usize = 1;
        while i < toks.len()
            invariant
                1 <= i <= toks.len(),
                tv == views(toks@),
                rest == tv.skip(1),
                glob_issues == (if valid_glob(tv[0]) {
                    seq![]
                } else {
                    seq![syntax_issue(line_number, "invalid glob pattern"@)]
                }),
                ({
                    let st = scan_owners(rest.take(i - 1));
                    &&& owner_views(owners@) == st.owners
                    &&& views(words@) == st.words
                    &&& detected == st.detected
                    &&& issue_views(issues@) == glob_issues + Seq::new(
                        st.bad,
                        |j: int| syntax_issue(line_number, "cannot parse owner"@),
                    )
                }),
            decreases toks.len() - i,
        {
            assert(rest.take(i as int).drop_last() =~= rest.take(i - 1));
            assert(rest.take(i as int).last() == tv[i as int]);
            let ghost st = scan_owners(rest.take(i - 1));
            let tok = &toks[i];
            if is_lone_hash(tok) {
                detected = true;
            } else if detected {
                words.push(tok.clone());
                assert(views(words@) =~= st.words.push(tv[i as int]));
            } else {
                match Owner::parse(tok.as_str()) {
                    Some(o) => {
                        owners.push(o);
                        assert(owner_views(owners@) =~= st.owners.push(o@));
                    },
                    None => {
                        let ghost old_issues = issue_views(issues@);
                        issues.push(syntax_error(line_number, "cannot parse owner"));
                        assert(issue_views(issues@) =~= old_issues.push(
                            syntax_issue(line_number, "cannot parse owner"@),
                        ));
                        assert(issue_views(issues@) =~= glob_issues + Seq::new(
                            st.bad + 1,
                            |j: int| syntax_issue(line_number, "cannot parse owner"@),
                        ));
                    },
                }
            }
            i += 1;
        }
        assert(rest.take(toks.len() - 1) =~= rest);
        if issues.len() > 0 {
            return Err(issues);
        }
        if detected && words.len() == 0 {
            let mut v = Vec::new();
            v.push(syntax_error(line_number, "expected non-empty comment"));
            assert(issue_views(v@) =~= seq![syntax_issue(line_number, "expected non-empty comment"@)]);
            return Err(v);
        }
        if owners.len() == 0 {
            let mut v = Vec::new();
            v.push(syntax_error(line_number, "expected non-empty owners list"));
            assert(issue_views(v@) =~= seq![syntax_issue(line_number, "expected non-empty owners list"@)]);
            return Err(v);
        }
        let inline_comment = if detected {
            Some(join_with_spaces(&words))
        } else {
            None
        };
        let glob = toks[0].clone();
        Ok(CodeOwnersEntry::Rule(OwnershipRule { line_number, glob, owners, inline_comment }))
    }
}

/// The entries and the diagnostics of the lines `ls`, numbered from 0.
pub open spec fn parse_lines(ls: Seq<Seq<char>>) -> (Seq<EntryView>, Seq<IssueView>)
    decreases ls.len(),
{
    if ls.len() == 0 {
        (seq![], seq![])
    } else {
        let prev = parse_lines(ls.drop_last());
        match entry_of((ls.len() - 1) as usize, ls.last()) {
            Ok(e) => (prev.0.push(e), prev.1),
            Err(d) => (prev.0, prev.1 + d),
        }
    }
}

/// The entries and the diagnostics of a whole manifest.
pub open spec fn document_of(text: Seq<char>) -> (Seq<EntryView>, Seq<IssueView>) {
    parse_lines(lines_of(text))
}

pub open spec fn entry_views(v: Seq<CodeOwnersEntry>) -> Seq<EntryView> {
    v.map_values(|e: CodeOwnersEntry| e@)
}

/// One owner of one rule: the owner, the rule's line and its pattern.
pub struct RecordView {
    pub owner: OwnerView,
    pub line: usize,
    pub glob: Seq<char>,
}

pub open spec fn rule_records(r: RuleView) -> Seq<RecordView> {
    r.owners.map_values(|o: OwnerView| RecordView { owner: o, line: r.line, glob: r.glob })
}

/// Every owner of every rule, in the order of the lines and of the owners.
pub open spec fn records_of(es: Seq<EntryView>) -> Seq<RecordView>
    decreases es.len(),
{
    if es.len() == 0 {
        seq![]
    } else {
        records_of(es.drop_last()) + match es.last() {
            EntryView::Rule(r) => rule_records(r),
            _ => seq![],
        }
    }
}

/// The owners of the records, each once, in the order of their first record.
pub open spec fn unique_owners_of(rs: Seq<RecordView>) -> Seq<OwnerView>
    decreases rs.len(),
{
    if rs.len() == 0 {
        seq![]
    } else {
        let u = unique_owners_of(rs.drop_last());
        if u.contains(rs.last().owner) {
            u
        } else {
            u.push(rs.last().owner)
        }
    }
}

/// The lines and patterns of the records of owner `o`, in order.
pub open spec fn records_for(rs: Seq<RecordView>, o: OwnerView) -> Seq<(usize, Seq<char>)>
    decreases rs.len(),
{
    if rs.len() == 0 {
        seq![]
    } else {
        let prev = records_for(rs.drop_last(), o);
        if rs.last().owner == o {
            prev.push((rs.last().line, rs.last().glob))
        } else {
            prev
        }
    }
}

/// The lines on which `o` is named, once per mention.
pub open spec fn occurrences_in(es: Seq<EntryView>, o: OwnerView) -> Seq<usize> {
    records_for(records_of(es), o).map_values(|p: (usize, Seq<char>)| p.0)
}

/// The distinct owners that the rules name, in order of first mention.
pub open spec fn owners_in(es: Seq<EntryView>) -> Seq<OwnerView> {
    unique_owners_of(records_of(es))
}

proof fn lemma_unique_owners(rs: Seq<RecordView>)
    ensures
        unique_owners_of(rs).no_duplicates(),
        forall|o: OwnerView| #[trigger]
            unique_owners_of(rs).contains(o) <==> exists|k: int| 0 <= k < rs.len() && rs[k].owner == o,
        forall|o: OwnerView| !unique_owners_of(rs).contains(o) ==> #[trigger] records_for(rs, o)
            == Seq::<(usize, Seq<char>)>::empty(),
    decreases rs.len(),
{
    if rs.len() > 0 {
        let p = rs.drop_last();
        lemma_unique_owners(p);
        assert forall|o: OwnerView| #[trigger]
            unique_owners_of(rs).contains(o) <==> exists|k: int| 0 <= k < rs.len() && rs[k].owner == o by {
            if unique_owners_of(rs).contains(o) {
                if unique_owners_of(p).contains(o) {
                    let k = choose|k: int| 0 <= k < p.len() && p[k].owner == o;
                    assert(rs[k].owner == o);
                } else {
                    assert(rs[rs.len() - 1].owner == o);
                }
            }
            if exists|k: int| 0 <= k < rs.len() && rs[k].owner == o {
                let k = choose|k: int| 0 <= k < rs.len() && rs[k].owner == o;
                if k < rs.len() - 1 {
                    assert(p[k].owner == o);
                    assert(unique_owners_of(p).contains(o));
                } else {
                    assert(rs.last().owner == o);
                }
                if !unique_owners_of(p).contains(rs.last().owner) {
                    assert(unique_owners_of(rs) == unique_owners_of(p).push(rs.last().owner));
                    if unique_owners_of(p).contains(o) {
                        let j = choose|j: int| 0 <= j < unique_owners_of(p).len() && unique_owners_of(p)[j] == o;
                        assert(unique_owners_of(rs)[j] == o);
                    } else {
                        assert(unique_owners_of(rs)[unique_owners_of(p).len() as int] == o);
                    }
                }
            }
        }
        assert forall|o: OwnerView| !unique_owners_of(rs).contains(o) implies #[trigger] records_for(rs, o)
            == Seq::<(usize, Seq<char>)>::empty() by {
            assert(rs.last().owner != o) by {
                if rs.last().owner == o {
                    assert(rs[rs.len() - 1].owner == o);
                }
            }
            assert(!unique_owners_of(p).contains(o)) by {
                if unique_owners_of(p).contains(o) {
                    let k = choose|k: int| 0 <= k < p.len() && p[k].owner == o;
                    assert(rs[k].owner == o);
                }
            }
            assert(records_for(p, o) == Seq::<(usize, Seq<char>)>::empty());
        }
    }
}

/// An owner's entry in the ownership index: one line and its pattern.
#[derive(Debug, Clone, PartialEq, Eq)]
pub struct OwnershipRecord {
    pub line_number: usize,
    pub glob: String,
}

impl OwnershipRecord {
    pub fn new(line_number: usize, glob: String) -> (r: Self)
        ensures
            r.line_number == line_number,
            r.glob == glob,
    {
        Self { line_number, glob }
    }
}

pub open spec fn record_views(v: Seq<OwnershipRecord>) -> Seq<(usize, Seq<char>)> {
    v.map_values(|r: OwnershipRecord| (r.line_number, r.glob@))
}

/// A parsed manifest: its entries and, for each owner, where it is named.
#[derive(Debug, PartialEq, Eq)]
pub struct CodeOwners {
    entries: Vec<CodeOwnersEntry>,
    owners: Vec<Owner>,
    records: Vec<Vec<OwnershipRecord>>,
}

impl View for CodeOwners {
    type V = Seq<EntryView>;

    closed spec fn view(&self) -> Seq<EntryView> {
        entry_views(self.entries@)
    }
}

/// The index holds, for each owner in order of first mention, its records.
pub open spec fn index_matches(
    es: Seq<EntryView>,
    owners: Seq<Owner>,
    records: Seq<Vec<OwnershipRecord>>,
) -> bool {
    let rs = records_of(es);
    &&& owner_views(owners) == unique_owners_of(rs)
    &&& records.len() == owners.len()
    &&& forall|i: int| 0 <= i < owners.len() ==> record_views(#[trigger] records[i]@) == records_for(rs, owners[i]@)
}

/// Adds one record to an index that holds the records `rs`.
fn index_record(
    owners: &mut Vec<Owner>,
    records: &mut Vec<Vec<OwnershipRecord>>,
    Ghost(rs): Ghost<Seq<RecordView>>,
    owner: &Owner,
    line: usize,
    glob: &String,
)
    requires
        owner_views(old(owners)@) == unique_owners_of(rs),
        old(records)@.len() == old(owners)@.len(),
        forall|i: int| 0 <= i < old(owners)@.len() ==> record_views(#[trigger] old(records)@[i]@) == records_for(rs, old(owners)@[i]@),
    ensures
        ({
            let rs2 = rs.push(RecordView { owner: owner@, line, glob: glob@ });
            &&& owner_views(final(owners)@) == unique_owners_of(rs2)
            &&& final(records)@.len() == final(owners)@.len()
            &&& forall|i: int| 0 <= i < final(owners)@.len() ==> record_views(#[trigger] final(records)@[i]@) == records_for(rs2, final(owners)@[i]@)
        }),
{
    let ghost x = RecordView { owner: owner@, line, glob: glob@ };
    let ghost rs2 = rs.push(x);
    assert(rs2.drop_last() =~= rs);
    proof {
        lemma_unique_owners(rs);
    }
    let mut i: usize = 0;
    while i < owners.len() && !(owners[i] == *owner)
        invariant
            i <= owners.len(),
            forall|j: int| 0 <= j < i ==> owners@[j]@ != owner@,
        decreases owners.len() - i,
    {
        i += 1;
    }
    let record = OwnershipRecord::new(line, glob.clone());
    if i < owners.len() {
        assert(unique_owners_of(rs)[i as int] == owner@);
        assert(unique_owners_of(rs).contains(owner@));
        let ghost old_records = records@;
        let ghost old_row = records@[i as int];
        records[i].push(record);
        assert forall|j: int| 0 <= j < owners@.len() implies record_views(#[trigger] records@[j]@) == records_for(rs2, owners@[j]@) by {
            if j == i {
                assert(record_views(records@[j]@) =~= record_views(old_row@).push((line, glob@)));
            } else {
                assert(owner_views(owners@)[j] == owners@[j]@);
                assert(owner_views(owners@)[i as int] == owners@[i as int]@);
                assert(owners@[j]@ != owner@);
                assert(records@[j] == old_records[j]);
            }
        }
    } else {
        assert(!unique_owners_of(rs).contains(owner@)) by {
            if unique_owners_of(rs).contains(owner@) {
                let j = choose|j: int| 0 <= j < unique_owners_of(rs).len() && unique_owners_of(rs)[j] == owner@;
                assert(owner_views(owners@)[j] == owners@[j]@);
            }
        }
        assert(records_for(rs, owner@) == Seq::<(usize, Seq<char>)>::empty());
        let mut row: Vec<OwnershipRecord> = Vec::new();
        row.push(record);
        let ghost old_owners = owners@;
        let ghost old_records = records@;
        owners.push(owner.clone());
        records.push(row);
        assert(owner_views(owners@) =~= owner_views(old_owners).push(owner@));
        assert forall|j: int| 0 <= j < owners@.len() implies record_views(#[trigger] records@[j]@) == records_for(rs2, owners@[j]@) by {
            if j == old_owners.len() {
                assert(record_views(records@[j]@) =~= seq![(line, glob@)]);
                assert(records_for(rs2, owner@) =~= seq![(line, glob@)]);
            } else {
                assert(owners@[j] == old_owners[j]);
                assert(records@[j] == old_records[j]);
                assert(owner_views(old_owners)[j] == old_owners[j]@);
                assert(unique_owners_of(rs).contains(old_owners[j]@));
            }
        }
    }
}

fn build_index(entries: &Vec<CodeOwnersEntry>) -> (r: (Vec<Owner>, Vec<Vec<OwnershipRecord>>))
    ensures
        index_matches(entry_views(entries@), r.0@, r.1@),
{
    let mut owners: Vec<Owner> = Vec::new();
    let mut records: Vec<Vec<OwnershipRecord>> = Vec::new();
    let ghost es = entry_views(entries@);
    let mut i: usize = 0;
    assert(es.take(0) =~= Seq::<EntryView>::empty());
    assert(owner_views(owners@) =~= Seq::<OwnerView>::empty());
    while i < entries.len()
        invariant
            i <= entries.len(),
            es == entry_views(entries@),
            index_matches(es.take(i as int), owners@, records@),
        decreases entries.len() - i,
    {
        let ghost before = records_of(es.take(i as int));
        assert(es.take(i + 1).drop_last() =~= es.take(i as int));
        match &entries[i] {
            CodeOwnersEntry::Rule(rule) => {
                let ghost rr = rule_records(rule@);
                let mut k: usize = 0;
                assert(before + rr.take(0) =~= before);
                while k < rule.owners.len()
                    invariant
                        k <= rule.owners.len(),
                        rr == rule_records(rule@),
                        rr.len() == rule.owners.len(),
                        ({
                            let rs = before + rr.take(k as int);
                            &&& owner_views(owners@) == unique_owners_of(rs)
                            &&& records@.len() == owners@.len()
                            &&& forall|j: int| 0 <= j < owners@.len() ==> record_views(#[trigger] records@[j]@) == records_for(rs, owners@[j]@)
                        }),
                    decreases rule.owners.len() - k,
                {
                    index_record(
                        &mut owners,
                        &mut records,
                        Ghost(before + rr.take(k as int)),
                        &rule.owners[k],
                        rule.line_number,
                        &rule.glob,
                    );
                    assert(before + rr.take(k + 1) =~= (before + rr.take(k as int)).push(rr[k as int]));
                    k += 1;
                }
                assert(rr.take(rule.owners.len() as int) =~= rr);
                assert(records_of(es.take(i + 1)) == before + rr);
            },
            _ => {
                assert(records_of(es.take(i + 1)) =~= before);
            },
        }
        i += 1;
    }
    assert(es.take(entries.len() as int) =~= es);
    (owners, records)
}

impl CodeOwners {
    #[verifier::type_invariant]
    spec fn index_is_current(self) -> bool {
        index_matches(entry_views(self.entries@), self.owners@, self.records@)
    }

    /// A manifest of these entries, with its ownership index.
    pub fn new(entries: Vec<CodeOwnersEntry>) -> (r: Self)
        ensures
            r@ == entry_views(entries@),
    {
        let (owners, records) = build_index(&entries);
        CodeOwners { entries, owners, records }
    }

    /// Reads a whole manifest. It is read only if no line has a problem;
    /// otherwise the problems of all lines are returned, by line.
    pub fn try_from(content: &str) -> (r: Result<CodeOwners, CodeownersParsingOutcome>)
        ensures
            document_of(content@).1.len() == 0 <==> r is Ok,
            r matches Ok(d) ==> d@ == document_of(content@).0,
            r matches Err(e) ==> issue_views(e.0@) == document_of(content@).1,
    {
        let lines = split_lines(content);
        let ghost ls = lines_of(content@);
        let mut entries: Vec<CodeOwnersEntry> = Vec::new();
        let mut issues: Vec<ValidationIssue> = Vec::new();
        let mut i: usize = 0;
        assert(ls.take(0) =~= Seq::<Seq<char>>::empty());
        assert(entry_views(entries@) =~= Seq::<EntryView>::empty());
        assert(issue_views(issues@) =~= Seq::<IssueView>::empty());
        while i < lines.len()
            invariant
                i <= lines.len(),
                views(lines@) == ls,
                entry_views(entries@) == parse_lines(ls.take(i as int)).0,
                issue_views(issues@) == parse_lines(ls.take(i as int)).1,
            decreases lines.len() - i,
        {
            assert(ls.take(i + 1).drop_last() =~= ls.take(i as int));
            assert(ls[i as int] == lines@[i as int]@);
            match CodeOwnersEntry::parse(i, lines[i].as_str()) {
                Ok(e) => {
                    entries.push(e);
                    assert(entry_views(entries@) =~= parse_lines(ls.take(i + 1)).0);
                },
                Err(mut d) => {
                    let ghost before = issue_views(issues@);
                    let ghost found = issue_views(d@);
                    issues.append(&mut d);
                    assert(issue_views(issues@) =~= before + found);
                },
            }
            i += 1;
        }
        assert(ls.take(lines.len() as int) =~= ls);
        if issues.len() > 0 {
            Err(CodeownersParsingOutcome(issues))
        } else {
            Ok(CodeOwners::new(entries))
        }
    }

    pub fn entries(&self) -> (r: &Vec<CodeOwnersEntry>)
        ensures
            entry_views(r@) == self@,
    {
        &self.entries
    }

    /// Each owner that a rule names, once, in order of first mention.
    pub fn unique_owners(&self) -> (r: &Vec<Owner>)
        ensures
            owner_views(r@) == owners_in(self@),
    {
        proof {
            use_type_invariant(self);
        }
        &self.owners
    }

    /// The lines on which `owner` is named, in order.
    pub fn occurrences(&self, owner: &Owner) -> (r: Vec<usize>)
        ensures
            r@ == occurrences_in(self@, owner@),
    {
        proof {
            use_type_invariant(self);
            lemma_unique_owners(records_of(self@));
        }
        let ghost rs = records_of(self@);
        let mut i: usize = 0;
        while i < self.owners.len() && !(self.owners[i] == *owner)
            invariant
                i <= self.owners.len(),
                forall|j: int| 0 <= j < i ==> self.owners@[j]@ != owner@,
            decreases self.owners.len() - i,
        {
            i += 1;
        }
        let mut r: Vec<usize> = Vec::new();
        if i == self.owners.len() {
            assert(!unique_owners_of(rs).contains(owner@)) by {
                if unique_owners_of(rs).contains(owner@) {
                    let j = choose|j: int| 0 <= j < unique_owners_of(rs).len() && unique_owners_of(rs)[j] == owner@;
                    assert(owner_views(self.owners@)[j] == self.owners@[j]@);
                }
            }
            assert(r@ =~= occurrences_in(self@, owner@));
            return r;
        }
        let row = &self.records[i];
        assert(record_views(row@) == records_for(rs, owner@));
        let mut k: usize = 0;
        while k < row.len()
            invariant
                k <= row.len(),
                r@ == record_views(row@).take(k as int).map_values(|p: (usize, Seq<char>)| p.0),
            decreases row.len() - k,
        {
            r.push(row[k].line_number);
            assert(r@ =~= record_views(row@).take(k + 1).map_values(|p: (usize, Seq<char>)| p.0));
            k += 1;
        }
        assert(record_views(row@).take(row.len() as int) =~= record_views(row@));
        r
    }
}

} // verus!
