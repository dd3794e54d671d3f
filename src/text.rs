//! Character-level helpers: whitespace, line and token splitting, decimal rendering.
use vstd::prelude::*;
use vstd::string::*;

verus! {

/// The Unicode `White_Space` property, as used by `char::is_whitespace`.
pub open spec fn is_ws(c: char) -> bool {
    ('\u{9}' <= c && c <= '\u{d}') || c == ' ' || c == '\u{85}' || c == '\u{a0}' || c
        == '\u{1680}' || ('\u{2000}' <= c && c <= '\u{200a}') || c == '\u{2028}' || c
        == '\u{2029}' || c == '\u{202f}' || c == '\u{205f}' || c == '\u{3000}'
}

pub fn is_whitespace(c: char) -> (r: bool)
    ensures
        r == is_ws(c),
{
    ('\u{9}' <= c && c <= '\u{d}') || c == ' ' || c == '\u{85}' || c == '\u{a0}' || c
        == '\u{1680}' || ('\u{2000}' <= c && c <= '\u{200a}') || c == '\u{2028}' || c
        == '\u{2029}' || c == '\u{202f}' || c == '\u{205f}' || c == '\u{3000}'
}

/// The views of a sequence of strings.
pub open spec fn views(v: Seq<String>) -> Seq<Seq<char>> {
    v.map_values(|s: String| s@)
}

/// Removes one carriage return that ends a line.
pub open spec fn strip_cr(l: Seq<char>) -> Seq<char> {
    if l.len() > 0 && l.last() == '\r' {
        l.drop_last()
    } else {
        l
    }
}

/// The lines of `s`, where `cur` is the part of the current line already read.
/// A line ends at `\n` (a `\r` just before it is dropped); a last line without
/// `\n` counts only when it is not empty.
pub open spec fn lines_from(s: Seq<char>, cur: Seq<char>) -> Seq<Seq<char>>
    decreases s.len(),
{
    if s.len() == 0 {
        if cur.len() > 0 {
            seq![cur]
        } else {
            seq![]
        }
    } else if s[0] == '\n' {
        seq![strip_cr(cur)] + lines_from(s.drop_first(), seq![])
    } else {
        lines_from(s.drop_first(), cur.push(s[0]))
    }
}

/// The lines of a text, as `str::lines` yields them.
pub open spec fn lines_of(s: Seq<char>) -> Seq<Seq<char>> {
    lines_from(s, seq![])
}

/// The whitespace-separated words of `s`, where `cur` is the part of the
/// current word already read.
pub open spec fn tokens_from(s: Seq<char>, cur: Seq<char>) -> Seq<Seq<char>>
    decreases s.len(),
{
    if s.len() == 0 {
        if cur.len() > 0 {
            seq![cur]
        } else {
            seq![]
        }
    } else if is_ws(s[0]) {
        (if cur.len() > 0 {
            seq![cur]
        } else {
            seq![]
        }) + tokens_from(s.drop_first(), seq![])
    } else {
        tokens_from(s.drop_first(), cur.push(s[0]))
    }
}

/// The words of a line, as `str::split_whitespace` yields them.
pub open spec fn tokens_of(s: Seq<char>) -> Seq<Seq<char>> {
    tokens_from(s, seq![])
}

/// Words joined by single spaces.
pub open spec fn join_words(ws: Seq<Seq<char>>) -> Seq<char>
    decreases ws.len(),
{
    if ws.len() == 0 {
        seq![]
    } else if ws.len() == 1 {
        ws[0]
    } else {
        join_words(ws.drop_last()) + " "@ + ws.last()
    }
}

/// No character of `s` is whitespace.
pub open spec fn ws_free(s: Seq<char>) -> bool {
    forall|i: int| 0 <= i < s.len() ==> !is_ws(#[trigger] s[i])
}

/// Each word is non-empty and free of whitespace.
pub open spec fn plain_words(ws: Seq<Seq<char>>) -> bool {
    forall|i: int| 0 <= i < ws.len() ==> (#[trigger] ws[i]).len() > 0 && ws_free(ws[i])
}

/// The words that splitting yields are non-empty and free of whitespace.
pub proof fn lemma_tokens_plain(s: Seq<char>, cur: Seq<char>)
    requires
        ws_free(cur),
    ensures
        plain_words(tokens_from(s, cur)),
    decreases s.len(),
{
    if s.len() == 0 {
    } else if is_ws(s[0]) {
        lemma_tokens_plain(s.drop_first(), seq![]);
    } else {
        let c2 = cur.push(s[0]);
        assert forall|i: int| 0 <= i < c2.len() implies !is_ws(#[trigger] c2[i]) by {
            if i < cur.len() {
                assert(c2[i] == cur[i]);
            }
        }
        lemma_tokens_plain(s.drop_first(), c2);
    }
}

/// Splitting a word followed by a space, or by nothing, yields the word first.
proof fn lemma_tokens_word(w: Seq<char>, rest: Seq<char>, cur: Seq<char>)
    requires
        ws_free(w),
        (cur + w).len() > 0,
    ensures
        tokens_from(w + " "@ + rest, cur) == seq![cur + w] + tokens_from(rest, seq![]),
        tokens_from(w, cur) == seq![cur + w],
    decreases w.len(),
{
    reveal_strlit(" ");
    let s = w + " "@ + rest;
    if w.len() == 0 {
        assert(cur + w =~= cur);
        assert(s[0] == ' ');
        assert(s.drop_first() =~= rest);
    } else {
        assert(s[0] == w[0]);
        assert(!is_ws(w[0]));
        let w2 = w.drop_first();
        let c2 = cur.push(w[0]);
        assert(s.drop_first() =~= w2 + " "@ + rest);
        assert(c2 + w2 =~= cur + w);
        assert forall|i: int| 0 <= i < w2.len() implies !is_ws(#[trigger] w2[i]) by {
            assert(w2[i] == w[i + 1]);
        }
        lemma_tokens_word(w2, rest, c2);
        assert(w.drop_first() == w2);
    }
}

/// Joining two non-empty lists of words puts one space between them.
pub proof fn lemma_join_append(a: Seq<Seq<char>>, b: Seq<Seq<char>>)
    requires
        a.len() > 0,
        b.len() > 0,
    ensures
        join_words(a + b) == join_words(a) + " "@ + join_words(b),
    decreases b.len(),
{
    let ab = a + b;
    if b.len() == 1 {
        assert(ab.drop_last() =~= a);
        assert(ab.last() == b[0]);
    } else {
        lemma_join_append(a, b.drop_last());
        assert(ab.drop_last() =~= a + b.drop_last());
        assert(ab.last() == b.last());
        assert(join_words(ab) =~= join_words(a) + " "@ + join_words(b));
    }
}

/// Words joined by spaces split back into the same words.
pub proof fn lemma_tokens_join(ws: Seq<Seq<char>>)
    requires
        plain_words(ws),
    ensures
        tokens_of(join_words(ws)) == ws,
    decreases ws.len(),
{
    if ws.len() == 0 {
    } else if ws.len() == 1 {
        assert(ws[0].len() > 0 && ws_free(ws[0]));
        assert(seq![] + ws[0] =~= ws[0]);
        lemma_tokens_word(ws[0], seq![], seq![]);
        assert(ws =~= seq![ws[0]]);
    } else {
        let head = seq![ws[0]];
        let tail = ws.drop_first();
        assert(ws =~= head + tail);
        lemma_join_append(head, tail);
        assert(join_words(head) == ws[0]);
        assert(ws[0].len() > 0 && ws_free(ws[0]));
        assert(plain_words(tail)) by {
            assert forall|i: int| 0 <= i < tail.len() implies (#[trigger] tail[i]).len() > 0 && ws_free(tail[i]) by {
                assert(tail[i] == ws[i + 1]);
            }
        }
        lemma_tokens_join(tail);
        assert(seq![] + ws[0] =~= ws[0]);
        lemma_tokens_word(ws[0], join_words(tail), seq![]);
    }
}

/// Relies on `String::push`: appends one character.
#[verifier::external_body]
fn push_char(s: &mut String, c: char)
    ensures
        final(s)@ == old(s)@.push(c),
{
    s.push(c)
}

/// The characters of a string, one per element.
pub fn chars_of(s: &str) -> (r: Vec<char>)
    ensures
        r@ == s@,
{
    let mut r: Vec<char> = Vec::new();
    for c in it: s.chars()
        invariant
            r@ == it.seq().take(it.index() as int),
    {
        r.push(c);
    }
    r
}

/// The string made of `v[from..to]`.
pub fn string_of(v: &Vec<char>, from: usize, to: usize) -> (r: String)
    requires
        from <= to <= v.len(),
    ensures
        r@ == v@.subrange(from as int, to as int),
{
    let mut r = String::new();
    let mut i = from;
    while i < to
        invariant
            from <= i <= to <= v.len(),
            r@ == v@.subrange(from as int, i as int),
        decreases to - i,
    {
        push_char(&mut r, v[i]);
        assert(r@ =~= v@.subrange(from as int, i + 1));
        i += 1;
    }
    r
}

/// Splits a text into lines, as `str::lines` does.
pub fn split_lines(text: &str) -> (r: Vec<String>)
    ensures
        views(r@) == lines_of(text@),
{
    let cs = chars_of(text);
    let n = cs.len();
    let mut r: Vec<String> = Vec::new();
    let mut start: usize = 0;
    let mut pos: usize = 0;
    assert(text@.skip(0) =~= text@);
    assert(text@.subrange(0, 0) =~= Seq::<char>::empty());
    assert(views(r@) + lines_of(text@) =~= lines_of(text@));
    while pos < n
        invariant
            n == cs.len(),
            cs@ == text@,
            start <= pos <= n,
            lines_of(text@) == views(r@) + lines_from(
                text@.skip(pos as int),
                text@.subrange(start as int, pos as int),
            ),
        decreases n - pos,
    {
        let ghost rest = text@.skip(pos as int);
        let ghost cur = text@.subrange(start as int, pos as int);
        assert(rest.drop_first() =~= text@.skip(pos + 1));
        if cs[pos] == '\n' {
            let mut end = pos;
            if end > start && cs[end - 1] == '\r' {
                end = end - 1;
            }
            let line = string_of(&cs, start, end);
            assert(line@ =~= strip_cr(cur));
            let ghost old_r = r@;
            r.push(line);
            assert(views(r@) =~= views(old_r) + seq![line@]);
            assert(text@.subrange(pos + 1, pos + 1) =~= Seq::<char>::empty());
            start = pos + 1;
        } else {
            assert(cur.push(rest[0]) =~= text@.subrange(start as int, pos + 1));
        }
        pos = pos + 1;
    }
    let ghost cur = text@.subrange(start as int, n as int);
    assert(text@.skip(n as int) =~= Seq::<char>::empty());
    if start < n {
        let line = string_of(&cs, start, n);
        let ghost old_r = r@;
        r.push(line);
        assert(views(r@) =~= views(old_r) + seq![line@]);
    } else {
        assert(views(r@) =~= views(r@) + Seq::<Seq<char>>::empty());
    }
    r
}

/// Splits a line into whitespace-separated words, as `str::split_whitespace` does.
pub fn split_tokens(line: &Vec<char>) -> (r: Vec<String>)
    ensures
        views(r@) == tokens_of(line@),
{
    let n = line.len();
    let mut r: Vec<String> = Vec::new();
    let mut start: usize = 0;
    let mut pos: usize = 0;
    assert(line@.skip(0) =~= line@);
    assert(line@.subrange(0, 0) =~= Seq::<char>::empty());
    assert(views(r@) + tokens_of(line@) =~= tokens_of(line@));
    while pos < n
        invariant
            n == line.len(),
            start <= pos <= n,
            tokens_of(line@) == views(r@) + tokens_from(
                line@.skip(pos as int),
                line@.subrange(start as int, pos as int),
            ),
        decreases n - pos,
    {
        let ghost rest = line@.skip(pos as int);
        let ghost cur = line@.subrange(start as int, pos as int);
        assert(rest.drop_first() =~= line@.skip(pos + 1));
        if is_whitespace(line[pos]) {
            if start < pos {
                let word = string_of(line, start, pos);
                let ghost old_r = r@;
                r.push(word);
                assert(views(r@) =~= views(old_r) + seq![word@]);
            } else {
                assert(views(r@) =~= views(r@) + Seq::<Seq<char>>::empty());
            }
            assert(line@.subrange(pos + 1, pos + 1) =~= Seq::<char>::empty());
            start = pos + 1;
        } else {
            assert(cur.push(rest[0]) =~= line@.subrange(start as int, pos + 1));
        }
        pos = pos + 1;
    }
    assert(line@.skip(n as int) =~= Seq::<char>::empty());
    if start < n {
        let word = string_of(line, start, n);
        let ghost old_r = r@;
        r.push(word);
        assert(views(r@) =~= views(old_r) + seq![word@]);
    } else {
        assert(views(r@) =~= views(r@) + Seq::<Seq<char>>::empty());
    }
    r
}


pub open spec fn digit_char(d: nat) -> char {
    if d == 0 {
        '0'
    } else if d == 1 {
        '1'
    } else if d == 2 {
        '2'
    } else if d == 3 {
        '3'
    } else if d == 4 {
        '4'
    } else if d == 5 {
        '5'
    } else if d == 6 {
        '6'
    } else if d == 7 {
        '7'
    } else if d == 8 {
        '8'
    } else {
        '9'
    }
}

/// The decimal digits of `n`, most significant first.
pub open spec fn decimal(n: nat) -> Seq<char>
    decreases n,
{
    if n < 10 {
        seq![digit_char(n)]
    } else {
        decimal(n / 10).push(digit_char(n % 10))
    }
}

fn digit(d: usize) -> (c: char)
    requires
        d < 10,
    ensures
        c == digit_char(d as nat),
{
    if d == 0 {
        '0'
    } else if d == 1 {
        '1'
    } else if d == 2 {
        '2'
    } else if d == 3 {
        '3'
    } else if d == 4 {
        '4'
    } else if d == 5 {
        '5'
    } else if d == 6 {
        '6'
    } else if d == 7 {
        '7'
    } else if d == 8 {
        '8'
    } else {
        '9'
    }
}

/// Renders a number in decimal.
pub fn decimal_string(n: usize) -> (r: String)
    ensures
        r@ == decimal(n as nat),
    decreases n,
{
    if n < 10 {
        let mut r = String::new();
        push_char(&mut r, digit(n));
        assert(r@ =~= seq![digit_char(n as nat)]);
        r
    } else {
        let mut r = decimal_string(n / 10);
        push_char(&mut r, digit(n % 10));
        r
    }
}

/// `s` without its `#` characters.
pub open spec fn without_hashes(s: Seq<char>) -> Seq<char>
    decreases s.len(),
{
    if s.len() == 0 {
        s
    } else if s.last() == '#' {
        without_hashes(s.drop_last())
    } else {
        without_hashes(s.drop_last()).push(s.last())
    }
}

pub open spec fn trim_start(s: Seq<char>) -> Seq<char>
    decreases s.len(),
{
    if s.len() > 0 && is_ws(s[0]) {
        trim_start(s.drop_first())
    } else {
        s
    }
}

pub open spec fn trim_end(s: Seq<char>) -> Seq<char>
    decreases s.len(),
{
    if s.len() > 0 && is_ws(s.last()) {
        trim_end(s.drop_last())
    } else {
        s
    }
}

/// `s` without leading and trailing whitespace, as `str::trim` gives it.
pub open spec fn trim(s: Seq<char>) -> Seq<char> {
    trim_end(trim_start(s))
}

proof fn lemma_trim_start(s: Seq<char>, k: int)
    requires
        0 <= k <= s.len(),
        forall|j: int| 0 <= j < k ==> is_ws(s[j]),
        k == s.len() || !is_ws(s[k]),
    ensures
        trim_start(s) == s.skip(k),
    decreases k,
{
    if k == 0 {
        assert(s.skip(0) =~= s);
    } else {
        let t = s.drop_first();
        assert forall|j: int| 0 <= j < k - 1 implies is_ws(t[j]) by {
            assert(is_ws(s[j + 1]));
        }
        lemma_trim_start(t, k - 1);
        assert(t.skip(k - 1) =~= s.skip(k));
    }
}

proof fn lemma_trim_end(s: Seq<char>, k: int)
    requires
        0 <= k <= s.len(),
        forall|j: int| k <= j < s.len() ==> is_ws(s[j]),
        k == 0 || !is_ws(s[k - 1]),
    ensures
        trim_end(s) == s.take(k),
    decreases s.len() - k,
{
    if k == s.len() {
        assert(s.take(k) =~= s);
    } else {
        let t = s.drop_last();
        lemma_trim_end(t, k);
        assert(t.take(k) =~= s.take(k));
    }
}

/// The text of `s` with `#` characters removed and surrounding whitespace trimmed.
pub fn trimmed_without_hashes(s: &Vec<char>) -> (r: String)
    ensures
        r@ == trim(without_hashes(s@)),
{
    let mut kept: Vec<char> = Vec::new();
    let mut i: usize = 0;
    while i < s.len()
        invariant
            i <= s.len(),
            kept@ == without_hashes(s@.take(i as int)),
        decreases s.len() - i,
    {
        assert(s@.take(i + 1).drop_last() =~= s@.take(i as int));
        if s[i] != '#' {
            kept.push(s[i]);
        }
        i += 1;
    }
    assert(s@.take(s.len() as int) =~= s@);
    let n = kept.len();
    let mut a: usize = 0;
    while a < n && is_whitespace(kept[a])
        invariant
            n == kept.len(),
            a <= n,
            forall|j: int| 0 <= j < a ==> is_ws(kept@[j]),
        decreases n - a,
    {
        a += 1;
    }
    proof {
        lemma_trim_start(kept@, a as int);
    }
    let ghost front = kept@.skip(a as int);
    let mut b: usize = n;
    while b > a && is_whitespace(kept[b - 1])
        invariant
            n == kept.len(),
            a <= b <= n,
            forall|j: int| b <= j < n ==> is_ws(kept@[j]),
        decreases b,
    {
        b -= 1;
    }
    proof {
        assert forall|j: int| b - a <= j < front.len() implies is_ws(front[j]) by {
            assert(front[j] == kept@[j + a]);
        }
        if b > a {
            assert(front[b - a - 1] == kept@[b - 1]);
        }
        lemma_trim_end(front, b - a);
        assert(front.take(b - a) =~= kept@.subrange(a as int, b as int));
    }
    string_of(&kept, a, b)
}

/// Whether `c` occurs in `cs`.
pub fn contains_char(cs: &Vec<char>, c: char) -> (r: bool)
    ensures
        r == cs@.contains(c),
{
    let mut i: usize = 0;
    while i < cs.len()
        invariant
            i <= cs.len(),
            forall|j: int| 0 <= j < i ==> cs@[j] != c,
        decreases cs.len() - i,
    {
        if cs[i] == c {
            assert(cs@[i as int] == c);
            return true;
        }
        i += 1;
    }
    false
}

/// Appends `tail` to `s`.
pub fn append_str(s: &mut String, tail: &str)
    ensures
        final(s)@ == old(s)@ + tail@,
{
    s.append(tail);
}

} // verus!
