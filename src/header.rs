//! Header synthesis, detection of a current header, and replacement of a
//! missing or stale one.

use vstd::prelude::*;
use crate::style::{CommentProfile, LanguageProfile};
use crate::text::{
    chars_of, extend_range, find_from, join_lines, line_end, line_spans, lines_of, occurs_at,
    skip_ws, span_texts, spans_within, string_of, trailing_ws_start, trim, trim_end, trim_start,
};

verus! {

/// The lines of a header, each right-trimmed, behind `prefix` and ended by `'\n'`.
pub open spec fn prefixed_lines(ls: Seq<Seq<char>>, prefix: Seq<char>) -> Seq<char>
    decreases ls.len(),
{
    if ls.len() == 0 {
        Seq::empty()
    } else {
        prefixed_lines(ls.drop_last(), prefix) + prefix + trim_end(ls.last()) + seq!['\n']
    }
}

/// The header that `raw` becomes in profile `p`: the opener, the prefixed
/// lines, then the closer (or, without one, a blank separator line).
pub open spec fn synthesize(raw: Seq<char>, p: CommentProfile) -> Seq<char> {
    p.start + prefixed_lines(lines_of(raw), p.prefix) + if p.end.len() > 0 {
        p.end
    } else {
        seq!['\n']
    }
}

/// Where the body of a file starts: just past an interpreter directive
/// line (`#!` ... `'\n'`), else at 0.
pub open spec fn shebang_offset(s: Seq<char>) -> int {
    if s.len() >= 2 && s[0] == '#' && s[1] == '!' && line_end(s, 0) < s.len() {
        line_end(s, 0) + 1
    } else {
        0
    }
}

/// Whether the body of `content`, leading whitespace trimmed, starts with
/// `header`, trailing whitespace trimmed.
pub open spec fn header_is_current(content: Seq<char>, header: Seq<char>) -> bool {
    trim_end(header).is_prefix_of(trim_start(content.skip(shebang_offset(content))))
}

/// What processing a file's content comes to.
pub enum OutcomeView {
    Current,
    Inserted(Seq<char>),
    Updated(Seq<char>),
    SkippedMalformed,
}

/// Replacement in a block style. An interpreter directive line stays first;
/// below it, an old block is swapped for the header, an unterminated one is
/// left alone, and otherwise the header goes in front.
pub open spec fn replace_block(content: Seq<char>, header: Seq<char>, p: CommentProfile) -> OutcomeView {
    let lead = content.subrange(0, shebang_offset(content));
    let body = content.skip(shebang_offset(content));
    if p.start.is_prefix_of(trim_start(body)) {
        match find_from(body, p.end, 0) {
            Some(i) => OutcomeView::Updated(
                lead + header + trim_start(body.skip(i + p.end.len())),
            ),
            None => OutcomeView::SkippedMalformed,
        }
    } else {
        OutcomeView::Inserted(lead + header + body)
    }
}

/// The index past the stale header lines that start at line `i`: lines whose
/// trimmed text starts with `mark`, then at most one blank line.
pub open spec fn header_scan(ls: Seq<Seq<char>>, i: int, mark: Seq<char>) -> int
    decreases ls.len() - i,
{
    if i < 0 || i >= ls.len() {
        i
    } else if mark.is_prefix_of(trim(ls[i])) {
        header_scan(ls, i + 1, mark)
    } else if trim(ls[i]).len() == 0 {
        i + 1
    } else {
        i
    }
}

/// Whether the first line is an interpreter directive.
pub open spec fn has_shebang_line(ls: Seq<Seq<char>>) -> bool {
    ls.len() > 0 && seq!['#', '!'].is_prefix_of(ls[0])
}

/// The line where the scan for a stale header begins.
pub open spec fn scan_start(ls: Seq<Seq<char>>) -> int {
    if has_shebang_line(ls) {
        1
    } else {
        0
    }
}

/// The first line kept after the stale header of a line-comment file.
pub open spec fn line_cut(content: Seq<char>, prefix: Seq<char>) -> int {
    header_scan(lines_of(content), scan_start(lines_of(content)), trim(prefix))
}

/// `s`, with a `'\n'` added unless it already ends with one.
pub open spec fn with_final_newline(s: Seq<char>) -> Seq<char> {
    if s.len() > 0 && s.last() == '\n' {
        s
    } else {
        s.push('\n')
    }
}

/// The content of a line-comment file rebuilt around `header`: the directive
/// line (if any), the header, then the lines after the stale header.
pub open spec fn rebuild_lines(content: Seq<char>, header: Seq<char>, prefix: Seq<char>) -> Seq<char> {
    let ls = lines_of(content);
    let lead = if has_shebang_line(ls) {
        ls[0].push('\n')
    } else {
        Seq::empty()
    };
    with_final_newline(lead + header + join_lines(ls.subrange(line_cut(content, prefix), ls.len() as int)))
}

/// Replacement in a line style: `Inserted` where no stale line was dropped.
pub open spec fn replace_lines(content: Seq<char>, header: Seq<char>, p: CommentProfile) -> OutcomeView {
    let new = rebuild_lines(content, header, p.prefix);
    if line_cut(content, p.prefix) == scan_start(lines_of(content)) {
        OutcomeView::Inserted(new)
    } else {
        OutcomeView::Updated(new)
    }
}

/// The replacement for a file whose header is missing or stale.
pub open spec fn replace(content: Seq<char>, header: Seq<char>, p: CommentProfile) -> OutcomeView {
    if p.is_block() {
        replace_block(content, header, p)
    } else {
        replace_lines(content, header, p)
    }
}

/// The whole per-file transformation: synthesize, detect, replace.
pub open spec fn apply(raw: Seq<char>, p: CommentProfile, content: Seq<char>) -> OutcomeView {
    let h = synthesize(raw, p);
    if header_is_current(content, h) {
        OutcomeView::Current
    } else {
        replace(content, h, p)
    }
}

/// The content a file holds after processing.
pub open spec fn content_after(raw: Seq<char>, p: CommentProfile, content: Seq<char>) -> Seq<char> {
    match apply(raw, p, content) {
        OutcomeView::Inserted(n) => n,
        OutcomeView::Updated(n) => n,
        _ => content,
    }
}

/// What processing a file's content comes to.
#[derive(Debug, PartialEq, Eq)]
pub enum Outcome {
    /// The file already carries the header.
    Current,
    /// The header was added; the new content.
    Inserted(String),
    /// A stale header was replaced; the new content.
    Updated(String),
    /// The file opens a block comment that never closes; it stays as it is.
    SkippedMalformed,
}

impl View for Outcome {
    type V = OutcomeView;

    open spec fn view(&self) -> OutcomeView {
        match self {
            Outcome::Current => OutcomeView::Current,
            Outcome::Inserted(s) => OutcomeView::Inserted(s@),
            Outcome::Updated(s) => OutcomeView::Updated(s@),
            Outcome::SkippedMalformed => OutcomeView::SkippedMalformed,
        }
    }
}

impl Outcome {
    /// The content to write back, where there is any.
    pub fn new_content(self) -> (r: Option<String>)
        ensures
            match self@ {
                OutcomeView::Inserted(n) => r is Some && r->0@ == n,
                OutcomeView::Updated(n) => r is Some && r->0@ == n,
                _ => r is None,
            },
    {
        match self {
            Outcome::Inserted(s) => Some(s),
            Outcome::Updated(s) => Some(s),
            _ => None,
        }
    }
}

/// The index of the first `'\n'` at or after `i`, or `v.len()`.
pub fn find_newline(v: &Vec<char>, i: usize) -> (r: usize)
    requires
        i <= v.len(),
    ensures
        r as int == line_end(v@, i as int),
{
    let mut e = i;
    while e < v.len() && v[e] != '\n'
        invariant
            i <= e <= v.len(),
            line_end(v@, i as int) == line_end(v@, e as int),
        decreases v.len() - e,
    {
        e = e + 1;
    }
    e
}

/// Whether `p[0..plen]` occurs in `v` at index `i`.
pub fn occurs_at_exec(v: &Vec<char>, p: &Vec<char>, plen: usize, i: usize) -> (r: bool)
    requires
        plen <= p.len(),
    ensures
        r == occurs_at(v@, p@.subrange(0, plen as int), i as int),
{
    if i > v.len() || plen > v.len() - i {
        return false;
    }
    let mut k: usize = 0;
    while k < plen
        invariant
            k <= plen <= p.len(),
            i + plen <= v.len(),
            forall|q: int| 0 <= q < k ==> v@[i + q] == p@[q],
        decreases plen - k,
    {
        if v[i + k] != p[k] {
            assert(v@.subrange(i as int, i + plen)[k as int] != p@.subrange(0, plen as int)[k as int]);
            return false;
        }
        k = k + 1;
    }
    assert(v@.subrange(i as int, i + plen) =~= p@.subrange(0, plen as int));
    true
}

/// The first index where `p` occurs in `v`.
pub fn find_text(v: &Vec<char>, p: &Vec<char>) -> (r: Option<usize>)
    ensures
        match r {
            Some(i) => find_from(v@, p@, 0) == Some(i as int),
            None => find_from(v@, p@, 0) is None,
        },
{
    assert(p@.subrange(0, p.len() as int) =~= p@);
    if p.len() > v.len() {
        return None;
    }
    let limit = v.len() - p.len();
    let mut i: usize = 0;
    loop
        invariant
            i <= limit,
            limit + p.len() == v.len(),
            find_from(v@, p@, 0) == find_from(v@, p@, i as int),
            p@.subrange(0, p.len() as int) == p@,
        decreases limit - i,
    {
        if occurs_at_exec(v, p, p.len(), i) {
            return Some(i);
        }
        if i == limit {
            return None;
        }
        i = i + 1;
    }
}

/// Whether `header` is already in place at the top of `content`: past an
/// interpreter directive and leading whitespace, the content starts with the
/// header without its trailing whitespace.
pub fn is_current(content: &str, header: &str) -> (r: bool)
    ensures
        r == header_is_current(content@, header@),
{
    let c = chars_of(content);
    let n = c.len();
    let offset = directive_end(&c);
    let j = skip_ws(&c, offset, n);
    assert(c@.subrange(offset as int, n as int) =~= c@.skip(offset as int));
    let h = chars_of(header);
    let m = trailing_ws_start(&h, 0, h.len());
    assert(h@.subrange(0, h.len() as int) =~= h@);
    let r = occurs_at_exec(&c, &h, m, j);
    proof {
        let t = c@.subrange(j as int, n as int);
        let th = h@.subrange(0, m as int);
        if r {
            assert(t.subrange(0, th.len() as int) =~= c@.subrange(j as int, j + th.len()));
        }
        if th.is_prefix_of(t) {
            assert(t.subrange(0, th.len() as int) =~= c@.subrange(j as int, j + th.len()));
        }
    }
    r
}

/// The header text for `raw` in the comment style `style`.
pub fn make_header(raw: &str, style: LanguageProfile) -> (r: String)
    ensures
        r@ == synthesize(raw@, style@),
{
    let rv = chars_of(raw);
    let spans = line_spans(&rv);
    let start = chars_of(style.start);
    let prefix = chars_of(style.prefix);
    let end = chars_of(style.end);
    let ghost ls = lines_of(raw@);
    let mut buf: Vec<char> = Vec::new();
    extend_range(&mut buf, &start, 0, start.len());
    assert(start@.subrange(0, start.len() as int) =~= start@);
    assert(prefix@.subrange(0, prefix.len() as int) =~= prefix@);
    let mut k: usize = 0;
    while k < spans.len()
        invariant
            k <= spans.len(),
            rv@ == raw@,
            prefix@ == style.prefix@,
            prefix@.subrange(0, prefix.len() as int) == prefix@,
            spans_within(spans@, rv.len() as int),
            span_texts(rv@, spans@) == ls,
            buf@ == style.start@ + prefixed_lines(ls.subrange(0, k as int), style.prefix@),
        decreases spans.len() - k,
    {
        extend_range(&mut buf, &prefix, 0, prefix.len());
        let (a, b) = spans[k];
        let m = trailing_ws_start(&rv, a, b);
        extend_range(&mut buf, &rv, a, m);
        buf.push('\n');
        proof {
            assert(ls.subrange(0, k + 1).drop_last() =~= ls.subrange(0, k as int));
            assert(ls[k as int] == rv@.subrange(a as int, b as int));
        }
        k = k + 1;
    }
    assert(ls.subrange(0, spans.len() as int) =~= ls);
    if end.len() > 0 {
        extend_range(&mut buf, &end, 0, end.len());
        assert(end@.subrange(0, end.len() as int) =~= end@);
    } else {
        buf.push('\n');
    }
    proof {
        let body = prefixed_lines(ls, style.prefix@);
        if end.len() > 0 {
            assert(buf@ =~= style.start@ + body + style.end@);
        } else {
            assert(buf@ =~= style.start@ + body + seq!['\n']);
        }
    }
    string_of(&buf)
}

/// The length of the interpreter directive line that opens `c`, its
/// `'\n'` included, or 0.
pub fn directive_end(c: &Vec<char>) -> (off: usize)
    ensures
        off as int == shebang_offset(c@),
        off <= c.len(),
{
    let n = c.len();
    let mut off: usize = 0;
    if n >= 2 && c[0] == '#' && c[1] == '!' {
        let e = find_newline(c, 0);
        if e < n {
            off = e + 1;
        }
    }
    off
}

/// The block-style replacement of `content`'s header by `header`, below an
/// interpreter directive line if there is one.
pub fn replace_block_header(content: &str, header: &str, style: LanguageProfile) -> (r: Outcome)
    ensures
        r@ == replace_block(content@, header@, style@),
{
    let whole = chars_of(content);
    let off = directive_end(&whole);
    let mut c: Vec<char> = Vec::new();
    extend_range(&mut c, &whole, off, whole.len());
    assert(c@ =~= content@.skip(off as int));
    let n = c.len();
    let j = skip_ws(&c, 0, n);
    assert(c@.subrange(0, n as int) =~= c@);
    let st = chars_of(style.start);
    let hv = chars_of(header);
    let mut buf: Vec<char> = Vec::new();
    extend_range(&mut buf, &whole, 0, off);
    extend_range(&mut buf, &hv, 0, hv.len());
    assert(hv@.subrange(0, hv.len() as int) =~= hv@);
    let ghost lead = content@.subrange(0, off as int);
    assert(buf@ == lead + header@);
    let opens = occurs_at_exec(&c, &st, st.len(), j);
    proof {
        let t = c@.subrange(j as int, n as int);
        assert(st@.subrange(0, st.len() as int) =~= st@);
        if opens || st@.is_prefix_of(t) {
            assert(t.subrange(0, st.len() as int) =~= c@.subrange(j as int, j + st.len()));
        }
    }
    if opens {
        let en = chars_of(style.end);
        match find_text(&c, &en) {
            Some(i) => {
                proof {
                    lemma_find_from_found(c@, en@, 0);
                }
                let k = i + en.len();
                let t = skip_ws(&c, k, n);
                extend_range(&mut buf, &c, t, n);
                assert(c@.subrange(k as int, n as int) =~= c@.skip(k as int));
                Outcome::Updated(string_of(&buf))
            },
            None => Outcome::SkippedMalformed,
        }
    } else {
        extend_range(&mut buf, &c, 0, n);
        Outcome::Inserted(string_of(&buf))
    }
}

/// A found occurrence lies inside the text.
pub proof fn lemma_find_from_found(s: Seq<char>, p: Seq<char>, i: int)
    ensures
        find_from(s, p, i) matches Some(k) ==> i <= k && occurs_at(s, p, k),
    decreases s.len() + 1 - i,
{
    if !(i < 0 || i + p.len() > s.len()) && !occurs_at(s, p, i) {
        lemma_find_from_found(s, p, i + 1);
    }
}

/// Rebuilds a line-comment file around `header`, and tells whether no stale
/// header line was dropped.
pub fn rebuild_line_header(content: &str, header: &str, prefix: &str) -> (r: (String, bool))
    ensures
        r.0@ == rebuild_lines(content@, header@, prefix@),
        r.1 == (line_cut(content@, prefix@) == scan_start(lines_of(content@))),
{
    let c = chars_of(content);
    let spans = line_spans(&c);
    let nl = spans.len();
    let ghost ls = lines_of(c@);
    let mut start: usize = 0;
    if nl > 0 {
        let (a, b) = spans[0];
        if b - a >= 2 && c[a] == '#' && c[a + 1] == '!' {
            start = 1;
        }
        proof {
            let l0 = ls[0];
            assert(l0 == c@.subrange(a as int, b as int));
            if seq!['#', '!'].is_prefix_of(l0) {
                assert(l0.subrange(0, 2)[0] == '#' && l0.subrange(0, 2)[1] == '!');
            }
            if start == 1 {
                assert(l0.subrange(0, 2) =~= seq!['#', '!']);
            }
        }
    }
    assert(start as int == scan_start(ls));
    let pv = chars_of(prefix);
    let pm = trailing_ws_start(&pv, 0, pv.len());
    let pj = skip_ws(&pv, 0, pm);
    assert(pv@.subrange(0, pv.len() as int) =~= pv@);
    let mut mark: Vec<char> = Vec::new();
    extend_range(&mut mark, &pv, pj, pm);
    assert(mark@ == trim(prefix@));
    assert(mark@.subrange(0, mark.len() as int) =~= mark@);
    let mut i = start;
    let mut done = false;
    while !done && i < nl
        invariant
            start <= i <= nl,
            nl == spans.len(),
            spans_within(spans@, c.len() as int),
            span_texts(c@, spans@) == ls,
            mark@ == trim(prefix@),
            mark@.subrange(0, mark.len() as int) == mark@,
            done ==> header_scan(ls, start as int, mark@) == i as int,
            !done ==> header_scan(ls, start as int, mark@) == header_scan(ls, i as int, mark@),
        decreases nl - i + if done { 0int } else { 1int },
    {
        let (a, b) = spans[i];
        let m = trailing_ws_start(&c, a, b);
        let j = skip_ws(&c, a, m);
        let ghost t = c@.subrange(j as int, m as int);
        assert(ls[i as int] == c@.subrange(a as int, b as int));
        assert(trim(ls[i as int]) == t);
        let hit = mark.len() <= m - j && occurs_at_exec(&c, &mark, mark.len(), j);
        proof {
            if hit || mark@.is_prefix_of(t) {
                assert(t.subrange(0, mark.len() as int) =~= c@.subrange(j as int, j + mark.len()));
            }
        }
        if hit {
            i = i + 1;
        } else if j == m {
            i = i + 1;
            done = true;
        } else {
            done = true;
        }
    }
    let cut = i;
    assert(cut as int == line_cut(c@, prefix@));
    let mut buf: Vec<char> = Vec::new();
    if start == 1 {
        let (a, b) = spans[0];
        extend_range(&mut buf, &c, a, b);
        buf.push('\n');
    }
    let hv = chars_of(header);
    extend_range(&mut buf, &hv, 0, hv.len());
    assert(hv@.subrange(0, hv.len() as int) =~= hv@);
    let ghost lead = if has_shebang_line(ls) {
        ls[0].push('\n')
    } else {
        Seq::empty()
    };
    assert(buf@ =~= lead + header@ + join_lines(ls.subrange(cut as int, cut as int)));
    let mut k = cut;
    while k < nl
        invariant
            cut <= k <= nl,
            nl == spans.len(),
            spans_within(spans@, c.len() as int),
            span_texts(c@, spans@) == ls,
            buf@ == lead + header@ + join_lines(ls.subrange(cut as int, k as int)),
        decreases nl - k,
    {
        let ghost before = buf@;
        if k > cut {
            buf.push('\n');
        }
        let (a, b) = spans[k];
        extend_range(&mut buf, &c, a, b);
        proof {
            let sub = ls.subrange(cut as int, k + 1);
            assert(sub.drop_last() =~= ls.subrange(cut as int, k as int));
            assert(sub.last() == c@.subrange(a as int, b as int));
            if k > cut {
                assert(buf@ =~= lead + header@ + join_lines(sub));
            } else {
                assert(sub.len() == 1);
                assert(buf@ =~= lead + header@ + join_lines(sub));
            }
        }
        k = k + 1;
    }
    let ghost joined = buf@;
    if buf.len() == 0 || buf[buf.len() - 1] != '\n' {
        buf.push('\n');
    }
    assert(buf@ == with_final_newline(joined));
    (string_of(&buf), cut == start)
}

/// The replacement of a missing or stale header in `content` by `header`.
pub fn replace_header(content: &str, header: &str, style: LanguageProfile) -> (r: Outcome)
    ensures
        r@ == replace(content@, header@, style@),
{
    if style.start.is_empty() {
        let (s, inserted) = rebuild_line_header(content, header, style.prefix);
        if inserted {
            Outcome::Inserted(s)
        } else {
            Outcome::Updated(s)
        }
    } else {
        replace_block_header(content, header, style)
    }
}

} // verus!
