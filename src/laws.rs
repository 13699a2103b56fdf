//! Properties of the header transformation as a whole.

use vstd::prelude::*;
use crate::header::{
    apply, content_after, has_shebang_line, header_is_current, line_cut, prefixed_lines, rebuild_lines,
    replace, replace_block, replace_lines, shebang_offset, synthesize, with_final_newline,
    OutcomeView,
};
use crate::style::{c_like, is_registered, style_for, CommentProfile};
use crate::text::{
    find_from, is_ws, join_lines, lemma_line_end_bounds, line_end, lines_from, lines_of, strip_cr,
    trim_end, trim_start,
};

verus! {

/// Whether a header can be recognised at the top of a body: it trims to
/// nothing, or it opens with a character that is neither whitespace nor the
/// start of an interpreter directive.
pub open spec fn clean_head(h: Seq<char>) -> bool {
    trim_end(h).len() == 0 || (h.len() >= 2 && !is_ws(h[0]) && !(h[0] == '#' && h[1] == '!'))
}

/// The right-trimmed text is a prefix of the text.
pub proof fn lemma_trim_end_is_prefix(s: Seq<char>)
    ensures
        trim_end(s).is_prefix_of(s),
    decreases s.len(),
{
    if s.len() > 0 && is_ws(s.last()) {
        lemma_trim_end_is_prefix(s.drop_last());
        assert(s.drop_last().subrange(0, trim_end(s).len() as int) =~= s.subrange(
            0,
            trim_end(s).len() as int,
        ));
    } else {
        assert(s.subrange(0, s.len() as int) =~= s);
    }
}

/// A header with a clean head, directly followed by anything, is found.
pub proof fn lemma_header_found(h: Seq<char>, rest: Seq<char>)
    requires
        clean_head(h),
    ensures
        trim_end(h).is_prefix_of(trim_start(h + rest)),
{
    if trim_end(h).len() > 0 {
        let s = h + rest;
        assert(s[0] == h[0]);
        assert(trim_start(s) == s);
        lemma_trim_end_is_prefix(h);
        assert(s.subrange(0, trim_end(h).len() as int) =~= h.subrange(0, trim_end(h).len() as int));
    }
}

/// A header with a clean head at the very top of a file is current.
pub proof fn lemma_current_at_top(h: Seq<char>, rest: Seq<char>)
    requires
        clean_head(h),
    ensures
        header_is_current(h + rest, h),
{
    lemma_header_found(h, rest);
    let s = h + rest;
    if trim_end(h).len() > 0 {
        assert(s[0] == h[0] && s[1] == h[1]);
        assert(shebang_offset(s) == 0);
        assert(s.skip(0) =~= s);
    }
}

/// `line_end` finds the `'\n'` that ends a run without one.
pub proof fn lemma_line_end_at(s: Seq<char>, i: int, e: int)
    requires
        0 <= i <= e < s.len(),
        s[e] == '\n',
        forall|k: int| i <= k < e ==> s[k] != '\n',
    ensures
        line_end(s, i) == e,
    decreases e - i,
{
    if i < e {
        lemma_line_end_at(s, i + 1, e);
    }
}

/// A header with a clean head right after an interpreter directive line is
/// current.
pub proof fn lemma_current_after_directive(l: Seq<char>, h: Seq<char>, rest: Seq<char>)
    requires
        clean_head(h),
        l.len() >= 2,
        l[0] == '#',
        l[1] == '!',
        forall|k: int| 0 <= k < l.len() ==> l[k] != '\n',
    ensures
        header_is_current(l.push('\n') + h + rest, h),
{
    let s = l.push('\n') + h + rest;
    lemma_line_end_at(s, 0, l.len() as int);
    assert(shebang_offset(s) == l.len() + 1);
    assert(s.skip(l.len() + 1 as int) =~= h + rest);
    lemma_header_found(h, rest);
}

/// The header lines of a non-empty list open with the prefix.
pub proof fn lemma_prefixed_lines_open(ls: Seq<Seq<char>>, prefix: Seq<char>)
    requires
        ls.len() > 0,
    ensures
        prefix.is_prefix_of(prefixed_lines(ls, prefix)),
    decreases ls.len(),
{
    let body = prefixed_lines(ls, prefix);
    if ls.len() == 1 {
        assert(ls.drop_last().len() == 0);
        assert(prefixed_lines(ls.drop_last(), prefix) == Seq::<char>::empty());
        assert(body =~= prefix + trim_end(ls.last()) + seq!['\n']);
        assert(body.subrange(0, prefix.len() as int) =~= prefix);
    } else {
        lemma_prefixed_lines_open(ls.drop_last(), prefix);
        let b0 = prefixed_lines(ls.drop_last(), prefix);
        assert(body.subrange(0, prefix.len() as int) =~= b0.subrange(0, prefix.len() as int));
    }
}

/// Every synthesized header in a registered style has a clean head.
pub proof fn lemma_synthesized_clean(raw: Seq<char>, p: CommentProfile)
    requires
        is_registered(p),
    ensures
        clean_head(synthesize(raw, p)),
{
    let h = synthesize(raw, p);
    let ls = lines_of(raw);
    let body = prefixed_lines(ls, p.prefix);
    if p == c_like() {
        assert(h[0] == '/' && h[1] == '*');
    } else if ls.len() == 0 {
        assert(body.len() == 0);
        assert(h =~= seq!['\n']);
        assert(seq!['\n'].drop_last() =~= Seq::<char>::empty());
        assert(trim_end(h) == trim_end(Seq::<char>::empty()));
    } else {
        lemma_prefixed_lines_open(ls, p.prefix);
        assert(h[0] == body[0] && h[1] == body[1]);
        assert(body[0] == p.prefix[0] && body[1] == p.prefix[1]);
    }
}

/// The first line of a non-empty text holds no `'\n'`.
pub proof fn lemma_first_line(s: Seq<char>)
    requires
        s.len() > 0,
    ensures
        lines_of(s).len() > 0,
        forall|k: int| 0 <= k < lines_of(s)[0].len() ==> lines_of(s)[0][k] != '\n',
{
    lemma_line_end_bounds(s, 0);
    let e = line_end(s, 0);
    let l = s.subrange(0, e);
    assert(forall|k: int| 0 <= k < l.len() ==> l[k] == s[k]);
    if e < s.len() {
        assert(lines_of(s) == seq![strip_cr(l)] + lines_from(s, e + 1));
        assert(forall|k: int| 0 <= k < strip_cr(l).len() ==> strip_cr(l)[k] == l[k]);
    } else {
        assert(lines_of(s) == seq![l]);
    }
}

/// A rebuilt line-comment file is the directive line (if any), the header,
/// then some remainder.
pub proof fn lemma_rebuild_shape(content: Seq<char>, h: Seq<char>, prefix: Seq<char>) -> (rest: Seq<char>)
    ensures
        has_shebang_line(lines_of(content)) ==> rebuild_lines(content, h, prefix) == lines_of(
            content,
        )[0].push('\n') + h + rest,
        !has_shebang_line(lines_of(content)) ==> rebuild_lines(content, h, prefix) == h + rest,
{
    let ls = lines_of(content);
    let lead = if has_shebang_line(ls) {
        ls[0].push('\n')
    } else {
        Seq::empty()
    };
    let j = join_lines(ls.subrange(line_cut(content, prefix), ls.len() as int));
    let y = lead + h + j;
    let rest = if y.len() > 0 && y.last() == '\n' {
        j
    } else {
        j.push('\n')
    };
    assert(with_final_newline(y) =~= lead + h + rest);
    if !has_shebang_line(ls) {
        assert(lead + h + rest =~= h + rest);
    }
    rest
}

/// A header with a clean head right below the directive line that opens
/// `content` (or at the top, without one) is current.
pub proof fn lemma_current_below_lead(content: Seq<char>, h: Seq<char>, rest: Seq<char>)
    requires
        clean_head(h),
    ensures
        header_is_current(content.subrange(0, shebang_offset(content)) + h + rest, h),
{
    let off = shebang_offset(content);
    let lead = content.subrange(0, off);
    if off == 0 {
        assert(lead + h + rest =~= h + rest);
        lemma_current_at_top(h, rest);
    } else {
        lemma_line_end_bounds(content, 0);
        let l = content.subrange(0, off - 1);
        assert(lead =~= l.push('\n'));
        assert(l[0] == content[0] && l[1] == content[1]);
        assert forall|k: int| 0 <= k < l.len() implies l[k] != '\n' by {
            assert(l[k] == content[k]);
        }
        lemma_current_after_directive(l, h, rest);
    }
}

/// Content that processing writes is reported current when processed again
/// with the same header text, so a second pass leaves every file as the
/// first pass left it.
pub proof fn lemma_idempotent(raw: Seq<char>, p: CommentProfile, content: Seq<char>)
    requires
        is_registered(p),
    ensures
        apply(raw, p, content) matches OutcomeView::Inserted(n) ==> apply(raw, p, n)
            == OutcomeView::Current,
        apply(raw, p, content) matches OutcomeView::Updated(n) ==> apply(raw, p, n)
            == OutcomeView::Current,
        content_after(raw, p, content_after(raw, p, content)) == content_after(raw, p, content),
{
    let h = synthesize(raw, p);
    lemma_synthesized_clean(raw, p);
    if !header_is_current(content, h) {
        if p.is_block() {
            let body = content.skip(shebang_offset(content));
            match replace_block(content, h, p) {
                OutcomeView::Inserted(n) => {
                    lemma_current_below_lead(content, h, body);
                },
                OutcomeView::Updated(n) => {
                    let i = find_from(body, p.end, 0)->0;
                    lemma_current_below_lead(content, h, trim_start(body.skip(i + p.end.len())));
                },
                _ => {},
            }
        } else {
            let n = rebuild_lines(content, h, p.prefix);
            let ls = lines_of(content);
            let rest = lemma_rebuild_shape(content, h, p.prefix);
            if has_shebang_line(ls) {
                lemma_first_line(content);
                let l = ls[0];
                assert(seq!['#', '!'].is_prefix_of(l));
                assert(l.subrange(0, 2)[0] == l[0] && l.subrange(0, 2)[1] == l[1]);
                lemma_current_after_directive(l, h, rest);
            } else {
                lemma_current_at_top(h, rest);
            }
            assert(header_is_current(n, h));
        }
    }
}

/// Each synthesized header in a registered style is itself recognised as a
/// current header.
pub proof fn lemma_synthesized_is_current(raw: Seq<char>, p: CommentProfile)
    requires
        is_registered(p),
    ensures
        header_is_current(synthesize(raw, p), synthesize(raw, p)),
{
    let h = synthesize(raw, p);
    lemma_synthesized_clean(raw, p);
    lemma_current_at_top(h, Seq::empty());
    assert(h + Seq::<char>::empty() =~= h);
}

/// The registry hands out registered profiles only.
pub proof fn lemma_registry_profiles(ext: Seq<char>)
    ensures
        style_for(ext) matches Some(p) ==> is_registered(p),
{
}

/// For every extension in the registry, the header synthesized in its style
/// is recognised as current.
pub proof fn lemma_style_correct(raw: Seq<char>, ext: Seq<char>)
    requires
        style_for(ext) is Some,
    ensures
        header_is_current(
            synthesize(raw, style_for(ext)->0),
            synthesize(raw, style_for(ext)->0),
        ),
{
    lemma_registry_profiles(ext);
    lemma_synthesized_is_current(raw, style_for(ext)->0);
}

/// A file that opens with an interpreter directive line keeps that line,
/// unchanged, as its first line, in block and line styles alike. (A line
/// style rewrites a `"\r\n"` line ending as `"\n"`.)
pub proof fn lemma_directive_kept(raw: Seq<char>, p: CommentProfile, l: Seq<char>, body: Seq<char>)
    requires
        is_registered(p),
        l.len() >= 2,
        l[0] == '#',
        l[1] == '!',
        forall|k: int| 0 <= k < l.len() ==> l[k] != '\n',
        !p.is_block() ==> l.last() != '\r',
    ensures
        l.push('\n').is_prefix_of(content_after(raw, p, l.push('\n') + body)),
{
    let content = l.push('\n') + body;
    let h = synthesize(raw, p);
    let lead = l.push('\n');
    lemma_line_end_at(content, 0, l.len() as int);
    if header_is_current(content, h) {
        assert(content.subrange(0, lead.len() as int) =~= lead);
    } else if p.is_block() {
        assert(shebang_offset(content) == lead.len());
        assert(content.subrange(0, shebang_offset(content)) =~= lead);
        let b = content.skip(shebang_offset(content));
        match replace_block(content, h, p) {
            OutcomeView::Inserted(n) => {
                assert(n.subrange(0, lead.len() as int) =~= lead);
            },
            OutcomeView::Updated(n) => {
                assert(n.subrange(0, lead.len() as int) =~= lead);
            },
            _ => {
                assert(content.subrange(0, lead.len() as int) =~= lead);
            },
        }
    } else {
        assert(content.subrange(0, l.len() as int) =~= l);
        assert(lines_of(content)[0] == strip_cr(l));
        assert(strip_cr(l) == l);
        assert(l.subrange(0, 2) =~= seq!['#', '!']);
        assert(has_shebang_line(lines_of(content)));
        let rest = lemma_rebuild_shape(content, h, p.prefix);
        let n = rebuild_lines(content, h, p.prefix);
        assert(n.subrange(0, lead.len() as int) =~= lead);
        assert(replace(content, h, p) == replace_lines(content, h, p));
    }
}

/// A file that opens a block comment which never closes (below an
/// interpreter directive line, if there is one) is left exactly as it is.
pub proof fn lemma_unterminated_block_untouched(raw: Seq<char>, p: CommentProfile, content: Seq<char>)
    requires
        p.is_block(),
        p.start.is_prefix_of(trim_start(content.skip(shebang_offset(content)))),
        find_from(content.skip(shebang_offset(content)), p.end, 0) is None,
    ensures
        apply(raw, p, content) is Current || apply(raw, p, content) is SkippedMalformed,
        content_after(raw, p, content) == content,
{
}

/// The files after processing the one at `k`, if it has a style.
pub open spec fn process_one<K>(
    raw: Seq<char>,
    styles: Map<K, CommentProfile>,
    files: Map<K, Seq<char>>,
    k: K,
) -> Map<K, Seq<char>> {
    if files.contains_key(k) && styles.contains_key(k) {
        files.insert(k, content_after(raw, styles[k], files[k]))
    } else {
        files
    }
}

/// The files after processing those of `order`, one after another.
pub open spec fn process_in_order<K>(
    raw: Seq<char>,
    styles: Map<K, CommentProfile>,
    files: Map<K, Seq<char>>,
    order: Seq<K>,
) -> Map<K, Seq<char>>
    decreases order.len(),
{
    if order.len() == 0 {
        files
    } else {
        process_one(raw, styles, process_in_order(raw, styles, files, order.drop_last()), order.last())
    }
}

/// The files with each of `keys` that has a style processed once.
pub open spec fn processed_once<K>(
    raw: Seq<char>,
    styles: Map<K, CommentProfile>,
    files: Map<K, Seq<char>>,
    keys: Set<K>,
) -> Map<K, Seq<char>> {
    Map::new(
        |k: K| files.contains_key(k),
        |k: K|
            if keys.contains(k) && styles.contains_key(k) {
                content_after(raw, styles[k], files[k])
            } else {
                files[k]
            },
    )
}

/// Whether every style of the map is a registered one.
pub open spec fn all_registered<K>(styles: Map<K, CommentProfile>) -> bool {
    forall|k: K| styles.contains_key(k) ==> is_registered(#[trigger] styles[k])
}

/// Processing files in any order, repeats included, comes to processing each
/// file once.
pub proof fn lemma_in_order_is_once<K>(
    raw: Seq<char>,
    styles: Map<K, CommentProfile>,
    files: Map<K, Seq<char>>,
    order: Seq<K>,
)
    requires
        all_registered(styles),
    ensures
        process_in_order(raw, styles, files, order) == processed_once(
            raw,
            styles,
            files,
            order.to_set(),
        ),
    decreases order.len(),
{
    if order.len() == 0 {
        assert(process_in_order(raw, styles, files, order) =~= processed_once(
            raw,
            styles,
            files,
            order.to_set(),
        ));
    } else {
        let front = order.drop_last();
        let k = order.last();
        lemma_in_order_is_once(raw, styles, files, front);
        let before = processed_once(raw, styles, files, front.to_set());
        let after = processed_once(raw, styles, files, order.to_set());
        assert forall|x: K| #[trigger] order.to_set().contains(x) <==> front.to_set().contains(x)
            || x == k by {
            if order.contains(x) && x != k {
                let i = choose|i: int| 0 <= i < order.len() && order[i] == x;
                assert(front[i] == x);
            }
            if front.contains(x) {
                let i = choose|i: int| 0 <= i < front.len() && front[i] == x;
                assert(order[i] == x);
            }
            if x == k {
                assert(order[order.len() - 1] == x);
            }
        }
        if files.contains_key(k) && styles.contains_key(k) {
            lemma_idempotent(raw, styles[k], files[k]);
        }
        assert(process_one(raw, styles, before, k) =~= after);
    }
}

/// Processing the same files in two orders, such as the orders that one
/// worker and a pool of workers come to, leaves the same contents.
pub proof fn lemma_order_independent<K>(
    raw: Seq<char>,
    styles: Map<K, CommentProfile>,
    files: Map<K, Seq<char>>,
    a: Seq<K>,
    b: Seq<K>,
)
    requires
        all_registered(styles),
        a.to_set() == b.to_set(),
    ensures
        process_in_order(raw, styles, files, a) == process_in_order(raw, styles, files, b),
{
    lemma_in_order_is_once(raw, styles, files, a);
    lemma_in_order_is_once(raw, styles, files, b);
}

} // verus!
