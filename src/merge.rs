//! Splicing a managed block into the existing text of a startup file.
use vstd::prelude::*;
use vstd::string::StringExecFns;
use crate::dialect::{
    alias_line, begin_marker_of, block_body, end_marker_of, lemma_alias_line_free_of,
    lemma_marker_shape, render_block, ShellType,
};
use crate::store::valid_name_chars;
use crate::text::{
    chars_of, contains, find, find_exec, lemma_find_first, lemma_find_from_occurs, lemma_occurs_char,
    lemma_occurs_in_prefix, lemma_occurs_in_suffix, occurs_at, push_char, push_range,
};

verus! {

/// `s` with every trailing newline removed.
pub open spec fn trim_trailing_newlines(s: Seq<char>) -> Seq<char>
    decreases s.len(),
{
    if s.len() > 0 && s.last() == '\n' {
        trim_trailing_newlines(s.drop_last())
    } else {
        s
    }
}

/// Both markers are found and the begin marker comes no later than the end marker.
pub open spec fn has_block(content: Seq<char>, begin: Seq<char>, end: Seq<char>) -> bool {
    &&& find(content, begin) is Some
    &&& find(content, end) is Some
    &&& find(content, begin)->0 <= find(content, end)->0
}

/// Where the line that holds position `p` starts: just after the last
/// newline before `p`, or at 0.
pub open spec fn line_start(s: Seq<char>, p: int) -> int
    decreases p,
{
    if p <= 0 {
        0
    } else if s[p - 1] == '\n' {
        p
    } else {
        line_start(s, p - 1)
    }
}

/// Where the line that holds position `p` ends: at the first newline from
/// `p` on (the newline itself excluded), or at the end of the text.
pub open spec fn line_end(s: Seq<char>, p: int) -> int
    decreases s.len() - p,
{
    if p < 0 || p >= s.len() {
        s.len() as int
    } else if s[p] == '\n' {
        p
    } else {
        line_end(s, p + 1)
    }
}

/// A line starts no later than `p`, at 0 or just after a newline, and no
/// newline lies between its start and `p`.
pub proof fn lemma_line_start(s: Seq<char>, p: int)
    requires
        0 <= p <= s.len(),
    ensures
        0 <= line_start(s, p) <= p,
        line_start(s, p) == 0 || s[line_start(s, p) - 1] == '\n',
        forall|k: int| line_start(s, p) <= k < p ==> s[k] != '\n',
    decreases p,
{
    if p > 0 && s[p - 1] != '\n' {
        lemma_line_start(s, p - 1);
    }
}

/// A line ends no earlier than `p`, at the end of the text or at a newline,
/// and no newline lies between `p` and its end.
pub proof fn lemma_line_end(s: Seq<char>, p: int)
    requires
        0 <= p <= s.len(),
    ensures
        p <= line_end(s, p) <= s.len(),
        line_end(s, p) == s.len() || s[line_end(s, p)] == '\n',
        forall|k: int| p <= k < line_end(s, p) ==> s[k] != '\n',
    decreases s.len() - p,
{
    if p < s.len() && s[p] != '\n' {
        lemma_line_end(s, p + 1);
    }
}

/// The line that holds `p` ends at `q` when `q` is the first newline from `p` on.
pub proof fn lemma_line_end_at(s: Seq<char>, p: int, q: int)
    requires
        0 <= p <= q < s.len(),
        s[q] == '\n',
        forall|k: int| p <= k < q ==> s[k] != '\n',
    ensures
        line_end(s, p) == q,
    decreases q - p,
{
    if p < q {
        lemma_line_end_at(s, p + 1, q);
    }
}

/// The text before the begin marker's line.
pub open spec fn text_before(content: Seq<char>, begin: Seq<char>) -> Seq<char> {
    content.subrange(0, line_start(content, find(content, begin)->0))
}

/// The text before the begin marker's line, trailing newlines removed, then
/// one newline if anything is left.
pub open spec fn head_before(content: Seq<char>, begin: Seq<char>) -> Seq<char> {
    let kept = trim_trailing_newlines(text_before(content, begin));
    if kept.len() > 0 { kept.push('\n') } else { kept }
}

/// The text after the end marker's line, from the newline that ends it.
pub open spec fn tail_after(content: Seq<char>, end: Seq<char>) -> Seq<char> {
    content.subrange(line_end(content, find(content, end)->0), content.len() as int)
}

/// The content, ended by a newline and followed by a blank line when it is
/// not empty.
pub open spec fn append_base(content: Seq<char>) -> Seq<char> {
    if content.len() == 0 {
        content
    } else if content.last() == '\n' {
        content.push('\n')
    } else {
        content.push('\n').push('\n')
    }
}

/// What merging `block` into `content` yields.
pub open spec fn merged(content: Seq<char>, begin: Seq<char>, end: Seq<char>, block: Seq<char>) -> Seq<char> {
    if has_block(content, begin, end) {
        head_before(content, begin) + block + tail_after(content, end)
    } else {
        append_base(content) + block + seq!['\n']
    }
}

/// Replaces the lines from the one holding the first begin marker through
/// the one holding the first end marker with `new_block`, or appends the
/// block when no such span exists.
pub fn replace_or_append_block(content: &str, begin_marker: &str, end_marker: &str, new_block: &str) -> (r: String)
    ensures
        r@ == merged(content@, begin_marker@, end_marker@, new_block@),
{
    let c = chars_of(content);
    let b = chars_of(begin_marker);
    let e = chars_of(end_marker);
    let bpos = find_exec(&c, &b);
    let epos = find_exec(&c, &e);
    proof {
        lemma_find_from_occurs(c@, b@, 0);
        lemma_find_from_occurs(c@, e@, 0);
    }
    if let (Some(bp), Some(ep)) = (bpos, epos) {
        if bp <= ep {
            let mut ls: usize = bp;
            while ls > 0 && c[ls - 1] != '\n'
                invariant
                    ls <= bp <= c.len(),
                    line_start(c@, bp as int) == line_start(c@, ls as int),
                decreases ls,
            {
                ls -= 1;
            }
            let mut le: usize = ep;
            while le < c.len() && c[le] != '\n'
                invariant
                    ep <= le <= c.len(),
                    line_end(c@, ep as int) == line_end(c@, le as int),
                decreases c.len() - le,
            {
                le += 1;
            }
            let mut k: usize = ls;
            while k > 0 && c[k - 1] == '\n'
                invariant
                    k <= ls <= c.len(),
                    trim_trailing_newlines(c@.subrange(0, ls as int))
                        == trim_trailing_newlines(c@.subrange(0, k as int)),
                decreases k,
            {
                assert(c@.subrange(0, k as int).drop_last() =~= c@.subrange(0, k - 1));
                k -= 1;
            }
            let mut out = String::new();
            push_range(&mut out, &c, 0, k);
            if k > 0 {
                push_char(&mut out, '\n');
            }
            out.append(new_block);
            push_range(&mut out, &c, le, c.len());
            return out;
        }
    }
    let mut out = String::new();
    push_range(&mut out, &c, 0, c.len());
    assert(c@.subrange(0, c.len() as int) =~= c@);
    if c.len() > 0 {
        if c[c.len() - 1] != '\n' {
            push_char(&mut out, '\n');
        }
        push_char(&mut out, '\n');
    }
    out.append(new_block);
    push_char(&mut out, '\n');
    out
}

} // verus!

verus! {

/// The new text of a startup file: the block for `aliases` in dialect `d`,
/// merged into the file's current text `existing`.
pub fn updated_config_content(d: ShellType, aliases: &Vec<(String, String)>, existing: &str) -> (r: String)
    ensures
        r@ == merged(existing@, begin_marker_of(d), end_marker_of(d), render_block(d, aliases@)),
{
    let block = d.generate_alias_block(aliases);
    let begin = d.begin_marker();
    let end = d.end_marker();
    replace_or_append_block(existing, begin.as_str(), end.as_str(), block.as_str())
}

} // verus!

verus! {

/// The markers are not empty, the end marker holds no newline, and the
/// begin marker does not hold the end marker.
pub proof fn lemma_marker_facts(d: ShellType)
    ensures
        begin_marker_of(d).len() > 0,
        end_marker_of(d).len() > 0,
        !end_marker_of(d).contains('\n'),
        !contains(begin_marker_of(d), end_marker_of(d)),
{
    reveal_strlit("#");
    reveal_strlit(" BEGIN akash aliases");
    reveal_strlit(" END akash aliases");
    let b = begin_marker_of(d);
    let e = end_marker_of(d);
    assert(e =~= seq!['#', ' ', 'E', 'N', 'D', ' ', 'a', 'k', 'a', 's', 'h', ' ', 'a', 'l', 'i', 'a', 's', 'e', 's']);
    assert(b =~= seq!['#', ' ', 'B', 'E', 'G', 'I', 'N', ' ', 'a', 'k', 'a', 's', 'h', ' ', 'a', 'l', 'i', 'a', 's', 'e', 's']);
    assert forall|q: int| !occurs_at(b, e, q) by {
        if occurs_at(b, e, q) {
            lemma_occurs_char(b, e, q, q);
            lemma_occurs_char(b, e, q, q + 2);
        }
    }
}

/// When no alias line holds `e`, a newline-free pattern, neither does the
/// body of the block; a body that is not empty ends with a newline.
proof fn lemma_body_free_of(d: ShellType, entries: Seq<(String, String)>, e: Seq<char>)
    requires
        e.len() > 0,
        !e.contains('\n'),
        forall|i: int| 0 <= i < entries.len() ==> !contains(
            alias_line(d, (#[trigger] entries[i]).0@, entries[i].1@),
            e,
        ),
    ensures
        !contains(block_body(d, entries), e),
        block_body(d, entries).len() > 0 ==> block_body(d, entries).last() == '\n',
    decreases entries.len(),
{
    if entries.len() > 0 {
        let init = entries.drop_last();
        assert forall|i: int| 0 <= i < init.len() implies !contains(
            alias_line(d, (#[trigger] init[i]).0@, init[i].1@),
            e,
        ) by {
            assert(init[i] == entries[i]);
        }
        lemma_body_free_of(d, init, e);
        let bi = block_body(d, init);
        let last = entries[entries.len() - 1];
        let line = alias_line(d, last.0@, last.1@);
        let body = block_body(d, entries);
        assert(body == bi + line + seq!['\n']);
        assert forall|q: int| !occurs_at(body, e, q) by {
            if occurs_at(body, e, q) {
                if q + e.len() > bi.len() + line.len() {
                    lemma_occurs_char(body, e, q, body.len() - 1);
                    assert(e[body.len() - 1 - q] == '\n');
                } else {
                    lemma_occurs_in_prefix(bi + line, seq!['\n'], e, q);
                    if q >= bi.len() {
                        lemma_occurs_in_suffix(bi, line, e, q);
                        assert(!contains(line, e));
                    } else if q + e.len() <= bi.len() {
                        lemma_occurs_in_prefix(bi, line, e, q);
                    } else {
                        lemma_occurs_char(bi + line, e, q, bi.len() - 1);
                        assert(e[bi.len() - 1 - q] == '\n');
                    }
                }
            }
        }
    }
}

/// Merging a block into an empty file and then merging the same block
/// again changes nothing, for every dialect and every alias list whose names
/// are made of ASCII letters, digits, `_` and `-` and whose commands do not
/// hold the end marker.
pub proof fn lemma_merge_idempotent(d: ShellType, aliases: Seq<(String, String)>)
    requires
        forall|i: int| 0 <= i < aliases.len() ==> valid_name_chars((#[trigger] aliases[i]).0@),
        forall|i: int| 0 <= i < aliases.len() ==> !contains((#[trigger] aliases[i]).1@, end_marker_of(d)),
    ensures
        merged(
            merged(Seq::empty(), begin_marker_of(d), end_marker_of(d), render_block(d, aliases)),
            begin_marker_of(d),
            end_marker_of(d),
            render_block(d, aliases),
        ) == merged(Seq::empty(), begin_marker_of(d), end_marker_of(d), render_block(d, aliases)),
{
    lemma_marker_shape(d);
    assert forall|i: int| 0 <= i < aliases.len() implies !contains(
        alias_line(d, (#[trigger] aliases[i]).0@, aliases[i].1@),
        end_marker_of(d),
    ) by {
        lemma_alias_line_free_of(d, aliases[i].0@, aliases[i].1@, end_marker_of(d));
    }
    lemma_marker_facts(d);
    let b = begin_marker_of(d);
    let e = end_marker_of(d);
    let blk = render_block(d, aliases);
    let body = block_body(d, aliases);
    let s0 = Seq::<char>::empty();
    assert(find(s0, b) is None);
    assert(s0 + blk + seq!['\n'] =~= blk + seq!['\n']);
    let s = blk + seq!['\n'];
    assert(merged(s0, b, e, blk) == s);
    assert(s.subrange(0, b.len() as int) =~= b);
    assert(find(s, b) == Some(0int));
    let k = blk.len() - e.len();
    assert(s.subrange(k, k + e.len()) =~= e);
    lemma_body_free_of(d, aliases, e);
    let nb = b + seq!['\n'];
    let rest = body + e + seq!['\n'];
    assert(s =~= nb + rest);
    assert(s =~= b + (seq!['\n'] + rest));
    assert(rest =~= body + (e + seq!['\n']));
    assert forall|q: int| 0 <= q < k implies !occurs_at(s, e, q) by {
        if occurs_at(s, e, q) {
            if q + e.len() <= b.len() {
                lemma_occurs_in_prefix(b, seq!['\n'] + rest, e, q);
            } else if q <= b.len() {
                lemma_occurs_char(s, e, q, b.len() as int);
                assert(e[b.len() - q] == '\n');
            } else {
                lemma_occurs_in_suffix(nb, rest, e, q);
                let q2 = q - nb.len();
                if q2 + e.len() <= body.len() {
                    lemma_occurs_in_prefix(body, e + seq!['\n'], e, q2);
                } else {
                    lemma_occurs_char(rest, e, q2, body.len() - 1);
                    assert(e[body.len() - 1 - q2] == '\n');
                }
            }
        }
    }
    lemma_find_first(s, e, 0, k);
    assert forall|j: int| k <= j < blk.len() implies s[j] != '\n' by {
        lemma_occurs_char(s, e, k, j);
    }
    lemma_line_end_at(s, k, blk.len() as int);
    assert(line_start(s, 0) == 0);
    assert(s.subrange(0, 0) =~= Seq::<char>::empty());
    assert(head_before(s, b) =~= Seq::<char>::empty());
    assert(tail_after(s, e) =~= seq!['\n']);
    assert(head_before(s, b) + blk + tail_after(s, e) =~= s);
}

} // verus!

verus! {

/// Trimming drops only newlines, and only from the end.
pub proof fn lemma_trim_drops_newlines(s: Seq<char>)
    ensures
        trim_trailing_newlines(s).len() <= s.len(),
        s.subrange(0, trim_trailing_newlines(s).len() as int) == trim_trailing_newlines(s),
        forall|k: int| trim_trailing_newlines(s).len() <= k < s.len() ==> s[k] == '\n',
    decreases s.len(),
{
    if s.len() > 0 && s.last() == '\n' {
        let t = trim_trailing_newlines(s);
        lemma_trim_drops_newlines(s.drop_last());
        assert(s.subrange(0, t.len() as int) =~= s.drop_last().subrange(0, t.len() as int));
        assert forall|k: int| t.len() <= k < s.len() implies s[k] == '\n' by {
            if k < s.len() - 1 {
                assert(s[k] == s.drop_last()[k]);
            }
        }
    } else {
        assert(s.subrange(0, s.len() as int) =~= s);
    }
}

/// For every text that holds the markers, merging replaces whole lines: it
/// keeps the text before the begin marker's line (less the blank lines that
/// end it) and the text from the newline that ends the end marker's line
/// exactly, with the new block between them.
pub proof fn lemma_merge_preserves_outside(
    content: Seq<char>,
    begin: Seq<char>,
    end: Seq<char>,
    block: Seq<char>,
)
    requires
        has_block(content, begin, end),
    ensures
        line_start(content, find(content, begin)->0) == 0 || content[line_start(
            content,
            find(content, begin)->0,
        ) - 1] == '\n',
        line_end(content, find(content, end)->0) == content.len() || content[line_end(
            content,
            find(content, end)->0,
        )] == '\n',
        text_before(content, begin).subrange(
            0,
            trim_trailing_newlines(text_before(content, begin)).len() as int,
        ) == trim_trailing_newlines(text_before(content, begin)),
        forall|k: int|
            trim_trailing_newlines(text_before(content, begin)).len() <= k < text_before(
                content,
                begin,
            ).len() ==> text_before(content, begin)[k] == '\n',
        merged(content, begin, end, block).subrange(
            0,
            trim_trailing_newlines(text_before(content, begin)).len() as int,
        ) == trim_trailing_newlines(text_before(content, begin)),
        merged(content, begin, end, block).subrange(
            merged(content, begin, end, block).len() - tail_after(content, end).len(),
            merged(content, begin, end, block).len() as int,
        ) == tail_after(content, end),
        merged(content, begin, end, block).subrange(
            merged(content, begin, end, block).len() - tail_after(content, end).len()
                - block.len(),
            merged(content, begin, end, block).len() - tail_after(content, end).len(),
        ) == block,
{
    lemma_find_from_occurs(content, begin, 0);
    lemma_find_from_occurs(content, end, 0);
    lemma_line_start(content, find(content, begin)->0);
    lemma_line_end(content, find(content, end)->0);
    let before = text_before(content, begin);
    lemma_trim_drops_newlines(before);
    let kept = trim_trailing_newlines(before);
    let head = head_before(content, begin);
    let after = tail_after(content, end);
    let r = merged(content, begin, end, block);
    assert(r == head + block + after);
    assert(r.subrange(0, kept.len() as int) =~= kept);
    assert(r.subrange(r.len() - after.len(), r.len() as int) =~= after);
    assert(r.subrange(r.len() - after.len() - block.len(), r.len() - after.len()) =~= block);
}

/// An empty alias list renders just the two markers; merging that block into
/// text that holds a block puts the bare markers where the old block's lines
/// were, so both markers remain.
pub proof fn lemma_clear_keeps_markers(d: ShellType, content: Seq<char>)
    requires
        has_block(content, begin_marker_of(d), end_marker_of(d)),
    ensures
        render_block(d, Seq::empty()) == begin_marker_of(d) + seq!['\n'] + end_marker_of(d),
        merged(content, begin_marker_of(d), end_marker_of(d), render_block(d, Seq::empty()))
            == head_before(content, begin_marker_of(d)) + begin_marker_of(d) + seq!['\n']
            + end_marker_of(d) + tail_after(content, end_marker_of(d)),
        contains(
            merged(content, begin_marker_of(d), end_marker_of(d), render_block(d, Seq::empty())),
            begin_marker_of(d),
        ),
        contains(
            merged(content, begin_marker_of(d), end_marker_of(d), render_block(d, Seq::empty())),
            end_marker_of(d),
        ),
{
    let b = begin_marker_of(d);
    let e = end_marker_of(d);
    let blk = render_block(d, Seq::empty());
    assert(blk =~= b + seq!['\n'] + e);
    let head = head_before(content, b);
    let r = merged(content, b, e, blk);
    assert(r =~= head + b + seq!['\n'] + e + tail_after(content, e));
    let pb = head.len() as int;
    let pe = (head.len() + b.len() + 1) as int;
    assert(r.subrange(pb, pb + b.len()) =~= b);
    assert(r.subrange(pe, pe + e.len()) =~= e);
    assert(occurs_at(r, b, pb));
    assert(occurs_at(r, e, pe));
}

} // verus!
