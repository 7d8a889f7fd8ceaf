//! What holds of the editing operations together: what is written into a
//! section can be read from it again, what is removed is gone, and a text
//! ends as it ended before.

use crate::block::{block_lines, body_lines, indent_line, lemma_without_trailing_newlines,
    without_trailing_newlines};
use crate::error::EditErrorView;
use crate::extract::extracted;
use crate::insert::{inserted, lines_with_block_after, lines_with_block_before};
use crate::markers::{all_whitespace, anchor_end, anchor_start, begin_marker, dedent, dedent_all,
    end_marker, has_anchor, has_section, indent_of, insert_marker, is_marker_line, lemma_anchor,
    lemma_first_marker_line, lemma_first_marker_line_is, lemma_indent_len_is, lemma_indent_of,
    lemma_indented_marker, lemma_marker_line_end, lemma_marker_shape, lemma_trim_indented,
    section_end, section_in, section_of, section_start, trim_start};
use crate::remove::{lines_outside, lines_without, removed};
use crate::text::{ends_with_cr, joined, lemma_last_line, lemma_lines_are_single,
    lemma_lines_of_joined, lemma_lines_single, lemma_lines_step, lemma_lines_terminated,
    lemma_reread_prefix, lemma_split_then_join, lemma_without_cr_all, lines_of,
    no_cr_before_break, no_trailing_cr, single_line, single_lines, without_cr};
use crate::trim::{lemma_empty_line_is_unmarked, lemma_unmarked, lemma_unmarked_keeps,
    marker_prefixed, trimmed, unmarked};
use crate::update::{lines_with_body, updated};
use crate::upsert::upserted;
use crate::utils::{ends_with_newline, last_line_is_blank, lemma_read_back, lemma_rendered_end,
    read_back, rendered, survives_rendering};
use crate::wrap::wrapped;
use vstd::prelude::*;

verus! {

/// Whether no line of `s` is the end marker of `id`, indented or not.
pub open spec fn free_of_end_marker(s: Seq<char>, id: Seq<char>) -> bool {
    forall|i: int|
        0 <= i < lines_of(s).len() ==> !is_marker_line(#[trigger] lines_of(s)[i], end_marker(id))
}

/// The lines of content that can be read back as they were written: those of
/// the content itself, or one empty line for empty content.
pub open spec fn content_lines(s: Seq<char>) -> Seq<Seq<char>> {
    if s.len() == 0 {
        seq![Seq::<char>::empty()]
    } else {
        lines_of(s)
    }
}

/// Content that ends with no line feed and holds no carriage return before a
/// line feed or at its end has lines that join to it again; none of them
/// ends with a carriage return or holds a line feed.
pub proof fn lemma_content_lines(s: Seq<char>)
    requires
        no_cr_before_break(s),
        s.len() > 0 ==> s.last() != '\n',
    ensures
        content_lines(s).len() > 0,
        joined(content_lines(s)) == s,
        no_trailing_cr(content_lines(s)),
        single_lines(content_lines(s)),
{
    if s.len() == 0 {
        let e = Seq::<char>::empty();
        assert(seq![e].len() == 1 && seq![e][0] == e);
        assert(joined(seq![e]) == e);
        assert(s == e);
    } else {
        assert(s.last() != '\r') by {
            if s.last() == '\r' {
                assert(s[s.len() - 1] == '\r');
            }
        }
        lemma_split_then_join(s);
        lemma_lines_terminated(s);
        lemma_lines_are_single(s);
    }
}

/// Taking an empty indent off each line changes no line.
pub proof fn lemma_dedent_nothing(ls: Seq<Seq<char>>)
    ensures
        dedent_all(ls, Seq::<char>::empty()) == ls,
{
    let e = Seq::<char>::empty();
    assert forall|i: int| 0 <= i < ls.len() implies dedent(#[trigger] ls[i], e) == ls[i] by {
        assert(ls[i].skip(0) == ls[i]);
        assert(ls[i].subrange(0, 0) =~= e);
    }
    assert(dedent_all(ls, e) =~= ls);
}

/// Content that is wrapped into a section can be extracted from the result:
/// what comes back is the content without its trailing line feeds. This
/// holds where the identifier holds no line feed, where the content, without
/// its trailing line feeds, holds no carriage return before a line feed or
/// at its end, and where none of its lines is the end marker of the
/// identifier.
pub proof fn theorem_extract_wrapped(content: Seq<char>, id: Seq<char>)
    requires
        single_line(id),
        no_cr_before_break(without_trailing_newlines(content)),
        free_of_end_marker(without_trailing_newlines(content), id),
    ensures
        extracted(wrapped(content, id), id) == Ok::<Seq<char>, EditErrorView>(
            without_trailing_newlines(content),
        ),
{
    let inner = without_trailing_newlines(content);
    let begin = begin_marker(id);
    let end = end_marker(id);
    let nl = seq!['\n'];
    let e = Seq::<char>::empty();
    let text = wrapped(content, id);
    let body = content_lines(inner);
    lemma_without_trailing_newlines(content);
    lemma_content_lines(inner);
    lemma_marker_shape(id);
    // the lines of the text: the begin marker, the content's lines, the end marker
    assert(text == begin + nl + (inner + nl + end));
    lemma_lines_step(begin, inner + nl + end);
    lemma_lines_of_joined(body, end);
    lemma_without_cr_all(body);
    lemma_lines_single(end);
    let ls = seq![begin] + body + seq![end];
    assert(lines_of(text) == ls) by {
        assert(without_cr(begin) == begin);
        assert(seq![begin] + (body + seq![end]) == ls);
    }
    // the section is found around the content's lines
    lemma_indented_marker(e, begin);
    lemma_indented_marker(e, end);
    assert(e + begin == begin);
    assert(e + end == end);
    let n = body.len() as int;
    lemma_first_marker_line_is(ls, begin, 0, 0);
    assert forall|j: int| 1 <= j < n + 1 implies !is_marker_line(#[trigger] ls[j], end) by {
        assert(ls[j] == body[j - 1]);
        if inner.len() == 0 {
            lemma_indent_len_is(e, 0);
            assert(body[j - 1] == e);
            assert(trim_start(e).len() == 0);
        } else {
            assert(body[j - 1] == lines_of(inner)[j - 1]);
        }
    }
    assert(ls[n + 1] == end);
    lemma_first_marker_line_is(ls, end, 1, n + 1);
    assert(section_start(ls, id) == 0);
    assert(section_end(ls, id) == n + 1);
    assert(has_section(ls, id));
    assert(ls.subrange(1, n + 1) == body);
    assert(indent_of(ls[0]) == e);
    lemma_dedent_nothing(body);
}

/// An indented line, with the indent taken off again, is the line.
pub proof fn lemma_dedent_indented(l: Seq<char>, indent: Seq<char>)
    ensures
        dedent(indent_line(l, indent), indent) == l,
{
    if l.len() == 0 {
        if indent.is_prefix_of(l) {
            assert(l.skip(indent.len() as int) =~= l);
        }
    } else {
        assert((indent + l).subrange(0, indent.len() as int) =~= indent);
        assert((indent + l).skip(indent.len() as int) =~= l);
    }
}

/// White space put in front of a line that is no marker does not make it
/// one.
pub proof fn lemma_indented_is_no_marker(l: Seq<char>, indent: Seq<char>, marker: Seq<char>)
    requires
        all_whitespace(indent),
        !is_marker_line(l, marker),
    ensures
        !is_marker_line(indent_line(l, indent), marker),
{
    if l.len() > 0 {
        lemma_trim_indented(indent, l);
    }
}

/// The lines that stand for `content` in a section: the lines of the content
/// without its trailing line feeds, each indented.
pub proof fn lemma_body_lines(content: Seq<char>, indent: Seq<char>)
    ensures
        body_lines(content, indent).len() == content_lines(
            without_trailing_newlines(content),
        ).len(),
        forall|j: int|
            0 <= j < body_lines(content, indent).len() ==> #[trigger] body_lines(content, indent)[j]
                == indent_line(content_lines(without_trailing_newlines(content))[j], indent),
{
    let inner = without_trailing_newlines(content);
    lemma_last_line(inner);
}

/// What an update writes into a section can be extracted from the result:
/// what comes back is the new content without its trailing line feeds. This
/// holds where no line before the section ends with a carriage return, where
/// the new content, without its trailing line feeds, holds no carriage
/// return before a line feed or at its end, and where none of its lines is
/// the end marker of the section.
pub proof fn theorem_extract_updated(text: Seq<char>, id: Seq<char>, content: Seq<char>)
    requires
        has_section(lines_of(text), id),
        no_trailing_cr(lines_of(text).take(section_start(lines_of(text), id))),
        no_cr_before_break(without_trailing_newlines(content)),
        free_of_end_marker(without_trailing_newlines(content), id),
    ensures
        updated(text, id, content) is Ok,
        extracted(updated(text, id, content)->Ok_0, id) == Ok::<Seq<char>, EditErrorView>(
            without_trailing_newlines(content),
        ),
{
    let ls = lines_of(text);
    let begin = begin_marker(id);
    let end = end_marker(id);
    let s = section_start(ls, id);
    let e = section_end(ls, id);
    let indent = indent_of(ls[s]);
    let inner = without_trailing_newlines(content);
    let plain = content_lines(inner);
    let body = body_lines(content, indent);
    let n = body.len() as int;
    let out = lines_with_body(ls, s, e, body);
    let result = rendered(out, text);
    lemma_marker_shape(id);
    lemma_first_marker_line(ls, begin, 0);
    lemma_first_marker_line(ls, end, s + 1);
    lemma_lines_are_single(text);
    lemma_without_trailing_newlines(content);
    lemma_content_lines(inner);
    lemma_body_lines(content, indent);
    lemma_indent_of(ls[s]);
    lemma_marker_line_end(ls[s], begin);
    lemma_marker_line_end(ls[e], end);
    assert(single_line(indent)) by {
        assert forall|j: int| 0 <= j < indent.len() implies indent[j] != '\n' by {
            assert(indent[j] == ls[s][j]);
        }
    }
    // what is written: the lines up to the end marker, then the rest
    let pre = ls.take(s + 1) + body + seq![ls[e]];
    let post = ls.skip(e + 1);
    assert(out == pre + post) by {
        assert(ls.skip(e) == seq![ls[e]] + post);
    }
    assert forall|i: int| 0 <= i < pre.len() implies single_line(#[trigger] pre[i])
        && !ends_with_cr(pre[i]) by {
        if i < s {
            assert(pre[i] == ls.take(s)[i]);
        } else if i == s {
            assert(pre[i] == ls[s]);
        } else if i < s + 1 + n {
            let j = i - s - 1;
            assert(pre[i] == body[j]);
            assert(body[j] == indent_line(plain[j], indent));
            assert(single_line(plain[j]));
        } else {
            assert(pre[i] == ls[e]);
        }
    }
    assert(pre.last() == ls[e]);
    lemma_reread_prefix(pre, post, ends_with_newline(text));
    lemma_without_cr_all(pre);
    let back = lines_of(result);
    assert(result == if ends_with_newline(text) {
        joined(pre + post) + seq!['\n']
    } else {
        joined(pre + post)
    });
    assert(pre.is_prefix_of(back));
    assert forall|i: int| 0 <= i < pre.len() implies back[i] == pre[i] by {
        assert(back.subrange(0, pre.len() as int)[i] == pre[i]);
    }
    // the section is found again, around the new lines
    assert forall|j: int| 0 <= j < s implies !is_marker_line(#[trigger] back[j], begin) by {
        assert(back[j] == pre[j]);
        assert(pre[j] == ls[j]);
    }
    assert(back[s] == ls[s]) by {
        assert(back[s] == pre[s]);
    }
    lemma_first_marker_line_is(back, begin, 0, s);
    assert forall|j: int| s + 1 <= j < s + 1 + n implies !is_marker_line(
        #[trigger] back[j],
        end,
    ) by {
        let k = j - s - 1;
        assert(back[j] == pre[j]);
        assert(pre[j] == body[k]);
        assert(body[k] == indent_line(plain[k], indent));
        if inner.len() == 0 {
            lemma_indent_len_is(Seq::<char>::empty(), 0);
            assert(plain[k] =~= Seq::<char>::empty());
            assert(trim_start(plain[k]).len() == 0);
        } else {
            assert(plain[k] == lines_of(inner)[k]);
        }
        lemma_indented_is_no_marker(plain[k], indent, end);
    }
    assert(back[s + 1 + n] == ls[e]) by {
        assert(back[s + 1 + n] == pre[s + 1 + n]);
    }
    lemma_first_marker_line_is(back, end, s + 1, s + 1 + n);
    assert(section_start(back, id) == s);
    assert(section_end(back, id) == s + 1 + n);
    assert(has_section(back, id));
    // and its content is the new content
    let between = back.subrange(s + 1, s + 1 + n);
    assert(dedent_all(between, indent) =~= plain) by {
        assert forall|k: int| 0 <= k < n implies dedent(#[trigger] between[k], indent)
            == plain[k] by {
            assert(between[k] == pre[s + 1 + k]);
            assert(pre[s + 1 + k] == body[k]);
            lemma_dedent_indented(plain[k], indent);
        }
    }
    assert(section_in(back, id)->0.content == inner);
}

/// A section of the first lines of a text is the section of the whole text.
pub proof fn lemma_section_of_prefix(x: Seq<Seq<char>>, y: Seq<Seq<char>>, id: Seq<char>)
    requires
        x.is_prefix_of(y),
        has_section(x, id),
    ensures
        has_section(y, id),
        section_start(y, id) == section_start(x, id),
        section_end(y, id) == section_end(x, id),
{
    let begin = begin_marker(id);
    let end = end_marker(id);
    lemma_first_marker_line(x, begin, 0);
    let s = section_start(x, id);
    lemma_first_marker_line(x, end, s + 1);
    let e = section_end(x, id);
    assert forall|j: int| 0 <= j < x.len() implies x[j] == y[j] by {
        assert(y.subrange(0, x.len() as int)[j] == y[j]);
    }
    lemma_first_marker_line_is(y, begin, 0, s);
    lemma_first_marker_line_is(y, end, s + 1, e);
}

/// Lines among which an empty line is the only one hold no section.
pub proof fn lemma_no_section_in_blank(id: Seq<char>)
    ensures
        !has_section(seq![Seq::<char>::empty()], id),
{
    let blank = seq![Seq::<char>::empty()];
    lemma_marker_shape(id);
    lemma_indent_len_is(Seq::<char>::empty(), 0);
    lemma_first_marker_line(blank, begin_marker(id), 0);
    lemma_first_marker_line(blank, end_marker(id), section_start(blank, id) + 1);
    assert(trim_start(blank[0]).len() == 0);
}

/// Where no further section `id` follows the section `id`, the lines without
/// that section hold no section `id`.
pub proof fn lemma_no_section_left(ls: Seq<Seq<char>>, id: Seq<char>)
    requires
        has_section(ls, id),
        !has_section(ls.skip(section_end(ls, id) + 1), id),
    ensures
        !has_section(lines_without(ls, section_start(ls, id), section_end(ls, id)), id),
{
    let begin = begin_marker(id);
    let end = end_marker(id);
    let s = section_start(ls, id);
    let e = section_end(ls, id);
    let out = lines_without(ls, s, e);
    let tail = ls.skip(e + 1);
    lemma_first_marker_line(ls, begin, 0);
    lemma_first_marker_line(ls, end, s + 1);
    if has_section(out, id) {
        let b2 = section_start(out, id);
        let e2 = section_end(out, id);
        lemma_first_marker_line(out, begin, 0);
        lemma_first_marker_line(out, end, b2 + 1);
        assert(b2 >= s) by {
            if b2 < s {
                assert(out[b2] == ls[b2]);
            }
        }
        assert forall|j: int| 0 <= j < tail.len() implies #[trigger] tail[j] == out[s + j] by {}
        lemma_first_marker_line_is(tail, begin, 0, b2 - s);
        lemma_first_marker_line_is(tail, end, b2 - s + 1, e2 - s);
        assert(has_section(tail, id));
    }
}

/// After a section was removed, looking it up fails. This holds where no
/// further section with the same identifier follows the one that is
/// removed, and where no line that stays ends with a carriage return that a
/// line feed would follow.
pub proof fn theorem_lookup_removed(text: Seq<char>, id: Seq<char>)
    requires
        has_section(lines_of(text), id),
        !has_section(lines_of(text).skip(section_end(lines_of(text), id) + 1), id),
        survives_rendering(lines_outside(text, id), text),
    ensures
        removed(text, id) is Ok,
        section_of(removed(text, id)->Ok_0, id) is None,
        extracted(removed(text, id)->Ok_0, id) == Err::<Seq<char>, EditErrorView>(
            EditErrorView::SectionNotFound { id },
        ),
{
    let ls = lines_of(text);
    let s = section_start(ls, id);
    let e = section_end(ls, id);
    let out = lines_without(ls, s, e);
    let result = rendered(out, text);
    lemma_first_marker_line(ls, begin_marker(id), 0);
    lemma_first_marker_line(ls, end_marker(id), s + 1);
    lemma_lines_are_single(text);
    assert(single_lines(out)) by {
        assert forall|i: int| 0 <= i < out.len() implies single_line(#[trigger] out[i]) by {
            if i < s {
                assert(out[i] == ls[i]);
            } else {
                assert(out[i] == ls[i - s + e + 1]);
            }
        }
    }
    lemma_read_back(out, text);
    lemma_no_section_left(ls, id);
    lemma_no_section_in_blank(id);
    let back = lines_of(result);
    if has_section(back, id) {
        assert(back.is_prefix_of(out));
        lemma_section_of_prefix(back, out, id);
    }
}

/// Trimming a trimmed text changes nothing. This holds where no line that
/// the first trimming keeps ends with a carriage return that a line feed
/// would follow.
pub proof fn theorem_trim_twice(text: Seq<char>)
    requires
        survives_rendering(unmarked(lines_of(text)), text),
    ensures
        trimmed(trimmed(text)) == trimmed(text),
{
    let ls = lines_of(text);
    let kept = unmarked(ls);
    let once = trimmed(text);
    let back = lines_of(once);
    let e = Seq::<char>::empty();
    lemma_lines_are_single(text);
    lemma_unmarked(ls);
    lemma_read_back(kept, text);
    lemma_empty_line_is_unmarked();
    assert(back == read_back(kept, text));
    assert forall|i: int| 0 <= i < back.len() implies !marker_prefixed(#[trigger] back[i]) by {
        if ends_with_newline(text) && kept.len() == 0 {
            assert(back[i] == e);
        } else {
            assert(back[i] == kept[i]);
        }
    }
    lemma_unmarked_keeps(back);
    if kept.len() > 0 {
        assert(single_line(kept.last()));
    }
    lemma_rendered_end(kept, text);
    if ends_with_newline(text) {
        if kept.len() == 0 {
            assert(joined(kept) == e);
            assert(joined(seq![e]) == e);
        }
    } else if kept.len() > 0 && kept.last().len() == 0 {
        let init = kept.drop_last();
        if init.len() == 0 {
            assert(joined(kept) == kept[0]);
            assert(once =~= e);
            assert(joined(init) == e);
        } else {
            assert(joined(kept) == joined(init) + seq!['\n'] + kept.last());
            assert(once =~= joined(init) + seq!['\n']);
        }
    }
}

/// The lines of a text: there are some unless the text is empty, none holds
/// a line feed, and the last is not empty where the text ends without a line
/// feed.
pub proof fn lemma_lines_of_text(text: Seq<char>)
    ensures
        single_lines(lines_of(text)),
        lines_of(text).len() == 0 <==> text.len() == 0,
        lines_of(text).len() > 0 && !ends_with_newline(text) ==> lines_of(text).last().len() > 0,
{
    lemma_lines_are_single(text);
    lemma_last_line(text);
}

/// An update leaves the end of the text as it is: the result ends with a
/// line feed exactly if the text does.
pub proof fn theorem_update_keeps_final_newline(text: Seq<char>, id: Seq<char>, content: Seq<char>)
    requires
        updated(text, id, content) is Ok,
    ensures
        ends_with_newline(updated(text, id, content)->Ok_0) == ends_with_newline(text),
{
    let ls = lines_of(text);
    let s = section_start(ls, id);
    let e = section_end(ls, id);
    let out = lines_with_body(ls, s, e, body_lines(content, indent_of(ls[s])));
    lemma_first_marker_line(ls, begin_marker(id), 0);
    lemma_first_marker_line(ls, end_marker(id), s + 1);
    lemma_lines_of_text(text);
    assert(out.last() == ls.last());
    assert(single_line(ls.last()));
    lemma_rendered_end(out, text);
}

/// An insertion leaves the end of the text as it is: the result ends with a
/// line feed exactly if the text does.
pub proof fn theorem_insert_keeps_final_newline(
    text: Seq<char>,
    id: Seq<char>,
    content: Seq<char>,
    before: Option<Seq<char>>,
    after: Option<Seq<char>>,
)
    requires
        inserted(text, id, content, before, after) is Ok,
    ensures
        ends_with_newline(inserted(text, id, content, before, after)->Ok_0) == ends_with_newline(
            text,
        ),
{
    let ls = lines_of(text);
    let anchor = if before is Some {
        before->0
    } else {
        after->0
    };
    let start = anchor_start(ls, anchor);
    let end = anchor_end(ls, anchor);
    let indent = indent_of(ls[start]);
    let block = block_lines(id, content, indent);
    lemma_anchor(ls, anchor);
    lemma_lines_of_text(text);
    lemma_marker_shape(id);
    assert(single_line(ls.last()));
    let closing = indent + end_marker(id);
    assert(block.last() == closing);
    assert(closing.last() == '>');
    if before is Some {
        let out = lines_with_block_before(ls, start, block);
        assert(out.last() == ls.last());
        lemma_rendered_end(out, text);
    } else {
        let out = lines_with_block_after(ls, end, block);
        if end + 1 < ls.len() {
            assert(out.last() == ls.last());
        } else {
            assert(out.last() == block.last());
        }
        lemma_rendered_end(out, text);
    }
}

/// An upsert leaves the end of the text as it is: the result ends with a
/// line feed exactly if the text does.
pub proof fn theorem_upsert_keeps_final_newline(
    text: Seq<char>,
    id: Seq<char>,
    content: Seq<char>,
    before: Option<Seq<char>>,
    after: Option<Seq<char>>,
)
    requires
        upserted(text, id, content, before, after) is Ok,
    ensures
        ends_with_newline(upserted(text, id, content, before, after)->Ok_0) == ends_with_newline(
            text,
        ),
{
    if has_section(lines_of(text), id) {
        theorem_update_keeps_final_newline(text, id, content);
    } else {
        theorem_insert_keeps_final_newline(text, id, content, before, after);
    }
}

/// A removal leaves the end of the text as it is: the result ends with a
/// line feed exactly if the text does. This holds unless the text ends
/// without a line feed and an empty line is the last of several that stay.
pub proof fn theorem_remove_keeps_final_newline(text: Seq<char>, id: Seq<char>)
    requires
        removed(text, id) is Ok,
        ends_with_newline(text) || !last_line_is_blank(lines_outside(text, id)),
    ensures
        ends_with_newline(removed(text, id)->Ok_0) == ends_with_newline(text),
{
    let ls = lines_of(text);
    let s = section_start(ls, id);
    let e = section_end(ls, id);
    let out = lines_without(ls, s, e);
    lemma_first_marker_line(ls, begin_marker(id), 0);
    lemma_first_marker_line(ls, end_marker(id), s + 1);
    lemma_lines_of_text(text);
    if out.len() > 0 {
        if e + 1 < ls.len() {
            assert(out.last() == ls.last());
        } else {
            assert(out.last() == ls[s - 1]);
        }
        assert(single_line(out.last()));
    }
    lemma_rendered_end(out, text);
}

/// Trimming leaves the end of the text as it is: the result ends with a line
/// feed exactly if the text does. This holds unless the text ends without a
/// line feed and an empty line is the last of several that stay.
pub proof fn theorem_trim_keeps_final_newline(text: Seq<char>)
    requires
        ends_with_newline(text) || !last_line_is_blank(unmarked(lines_of(text))),
    ensures
        ends_with_newline(trimmed(text)) == ends_with_newline(text),
{
    let kept = unmarked(lines_of(text));
    lemma_lines_of_text(text);
    lemma_unmarked(lines_of(text));
    if kept.len() > 0 {
        assert(single_line(kept.last()));
    }
    lemma_rendered_end(kept, text);
}

/// The lines of a new section hold no line feed and end with no carriage
/// return, where the identifier and the indent hold no line feed and the
/// content, without its trailing line feeds, holds no carriage return before
/// a line feed or at its end.
pub proof fn lemma_block_lines(id: Seq<char>, content: Seq<char>, indent: Seq<char>)
    requires
        single_line(id),
        single_line(indent),
        no_cr_before_break(without_trailing_newlines(content)),
    ensures
        block_lines(id, content, indent).len() >= 3,
        single_lines(block_lines(id, content, indent)),
        no_trailing_cr(block_lines(id, content, indent)),
        block_lines(id, content, indent).last().len() > 0,
{
    let inner = without_trailing_newlines(content);
    let plain = content_lines(inner);
    let body = body_lines(content, indent);
    let block = block_lines(id, content, indent);
    let n = body.len() as int;
    lemma_marker_shape(id);
    lemma_without_trailing_newlines(content);
    lemma_content_lines(inner);
    lemma_body_lines(content, indent);
    assert forall|i: int| 0 <= i < block.len() implies single_line(#[trigger] block[i])
        && !ends_with_cr(block[i]) by {
        if i == 0 {
            assert(block[i] == indent + begin_marker(id));
        } else if i < n + 1 {
            assert(block[i] == body[i - 1]);
            assert(body[i - 1] == indent_line(plain[i - 1], indent));
            assert(single_line(plain[i - 1]));
        } else {
            assert(block[i] == indent + end_marker(id));
        }
    }
    assert(block.last() == indent + end_marker(id));
}

/// A section inserted after an anchor stands directly behind the last line
/// of the anchor, after one blank line, and before the line that followed
/// the anchor; the lines of the text are all still there, in their order.
/// This is said of the lines that are read from the result, and holds where
/// the new identifier holds no line feed, where the content, without its
/// trailing line feeds, holds no carriage return before a line feed or at
/// its end, and where no line of the text ends with a carriage return that
/// a line feed would follow.
pub proof fn theorem_insert_after_order(
    text: Seq<char>,
    id: Seq<char>,
    content: Seq<char>,
    anchor: Seq<char>,
)
    requires
        has_anchor(lines_of(text), anchor),
        single_line(id),
        no_cr_before_break(without_trailing_newlines(content)),
        survives_rendering(lines_of(text), text),
    ensures
        inserted(text, id, content, None, Some(anchor)) is Ok,
        ({
            let ls = lines_of(text);
            let back = lines_of(inserted(text, id, content, None, Some(anchor))->Ok_0);
            let end = anchor_end(ls, anchor);
            let block = block_lines(id, content, indent_of(ls[anchor_start(ls, anchor)]));
            &&& back == lines_with_block_after(ls, end, block)
            &&& back.len() == ls.len() + 1 + block.len()
            &&& forall|i: int| 0 <= i <= end ==> #[trigger] back[i] == ls[i]
            &&& back[end + 1].len() == 0
            &&& forall|j: int| 0 <= j < block.len() ==> back[end + 2 + j] == #[trigger] block[j]
            &&& forall|i: int| end < i < ls.len() ==> back[i + 1 + block.len()] == #[trigger] ls[i]
        }),
{
    let ls = lines_of(text);
    let start = anchor_start(ls, anchor);
    let end = anchor_end(ls, anchor);
    let indent = indent_of(ls[start]);
    let block = block_lines(id, content, indent);
    let out = lines_with_block_after(ls, end, block);
    let m = block.len() as int;
    lemma_anchor(ls, anchor);
    lemma_lines_of_text(text);
    lemma_marker_shape(anchor);
    lemma_indent_of(ls[start]);
    assert(single_line(indent)) by {
        assert forall|j: int| 0 <= j < indent.len() implies indent[j] != '\n' by {
            assert(indent[j] == ls[start][j]);
        }
    }
    lemma_block_lines(id, content, indent);
    assert(!ends_with_cr(ls[end])) by {
        if is_marker_line(ls[end], end_marker(anchor)) {
            lemma_marker_line_end(ls[end], end_marker(anchor));
        } else {
            lemma_marker_line_end(ls[end], insert_marker(anchor));
        }
    }
    assert forall|i: int| 0 <= i < out.len() implies single_line(#[trigger] out[i]) && (
    ends_with_cr(out[i]) ==> i == out.len() - 1 && !ends_with_newline(text)) by {
        if i <= end {
            assert(out[i] == ls[i]);
        } else if i == end + 1 {
            assert(out[i].len() == 0);
        } else if i < end + 2 + m {
            assert(out[i] == block[i - end - 2]);
        } else {
            assert(out[i] == ls[i - 1 - m]);
        }
    }
    if end + 1 < ls.len() {
        assert(out.last() == ls.last());
    } else {
        assert(out.last() == block.last());
    }
    lemma_read_back(out, text);
    assert(read_back(out, text) == out);
    assert forall|j: int| 0 <= j < m implies out[end + 2 + j] == #[trigger] block[j] by {}
    assert forall|i: int| end < i < ls.len() implies out[i + 1 + m] == #[trigger] ls[i] by {}
}

} // verus!
