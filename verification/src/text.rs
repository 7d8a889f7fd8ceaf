//! Characters, lines and the joining of lines: the model of text that the
//! editing operations are specified over.

use vstd::prelude::*;

verus! {

/// Trusted: `String::push` of the standard library appends the character to
/// the end of the string and changes nothing else.
pub assume_specification[ String::push ](s: &mut String, c: char)
    ensures
        final(s)@ == old(s)@.push(c),
;

/// The characters of `s`, in order.
pub fn chars_of(s: &str) -> (v: Vec<char>)
    ensures
        v@ == s@,
{
    let mut v: Vec<char> = Vec::new();
    for c in it: s.chars()
        invariant
            it.seq() == s@,
            v@ == it.seq().take(it.index()),
    {
        v.push(c);
    }
    v
}

/// The string made of the characters of `v`, in order.
pub fn string_of(v: &Vec<char>) -> (s: String)
    ensures
        s@ == v@,
{
    let mut s = String::new();
    let mut i: usize = 0;
    while i < v.len()
        invariant
            i <= v.len(),
            s@ == v@.take(i as int),
        decreases v.len() - i,
    {
        s.push(v[i]);
        i += 1;
    }
    s
}

/// Whether `c` is white space: a code point with the Unicode property
/// `White_Space`.
pub open spec fn whitespace(c: char) -> bool {
    let n = c as u32;
    ||| 0x09 <= n <= 0x0D
    ||| n == 0x20
    ||| n == 0x85
    ||| n == 0xA0
    ||| n == 0x1680
    ||| 0x2000 <= n <= 0x200A
    ||| n == 0x2028
    ||| n == 0x2029
    ||| n == 0x202F
    ||| n == 0x205F
    ||| n == 0x3000
}

/// Tells whether `c` is white space.
pub fn is_whitespace(c: char) -> (b: bool)
    ensures
        b == whitespace(c),
{
    let n: u32 = c as u32;
    (0x09 <= n && n <= 0x0D) || n == 0x20 || n == 0x85 || n == 0xA0 || n == 0x1680 || (0x2000 <= n
        && n <= 0x200A) || n == 0x2028 || n == 0x2029 || n == 0x202F || n == 0x205F || n == 0x3000
}

/// The number of characters of `s` before its first line feed; the length of
/// `s` where it holds none.
pub open spec fn line_end(s: Seq<char>) -> int
    decreases s.len(),
{
    if s.len() == 0 || s[0] == '\n' {
        0
    } else {
        1 + line_end(s.drop_first())
    }
}

/// `l` without one carriage return at its end, if it has one there.
pub open spec fn without_cr(l: Seq<char>) -> Seq<char> {
    if l.len() > 0 && l.last() == '\r' {
        l.drop_last()
    } else {
        l
    }
}

/// The lines of `s`. A line ends at a line feed, or at the end of the text if
/// anything is left there. The line feed is not part of the line, nor is one
/// carriage return directly before it.
pub open spec fn lines_of(s: Seq<char>) -> Seq<Seq<char>>
    decreases s.len(),
{
    let k = line_end(s);
    if s.len() == 0 {
        Seq::empty()
    } else if k < 0 || k >= s.len() {
        seq![s]
    } else {
        seq![without_cr(s.take(k))] + lines_of(s.skip(k + 1))
    }
}

/// The lines of `ls` with one line feed between each two neighbours.
pub open spec fn joined(ls: Seq<Seq<char>>) -> Seq<char>
    decreases ls.len(),
{
    if ls.len() == 0 {
        Seq::empty()
    } else if ls.len() == 1 {
        ls[0]
    } else {
        joined(ls.drop_last()) + seq!['\n'] + ls.last()
    }
}

/// The lines that a vector of lines stands for.
pub open spec fn line_views(v: Seq<Vec<char>>) -> Seq<Seq<char>> {
    Seq::new(v.len(), |i: int| v[i]@)
}

/// `line_end` is the first position that holds a line feed.
pub proof fn lemma_line_end(s: Seq<char>)
    ensures
        0 <= line_end(s) <= s.len(),
        forall|j: int| 0 <= j < line_end(s) ==> s[j] != '\n',
        line_end(s) < s.len() ==> s[line_end(s)] == '\n',
    decreases s.len(),
{
    if s.len() == 0 || s[0] == '\n' {
    } else {
        let t = s.drop_first();
        lemma_line_end(t);
        assert forall|j: int| 0 <= j < line_end(s) implies s[j] != '\n' by {
            if j > 0 {
                assert(s[j] == t[j - 1]);
            }
        }
        assert(line_end(s) < s.len() ==> s[line_end(s)] == t[line_end(t)]);
    }
}

/// A position before which no line feed stands, and which holds one or is the
/// end, is `line_end`.
pub proof fn lemma_line_end_is(s: Seq<char>, k: int)
    requires
        0 <= k <= s.len(),
        forall|j: int| 0 <= j < k ==> s[j] != '\n',
        k < s.len() ==> s[k] == '\n',
    ensures
        line_end(s) == k,
{
    lemma_line_end(s);
    let e = line_end(s);
    if e < k {
        assert(s[e] == '\n');
    } else if k < e {
        assert(s[k] == '\n');
    }
}

/// Splits text into its lines.
pub fn split_lines(s: &Vec<char>) -> (out: Vec<Vec<char>>)
    ensures
        line_views(out@) == lines_of(s@),
{
    let mut out: Vec<Vec<char>> = Vec::new();
    let mut cur: Vec<char> = Vec::new();
    let mut start: usize = 0;
    let mut i: usize = 0;
    proof {
        assert(s@.skip(0) == s@);
        assert(line_views(out@) + lines_of(s@) == lines_of(s@));
    }
    while i < s.len()
        invariant
            start <= i <= s.len(),
            cur@ == s@.subrange(start as int, i as int),
            forall|j: int| start <= j < i ==> s@[j] != '\n',
            lines_of(s@) == line_views(out@) + lines_of(s@.skip(start as int)),
        decreases s.len() - i,
    {
        let c = s[i];
        if c == '\n' {
            let ghost rest = s@.skip(start as int);
            let ghost k = i - start;
            proof {
                lemma_line_end_is(rest, k);
                assert(rest.take(k) == cur@);
                assert(rest.skip(k + 1) == s@.skip(i + 1));
            }
            let n = cur.len();
            if n > 0 && cur[n - 1] == '\r' {
                cur.pop();
            }
            assert(cur@ == without_cr(rest.take(k)));
            let ghost before = line_views(out@);
            out.push(cur);
            assert(line_views(out@) == before + seq![without_cr(rest.take(k))]);
            cur = Vec::new();
            start = i + 1;
        } else {
            cur.push(c);
        }
        i += 1;
    }
    let ghost rest = s@.skip(start as int);
    proof {
        lemma_line_end_is(rest, rest.len() as int);
        assert(rest == cur@);
    }
    if cur.len() > 0 {
        let ghost before = line_views(out@);
        out.push(cur);
        assert(line_views(out@) == before + seq![rest]);
    }
    out
}

/// Joins lines with one line feed between each two neighbours.
pub fn join_lines(lines: &Vec<Vec<char>>) -> (out: Vec<char>)
    ensures
        out@ == joined(line_views(lines@)),
{
    let mut out: Vec<char> = Vec::new();
    let mut i: usize = 0;
    while i < lines.len()
        invariant
            i <= lines.len(),
            out@ == joined(line_views(lines@).take(i as int)),
        decreases lines.len() - i,
    {
        let ghost ls = line_views(lines@).take(i + 1);
        assert(ls.drop_last() == line_views(lines@).take(i as int));
        assert(ls.last() == lines@[i as int]@);
        if i > 0 {
            out.push('\n');
        }
        out.extend_from_slice(lines[i].as_slice());
        i += 1;
    }
    assert(line_views(lines@).take(lines.len() as int) == line_views(lines@));
    out
}

/// Each line of `ls` without one carriage return at its end.
pub open spec fn without_cr_all(ls: Seq<Seq<char>>) -> Seq<Seq<char>> {
    Seq::new(ls.len(), |i: int| without_cr(ls[i]))
}

/// Whether `s` holds no line feed.
pub open spec fn single_line(s: Seq<char>) -> bool {
    forall|j: int| 0 <= j < s.len() ==> s[j] != '\n'
}

/// Whether each of `ls` holds no line feed.
pub open spec fn single_lines(ls: Seq<Seq<char>>) -> bool {
    forall|i: int| 0 <= i < ls.len() ==> single_line(#[trigger] ls[i])
}

/// Whether `l` ends with a carriage return.
pub open spec fn ends_with_cr(l: Seq<char>) -> bool {
    l.len() > 0 && l.last() == '\r'
}

/// Whether none of `ls` ends with a carriage return.
pub open spec fn no_trailing_cr(ls: Seq<Seq<char>>) -> bool {
    forall|i: int| 0 <= i < ls.len() ==> !ends_with_cr(#[trigger] ls[i])
}

/// The lines of a text that begins with a line without line feed, then a line
/// feed: that line without a carriage return at its end, then the lines of
/// the rest.
pub proof fn lemma_lines_step(a: Seq<char>, rest: Seq<char>)
    requires
        single_line(a),
    ensures
        lines_of(a + seq!['\n'] + rest) == seq![without_cr(a)] + lines_of(rest),
{
    let s = a + seq!['\n'] + rest;
    lemma_line_end_is(s, a.len() as int);
    assert(s.take(a.len() as int) == a);
    assert(s.skip(a.len() as int + 1) == rest);
}

/// A text without line feed is its own single line, unless it is empty.
pub proof fn lemma_lines_single(a: Seq<char>)
    requires
        single_line(a),
    ensures
        lines_of(a) == if a.len() == 0 {
            Seq::<Seq<char>>::empty()
        } else {
            seq![a]
        },
{
    lemma_line_end_is(a, a.len() as int);
}

/// No line of a text holds a line feed.
pub proof fn lemma_lines_are_single(s: Seq<char>)
    ensures
        single_lines(lines_of(s)),
    decreases s.len(),
{
    lemma_line_end(s);
    let k = line_end(s);
    if s.len() == 0 {
    } else if k >= s.len() {
    } else {
        lemma_lines_are_single(s.skip(k + 1));
        let head = without_cr(s.take(k));
        assert(single_line(head));
        let tail = lines_of(s.skip(k + 1));
        assert forall|i: int| 0 <= i < lines_of(s).len() implies single_line(
            #[trigger] lines_of(s)[i],
        ) by {
            if i > 0 {
                assert(lines_of(s)[i] == tail[i - 1]);
            }
        }
    }
}

/// A text has no lines exactly if it is empty; the last line of a text that
/// does not end with a line feed is not empty.
pub proof fn lemma_last_line(s: Seq<char>)
    ensures
        lines_of(s).len() == 0 <==> s.len() == 0,
        s.len() > 0 && s.last() != '\n' ==> lines_of(s).last().len() > 0,
    decreases s.len(),
{
    lemma_line_end(s);
    let k = line_end(s);
    if s.len() == 0 {
    } else if k >= s.len() {
    } else {
        let rest = s.skip(k + 1);
        lemma_last_line(rest);
        if s.last() != '\n' {
            assert(rest.len() > 0);
            assert(rest.last() == s.last());
            assert(lines_of(s).last() == lines_of(rest).last());
        }
    }
}

/// Joining a first line and further lines: the first line, a line feed, and
/// the further lines joined.
pub proof fn lemma_joined_cons(a: Seq<char>, rest: Seq<Seq<char>>)
    requires
        rest.len() > 0,
    ensures
        joined(seq![a] + rest) == a + seq!['\n'] + joined(rest),
    decreases rest.len(),
{
    let all = seq![a] + rest;
    assert(all.drop_last() == seq![a] + rest.drop_last());
    assert(all.last() == rest.last());
    if rest.len() == 1 {
        assert(all.drop_last() == seq![a]);
        assert(seq![a].len() == 1 && seq![a][0] == a);
        assert(joined(seq![a]) == a);
        assert(joined(rest) == rest[0]);
        assert(joined(all) == joined(all.drop_last()) + seq!['\n'] + all.last());
    } else {
        lemma_joined_cons(a, rest.drop_last());
        assert(joined(all) == (a + seq!['\n'] + joined(rest.drop_last())) + seq!['\n']
            + rest.last());
        assert(joined(rest) == joined(rest.drop_last()) + seq!['\n'] + rest.last());
        assert(joined(all) == a + seq!['\n'] + joined(rest));
    }
}

/// Joining two runs of lines: the first joined, a line feed, and the second
/// joined.
pub proof fn lemma_joined_concat(x: Seq<Seq<char>>, y: Seq<Seq<char>>)
    requires
        x.len() > 0,
        y.len() > 0,
    ensures
        joined(x + y) == joined(x) + seq!['\n'] + joined(y),
    decreases y.len(),
{
    let all = x + y;
    assert(all.drop_last() == x + y.drop_last());
    assert(all.last() == y.last());
    if y.len() == 1 {
        assert(all.drop_last() == x);
    } else {
        lemma_joined_concat(x, y.drop_last());
        assert(joined(all) == (joined(x) + seq!['\n'] + joined(y.drop_last())) + seq!['\n']
            + y.last());
        assert(joined(all) == joined(x) + seq!['\n'] + joined(y));
    }
}

/// Reading back lines that were joined, with a line feed and more text behind
/// them: each line without a carriage return at its end, then the lines of
/// that text.
pub proof fn lemma_lines_of_joined(x: Seq<Seq<char>>, rest: Seq<char>)
    requires
        x.len() > 0,
        single_lines(x),
    ensures
        lines_of(joined(x) + seq!['\n'] + rest) == without_cr_all(x) + lines_of(rest),
    decreases x.len(),
{
    let a = x[0];
    let tail = x.drop_first();
    assert(x == seq![a] + tail);
    if tail.len() == 0 {
        assert(joined(x) == a);
        lemma_lines_step(a, rest);
        assert(without_cr_all(x) == seq![without_cr(a)]);
    } else {
        lemma_joined_cons(a, tail);
        assert forall|i: int| 0 <= i < tail.len() implies single_line(#[trigger] tail[i]) by {
            assert(tail[i] == x[i + 1]);
        }
        lemma_lines_of_joined(tail, rest);
        let inner = joined(tail) + seq!['\n'] + rest;
        assert(joined(x) + seq!['\n'] + rest == a + seq!['\n'] + inner);
        lemma_lines_step(a, inner);
        assert(without_cr_all(x) == seq![without_cr(a)] + without_cr_all(tail));
        assert(seq![without_cr(a)] + (without_cr_all(tail) + lines_of(rest)) == without_cr_all(x)
            + lines_of(rest));
    }
}

/// Lines of which none ends with a carriage return stay as they are when that
/// carriage return is taken off.
pub proof fn lemma_without_cr_all(ls: Seq<Seq<char>>)
    requires
        no_trailing_cr(ls),
    ensures
        without_cr_all(ls) == ls,
{
    assert(without_cr_all(ls) =~= ls);
}

/// Whether every carriage return of `s` has a character other than a line
/// feed behind it: none stands before a line feed or at the end.
pub open spec fn no_cr_before_break(s: Seq<char>) -> bool {
    forall|i: int|
        0 <= i < s.len() && #[trigger] s[i] == '\r' ==> i + 1 < s.len() && s[i + 1] != '\n'
}

/// A text without carriage return before a line feed or at its end, once
/// ended by a line feed, splits into lines that join to the text again, and
/// none of them ends with a carriage return.
pub proof fn lemma_split_then_join(s: Seq<char>)
    requires
        no_cr_before_break(s),
    ensures
        lines_of(s + seq!['\n']).len() > 0,
        no_trailing_cr(lines_of(s + seq!['\n'])),
        joined(lines_of(s + seq!['\n'])) == s,
    decreases s.len(),
{
    lemma_line_end(s);
    let k = line_end(s);
    let a = s.take(k);
    let t = s + seq!['\n'];
    assert(!ends_with_cr(a)) by {
        if ends_with_cr(a) {
            assert(s[k - 1] == '\r');
        }
    }
    if k == s.len() {
        assert(a == s);
        assert(t == a + seq!['\n'] + Seq::<char>::empty());
        lemma_lines_step(a, Seq::<char>::empty());
        assert(lines_of(t) == seq![a]);
        assert(joined(seq![a]) == a);
    } else {
        let rest = s.skip(k + 1);
        assert(no_cr_before_break(rest)) by {
            assert forall|i: int| 0 <= i < rest.len() && #[trigger] rest[i] == '\r' implies i + 1
                < rest.len() && rest[i + 1] != '\n' by {
                assert(s[i + k + 1] == '\r');
            }
        }
        lemma_split_then_join(rest);
        let inner = rest + seq!['\n'];
        assert(t == a + seq!['\n'] + inner);
        lemma_lines_step(a, inner);
        let tail = lines_of(inner);
        assert(lines_of(t) == seq![a] + tail);
        lemma_joined_cons(a, tail);
        assert(s == a + seq!['\n'] + rest);
        assert forall|i: int| 0 <= i < lines_of(t).len() implies !ends_with_cr(
            #[trigger] lines_of(t)[i],
        ) by {
            if i > 0 {
                assert(lines_of(t)[i] == tail[i - 1]);
            }
        }
    }
}

/// A text that ends neither with a line feed nor with a carriage return has
/// the same lines with a line feed behind it as without.
pub proof fn lemma_lines_terminated(s: Seq<char>)
    requires
        s.len() > 0,
        s.last() != '\n',
        s.last() != '\r',
    ensures
        lines_of(s + seq!['\n']) == lines_of(s),
    decreases s.len(),
{
    lemma_line_end(s);
    let k = line_end(s);
    let a = s.take(k);
    let t = s + seq!['\n'];
    if k == s.len() {
        assert(a == s);
        assert(t == a + seq!['\n'] + Seq::<char>::empty());
        lemma_lines_step(a, Seq::<char>::empty());
        lemma_lines_single(s);
        assert(lines_of(t) == seq![a]);
    } else {
        let rest = s.skip(k + 1);
        assert(rest.len() > 0);
        assert(rest.last() == s.last());
        lemma_lines_terminated(rest);
        let inner = rest + seq!['\n'];
        assert(t == a + seq!['\n'] + inner);
        assert(s == a + seq!['\n'] + rest);
        lemma_lines_step(a, inner);
        lemma_lines_step(a, rest);
    }
}

/// Reading back a text that was written from the lines `pre` and then the
/// lines `post`: it begins with the lines `pre`, each without a carriage
/// return at its end, where the last line of `pre` is not empty and has no
/// such carriage return.
pub proof fn lemma_reread_prefix(pre: Seq<Seq<char>>, post: Seq<Seq<char>>, newline: bool)
    requires
        pre.len() > 0,
        single_lines(pre),
        pre.last().len() > 0,
        !ends_with_cr(pre.last()),
    ensures
        without_cr_all(pre).is_prefix_of(
            lines_of(
                if newline {
                    joined(pre + post) + seq!['\n']
                } else {
                    joined(pre + post)
                },
            ),
        ),
{
    let all = joined(pre + post);
    let text = if newline {
        all + seq!['\n']
    } else {
        all
    };
    let init = pre.drop_last();
    let last = pre.last();
    assert(pre == init + seq![last]);
    assert(single_line(last));
    // the text is the lines of `pre` joined, and then nothing or a line feed and more
    let behind: Seq<char> = if post.len() > 0 {
        if newline {
            joined(post) + seq!['\n']
        } else {
            joined(post)
        }
    } else {
        Seq::<char>::empty()
    };
    let end_here = post.len() == 0 && !newline;
    if post.len() > 0 {
        lemma_joined_concat(pre, post);
        assert(text == joined(pre) + seq!['\n'] + behind);
    } else {
        assert(pre + post == pre);
        if newline {
            assert(text == joined(pre) + seq!['\n'] + behind);
        }
    }
    if end_here {
        assert(text == joined(pre));
        if init.len() == 0 {
            assert(pre == seq![last]);
            assert(joined(pre) == last);
            lemma_lines_single(last);
            assert(without_cr_all(pre) =~= seq![last]);
        } else {
            lemma_joined_concat(init, seq![last]);
            assert(joined(seq![last]) == last);
            assert forall|i: int| 0 <= i < init.len() implies single_line(#[trigger] init[i]) by {
                assert(init[i] == pre[i]);
            }
            lemma_lines_of_joined(init, last);
            lemma_lines_single(last);
            assert(without_cr_all(pre) =~= without_cr_all(init) + seq![last]);
        }
        assert(lines_of(text) == without_cr_all(pre));
    } else {
        lemma_lines_of_joined(pre, behind);
        assert(lines_of(text) == without_cr_all(pre) + lines_of(behind));
        assert(without_cr_all(pre).is_prefix_of(without_cr_all(pre) + lines_of(behind)));
    }
}

} // verus!
