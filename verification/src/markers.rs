//! Marker lines, and the search for the section or anchor that they delimit.

use crate::text::{chars_of, is_whitespace, join_lines, joined, line_views, lines_of, single_line,
    split_lines, string_of, whitespace};
use vstd::prelude::*;
use vstd::string::*;

verus! {

/// The begin marker of the section `id`.
pub open spec fn begin_marker(id: Seq<char>) -> Seq<char> {
    "<!-- KUGIRI-BEGIN: "@ + id + " -->"@
}

/// The end marker of the section `id`.
pub open spec fn end_marker(id: Seq<char>) -> Seq<char> {
    "<!-- KUGIRI-END: "@ + id + " -->"@
}

/// The marker of the insertion point `id`.
pub open spec fn insert_marker(id: Seq<char>) -> Seq<char> {
    "<!-- KUGIRI-INSERT: "@ + id + " -->"@
}

/// The number of white-space characters that `l` begins with.
pub open spec fn indent_len(l: Seq<char>) -> int
    decreases l.len(),
{
    if l.len() == 0 || !whitespace(l[0]) {
        0
    } else {
        1 + indent_len(l.drop_first())
    }
}

/// The white space that `l` begins with.
pub open spec fn indent_of(l: Seq<char>) -> Seq<char> {
    l.take(indent_len(l))
}

/// `l` without the white space that it begins with.
pub open spec fn trim_start(l: Seq<char>) -> Seq<char> {
    l.skip(indent_len(l))
}

/// Whether the line `l` is the marker `marker`, possibly indented.
pub open spec fn is_marker_line(l: Seq<char>, marker: Seq<char>) -> bool {
    trim_start(l) == marker
}

/// The index of the first line at or after `from` that is the marker
/// `marker`; the number of lines where there is none.
pub open spec fn first_marker_line(ls: Seq<Seq<char>>, marker: Seq<char>, from: int) -> int
    decreases ls.len() - from,
{
    if from < 0 || from >= ls.len() {
        ls.len() as int
    } else if is_marker_line(ls[from], marker) {
        from
    } else {
        first_marker_line(ls, marker, from + 1)
    }
}

/// The index of the first begin marker of `id`; the number of lines where
/// there is none.
pub open spec fn section_start(ls: Seq<Seq<char>>, id: Seq<char>) -> int {
    first_marker_line(ls, begin_marker(id), 0)
}

/// The index of the first end marker of `id` after its first begin marker; the
/// number of lines where there is none.
pub open spec fn section_end(ls: Seq<Seq<char>>, id: Seq<char>) -> int {
    first_marker_line(ls, end_marker(id), section_start(ls, id) + 1)
}

/// Whether the lines hold a section `id`: a begin marker with an end marker
/// somewhere after it.
pub open spec fn has_section(ls: Seq<Seq<char>>, id: Seq<char>) -> bool {
    section_end(ls, id) < ls.len()
}

/// `l` without `indent` in front, where it begins with `indent`; else `l`.
pub open spec fn dedent(l: Seq<char>, indent: Seq<char>) -> Seq<char> {
    if indent.is_prefix_of(l) {
        l.skip(indent.len() as int)
    } else {
        l
    }
}

/// Each line of `ls` without `indent` in front.
pub open spec fn dedent_all(ls: Seq<Seq<char>>, indent: Seq<char>) -> Seq<Seq<char>> {
    Seq::new(ls.len(), |i: int| dedent(ls[i], indent))
}

/// What a `Section` stands for.
pub struct SectionView {
    pub id: Seq<char>,
    pub start_line: nat,
    pub end_line: nat,
    pub content: Seq<char>,
    pub indent: Seq<char>,
}

impl SectionView {
    /// Whether this is a section proper: the begin marker stands before the
    /// end marker.
    pub open spec fn is_section(self) -> bool {
        self.start_line < self.end_line
    }

    /// Whether this is an insertion point: one line, without content.
    pub open spec fn is_insertion_point(self) -> bool {
        self.start_line == self.end_line && self.content.len() == 0
    }

    /// Whether this is a section or an insertion point that lies within
    /// `lines` lines of text.
    pub open spec fn well_formed(self, lines: nat) -> bool {
        (self.is_section() || self.is_insertion_point()) && self.end_line < lines
    }
}

/// A section found in a text, or the single line of an insertion point.
#[derive(Debug, Clone, PartialEq)]
pub struct Section {
    /// The identifier that the markers carry.
    pub id: String,
    /// The index of the line that holds the begin marker.
    pub start_line: usize,
    /// The index of the line that holds the end marker.
    pub end_line: usize,
    /// The lines between the markers, without the indent, joined.
    pub content: String,
    /// The white space in front of the begin marker.
    pub indent: String,
}

impl View for Section {
    type V = SectionView;

    open spec fn view(&self) -> SectionView {
        SectionView {
            id: self.id@,
            start_line: self.start_line as nat,
            end_line: self.end_line as nat,
            content: self.content@,
            indent: self.indent@,
        }
    }
}

/// The section `id` of the lines `ls`, if they hold one.
pub open spec fn section_in(ls: Seq<Seq<char>>, id: Seq<char>) -> Option<SectionView> {
    if has_section(ls, id) {
        let start = section_start(ls, id);
        let end = section_end(ls, id);
        let indent = indent_of(ls[start]);
        Some(
            SectionView {
                id,
                start_line: start as nat,
                end_line: end as nat,
                content: joined(dedent_all(ls.subrange(start + 1, end), indent)),
                indent,
            },
        )
    } else {
        None
    }
}

/// The index of the first insertion point `id`; the number of lines where
/// there is none.
pub open spec fn insert_point(ls: Seq<Seq<char>>, id: Seq<char>) -> int {
    first_marker_line(ls, insert_marker(id), 0)
}

/// Whether the lines hold an anchor `id`: a section `id` or an insertion
/// point `id`.
pub open spec fn has_anchor(ls: Seq<Seq<char>>, id: Seq<char>) -> bool {
    has_section(ls, id) || insert_point(ls, id) < ls.len()
}

/// The first line of the anchor `id`: the begin marker of the section `id`,
/// or else the first insertion point `id`.
pub open spec fn anchor_start(ls: Seq<Seq<char>>, id: Seq<char>) -> int {
    if has_section(ls, id) {
        section_start(ls, id)
    } else {
        insert_point(ls, id)
    }
}

/// The last line of the anchor `id`: the end marker of the section `id`, or
/// else the first insertion point `id`.
pub open spec fn anchor_end(ls: Seq<Seq<char>>, id: Seq<char>) -> int {
    if has_section(ls, id) {
        section_end(ls, id)
    } else {
        insert_point(ls, id)
    }
}

/// The anchor `id` of the lines `ls`: their section `id`, or else the line of
/// their first insertion point `id`, without content.
pub open spec fn anchor_in(ls: Seq<Seq<char>>, id: Seq<char>) -> Option<SectionView> {
    if has_section(ls, id) {
        section_in(ls, id)
    } else if has_anchor(ls, id) {
        Some(
            SectionView {
                id,
                start_line: anchor_start(ls, id) as nat,
                end_line: anchor_end(ls, id) as nat,
                content: Seq::empty(),
                indent: indent_of(ls[anchor_start(ls, id)]),
            },
        )
    } else {
        None
    }
}

/// `indent_len` is the first position that holds no white space.
pub proof fn lemma_indent_len(l: Seq<char>)
    ensures
        0 <= indent_len(l) <= l.len(),
        forall|j: int| 0 <= j < indent_len(l) ==> whitespace(l[j]),
        indent_len(l) < l.len() ==> !whitespace(l[indent_len(l)]),
    decreases l.len(),
{
    if l.len() == 0 || !whitespace(l[0]) {
    } else {
        let t = l.drop_first();
        lemma_indent_len(t);
        assert forall|j: int| 0 <= j < indent_len(l) implies whitespace(l[j]) by {
            if j > 0 {
                assert(l[j] == t[j - 1]);
            }
        }
        assert(indent_len(l) < l.len() ==> l[indent_len(l)] == t[indent_len(t)]);
    }
}

/// A position before which all is white space, and which holds none or is the
/// end, is `indent_len`.
pub proof fn lemma_indent_len_is(l: Seq<char>, k: int)
    requires
        0 <= k <= l.len(),
        forall|j: int| 0 <= j < k ==> whitespace(l[j]),
        k < l.len() ==> !whitespace(l[k]),
    ensures
        indent_len(l) == k,
{
    lemma_indent_len(l);
}

/// `first_marker_line` is the first marker line at or after `from`.
pub proof fn lemma_first_marker_line(ls: Seq<Seq<char>>, marker: Seq<char>, from: int)
    requires
        0 <= from,
    ensures
        from <= first_marker_line(ls, marker, from) || first_marker_line(ls, marker, from)
            == ls.len(),
        first_marker_line(ls, marker, from) <= ls.len(),
        forall|j: int|
            from <= j < first_marker_line(ls, marker, from) ==> !is_marker_line(
                #[trigger] ls[j],
                marker,
            ),
        first_marker_line(ls, marker, from) < ls.len() ==> is_marker_line(
            ls[first_marker_line(ls, marker, from)],
            marker,
        ),
    decreases ls.len() - from,
{
    if from >= ls.len() {
    } else if is_marker_line(ls[from], marker) {
    } else {
        lemma_first_marker_line(ls, marker, from + 1);
    }
}

/// A position at or after `from` before which no marker line stands, and
/// which holds one or is the end, is `first_marker_line`.
pub proof fn lemma_first_marker_line_is(
    ls: Seq<Seq<char>>,
    marker: Seq<char>,
    from: int,
    k: int,
)
    requires
        0 <= from <= k <= ls.len(),
        forall|j: int| from <= j < k ==> !is_marker_line(#[trigger] ls[j], marker),
        k < ls.len() ==> is_marker_line(ls[k], marker),
    ensures
        first_marker_line(ls, marker, from) == k,
    decreases k - from,
{
    if from < k {
        lemma_first_marker_line_is(ls, marker, from + 1, k);
    }
}

/// The begin marker of the section `id`.
pub fn make_begin_marker(id: &str) -> (m: String)
    ensures
        m@ == begin_marker(id@),
{
    let mut m = String::from_str("<!-- KUGIRI-BEGIN: ");
    m.append(id);
    m.append(" -->");
    m
}

/// The end marker of the section `id`.
pub fn make_end_marker(id: &str) -> (m: String)
    ensures
        m@ == end_marker(id@),
{
    let mut m = String::from_str("<!-- KUGIRI-END: ");
    m.append(id);
    m.append(" -->");
    m
}

/// The marker of the insertion point `id`.
pub fn make_insert_marker(id: &str) -> (m: String)
    ensures
        m@ == insert_marker(id@),
{
    let mut m = String::from_str("<!-- KUGIRI-INSERT: ");
    m.append(id);
    m.append(" -->");
    m
}

/// Counts the white-space characters that `l` begins with.
pub fn leading_whitespace(l: &Vec<char>) -> (n: usize)
    ensures
        n == indent_len(l@),
{
    let mut n: usize = 0;
    while n < l.len() && is_whitespace(l[n])
        invariant
            n <= l.len(),
            forall|j: int| 0 <= j < n ==> whitespace(l@[j]),
        decreases l.len() - n,
    {
        n += 1;
    }
    proof {
        lemma_indent_len_is(l@, n as int);
    }
    n
}

/// Tells whether `l`, from position `at` on, begins with `pat`.
pub(crate) fn starts_with_at(l: &Vec<char>, at: usize, pat: &Vec<char>) -> (b: bool)
    requires
        at <= l.len(),
    ensures
        b == pat@.is_prefix_of(l@.skip(at as int)),
{
    if pat.len() > l.len() - at {
        return false;
    }
    let mut i: usize = 0;
    while i < pat.len()
        invariant
            at <= l.len(),
            pat.len() <= l.len() - at,
            i <= pat.len(),
            forall|j: int| 0 <= j < i ==> pat@[j] == l@[at + j],
        decreases pat.len() - i,
    {
        if pat[i] != l[at + i] {
            assert(l@.skip(at as int).subrange(0, pat@.len() as int)[i as int] != pat@[i as int]);
            return false;
        }
        i += 1;
    }
    assert(pat@ =~= l@.skip(at as int).subrange(0, pat@.len() as int));
    true
}

/// Tells whether the line `l` is the marker `marker`, possibly indented.
pub fn is_marker(l: &Vec<char>, marker: &Vec<char>) -> (b: bool)
    ensures
        b == is_marker_line(l@, marker@),
{
    let n = leading_whitespace(l);
    proof {
        lemma_indent_len(l@);
    }
    if l.len() - n != marker.len() {
        return false;
    }
    let b = starts_with_at(l, n, marker);
    assert(l@.skip(n as int).subrange(0, marker@.len() as int) == l@.skip(n as int));
    b
}

/// Finds the first line at or after `from` that is the marker `marker`.
pub fn find_marker_line(lines: &Vec<Vec<char>>, marker: &Vec<char>, from: usize) -> (at: usize)
    ensures
        at == first_marker_line(line_views(lines@), marker@, from as int),
        at <= lines.len(),
{
    let ghost ls = line_views(lines@);
    if from >= lines.len() {
        return lines.len();
    }
    let mut i: usize = from;
    while i < lines.len() && !is_marker(&lines[i], marker)
        invariant
            from <= i <= lines.len(),
            ls == line_views(lines@),
            forall|j: int| from <= j < i ==> !is_marker_line(#[trigger] ls[j], marker@),
        decreases lines.len() - i,
    {
        i += 1;
    }
    proof {
        lemma_first_marker_line_is(ls, marker@, from as int, i as int);
    }
    i
}

/// The section `id` of a text, if it holds one.
pub open spec fn section_of(text: Seq<char>, id: Seq<char>) -> Option<SectionView> {
    section_in(lines_of(text), id)
}

/// The anchor `id` of a text, if it holds one.
pub open spec fn anchor_of(text: Seq<char>, id: Seq<char>) -> Option<SectionView> {
    anchor_in(lines_of(text), id)
}

/// Copies the characters of `l` from position `from` up to position `to`.
pub(crate) fn slice_of(l: &Vec<char>, from: usize, to: usize) -> (out: Vec<char>)
    requires
        from <= to <= l.len(),
    ensures
        out@ == l@.subrange(from as int, to as int),
{
    let mut out: Vec<char> = Vec::new();
    let mut i: usize = from;
    while i < to
        invariant
            from <= i <= to <= l.len(),
            out@ == l@.subrange(from as int, i as int),
        decreases to - i,
    {
        out.push(l[i]);
        i += 1;
    }
    out
}

/// Takes `indent` off the front of `l`, where `l` begins with it.
pub fn dedent_line(l: &Vec<char>, indent: &Vec<char>) -> (out: Vec<char>)
    ensures
        out@ == dedent(l@, indent@),
{
    assert(l@.skip(0) == l@);
    if starts_with_at(l, 0, indent) {
        let out = slice_of(l, indent.len(), l.len());
        assert(l@.subrange(indent.len() as int, l.len() as int) == l@.skip(indent.len() as int));
        out
    } else {
        let out = slice_of(l, 0, l.len());
        assert(l@.subrange(0, l.len() as int) == l@);
        out
    }
}

/// Finds the lines of the markers of the section `id`.
pub fn locate_section(lines: &Vec<Vec<char>>, id: &str) -> (r: Option<(usize, usize)>)
    ensures
        r is Some == has_section(line_views(lines@), id@),
        r matches Some(span) ==> {
            &&& span.0 == section_start(line_views(lines@), id@)
            &&& span.1 == section_end(line_views(lines@), id@)
            &&& span.0 < span.1 < lines.len()
        },
{
    let begin = chars_of(make_begin_marker(id).as_str());
    let end = chars_of(make_end_marker(id).as_str());
    let start = find_marker_line(lines, &begin, 0);
    if start >= lines.len() {
        return None;
    }
    let stop = find_marker_line(lines, &end, start + 1);
    proof {
        lemma_first_marker_line(line_views(lines@), end@, start + 1);
    }
    if stop >= lines.len() {
        return None;
    }
    Some((start, stop))
}

/// The lines strictly between `start` and `end`, each without `indent` in
/// front, joined.
pub(crate) fn section_content(
    lines: &Vec<Vec<char>>,
    start: usize,
    end: usize,
    indent: &Vec<char>,
) -> (out: Vec<char>)
    requires
        start < end <= lines.len(),
    ensures
        out@ == joined(
            dedent_all(line_views(lines@).subrange(start + 1, end as int), indent@),
        ),
{
    let ghost ls = line_views(lines@);
    let mut inner: Vec<Vec<char>> = Vec::new();
    let mut i: usize = start + 1;
    while i < end
        invariant
            start < i <= end <= lines.len(),
            ls == line_views(lines@),
            line_views(inner@) == dedent_all(ls.subrange(start + 1, i as int), indent@),
        decreases end - i,
    {
        let ghost before = line_views(inner@);
        inner.push(dedent_line(&lines[i], indent));
        assert(line_views(inner@) == before + seq![dedent(ls[i as int], indent@)]);
        assert(line_views(inner@) == dedent_all(ls.subrange(start + 1, i + 1), indent@));
        i += 1;
    }
    join_lines(&inner)
}

/// Looks up the section `id`: the first begin marker of `id` and the first
/// end marker of `id` after it.
pub fn find_section(text: &str, id: &str) -> (r: Option<Section>)
    ensures
        match r {
            Some(s) => section_of(text@, id@) == Some(s@),
            None => section_of(text@, id@) is None,
        },
        r matches Some(s) ==> s@.is_section() && s@.well_formed(lines_of(text@).len()),
{
    let lines = split_lines(&chars_of(text));
    match locate_section(&lines, id) {
        Some((start, end)) => {
            let indent = line_indent(&lines[start]);
            let content = section_content(&lines, start, end, &indent);
            Some(
                Section {
                    id: String::from_str(id),
                    start_line: start,
                    end_line: end,
                    content: string_of(&content),
                    indent: string_of(&indent),
                },
            )
        },
        None => None,
    }
}

/// Finds the first and the last line of the anchor `id`.
pub fn locate_anchor(lines: &Vec<Vec<char>>, id: &str) -> (r: Option<(usize, usize)>)
    ensures
        r is Some == has_anchor(line_views(lines@), id@),
        r matches Some(span) ==> {
            &&& span.0 == anchor_start(line_views(lines@), id@)
            &&& span.1 == anchor_end(line_views(lines@), id@)
            &&& span.0 <= span.1 < lines.len()
        },
{
    match locate_section(lines, id) {
        Some(span) => Some(span),
        None => {
            let marker = chars_of(make_insert_marker(id).as_str());
            let at = find_marker_line(lines, &marker, 0);
            if at < lines.len() {
                Some((at, at))
            } else {
                None
            }
        },
    }
}

/// Copies the white space that the line `l` begins with.
pub fn line_indent(l: &Vec<char>) -> (indent: Vec<char>)
    ensures
        indent@ == indent_of(l@),
{
    let n = leading_whitespace(l);
    proof {
        lemma_indent_len(l@);
    }
    slice_of(l, 0, n)
}

/// Looks up the anchor `id`: the section `id`, or else the first insertion
/// point `id`, as a section of one line without content.
pub fn find_marker_for_anchor(text: &str, id: &str) -> (r: Option<Section>)
    ensures
        match r {
            Some(s) => anchor_of(text@, id@) == Some(s@),
            None => anchor_of(text@, id@) is None,
        },
        r matches Some(s) ==> s@.well_formed(lines_of(text@).len()),
{
    match find_section(text, id) {
        Some(s) => Some(s),
        None => {
            let lines = split_lines(&chars_of(text));
            match locate_anchor(&lines, id) {
                Some((start, end)) => Some(
                    Section {
                        id: String::from_str(id),
                        start_line: start,
                        end_line: end,
                        content: String::new(),
                        indent: string_of(&line_indent(&lines[start])),
                    },
                ),
                None => None,
            }
        },
    }
}

/// Whether `s` is white space throughout.
pub open spec fn all_whitespace(s: Seq<char>) -> bool {
    forall|j: int| 0 <= j < s.len() ==> whitespace(#[trigger] s[j])
}

/// A marker begins with `<` and ends with `>`, and holds a line feed only
/// where its identifier holds one.
pub proof fn lemma_marker_shape(id: Seq<char>)
    ensures
        begin_marker(id).len() > 0 && begin_marker(id)[0] == '<' && begin_marker(id).last() == '>',
        end_marker(id).len() > 0 && end_marker(id)[0] == '<' && end_marker(id).last() == '>',
        insert_marker(id).len() > 0 && insert_marker(id)[0] == '<' && insert_marker(id).last()
            == '>',
        single_line(id) ==> single_line(begin_marker(id)) && single_line(end_marker(id))
            && single_line(insert_marker(id)),
{
    reveal_strlit("<!-- KUGIRI-BEGIN: ");
    reveal_strlit("<!-- KUGIRI-END: ");
    reveal_strlit("<!-- KUGIRI-INSERT: ");
    reveal_strlit(" -->");
}

/// The white space that a line begins with is white space throughout, and
/// the line is that white space and then the rest.
pub proof fn lemma_indent_of(l: Seq<char>)
    ensures
        all_whitespace(indent_of(l)),
        indent_of(l) + trim_start(l) == l,
        trim_start(l).len() > 0 ==> !whitespace(trim_start(l)[0]),
{
    lemma_indent_len(l);
}

/// White space in front of a line adds to the white space that the line
/// begins with, and leaves the rest as it is.
pub proof fn lemma_trim_indented(indent: Seq<char>, l: Seq<char>)
    requires
        all_whitespace(indent),
    ensures
        indent_of(indent + l) == indent + indent_of(l),
        trim_start(indent + l) == trim_start(l),
{
    lemma_indent_len(l);
    let k = indent.len() + indent_len(l);
    lemma_indent_len_is(indent + l, k);
    assert((indent + l).take(k) =~= indent + l.take(indent_len(l)));
    assert((indent + l).skip(k) =~= l.skip(indent_len(l)));
}

/// An indented marker is a marker line with that indent.
pub proof fn lemma_indented_marker(indent: Seq<char>, marker: Seq<char>)
    requires
        all_whitespace(indent),
        marker.len() > 0,
        !whitespace(marker[0]),
    ensures
        is_marker_line(indent + marker, marker),
        indent_of(indent + marker) == indent,
{
    lemma_trim_indented(indent, marker);
    lemma_indent_len_is(marker, 0);
    assert(marker.skip(0) == marker);
    assert(marker.take(0) == Seq::<char>::empty());
    assert(indent + Seq::<char>::empty() == indent);
}

/// A marker line ends as its marker ends.
pub proof fn lemma_marker_line_end(l: Seq<char>, marker: Seq<char>)
    requires
        is_marker_line(l, marker),
        marker.len() > 0,
    ensures
        l.len() > 0,
        l.last() == marker.last(),
{
    lemma_indent_len(l);
}

/// The markers of a section are two lines of the text, the begin marker
/// first.
pub proof fn lemma_section(ls: Seq<Seq<char>>, id: Seq<char>)
    requires
        has_section(ls, id),
    ensures
        0 <= section_start(ls, id) < section_end(ls, id) < ls.len(),
        is_marker_line(ls[section_start(ls, id)], begin_marker(id)),
        is_marker_line(ls[section_end(ls, id)], end_marker(id)),
{
    lemma_first_marker_line(ls, begin_marker(id), 0);
    lemma_first_marker_line(ls, end_marker(id), section_start(ls, id) + 1);
}

/// An anchor lies within the text, and its last line is a marker line: an
/// end marker or an insertion point.
pub proof fn lemma_anchor(ls: Seq<Seq<char>>, id: Seq<char>)
    requires
        has_anchor(ls, id),
    ensures
        0 <= anchor_start(ls, id) <= anchor_end(ls, id) < ls.len(),
        is_marker_line(ls[anchor_end(ls, id)], end_marker(id)) || is_marker_line(
            ls[anchor_end(ls, id)],
            insert_marker(id),
        ),
{
    if has_section(ls, id) {
        lemma_section(ls, id);
    } else {
        lemma_first_marker_line(ls, insert_marker(id), 0);
    }
}

} // verus!
