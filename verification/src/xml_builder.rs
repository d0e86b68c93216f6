//! An indentation-aware XML writer: a document is a list of lines and a
//! current nesting depth; every operation appends exactly one line.
use vstd::prelude::*;
use crate::text::{push_char, push_str, string_of};

verus! {

/// The abstract state of an [`XmlBuilder`]: the lines written so far, and the
/// number of elements opened and not yet closed.
pub ghost struct XmlDoc {
    pub lines: Seq<Seq<char>>,
    pub depth: nat,
}

/// The declaration line every document starts with.
pub open spec fn declaration() -> Seq<char> {
    "<?xml version=\"1.0\" encoding=\"UTF-8\"?>"@
}

/// Four spaces per nesting level.
pub open spec fn indent(depth: nat) -> Seq<char> {
    Seq::new(4 * depth, |i: int| ' ')
}

/// The text that stands for one character inside an attribute value or an
/// element's text: the four XML-special characters become entities.
pub open spec fn escape_char(c: char) -> Seq<char> {
    if c == '&' {
        seq!['&', 'a', 'm', 'p', ';']
    } else if c == '"' {
        seq!['&', 'q', 'u', 'o', 't', ';']
    } else if c == '<' {
        seq!['&', 'l', 't', ';']
    } else if c == '>' {
        seq!['&', 'g', 't', ';']
    } else {
        seq![c]
    }
}

/// Every character of `s` replaced by its escaped text.
pub open spec fn escaped(s: Seq<char>) -> Seq<char>
    decreases s.len(),
{
    if s.len() == 0 {
        Seq::empty()
    } else {
        escaped(s.drop_last()) + escape_char(s.last())
    }
}

/// ` key="value"` with the value escaped.
pub open spec fn attr_text(key: Seq<char>, value: Seq<char>) -> Seq<char> {
    seq![' '] + key + seq!['=', '"'] + escaped(value) + seq!['"']
}

/// All attributes, in order.
pub open spec fn attrs_text(attrs: Seq<(Seq<char>, Seq<char>)>) -> Seq<char>
    decreases attrs.len(),
{
    if attrs.len() == 0 {
        Seq::empty()
    } else {
        attrs_text(attrs.drop_last()) + attr_text(attrs.last().0, attrs.last().1)
    }
}

/// The abstract value of a list of attributes.
pub open spec fn attr_views(attrs: Seq<(&str, &str)>) -> Seq<(Seq<char>, Seq<char>)> {
    attrs.map_values(|p: (&str, &str)| (p.0@, p.1@))
}

/// The document after opening element `name`.
pub open spec fn spec_open(doc: XmlDoc, name: Seq<char>, attrs: Seq<(Seq<char>, Seq<char>)>) -> XmlDoc {
    XmlDoc {
        lines: doc.lines.push(indent(doc.depth) + seq!['<'] + name + attrs_text(attrs) + seq!['>']),
        depth: doc.depth + 1,
    }
}

/// The document after closing element `name` (meant for `doc.depth > 0`).
pub open spec fn spec_close(doc: XmlDoc, name: Seq<char>) -> XmlDoc {
    XmlDoc {
        lines: doc.lines.push(indent((doc.depth - 1) as nat) + seq!['<', '/'] + name + seq!['>']),
        depth: (doc.depth - 1) as nat,
    }
}

/// The document after writing an empty element `name`.
pub open spec fn spec_leaf(doc: XmlDoc, name: Seq<char>, attrs: Seq<(Seq<char>, Seq<char>)>) -> XmlDoc {
    XmlDoc {
        lines: doc.lines.push(
            indent(doc.depth) + seq!['<'] + name + attrs_text(attrs) + seq!['/', '>'],
        ),
        depth: doc.depth,
    }
}

/// The document after writing element `name` with escaped text content on one line.
pub open spec fn spec_inline(doc: XmlDoc, name: Seq<char>, text: Seq<char>) -> XmlDoc {
    XmlDoc {
        lines: doc.lines.push(
            indent(doc.depth) + seq!['<'] + name + seq!['>'] + escaped(text) + seq!['<', '/']
                + name + seq!['>'],
        ),
        depth: doc.depth,
    }
}

/// Each line followed by a newline.
pub open spec fn lines_text(lines: Seq<Seq<char>>) -> Seq<char>
    decreases lines.len(),
{
    if lines.len() == 0 {
        Seq::empty()
    } else {
        lines_text(lines.drop_last()) + lines.last() + seq!['\n']
    }
}

/// An XML document under construction. The declaration line is always the
/// first line; `lines` holds the lines written after it.
pub struct XmlBuilder {
    lines: Vec<String>,
    depth: usize,
}

impl View for XmlBuilder {
    type V = XmlDoc;

    closed spec fn view(&self) -> XmlDoc {
        XmlDoc { lines: seq![declaration()] + self.lines@.map_values(|l: String| l@), depth: self.depth as nat }
    }
}

/// Appends the escaped text of one character.
fn push_escaped_char(res: &mut String, c: char)
    ensures
        final(res)@ == old(res)@ + escape_char(c),
{
    if c == '&' {
        push_char(res, '&');
        push_char(res, 'a');
        push_char(res, 'm');
        push_char(res, 'p');
        push_char(res, ';');
    } else if c == '"' {
        push_char(res, '&');
        push_char(res, 'q');
        push_char(res, 'u');
        push_char(res, 'o');
        push_char(res, 't');
        push_char(res, ';');
    } else if c == '<' {
        push_char(res, '&');
        push_char(res, 'l');
        push_char(res, 't');
        push_char(res, ';');
    } else if c == '>' {
        push_char(res, '&');
        push_char(res, 'g');
        push_char(res, 't');
        push_char(res, ';');
    } else {
        push_char(res, c);
    }
    assert(final(res)@ =~= old(res)@ + escape_char(c));
}

/// `s` with the characters `&`, `"`, `<` and `>` replaced by XML entities.
pub fn escape(s: &str) -> (res: String)
    ensures
        res@ == escaped(s@),
{
    let cs = crate::text::chars_of(s);
    let mut res = String::new();
    let n = cs.len();
    for i in 0..n
        invariant
            n == cs@.len(),
            cs@ == s@,
            res@ == escaped(cs@.take(i as int)),
    {
        push_escaped_char(&mut res, cs[i]);
        assert(cs@.take(i + 1).drop_last() == cs@.take(i as int));
    }
    assert(cs@.take(n as int) == cs@);
    res
}

/// The attributes written as ` key="value"` pairs, values escaped.
pub fn attr_str(attrs: &[(&str, &str)]) -> (res: String)
    ensures
        res@ == attrs_text(attr_views(attrs@)),
{
    let mut res = String::new();
    let n = attrs.len();
    for i in 0..n
        invariant
            n == attrs@.len(),
            res@ == attrs_text(attr_views(attrs@).take(i as int)),
    {
        let (k, v) = attrs[i];
        push_char(&mut res, ' ');
        push_str(&mut res, k);
        push_char(&mut res, '=');
        push_char(&mut res, '"');
        let e = escape(v);
        push_str(&mut res, e.as_str());
        push_char(&mut res, '"');
        assert(attr_views(attrs@).take(i + 1).drop_last() =~= attr_views(attrs@).take(i as int));
        assert(res@ =~= attrs_text(attr_views(attrs@).take(i as int)) + attr_text(k@, v@));
    }
    assert(attr_views(attrs@).take(n as int) =~= attr_views(attrs@));
    res
}

impl XmlBuilder {
    /// A document holding only the XML declaration, at depth 0.
    pub fn new() -> (res: Self)
        ensures
            res@ == (XmlDoc { lines: seq![declaration()], depth: 0 }),
    {
        let lines: Vec<String> = Vec::new();
        let res = XmlBuilder { lines, depth: 0 };
        assert(res@.lines =~= seq![declaration()]);
        res
    }

    fn pad(&self) -> (res: String)
        ensures
            res@ == indent(self.depth as nat),
    {
        let mut res = String::new();
        let mut i: usize = 0;
        while i < self.depth
            invariant
                i <= self.depth,
                res@ == indent(i as nat),
            decreases self.depth - i,
        {
            push_str(&mut res, "    ");
            proof {
                reveal_strlit("    ");
            }
            assert(res@ =~= indent((i + 1) as nat));
            i = i + 1;
        }
        res
    }

    fn push_line(&mut self, line: String)
        ensures
            final(self)@ == (XmlDoc { lines: old(self)@.lines.push(line@), depth: old(self)@.depth }),
    {
        self.lines.push(line);
        assert(self.lines@.map_values(|l: String| l@) =~= old(self).lines@.map_values(|l: String| l@).push(line@));
        assert(self@.lines =~= old(self)@.lines.push(line@));
    }

    /// Writes the opening tag of `name` and moves one level deeper.
    pub fn open(&mut self, name: &str, attrs: &[(&str, &str)])
        requires
            old(self)@.depth < usize::MAX,
        ensures
            final(self)@ == spec_open(old(self)@, name@, attr_views(attrs@)),
    {
        let mut line = self.pad();
        push_char(&mut line, '<');
        push_str(&mut line, name);
        let a = attr_str(attrs);
        push_str(&mut line, a.as_str());
        push_char(&mut line, '>');
        self.push_line(line);
        self.depth = self.depth + 1;
        assert(line@ =~= indent(old(self)@.depth) + seq!['<'] + name@ + attrs_text(attr_views(attrs@)) + seq!['>']);
    }

    /// Moves one level up and writes the closing tag of `name`.
    pub fn close(&mut self, name: &str)
        requires
            old(self)@.depth > 0,
        ensures
            final(self)@ == spec_close(old(self)@, name@),
    {
        self.depth = self.depth - 1;
        let mut line = self.pad();
        push_char(&mut line, '<');
        push_char(&mut line, '/');
        push_str(&mut line, name);
        push_char(&mut line, '>');
        self.push_line(line);
        assert(line@ =~= indent((old(self)@.depth - 1) as nat) + seq!['<', '/'] + name@ + seq!['>']);
    }

    /// Writes an empty element `<name .../>` at the current depth.
    pub fn leaf(&mut self, name: &str, attrs: &[(&str, &str)])
        ensures
            final(self)@ == spec_leaf(old(self)@, name@, attr_views(attrs@)),
    {
        let mut line = self.pad();
        push_char(&mut line, '<');
        push_str(&mut line, name);
        let a = attr_str(attrs);
        push_str(&mut line, a.as_str());
        push_char(&mut line, '/');
        push_char(&mut line, '>');
        self.push_line(line);
        assert(line@ =~= indent(old(self)@.depth) + seq!['<'] + name@ + attrs_text(attr_views(attrs@)) + seq!['/', '>']);
    }

    /// Writes `<name>text</name>` on one line, the text escaped.
    pub fn inline(&mut self, name: &str, text: &str)
        ensures
            final(self)@ == spec_inline(old(self)@, name@, text@),
    {
        let mut line = self.pad();
        push_char(&mut line, '<');
        push_str(&mut line, name);
        push_char(&mut line, '>');
        let e = escape(text);
        push_str(&mut line, e.as_str());
        push_char(&mut line, '<');
        push_char(&mut line, '/');
        push_str(&mut line, name);
        push_char(&mut line, '>');
        self.push_line(line);
        assert(line@ =~= indent(old(self)@.depth) + seq!['<'] + name@ + seq!['>'] + escaped(text@)
            + seq!['<', '/'] + name@ + seq!['>']);
    }

    /// The whole document: every line followed by a newline. It starts with
    /// the declaration line and ends with a newline.
    pub fn to_xml(&self) -> (res: String)
        ensures
            res@ == lines_text(self@.lines),
            res@.len() > 0,
            res@.last() == '\n',
    {
        let ghost all = self@.lines;
        let mut res = String::from_str("<?xml version=\"1.0\" encoding=\"UTF-8\"?>");
        push_char(&mut res, '\n');
        proof {
            assert(all.take(1).drop_last() =~= Seq::<Seq<char>>::empty());
            assert(all.take(1).last() == declaration());
            assert(lines_text(all.take(1).drop_last()) =~= Seq::<char>::empty());
            assert(lines_text(all.take(1)) == lines_text(all.take(1).drop_last()) + declaration() + seq!['\n']);
            assert(res@ =~= declaration() + seq!['\n']);
            assert(res@ =~= lines_text(all.take(1)));
        }
        let n = self.lines.len();
        for i in 0..n
            invariant
                n == self.lines@.len(),
                all == self@.lines,
                all.len() == n + 1,
                res@ == lines_text(all.take(i + 1)),
        {
            push_str(&mut res, self.lines[i].as_str());
            push_char(&mut res, '\n');
            assert(all[i + 1] == self.lines@[i as int]@);
            assert(all.take(i + 2).drop_last() =~= all.take(i + 1));
            assert(all.take(i + 2).last() == all[i + 1]);
        }
        assert(all.take(n + 1) =~= all);
        proof {
            law_document_ends_with_newline(all);
        }
        res
    }
}

impl Default for XmlBuilder {
    fn default() -> (res: Self)
        ensures
            res@ == (XmlDoc { lines: seq![declaration()], depth: 0 }),
    {
        Self::new()
    }
}

proof fn lemma_escaped_index(s: Seq<char>, i: int)
    requires
        0 <= i < escaped(s).len(),
    ensures
        escaped(s)[i] != '<' && escaped(s)[i] != '>' && escaped(s)[i] != '"',
    decreases s.len(),
{
    if s.len() > 0 {
        let p = escaped(s.drop_last());
        let e = escape_char(s.last());
        assert(escaped(s) == p + e);
        if i < p.len() {
            lemma_escaped_index(s.drop_last(), i);
            assert(escaped(s)[i] == p[i]);
        } else {
            assert(escaped(s)[i] == e[i - p.len()]);
        }
    }
}

/// Escaped text holds no `<`, `>` or `"`: a value written into an attribute or
/// an element cannot end it or open another.
pub proof fn law_escaped_has_no_markup(s: Seq<char>)
    ensures
        forall|i: int|
            0 <= i < escaped(s).len() ==> #[trigger] escaped(s)[i] != '<' && escaped(s)[i] != '>'
                && escaped(s)[i] != '"',
{
    assert forall|i: int| 0 <= i < escaped(s).len() implies #[trigger] escaped(s)[i] != '<'
        && escaped(s)[i] != '>' && escaped(s)[i] != '"' by {
        lemma_escaped_index(s, i);
    }
}

/// Text without `&`, `"`, `<` and `>` is written unchanged.
pub proof fn law_escape_keeps_plain_text(s: Seq<char>)
    requires
        forall|i: int| 0 <= i < s.len() ==> #[trigger] s[i] != '&' && s[i] != '"' && s[i] != '<' && s[i] != '>',
    ensures
        escaped(s) == s,
    decreases s.len(),
{
    if s.len() > 0 {
        law_escape_keeps_plain_text(s.drop_last());
        assert(s.last() == s[s.len() - 1]);
        assert(s.drop_last().push(s.last()) =~= s);
        assert(escaped(s.drop_last()) + escape_char(s.last()) =~= s.drop_last().push(s.last()));
    } else {
        assert(escaped(s) =~= s);
    }
}

/// Opening and then closing an element returns to the depth before, and the
/// closing tag stands at the indentation of the opening tag.
pub proof fn law_open_close_balanced(
    doc: XmlDoc,
    name: Seq<char>,
    attrs: Seq<(Seq<char>, Seq<char>)>,
)
    ensures
        spec_close(spec_open(doc, name, attrs), name).depth == doc.depth,
        spec_close(spec_open(doc, name, attrs), name).lines == doc.lines.push(
            indent(doc.depth) + seq!['<'] + name + attrs_text(attrs) + seq!['>'],
        ).push(indent(doc.depth) + seq!['<', '/'] + name + seq!['>']),
{
}

/// Every write appends exactly one line and keeps the lines before it; only
/// opening and closing change the depth, by one each.
pub proof fn law_writes_append_one_line(
    doc: XmlDoc,
    name: Seq<char>,
    attrs: Seq<(Seq<char>, Seq<char>)>,
    text: Seq<char>,
)
    requires
        doc.depth > 0,
    ensures
        spec_open(doc, name, attrs).lines.drop_last() == doc.lines,
        spec_open(doc, name, attrs).depth == doc.depth + 1,
        spec_close(doc, name).lines.drop_last() == doc.lines,
        spec_close(doc, name).depth == doc.depth - 1,
        spec_leaf(doc, name, attrs).lines.drop_last() == doc.lines,
        spec_leaf(doc, name, attrs).depth == doc.depth,
        spec_inline(doc, name, text).lines.drop_last() == doc.lines,
        spec_inline(doc, name, text).depth == doc.depth,
{
    assert(spec_open(doc, name, attrs).lines.drop_last() =~= doc.lines);
    assert(spec_close(doc, name).lines.drop_last() =~= doc.lines);
    assert(spec_leaf(doc, name, attrs).lines.drop_last() =~= doc.lines);
    assert(spec_inline(doc, name, text).lines.drop_last() =~= doc.lines);
}

/// A line written one level deeper is indented by four more spaces.
pub proof fn law_nesting_indents(depth: nat)
    ensures
        indent(depth + 1) == indent(depth) + seq![' ', ' ', ' ', ' '],
{
    assert(indent(depth + 1) =~= indent(depth) + seq![' ', ' ', ' ', ' ']);
}

/// The text of a document with at least one line ends with a newline.
pub proof fn law_document_ends_with_newline(lines: Seq<Seq<char>>)
    requires
        lines.len() > 0,
    ensures
        lines_text(lines).len() > 0,
        lines_text(lines).last() == '\n',
{
}

/// Every builder, in every state, starts with the declaration line; so its
/// text is never empty and ends with a newline.
pub proof fn law_builder_starts_with_declaration(b: &XmlBuilder)
    ensures
        b@.lines.len() >= 1,
        b@.lines[0] == declaration(),
        lines_text(b@.lines).last() == '\n',
{
    law_document_ends_with_newline(b@.lines);
}

/// The attributes of `a + b` are those of `a` followed by those of `b`.
pub proof fn lemma_attrs_text_append(a: Seq<(Seq<char>, Seq<char>)>, b: Seq<(Seq<char>, Seq<char>)>)
    ensures
        attrs_text(a + b) == attrs_text(a) + attrs_text(b),
    decreases b.len(),
{
    if b.len() == 0 {
        assert(a + b =~= a);
        assert(attrs_text(a) + attrs_text(b) =~= attrs_text(a));
    } else {
        lemma_attrs_text_append(a, b.drop_last());
        assert((a + b).drop_last() =~= a + b.drop_last());
        assert((a + b).last() == b.last());
        assert(attrs_text(a + b) =~= attrs_text(a) + attrs_text(b));
    }
}

} // verus!
