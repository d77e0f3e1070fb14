//! The tree a render pass produces.
//!
//! A render body hands back a [`Node`]: an element with a tag, an ordered
//! attribute list and children, plain text, a fragment, a comment,
//! pre-rendered static markup, or nothing.  The runtime tags each rendered
//! element with its scope id so the consumer of the tree can correlate
//! output to scope.

use vstd::prelude::*;
use vstd::std_specs::iter::IteratorSpec;
use vstd::string::StringExecFns;

verus! {

broadcast use
    vstd::std_specs::vec::group_vec_axioms,
    vstd::seq::group_seq_axioms,
    vstd::string::axiom_spec_iter,
    vstd::string::next_postcondition;

/// An element node: tag, ordered attributes, ordered children, optional
/// pre-rendered inner markup, and named event handlers.
pub struct Element {
    /// The key the runtime assigned (the rendering scope's id in decimal).
    pub key: String,
    /// The tag name.
    pub tag: String,
    /// The ordered attribute list.
    pub attributes: Vec<(String, String)>,
    /// Pre-rendered inner markup, used when there are no children.
    pub inner_html: String,
    /// The ordered children.
    pub children: Vec<Node>,
    /// The event handler list.
    pub events: Vec<(String, String)>,
}

/// One node of the produced tree.
pub enum Node {
    /// An element with a tag, attributes, and children.
    Element(Element),
    /// Plain text, escaped when serialized.
    Text(String),
    /// A group of nodes without a wrapper element.
    Fragment(Vec<Node>),
    /// A comment.
    Comment(String),
    /// Pre-rendered markup, serialized verbatim.
    Static(&'static str),
    /// Nothing.
    Empty,
}

impl Element {
    /// Builds an element node from its parts.
    pub fn parse_tag_with_attributes(
        key: &str,
        tag: &'static str,
        attributes: Vec<(String, String)>,
        events: Vec<(String, String)>,
        inner_html: &str,
        children: Vec<Node>,
    ) -> (r: Node)
        ensures
            r matches Node::Element(el) && el.key@ == key@ && el.tag@ == tag@ && el.attributes
                == attributes && el.inner_html@ == inner_html@ && el.children == children
                && el.events == events,
    {
        Node::Element(
            Element {
                key: key.to_owned(),
                tag: tag.to_owned(),
                attributes,
                events,
                children,
                inner_html: inner_html.to_owned(),
            },
        )
    }

    /// The key the runtime assigned (the rendering scope's id in decimal).
    pub fn key(&self) -> (r: &str)
        ensures
            r@ == self.key@,
    {
        self.key.as_str()
    }

    /// The tag name.
    pub fn tag(&self) -> (r: &str)
        ensures
            r@ == self.tag@,
    {
        self.tag.as_str()
    }

    /// The ordered attribute list.
    pub fn attributes(&self) -> (r: &Vec<(String, String)>)
        ensures
            r == &self.attributes,
    {
        &self.attributes
    }

    /// The ordered children.
    pub fn children(&self) -> (r: &Vec<Node>)
        ensures
            r == &self.children,
    {
        &self.children
    }

    /// The pre-rendered inner markup.
    pub fn html(&self) -> (r: &String)
        ensures
            r == &self.inner_html,
    {
        &self.inner_html
    }

    /// The event handler list.
    pub fn events(&self) -> (r: &Vec<(String, String)>)
        ensures
            r == &self.events,
    {
        &self.events
    }

    /// The same element under another key.
    pub fn with_key(self, key: String) -> (r: Element)
        ensures
            r.key == key,
            r.tag == self.tag,
            r.attributes == self.attributes,
            r.inner_html == self.inner_html,
            r.children == self.children,
            r.events == self.events,
    {
        Element {
            key,
            tag: self.tag,
            attributes: self.attributes,
            inner_html: self.inner_html,
            children: self.children,
            events: self.events,
        }
    }

    /// The key, as an abstract character sequence.
    pub open spec fn spec_key(&self) -> Seq<char> {
        self.key@
    }
}

impl Node {
    /// The element inside, if this node is an element.
    pub fn as_element(&self) -> (r: Option<&Element>)
        ensures
            match r {
                Option::Some(el) => self matches Node::Element(e) && el == e,
                Option::None => !(self matches Node::Element(_)),
            },
    {
        match self {
            Node::Element(el) => Option::Some(el),
            _ => Option::None,
        }
    }

    /// The same tree; if it is an element, its key is replaced.
    pub fn with_element_key(self, key: String) -> (r: Node)
        ensures
            match self {
                Node::Element(el) => r matches Node::Element(el2) && el2 == Element {
                    key,
                    ..el
                },
                _ => r == self,
            },
    {
        match self {
            Node::Element(el) => Node::Element(el.with_key(key)),
            other => other,
        }
    }
}

/// The decimal digits of `n`, most significant first.
pub open spec fn dec_rep(n: nat) -> Seq<char>
    decreases n,
{
    if n < 10 {
        seq![digit_char(n)]
    } else {
        dec_rep(n / 10).push(digit_char(n % 10))
    }
}

/// The character for one decimal digit.
pub open spec fn digit_char(d: nat) -> char {
    if d == 0 {
        '0'
    } else if d == 1 {
        '1'
    } else if d == 2 {
        '2'
    } else if d == 3 {
        '3'
    } else if d == 4 {
        '4'
    } else if d == 5 {
        '5'
    } else if d == 6 {
        '6'
    } else if d == 7 {
        '7'
    } else if d == 8 {
        '8'
    } else {
        '9'
    }
}

/// One decimal digit as markup text.
fn digit_str(d: usize) -> (r: &'static str)
    requires
        d < 10,
    ensures
        r@ == seq![digit_char(d as nat)],
{
    let r: &'static str = if d == 0 {
        "0"
    } else if d == 1 {
        "1"
    } else if d == 2 {
        "2"
    } else if d == 3 {
        "3"
    } else if d == 4 {
        "4"
    } else if d == 5 {
        "5"
    } else if d == 6 {
        "6"
    } else if d == 7 {
        "7"
    } else if d == 8 {
        "8"
    } else {
        "9"
    };
    proof {
        reveal_strlit("0");
        reveal_strlit("1");
        reveal_strlit("2");
        reveal_strlit("3");
        reveal_strlit("4");
        reveal_strlit("5");
        reveal_strlit("6");
        reveal_strlit("7");
        reveal_strlit("8");
        reveal_strlit("9");
        assert(r@ =~= seq![digit_char(d as nat)]);
    }
    r
}

/// Writes `n` in decimal.
#[verifier::loop_isolation(false)]
pub fn usize_to_string(n: usize) -> (r: String)
    ensures
        r@ == dec_rep(n as nat),
{
    let mut digits: Vec<usize> = Vec::new();
    let mut m: usize = n;
    while m >= 10
        invariant
            forall|j: int| 0 <= j < digits@.len() ==> (#[trigger] digits@[j]) < 10,
            dec_rep(n as nat) == dec_rep(m as nat) + digits_seq(digits@),
        decreases m,
    {
        let ghost m0 = m;
        let ghost pre = digits@;
        let d = m % 10;
        digits.push(d);
        m = m / 10;
        proof {
            assert(digits@.drop_last() =~= pre);
            assert(digits@.last() == d);
            assert(digits_seq(digits@) == seq![digit_char(d as nat)] + digits_seq(pre));
            assert(m == m0 / 10 && d == m0 % 10);
            assert(dec_rep(m0 as nat) == dec_rep(m as nat).push(digit_char(d as nat)));
            assert(dec_rep(m as nat).push(digit_char(d as nat)) =~= dec_rep(m as nat) + seq![
                digit_char(d as nat),
            ]);
            assert((dec_rep(m as nat) + seq![digit_char(d as nat)]) + digits_seq(pre) =~= dec_rep(
                m as nat,
            ) + (seq![digit_char(d as nat)] + digits_seq(pre)));
        }
    }
    let mut out = String::new();
    out.append(digit_str(m));
    proof {
        assert(out@ =~= dec_rep(m as nat));
    }
    let mut i: usize = digits.len();
    while i > 0
        invariant
            i <= digits@.len(),
            out@ == dec_rep(m as nat) + digits_seq(
                digits@.subrange(i as int, digits@.len() as int),
            ),
        decreases i,
    {
        i = i - 1;
        let ghost out0 = out@;
        let ghost rest = digits@.subrange(i as int + 1, digits@.len() as int);
        let ghost cur = digits@.subrange(i as int, digits@.len() as int);
        out.append(digit_str(digits[i]));
        proof {
            lemma_digits_seq_first(cur);
            assert(cur.drop_first() =~= rest);
            assert(cur[0] == digits@[i as int]);
            assert(out@ == out0 + seq![digit_char(digits@[i as int] as nat)]);
            assert((dec_rep(m as nat) + digits_seq(rest)) + seq![
                digit_char(digits@[i as int] as nat),
            ] =~= dec_rep(m as nat) + digits_seq(cur));
        }
    }
    proof {
        assert(digits@.subrange(0, digits@.len() as int) =~= digits@);
    }
    out
}

/// The digit characters for a least-significant-first digit list, most
/// significant first.
spec fn digits_seq(ds: Seq<usize>) -> Seq<char>
    decreases ds.len(),
{
    if ds.len() == 0 {
        Seq::empty()
    } else {
        seq![digit_char(ds.last() as nat)] + digits_seq(ds.drop_last())
    }
}

/// `digits_seq` decomposed at the first (least significant) digit.
proof fn lemma_digits_seq_first(ds: Seq<usize>)
    requires
        ds.len() > 0,
    ensures
        digits_seq(ds) == digits_seq(ds.drop_first()) + seq![digit_char(ds[0] as nat)],
    decreases ds.len(),
{
    if ds.len() == 1 {
        assert(ds.drop_last() =~= Seq::<usize>::empty());
        assert(ds.drop_first() =~= Seq::<usize>::empty());
        assert(digits_seq(Seq::<usize>::empty()) == Seq::<char>::empty());
        assert(ds.last() == ds[0]);
        assert(digits_seq(ds) == seq![digit_char(ds[0] as nat)] + Seq::<char>::empty());
        assert(seq![digit_char(ds[0] as nat)] + Seq::<char>::empty() =~= Seq::<char>::empty()
            + seq![digit_char(ds[0] as nat)]);
    } else {
        let dl = ds.drop_last();
        lemma_digits_seq_first(dl);
        assert(dl.drop_first() =~= ds.drop_first().drop_last());
        assert(dl[0] == ds[0]);
        assert(ds.drop_first().last() == ds.last());
        assert(digits_seq(ds.drop_first()) == seq![digit_char(ds.last() as nat)] + digits_seq(
            ds.drop_first().drop_last(),
        ));
        assert(seq![digit_char(ds.last() as nat)] + (digits_seq(ds.drop_first().drop_last())
            + seq![digit_char(ds[0] as nat)]) =~= (seq![digit_char(ds.last() as nat)] + digits_seq(
            ds.drop_first().drop_last(),
        )) + seq![digit_char(ds[0] as nat)]);
    }
}

/// The markup a character of text becomes: the five special characters
/// are escaped, every other character stands as itself.
pub open spec fn escape_char(c: char) -> Seq<char> {
    if c == '<' {
        seq!['&', 'l', 't', ';']
    } else if c == '>' {
        seq!['&', 'g', 't', ';']
    } else if c == '&' {
        seq!['&', 'a', 'm', 'p', ';']
    } else if c == '"' {
        seq!['&', 'q', 'u', 'o', 't', ';']
    } else if c == '/' {
        seq!['&', '#', 'x', '2', 'F', ';']
    } else {
        seq![c]
    }
}

/// The markup a run of text becomes.
pub open spec fn escape_text(s: Seq<char>) -> Seq<char>
    decreases s.len(),
{
    if s.len() == 0 {
        Seq::empty()
    } else {
        escape_char(s[0]) + escape_text(s.drop_first())
    }
}

/// `escape_text` decomposed at the last character.
proof fn lemma_escape_text_last(s: Seq<char>)
    requires
        s.len() > 0,
    ensures
        escape_text(s) == escape_text(s.drop_last()) + escape_char(s.last()),
    decreases s.len(),
{
    if s.len() == 1 {
        assert(s.drop_first() =~= Seq::<char>::empty());
        assert(s.drop_last() =~= Seq::<char>::empty());
        assert(escape_text(Seq::<char>::empty()) == Seq::<char>::empty());
        assert(escape_text(s) == escape_char(s[0]) + Seq::<char>::empty());
        assert(escape_char(s[0]) + Seq::<char>::empty() =~= Seq::<char>::empty() + escape_char(
            s[0],
        ));
    } else {
        let tail = s.drop_first();
        lemma_escape_text_last(tail);
        assert(tail.drop_last() =~= s.drop_last().drop_first());
        assert(tail.last() == s.last());
        assert(s.drop_last()[0] == s[0]);
        assert(escape_char(s[0]) + (escape_text(s.drop_last().drop_first()) + escape_char(
            s.last(),
        )) =~= (escape_char(s[0]) + escape_text(s.drop_last().drop_first())) + escape_char(
            s.last(),
        ));
    }
}

/// The markup of an attribute list: a space, the name, `="`, the value,
/// `"`, for each entry in order.
pub open spec fn attrs_html(attrs: Seq<(String, String)>) -> Seq<char>
    decreases attrs.len(),
{
    if attrs.len() == 0 {
        Seq::empty()
    } else {
        seq![' '] + attrs[0].0@ + seq!['=', '"'] + attrs[0].1@ + seq!['"'] + attrs_html(
            attrs.drop_first(),
        )
    }
}

/// The markup a node serializes to: elements with their attributes and
/// children (or their pre-rendered inner markup when childless), text
/// escaped, fragments in order, comments wrapped, static markup verbatim.
pub open spec fn html_of(n: Node) -> Seq<char>
    decreases n,
{
    match n {
        Node::Element(el) => seq!['<'] + el.tag@ + attrs_html(el.attributes@) + seq!['>'] + (
        if el.children@.len() == 0 && el.inner_html@.len() > 0 {
            el.inner_html@
        } else {
            nodes_html(el.children@)
        }) + seq!['<', '/'] + el.tag@ + seq!['>'],
        Node::Text(t) => escape_text(t@),
        Node::Fragment(ns) => nodes_html(ns@),
        Node::Comment(cm) => seq!['<', '!', '-', '-'] + cm@ + seq!['-', '-', '>'],
        Node::Static(st) => st@,
        Node::Empty => Seq::empty(),
    }
}

/// The markup of a list of nodes, in order.
pub open spec fn nodes_html(ns: Seq<Node>) -> Seq<char>
    decreases ns, 0int,
{
    if ns.len() == 0 {
        Seq::empty()
    } else {
        html_of(ns[0]) + nodes_html(ns.drop_first())
    }
}

/// Appends one character.
///
/// Relies on std's `String::push`: appends exactly the given character.
#[verifier::external_body]
fn push_char(s: &mut String, c: char)
    ensures
        final(s)@ == old(s)@.push(c),
{
    s.push(c);
}

/// An empty string with room reserved.
///
/// Relies on std's `String::with_capacity`: an empty string, with at
/// least the given capacity pre-allocated.
#[verifier::external_body]
fn string_with_capacity(capacity: usize) -> (r: String)
    ensures
        r@ == Seq::<char>::empty(),
{
    String::with_capacity(capacity)
}

/// A markup writer over one growing buffer.
pub struct HtmlWriter {
    buffer: String,
}

impl HtmlWriter {
    /// The buffer contents.
    pub closed spec fn spec_buffer(&self) -> Seq<char> {
        self.buffer@
    }

    /// An empty writer with the given capacity reserved.
    pub fn with_capacity(capacity: usize) -> (r: Self)
        ensures
            r.spec_buffer() == Seq::<char>::empty(),
    {
        HtmlWriter { buffer: string_with_capacity(capacity) }
    }

    /// An empty writer with a default capacity.
    pub fn new() -> (r: Self)
        ensures
            r.spec_buffer() == Seq::<char>::empty(),
    {
        Self::with_capacity(512)
    }

    /// Writes `<tag` with the attribute list and a closing `>`.
    #[verifier::loop_isolation(false)]
    pub fn write_open_tag(&mut self, tag: &str, attributes: &Vec<(String, String)>)
        ensures
            final(self).spec_buffer() == old(self).spec_buffer() + seq!['<'] + tag@ + attrs_html(
                attributes@,
            ) + seq!['>'],
    {
        proof {
            reveal_strlit("<");
            reveal_strlit(">");
            reveal_strlit(" ");
            reveal_strlit("=\"");
            reveal_strlit("\"");
        }
        let ghost base = self.buffer@;
        self.buffer.append("<");
        self.buffer.append(tag);
        proof {
            assert(self.buffer@ =~= base + seq!['<'] + tag@);
        }
        let n: usize = attributes.len();
        let mut i: usize = 0;
        while i < n
            invariant
                i <= n,
                n == attributes@.len(),
                self.buffer@ == base + seq!['<'] + tag@ + attrs_html(
                    attributes@.subrange(0, i as int),
                ),
            decreases n - i,
        {
            let ghost pre = attributes@.subrange(0, i as int);
            let ghost post = attributes@.subrange(0, i as int + 1);
            self.buffer.append(" ");
            self.buffer.append(attributes[i].0.as_str());
            self.buffer.append("=\"");
            self.buffer.append(attributes[i].1.as_str());
            self.buffer.append("\"");
            proof {
                lemma_attrs_html_last(post);
                assert(post.drop_last() =~= pre);
                assert(post.last() == attributes@[i as int]);
                assert(self.buffer@ =~= base + seq!['<'] + tag@ + attrs_html(post));
            }
            i += 1;
        }
        self.buffer.append(">");
        proof {
            assert(attributes@.subrange(0, n as int) =~= attributes@);
            assert(self.buffer@ =~= old(self).spec_buffer() + seq!['<'] + tag@ + attrs_html(
                attributes@,
            ) + seq!['>']);
        }
    }

    /// Writes `<tag>`.
    pub fn write_open_tag_no_attrs(&mut self, tag: &str)
        ensures
            final(self).spec_buffer() == old(self).spec_buffer() + seq!['<'] + tag@ + seq!['>'],
    {
        proof {
            reveal_strlit("<");
            reveal_strlit(">");
        }
        self.buffer.append("<");
        self.buffer.append(tag);
        self.buffer.append(">");
        proof {
            assert(self.buffer@ =~= old(self).spec_buffer() + seq!['<'] + tag@ + seq!['>']);
        }
    }

    /// Writes `</tag>`.
    pub fn write_close_tag(&mut self, tag: &str)
        ensures
            final(self).spec_buffer() == old(self).spec_buffer() + seq!['<', '/'] + tag@ + seq![
                '>',
            ],
    {
        proof {
            reveal_strlit("</");
            reveal_strlit(">");
        }
        self.buffer.append("</");
        self.buffer.append(tag);
        self.buffer.append(">");
        proof {
            assert(self.buffer@ =~= old(self).spec_buffer() + seq!['<', '/'] + tag@ + seq!['>']);
        }
    }

    /// Writes text, escaping the five special characters.
    pub fn write_text(&mut self, text: &str)
        ensures
            final(self).spec_buffer() == old(self).spec_buffer() + escape_text(text@),
    {
        proof {
            reveal_strlit("&lt;");
            reveal_strlit("&gt;");
            reveal_strlit("&amp;");
            reveal_strlit("&quot;");
            reveal_strlit("&#x2F;");
        }
        let ghost base = self.buffer@;
        let ghost all = text@;
        let mut it = text.chars();
        let ghost mut j: int = 0;
        proof {
            assert(all.subrange(0, all.len() as int) =~= all);
            assert(it.remaining() =~= all.subrange(0, all.len() as int));
            assert(escape_text(all.subrange(0, 0)) =~= Seq::<char>::empty());
        }
        loop
            invariant
                0 <= j <= all.len(),
                it.remaining() == all.subrange(j, all.len() as int),
                self.buffer@ == base + escape_text(all.subrange(0, j)),
            ensures
                self.buffer@ == base + escape_text(all),
            decreases all.len() - j,
        {
            let c_opt = it.next();
            match c_opt {
                Option::None => {
                    proof {
                        assert(all.subrange(j, all.len() as int).len() == 0);
                        assert(j == all.len());
                        assert(all.subrange(0, j) =~= all);
                    }
                    break;
                },
                Option::Some(c) => {
                    proof {
                        reveal_strlit("&lt;");
                        reveal_strlit("&gt;");
                        reveal_strlit("&amp;");
                        reveal_strlit("&quot;");
                        reveal_strlit("&#x2F;");
                        assert(c == all.subrange(j, all.len() as int)[0]);
                        assert(c == all[j]);
                        assert(it.remaining() =~= all.subrange(j + 1, all.len() as int));
                    }
                    if c == '<' {
                        self.buffer.append("&lt;");
                    } else if c == '>' {
                        self.buffer.append("&gt;");
                    } else if c == '&' {
                        self.buffer.append("&amp;");
                    } else if c == '"' {
                        self.buffer.append("&quot;");
                    } else if c == '/' {
                        self.buffer.append("&#x2F;");
                    } else {
                        push_char(&mut self.buffer, c);
                    }
                    proof {
                        j = j + 1;
                        lemma_escape_text_last(all.subrange(0, j));
                        assert(all.subrange(0, j).drop_last() =~= all.subrange(0, j - 1));
                        assert(all.subrange(0, j).last() == all[j - 1]);
                        assert(self.buffer@ =~= base + escape_text(all.subrange(0, j)));
                    }
                },
            }
        }
    }

    /// Writes a whole tree.
    #[verifier::loop_isolation(false)]
    pub fn write_node(&mut self, node: &Node)
        ensures
            final(self).spec_buffer() == old(self).spec_buffer() + html_of(*node),
        decreases *node,
    {
        match node {
            Node::Element(el) => {
                if el.attributes.len() == 0 {
                    self.write_open_tag_no_attrs(el.tag.as_str());
                    proof {
                        assert(attrs_html(el.attributes@) =~= Seq::<char>::empty());
                        assert(old(self).spec_buffer() + seq!['<'] + el.tag@ + seq!['>'] =~= old(
                            self,
                        ).spec_buffer() + seq!['<'] + el.tag@ + attrs_html(el.attributes@) + seq![
                            '>',
                        ]);
                    }
                } else {
                    self.write_open_tag(el.tag.as_str(), &el.attributes);
                }
                if el.children.len() == 0 && !el.inner_html.as_str().is_empty() {
                    self.buffer.append(el.inner_html.as_str());
                } else {
                    let ghost mid = self.buffer@;
                    let n: usize = el.children.len();
                    let mut i: usize = 0;
                    proof {
                        assert(nodes_html(el.children@.subrange(0, 0)) =~= Seq::<char>::empty());
                    }
                    while i < n
                        invariant
                            i <= n,
                            n == el.children@.len(),
                            self.buffer@ == mid + nodes_html(el.children@.subrange(0, i as int)),
                        decreases n - i,
                    {
                        let ghost pre = el.children@.subrange(0, i as int);
                        let ghost post = el.children@.subrange(0, i as int + 1);
                        self.write_node(&el.children[i]);
                        proof {
                            lemma_nodes_html_last(post);
                            assert(post.drop_last() =~= pre);
                            assert(post.last() == el.children@[i as int]);
                            assert(self.buffer@ =~= mid + nodes_html(post));
                        }
                        i += 1;
                    }
                    proof {
                        assert(el.children@.subrange(0, n as int) =~= el.children@);
                    }
                }
                self.write_close_tag(el.tag.as_str());
                proof {
                    assert(self.buffer@ =~= old(self).spec_buffer() + html_of(*node));
                }
            },
            Node::Text(t) => {
                self.write_text(t.as_str());
            },
            Node::Fragment(ns) => {
                let ghost mid = self.buffer@;
                let n: usize = ns.len();
                let mut i: usize = 0;
                proof {
                    assert(nodes_html(ns@.subrange(0, 0)) =~= Seq::<char>::empty());
                    assert(mid =~= mid + nodes_html(ns@.subrange(0, 0)));
                }
                while i < n
                    invariant
                        i <= n,
                        n == ns@.len(),
                        self.buffer@ == mid + nodes_html(ns@.subrange(0, i as int)),
                    decreases n - i,
                {
                    let ghost pre = ns@.subrange(0, i as int);
                    let ghost post = ns@.subrange(0, i as int + 1);
                    self.write_node(&ns[i]);
                    proof {
                        lemma_nodes_html_last(post);
                        assert(post.drop_last() =~= pre);
                        assert(post.last() == ns@[i as int]);
                        assert(self.buffer@ =~= mid + nodes_html(post));
                    }
                    i += 1;
                }
                proof {
                    assert(ns@.subrange(0, n as int) =~= ns@);
                }
            },
            Node::Comment(cm) => {
                proof {
                    reveal_strlit("<!--");
                    reveal_strlit("-->");
                }
                self.buffer.append("<!--");
                self.buffer.append(cm.as_str());
                self.buffer.append("-->");
                proof {
                    assert(self.buffer@ =~= old(self).spec_buffer() + html_of(*node));
                }
            },
            Node::Static(st) => {
                self.buffer.append(st);
            },
            Node::Empty => {},
        }
    }

    /// Consumes the writer and returns the markup.
    pub fn finish(self) -> (r: String)
        ensures
            r@ == self.spec_buffer(),
    {
        self.buffer
    }
}

impl Default for HtmlWriter {
    /// An empty writer.
    fn default() -> (r: Self)
        ensures
            r.spec_buffer() == Seq::<char>::empty(),
    {
        Self::new()
    }
}

/// `attrs_html` decomposed at the last attribute.
proof fn lemma_attrs_html_last(attrs: Seq<(String, String)>)
    requires
        attrs.len() > 0,
    ensures
        attrs_html(attrs) == attrs_html(attrs.drop_last()) + (seq![' '] + attrs.last().0@ + seq![
            '=',
            '"',
        ] + attrs.last().1@ + seq!['"']),
    decreases attrs.len(),
{
    if attrs.len() == 1 {
        assert(attrs.drop_first() =~= Seq::<(String, String)>::empty());
        assert(attrs.drop_last() =~= Seq::<(String, String)>::empty());
        assert(attrs_html(Seq::<(String, String)>::empty()) == Seq::<char>::empty());
        assert(attrs_html(attrs) == seq![' '] + attrs[0].0@ + seq!['=', '"'] + attrs[0].1@ + seq![
            '"',
        ] + Seq::<char>::empty());
        assert(seq![' '] + attrs[0].0@ + seq!['=', '"'] + attrs[0].1@ + seq!['"'] + Seq::<
            char,
        >::empty() =~= Seq::<char>::empty() + (seq![' '] + attrs.last().0@ + seq!['=', '"']
            + attrs.last().1@ + seq!['"']));
    } else {
        let tail = attrs.drop_first();
        lemma_attrs_html_last(tail);
        assert(tail.drop_last() =~= attrs.drop_last().drop_first());
        assert(tail.last() == attrs.last());
        assert(attrs.drop_last()[0] == attrs[0]);
        assert(attrs_html(attrs) =~= attrs_html(attrs.drop_last()) + (seq![' ']
            + attrs.last().0@ + seq!['=', '"'] + attrs.last().1@ + seq!['"']));
    }
}

/// `nodes_html` decomposed at the last node.
proof fn lemma_nodes_html_last(ns: Seq<Node>)
    requires
        ns.len() > 0,
    ensures
        nodes_html(ns) == nodes_html(ns.drop_last()) + html_of(ns.last()),
    decreases ns.len(),
{
    if ns.len() == 1 {
        assert(ns.drop_first() =~= Seq::<Node>::empty());
        assert(ns.drop_last() =~= Seq::<Node>::empty());
        assert(nodes_html(Seq::<Node>::empty()) == Seq::<char>::empty());
        assert(nodes_html(ns) == html_of(ns[0]) + Seq::<char>::empty());
        assert(html_of(ns[0]) + Seq::<char>::empty() =~= Seq::<char>::empty() + html_of(ns[0]));
    } else {
        let tail = ns.drop_first();
        lemma_nodes_html_last(tail);
        assert(tail.drop_last() =~= ns.drop_last().drop_first());
        assert(tail.last() == ns.last());
        assert(ns.drop_last()[0] == ns[0]);
        assert(nodes_html(ns) =~= nodes_html(ns.drop_last()) + html_of(ns.last()));
    }
}

impl Node {
    /// Serializes the tree to markup.
    pub fn to_html(&self) -> (r: String)
        ensures
            r@ == html_of(*self),
    {
        let mut writer = HtmlWriter::new();
        writer.write_node(self);
        writer.finish()
    }

    /// Writes this tree into an existing writer.
    pub fn write_to(&self, writer: &mut HtmlWriter)
        ensures
            final(writer).spec_buffer() == old(writer).spec_buffer() + html_of(*self),
    {
        writer.write_node(self);
    }
}

/// Whether any entry of a class list is selected.
pub open spec fn any_selected(items: Seq<(&str, bool)>) -> bool {
    exists|i: int| 0 <= i < items.len() && (#[trigger] items[i]).1
}

/// The class text a list of (name, selected) entries joins to: the
/// selected names in order, separated by single spaces.
pub open spec fn classes_spec(items: Seq<(&str, bool)>) -> Seq<char>
    decreases items.len(),
{
    if items.len() == 0 {
        Seq::empty()
    } else if items.last().1 {
        classes_spec(items.drop_last()) + (if any_selected(items.drop_last()) {
            seq![' ']
        } else {
            Seq::empty()
        }) + items.last().0@
    } else {
        classes_spec(items.drop_last())
    }
}

/// Joins the selected class names with single spaces.
#[verifier::loop_isolation(false)]
pub fn classes(items: &[(&str, bool)]) -> (r: String)
    ensures
        r@ == classes_spec(items@),
{
    proof {
        reveal_strlit(" ");
    }
    let mut out = String::new();
    let mut emitted = false;
    let n: usize = items.len();
    let mut i: usize = 0;
    proof {
        assert(items@.subrange(0, n as int) =~= items@);
    }
    while i < n
        invariant
            i <= n,
            n == items@.len(),
            emitted == any_selected(items@.subrange(0, i as int)),
            out@ == classes_spec(items@.subrange(0, i as int)),
        decreases n - i,
    {
        let ghost pre = items@.subrange(0, i as int);
        let ghost post = items@.subrange(0, i as int + 1);
        proof {
            assert(post.drop_last() =~= pre);
            assert(post.last() == items@[i as int]);
            lemma_any_selected_push(pre, items@[i as int]);
            assert(post =~= pre.push(items@[i as int]));
        }
        let selected = items[i].1;
        if selected {
            if emitted {
                out.append(" ");
            }
            out.append(items[i].0);
            emitted = true;
            proof {
                assert(out@ =~= classes_spec(post));
            }
        } else {
            proof {
                assert(classes_spec(post) == classes_spec(pre));
            }
        }
        i += 1;
    }
    proof {
        assert(items@.subrange(0, n as int) =~= items@);
    }
    out
}

/// Selection in a list extended by one entry.
proof fn lemma_any_selected_push(s: Seq<(&str, bool)>, e: (&str, bool))
    ensures
        any_selected(s.push(e)) == (any_selected(s) || e.1),
{
    let s1 = s.push(e);
    if any_selected(s1) {
        let i = choose|i: int| 0 <= i < s1.len() && (#[trigger] s1[i]).1;
        if i < s.len() {
            assert(s[i] == s1[i]);
            assert(any_selected(s));
        } else {
            assert(s1[i] == e);
        }
    }
    if any_selected(s) {
        let i = choose|i: int| 0 <= i < s.len() && (#[trigger] s[i]).1;
        assert(s1[i] == s[i]);
        assert(any_selected(s1));
    }
    if e.1 {
        assert(s1[s.len() as int] == e);
        assert(any_selected(s1));
    }
}

/// Values usable as an attribute value.
pub trait Attribute {
    /// The value as attribute text.
    fn value(&self) -> String;
}

/// Optional values usable as an attribute value; absence reads as the
/// empty string.
pub trait OptionAttribute {
    /// The value as attribute text, empty when absent.
    fn value(&self) -> String;
}

impl Attribute for &str {
    fn value(&self) -> String {
        (*self).to_owned()
    }
}

impl Attribute for String {
    fn value(&self) -> String {
        self.clone()
    }
}

impl Attribute for bool {
    fn value(&self) -> String {
        if *self {
            ("true").to_owned()
        } else {
            ("false").to_owned()
        }
    }
}

impl Attribute for usize {
    fn value(&self) -> String {
        usize_to_string(*self)
    }
}

impl Attribute for u32 {
    fn value(&self) -> String {
        usize_to_string(*self as usize)
    }
}

impl Attribute for i32 {
    fn value(&self) -> String {
        if *self >= 0 {
            usize_to_string(*self as usize)
        } else {
            let mut out = String::new();
            out.append("-");
            let magnitude: i64 = -(*self as i64);
            let tail = usize_to_string(magnitude as usize);
            out.append(tail.as_str());
            out
        }
    }
}

impl<T: Attribute> OptionAttribute for Option<T> {
    fn value(&self) -> String {
        match self {
            Option::Some(t) => t.value(),
            Option::None => String::new(),
        }
    }
}

/// The props of a component that takes none.
#[derive(Default)]
pub struct DefaultProps;


} // verus!
