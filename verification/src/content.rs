use vstd::prelude::*;

use crate::textops::{
    chunks_of, dec_digits, emit_chunks, lemma_split_lines_nonempty, push_decimal, push_spaces,
    spaces, split_lines, str_chars, string_from_chars,
};
use crate::{
    spec_effective_width, effective_width, spec_next_level, next_level, INDENTATION_SIZE,
};

verus! {

/// Whether list items carry a numbered marker or a plain dash.
#[derive(Debug, Clone, Copy, PartialEq, Eq, Structural)]
pub enum ListType {
    Ordered,
    Unordered,
}

/// A list of content nodes with a kind fixed at construction.
#[derive(Debug)]
pub struct ContentList {
    pub list_type: ListType,
    pub content: Vec<Content>,
}

/// One node of a section's body: a text leaf (which may hold embedded
/// newlines), a nested list, or an explicit line break.
#[derive(Debug)]
pub enum Content {
    Text(String),
    List(ContentList),
    BR,
}

/// Mathematical model of a `Content` node.
#[verifier::ext_equal]
pub ghost enum ContentV {
    Text(Seq<char>),
    List(ListV),
    BR,
}

/// Mathematical model of a `ContentList`.
#[verifier::ext_equal]
pub ghost struct ListV {
    pub list_type: ListType,
    pub items: Seq<ContentV>,
}

impl Content {
    /// Model of this node, with strings as character sequences.
    pub open spec fn model(self) -> ContentV
        decreases self, 0int,
    {
        match self {
            Content::Text(s) => ContentV::Text(s@),
            Content::List(l) => ContentV::List(l.model()),
            Content::BR => ContentV::BR,
        }
    }
}

/// The models of a sequence of nodes, in order.
pub open spec fn models_of(s: Seq<Content>) -> Seq<ContentV>
    decreases s, 0int,
{
    if s.len() == 0 {
        Seq::empty()
    } else {
        models_of(s.drop_last()).push(s.last().model())
    }
}

/// `models_of` maps the sequence elementwise.
pub proof fn lemma_models_of(s: Seq<Content>)
    ensures
        models_of(s).len() == s.len(),
        forall|i: int| 0 <= i < s.len() ==> models_of(s)[i] == s[i].model(),
    decreases s.len(),
{
    if s.len() != 0 {
        lemma_models_of(s.drop_last());
    }
}

/// Appending a node appends its model.
pub proof fn lemma_models_of_push(s: Seq<Content>, c: Content)
    ensures
        models_of(s.push(c)) == models_of(s).push(c.model()),
{
    assert(s.push(c).drop_last() =~= s);
    assert(s.push(c).last() == c);
    assert(models_of(s.push(c)) =~= models_of(s).push(c.model()));
}

impl ContentList {
    /// Model of this list, with every child node modelled in order.
    pub open spec fn model(self) -> ListV
        decreases self, 1int,
    {
        ListV { list_type: self.list_type, items: models_of(self.content@) }
    }

    /// Builds an empty list of the given kind.
    pub fn new(list_type: ListType) -> (r: Self)
        ensures
            r.model() == (ListV { list_type, items: Seq::<ContentV>::empty() }),
    {
        let r = ContentList { list_type, content: Vec::new() };
        proof {
            assert(r.model() =~= ListV { list_type, items: Seq::<ContentV>::empty() });
        }
        r
    }
}

impl Clone for Content {
    /// The copy models the same node.
    fn clone(&self) -> (r: Self)
        ensures
            r.model() == self.model(),
        decreases *self,
    {
        match self {
            Content::Text(s) => Content::Text(s.clone()),
            Content::List(l) => Content::List(l.clone()),
            Content::BR => Content::BR,
        }
    }
}

impl Clone for ContentList {
    /// The copy models the same list.
    fn clone(&self) -> (r: Self)
        ensures
            r.model() == self.model(),
        decreases *self,
    {
        let mut content: Vec<Content> = Vec::new();
        let mut i: usize = 0;
        while i < self.content.len()
            invariant
                i <= self.content@.len(),
                content@.len() == i,
                forall|j: int|
                    0 <= j < i ==> content@[j].model() == self.content@[j].model(),
            decreases self.content@.len() - i,
        {
            proof {
                assert(decreases_to!(*self => self.content));
                assert(decreases_to!(self.content => self.content@[i as int]));
            }
            content.push(self.content[i].clone());
            i = i + 1;
        }
        let r = ContentList { list_type: self.list_type, content };
        proof {
            lemma_models_of(r.content@);
            lemma_models_of(self.content@);
            assert(r.model().items =~= self.model().items);
            assert(r.model() =~= self.model());
        }
        r
    }
}

/// A container whose elements sit in one ordered backing sequence.
pub trait ContentDependency<T>: Sized {
    /// The backing sequence.
    spec fn content_seq(&self) -> Seq<T>;

    /// Appends an element at the end of the backing sequence.
    fn add(&mut self, elem: T)
        ensures
            final(self).content_seq() == old(self).content_seq().push(elem),
    ;

    /// Inserts an element at the given position of the backing sequence.
    fn add_in_position(&mut self, index: usize, elem: T)
        requires
            index <= old(self).content_seq().len(),
        ensures
            final(self).content_seq() == old(self).content_seq().insert(index as int, elem),
    ;
}

impl ContentDependency<Content> for ContentList {
    open spec fn content_seq(&self) -> Seq<Content> {
        self.content@
    }

    fn add(&mut self, elem: Content) {
        self.content.push(elem);
    }

    fn add_in_position(&mut self, index: usize, elem: Content) {
        self.content.insert(index, elem);
    }
}

/// Whether a list child gets a marker of its own: text and line breaks do,
/// nested lists do not.
pub open spec fn is_prefixable(c: ContentV) -> bool {
    match c {
        ContentV::List(_) => false,
        _ => true,
    }
}

/// How many of the first `k` items get a marker.
pub open spec fn prefix_count(items: Seq<ContentV>, k: int) -> nat
    decreases k,
{
    if k <= 0 {
        0
    } else {
        prefix_count(items, k - 1) + (if is_prefixable(items[k - 1]) {
            1nat
        } else {
            0nat
        })
    }
}

/// No more of the first `k` items get a marker than there are such items.
pub proof fn lemma_prefix_count_le(items: Seq<ContentV>, k: int)
    ensures
        prefix_count(items, k) <= (if k <= 0 {
            0int
        } else {
            k
        }),
    decreases k,
{
    if k > 0 {
        lemma_prefix_count_le(items, k - 1);
    }
}

/// The marker put before the `n`th prefixed item of a list at the given
/// indentation level: `"{level+1}.{n} "` for an ordered list, `"- "` for an
/// unordered one.
pub open spec fn marker(list_type: ListType, indent: nat, n: nat) -> Seq<char> {
    match list_type {
        ListType::Ordered => dec_digits(spec_next_level(indent)) + seq!['.'] + dec_digits(n)
            + seq![' '],
        ListType::Unordered => seq!['-', ' '],
    }
}

/// One line of output for every piece of every line of the body: the line is
/// split on embedded newlines, each piece of width `effective_width` starts
/// with the indentation spaces and ends with a newline.
pub open spec fn emit_lines(lines: Seq<Seq<char>>, indent: nat) -> Seq<char>
    decreases lines.len(),
{
    if lines.len() == 0 {
        Seq::empty()
    } else {
        emit_lines(lines.drop_last(), indent) + emit_chunks(
            chunks_of(lines.last(), spec_effective_width(indent)),
            indent * (INDENTATION_SIZE as nat),
        )
    }
}

/// The rendering of a text body: split on newlines, hard-wrapped, indented.
pub open spec fn wrap_text(s: Seq<char>, indent: nat) -> Seq<char> {
    emit_lines(split_lines(s), indent)
}

/// The rendering of one content node at an indentation level.
pub open spec fn render_content(c: ContentV, indent: nat) -> Seq<char>
    decreases c, 0int, 0int,
{
    match c {
        ContentV::Text(s) => wrap_text(s, indent),
        ContentV::BR => seq!['\n'],
        ContentV::List(l) => render_list(l, indent),
    }
}

/// The rendering of a list: its items in order, each contributing
/// `item_render`.
pub open spec fn render_list(l: ListV, indent: nat) -> Seq<char>
    decreases l, 2int, 0int,
{
    render_items_upto(l.list_type, l.items, indent, l.items.len() as int)
}

/// The contributions of the first `k` items of a list, concatenated.
pub open spec fn render_items_upto(
    list_type: ListType,
    items: Seq<ContentV>,
    indent: nat,
    k: int,
) -> Seq<char>
    decreases items, 1int, k,
{
    if k <= 0 {
        Seq::empty()
    } else {
        render_items_upto(list_type, items, indent, k - 1) + item_render(
            list_type,
            items,
            indent,
            k - 1,
        )
    }
}

/// The contribution of item `k` of a list rendered at level `indent`: a
/// prefixable item gets the indentation spaces, its marker, and its own
/// rendering at level zero; a nested list is rendered one level deeper with
/// no marker of its own.
pub open spec fn item_render(list_type: ListType, items: Seq<ContentV>, indent: nat, k: int) -> Seq<
    char,
>
    decreases items, 0int, 0int,
{
    if 0 <= k < items.len() {
        match items[k] {
            ContentV::List(_) => render_content(items[k], spec_next_level(indent)),
            _ => spaces(indent * (INDENTATION_SIZE as nat)) + marker(
                list_type,
                indent,
                prefix_count(items, k) + 1,
            ) + render_content(items[k], 0),
        }
    } else {
        Seq::empty()
    }
}

/// Appends the spaces for `levels` levels of indentation.
pub fn push_indent(out: &mut Vec<char>, levels: usize)
    ensures
        final(out)@ == old(out)@ + spaces((levels as nat) * (INDENTATION_SIZE as nat)),
{
    let mut i: usize = 0;
    while i < levels
        invariant
            i <= levels,
            out@ == old(out)@ + spaces((i as nat) * (INDENTATION_SIZE as nat)),
        decreases levels - i,
    {
        push_spaces(out, INDENTATION_SIZE);
        proof {
            assert(spaces(((i + 1) as nat) * (INDENTATION_SIZE as nat)) =~= spaces(
                (i as nat) * (INDENTATION_SIZE as nat),
            ) + spaces(INDENTATION_SIZE as nat));
        }
        i = i + 1;
    }
}

/// Appends the marker for the `n`th prefixed item at the given level.
pub fn push_marker(out: &mut Vec<char>, list_type: ListType, indent: usize, n: usize)
    ensures
        final(out)@ == old(out)@ + marker(list_type, indent as nat, n as nat),
{
    match list_type {
        ListType::Ordered => {
            push_decimal(out, next_level(indent));
            out.push('.');
            push_decimal(out, n);
            out.push(' ');
            proof {
                assert(out@ =~= old(out)@ + marker(ListType::Ordered, indent as nat, n as nat));
            }
        },
        ListType::Unordered => {
            out.push('-');
            out.push(' ');
            proof {
                assert(out@ =~= old(out)@ + marker(ListType::Unordered, indent as nat, n as nat));
            }
        },
    }
}

/// Appends one line's pieces, each on its own output line.
fn flush_line(line: &Vec<char>, indent: usize, w: usize, out: &mut Vec<char>)
    requires
        w == spec_effective_width(indent as nat),
    ensures
        final(out)@ == old(out)@ + emit_chunks(
            chunks_of(line@, w as nat),
            (indent as nat) * (INDENTATION_SIZE as nat),
        ),
{
    let ghost sp = (indent as nat) * (INDENTATION_SIZE as nat);
    let ghost total = emit_chunks(chunks_of(line@, w as nat), sp);
    let mut i: usize = 0;
    proof {
        assert(line@.skip(0) =~= line@);
    }
    loop
        invariant_except_break
            w == spec_effective_width(indent as nat),
            1 <= w,
            sp == (indent as nat) * (INDENTATION_SIZE as nat),
            total == emit_chunks(chunks_of(line@, w as nat), sp),
            i <= line@.len(),
            out@ + emit_chunks(chunks_of(line@.skip(i as int), w as nat), sp) == old(out)@ + total,
        ensures
            out@ == old(out)@ + total,
        decreases line@.len() - i,
    {
        let rem = line.len() - i;
        let end = if rem > w {
            i + w
        } else {
            line.len()
        };
        let ghost before = out@;
        push_indent(out, indent);
        proof {
            assert(line@.subrange(i as int, i as int) =~= Seq::<char>::empty());
            assert(out@ =~= before + spaces(sp) + line@.subrange(i as int, i as int));
        }
        let mut j: usize = i;
        while j < end
            invariant
                i <= j <= end <= line@.len(),
                out@ == before + spaces(sp) + line@.subrange(i as int, j as int),
            decreases end - j,
        {
            out.push(line[j]);
            proof {
                assert(line@.subrange(i as int, (j + 1) as int) =~= line@.subrange(
                    i as int,
                    j as int,
                ).push(line@[j as int]));
                assert(out@ =~= before + spaces(sp) + line@.subrange(i as int, (j + 1) as int));
            }
            j = j + 1;
        }
        out.push('\n');
        proof {
            let remseq = line@.skip(i as int);
            if remseq.len() > w as nat {
                assert(chunks_of(remseq, w as nat) == seq![remseq.take(w as int)] + chunks_of(
                    remseq.skip(w as int),
                    w as nat,
                ));
                crate::textops::lemma_emit_chunks_cons(
                    remseq.take(w as int),
                    chunks_of(remseq.skip(w as int), w as nat),
                    sp,
                );
                assert(remseq.take(w as int) =~= line@.subrange(i as int, end as int));
                assert(remseq.skip(w as int) =~= line@.skip(end as int));
                assert(out@ =~= before + spaces(sp) + line@.subrange(i as int, end as int)
                    + seq!['\n']);
                assert(out@ + emit_chunks(chunks_of(line@.skip(end as int), w as nat), sp)
                    =~= old(out)@ + total);
            } else {
                assert(chunks_of(remseq, w as nat) == seq![remseq]);
                crate::textops::lemma_emit_chunks_one(remseq, sp);
                assert(remseq =~= line@.subrange(i as int, end as int));
                assert(out@ =~= before + spaces(sp) + line@.subrange(i as int, end as int)
                    + seq!['\n']);
                assert(out@ =~= old(out)@ + total);
            }
        }
        if end == line.len() && line.len() - i <= w {
            break;
        }
        i = end;
    }
}

/// Appends the wrapped, indented rendering of a text body.
fn wrap_text_into(s: &str, indent: usize, out: &mut Vec<char>)
    ensures
        final(out)@ == old(out)@ + wrap_text(s@, indent as nat),
{
    let cs = str_chars(s);
    let w = effective_width(indent);
    let mut cur: Vec<char> = Vec::new();
    let mut i: usize = 0;
    while i < cs.len()
        invariant
            i <= cs@.len(),
            cs@ == s@,
            w == spec_effective_width(indent as nat),
            out@ == old(out)@ + emit_lines(
                split_lines(cs@.take(i as int)).drop_last(),
                indent as nat,
            ),
            cur@ == split_lines(cs@.take(i as int)).last(),
        decreases cs@.len() - i,
    {
        let c = cs[i];
        proof {
            assert(cs@.take((i + 1) as int) =~= cs@.take(i as int).push(c));
            assert(cs@.take((i + 1) as int).drop_last() =~= cs@.take(i as int));
            assert(cs@.take((i + 1) as int).last() == c);
            lemma_split_lines_nonempty(cs@.take(i as int));
        }
        if c == '\n' {
            flush_line(&cur, indent, w, out);
            cur = Vec::new();
            proof {
                let r = split_lines(cs@.take(i as int));
                assert(split_lines(cs@.take((i + 1) as int)) =~= r.push(Seq::<char>::empty()));
                assert(r.push(Seq::<char>::empty()).drop_last() =~= r);
                assert(out@ =~= old(out)@ + emit_lines(r, indent as nat));
            }
        } else {
            cur.push(c);
            proof {
                let r = split_lines(cs@.take(i as int));
                let r2 = r.update(r.len() - 1, r.last().push(c));
                assert(split_lines(cs@.take((i + 1) as int)) =~= r2);
                assert(r2.drop_last() =~= r.drop_last());
            }
        }
        i = i + 1;
    }
    proof {
        assert(cs@.take(cs@.len() as int) =~= cs@);
        lemma_split_lines_nonempty(cs@);
    }
    flush_line(&cur, indent, w, out);
}

impl Content {
    /// Appends the rendering of this node at the given level.
    pub(crate) fn render_into(&self, indent: usize, out: &mut Vec<char>)
        ensures
            final(out)@ == old(out)@ + render_content(self.model(), indent as nat),
        decreases *self, 0int,
    {
        match self {
            Content::Text(s) => {
                wrap_text_into(s.as_str(), indent, out);
            },
            Content::BR => {
                out.push('\n');
                proof {
                    assert(out@ =~= old(out)@ + seq!['\n']);
                }
            },
            Content::List(l) => {
                l.render_into(indent, out);
            },
        }
    }

    /// Renders this node at the given indentation level.
    pub fn to_string(&self, indentation: usize) -> (r: String)
        ensures
            r@ == render_content(self.model(), indentation as nat),
    {
        let mut out: Vec<char> = Vec::new();
        self.render_into(indentation, &mut out);
        string_from_chars(&out)
    }
}

impl ContentList {
    /// Appends the rendering of this list at the given level.
    pub(crate) fn render_into(&self, indent: usize, out: &mut Vec<char>)
        ensures
            final(out)@ == old(out)@ + render_list(self.model(), indent as nat),
        decreases *self, 1int,
    {
        let ghost m = self.model();
        proof {
            lemma_models_of(self.content@);
        }
        let mut counter: usize = 0;
        let mut k: usize = 0;
        while k < self.content.len()
            invariant
                k <= self.content@.len(),
                m == self.model(),
                m.items.len() == self.content@.len(),
                forall|j: int| 0 <= j < self.content@.len() ==> m.items[j] == self.content@[j].model(),
                counter == prefix_count(m.items, k as int),
                counter <= k,
                out@ == old(out)@ + render_items_upto(m.list_type, m.items, indent as nat, k as int),
            decreases self.content@.len() - k,
        {
            proof {
                assert(decreases_to!(*self => self.content));
                assert(decreases_to!(self.content => self.content@[k as int]));
                lemma_prefix_count_le(m.items, k as int);
            }
            let ghost out_k = out@;
            let c = &self.content[k];
            let mut prefixed = false;
            match c {
                Content::List(_) => {
                    c.render_into(next_level(indent), out);
                },
                _ => {
                    prefixed = true;
                    push_indent(out, indent);
                    push_marker(out, self.list_type, indent, counter + 1);
                    c.render_into(0, out);
                },
            }
            proof {
                if prefixed {
                    assert(out@ =~= out_k + item_render(
                        m.list_type,
                        m.items,
                        indent as nat,
                        k as int,
                    ));
                } else {
                    assert(item_render(m.list_type, m.items, indent as nat, k as int)
                        == render_content(m.items[k as int], spec_next_level(indent as nat)));
                }
                assert(out@ =~= old(out)@ + render_items_upto(
                    m.list_type,
                    m.items,
                    indent as nat,
                    (k + 1) as int,
                ));
            }
            if prefixed {
                counter = counter + 1;
            }
            k = k + 1;
        }
    }
}

} // verus!
