use vstd::prelude::*;

use crate::content::{
    Content, ContentDependency, ContentV, lemma_models_of, models_of, render_content,
};
use crate::textops::{dashes, dec_digits, push_dashes, push_decimal, str_chars, string_from_chars};

verus! {

/// Mathematical model of a `Section`.
#[verifier::ext_equal]
pub ghost struct SectionV {
    pub number: nat,
    pub title: Seq<char>,
    pub content: Seq<ContentV>,
}

/// A numbered, titled run of content nodes. The number is author-assigned
/// and not checked for uniqueness or order.
#[derive(Debug)]
pub struct Section {
    pub section_num: usize,
    pub title: String,
    pub content: Vec<Content>,
}

/// The renderings of a run of nodes, concatenated in order.
pub open spec fn render_nodes(content: Seq<ContentV>, indent: nat) -> Seq<char>
    decreases content,
{
    if content.len() == 0 {
        Seq::empty()
    } else {
        render_nodes(content.drop_last(), indent) + render_content(content.last(), indent)
    }
}

/// The header line of a section: `"{number}. {title}"`.
pub open spec fn section_header(s: SectionV) -> Seq<char> {
    dec_digits(s.number) + seq!['.', ' '] + s.title
}

/// The rendering of a section: a blank line, the header, an underline of
/// dashes as long as the header, then every content node in order at the
/// given indentation level.
pub open spec fn render_section(s: SectionV, indent: nat) -> Seq<char> {
    seq!['\n'] + section_header(s) + seq!['\n'] + dashes(section_header(s).len()) + seq!['\n']
        + render_nodes(s.content, indent)
}

impl Section {
    /// Model of this section.
    pub open spec fn model(self) -> SectionV {
        SectionV {
            number: self.section_num as nat,
            title: self.title@,
            content: models_of(self.content@),
        }
    }

    /// Builds an empty section with the given number and title.
    pub fn new(section_num: usize, title: String) -> (r: Self)
        ensures
            r.model() == (SectionV {
                number: section_num as nat,
                title: title@,
                content: Seq::<ContentV>::empty(),
            }),
    {
        let r = Section { section_num, title, content: Vec::new() };
        proof {
            assert(models_of(r.content@) =~= Seq::<ContentV>::empty());
            assert(r.model() =~= SectionV {
                number: section_num as nat,
                title: r.title@,
                content: Seq::<ContentV>::empty(),
            });
        }
        r
    }

    /// Appends the rendering of this section at the given level.
    pub(crate) fn render_into(&self, indent: usize, out: &mut Vec<char>)
        ensures
            final(out)@ == old(out)@ + render_section(self.model(), indent as nat),
    {
        let ghost m = self.model();
        out.push('\n');
        let hstart = out.len();
        push_decimal(out, self.section_num);
        out.push('.');
        out.push(' ');
        let mut tv = str_chars(self.title.as_str());
        out.append(&mut tv);
        let hlen = out.len() - hstart;
        proof {
            assert(out@ =~= old(out)@ + seq!['\n'] + section_header(m));
            assert(hlen == section_header(m).len());
        }
        out.push('\n');
        push_dashes(out, hlen);
        out.push('\n');
        let ghost head = out@;
        proof {
            assert(head =~= old(out)@ + seq!['\n'] + section_header(m) + seq!['\n'] + dashes(
                section_header(m).len(),
            ) + seq!['\n']);
            lemma_models_of(self.content@);
            assert(m.content.take(0) =~= Seq::<ContentV>::empty());
        }
        let mut k: usize = 0;
        while k < self.content.len()
            invariant
                k <= self.content@.len(),
                m == self.model(),
                m.content.len() == self.content@.len(),
                forall|j: int| 0 <= j < self.content@.len() ==> m.content[j] == self.content@[j].model(),
                out@ == head + render_nodes(m.content.take(k as int), indent as nat),
                head == old(out)@ + seq!['\n'] + section_header(m) + seq!['\n'] + dashes(
                    section_header(m).len(),
                ) + seq!['\n'],
            decreases self.content@.len() - k,
        {
            self.content[k].render_into(indent, out);
            proof {
                assert(m.content.take((k + 1) as int).drop_last() =~= m.content.take(k as int));
                assert(m.content.take((k + 1) as int).last() == m.content[k as int]);
                assert(out@ =~= head + render_nodes(m.content.take((k + 1) as int), indent as nat));
            }
            k = k + 1;
        }
        proof {
            assert(m.content.take(m.content.len() as int) =~= m.content);
            assert(out@ =~= old(out)@ + render_section(m, indent as nat));
        }
    }

    /// Renders this section at the given indentation level.
    pub fn to_string(&self, indentation: usize) -> (r: String)
        ensures
            r@ == render_section(self.model(), indentation as nat),
    {
        let mut out: Vec<char> = Vec::new();
        self.render_into(indentation, &mut out);
        string_from_chars(&out)
    }
}

impl ContentDependency<Content> for Section {
    open spec fn content_seq(&self) -> Seq<Content> {
        self.content@
    }

    fn add(&mut self, elem: Content) {
        self.content.push(elem);
    }

    fn add_in_position(&mut self, index: usize, elem: Content) {
        self.content.insert(index, elem);
    }
}

} // verus!
