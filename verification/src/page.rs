use vstd::prelude::*;

use crate::content::ContentDependency;
use crate::section::{Section, SectionV, render_section};
use crate::textops::{push_spaces, spaces, str_chars, string_from_chars};
use crate::MAX_TEXT_LEN;

verus! {

/// Mathematical model of a `Page`.
#[verifier::ext_equal]
pub ghost struct PageV {
    pub name: Seq<char>,
    pub sections: Seq<SectionV>,
}

/// The root of a document: a titled, ordered run of sections.
#[derive(Debug)]
pub struct Page {
    pub name: String,
    pub sections: Vec<Section>,
}

/// The models of a run of sections, in order.
pub open spec fn section_models_of(s: Seq<Section>) -> Seq<SectionV>
    decreases s.len(),
{
    if s.len() == 0 {
        Seq::empty()
    } else {
        section_models_of(s.drop_last()).push(s.last().model())
    }
}

/// `section_models_of` maps the sequence elementwise.
pub proof fn lemma_section_models_of(s: Seq<Section>)
    ensures
        section_models_of(s).len() == s.len(),
        forall|i: int| 0 <= i < s.len() ==> section_models_of(s)[i] == s[i].model(),
    decreases s.len(),
{
    if s.len() != 0 {
        lemma_section_models_of(s.drop_last());
    }
}

/// Appending a section appends its model.
pub proof fn lemma_section_models_of_push(s: Seq<Section>, x: Section)
    ensures
        section_models_of(s.push(x)) == section_models_of(s).push(x.model()),
{
    assert(s.push(x).drop_last() =~= s);
    assert(s.push(x).last() == x);
    assert(section_models_of(s.push(x)) =~= section_models_of(s).push(x.model()));
}

/// Spaces put before the title banner so that it sits roughly centered in
/// the maximum line width; none when the title is too long for that.
pub open spec fn title_pad(name_len: nat) -> nat {
    let half = (name_len + 2) / 2;
    if half <= (MAX_TEXT_LEN as nat) / 2 {
        ((MAX_TEXT_LEN as nat) / 2 - half) as nat
    } else {
        0
    }
}

/// The renderings of a run of sections, concatenated in order.
pub open spec fn render_sections(ss: Seq<SectionV>, indent: nat) -> Seq<char>
    decreases ss.len(),
{
    if ss.len() == 0 {
        Seq::empty()
    } else {
        render_sections(ss.drop_last(), indent) + render_section(ss.last(), indent)
    }
}

/// The rendering of a page: the centered title banner `"# {name}"`, then
/// every section in order at the given indentation level.
pub open spec fn render_page(p: PageV, indent: nat) -> Seq<char> {
    spaces(title_pad(p.name.len())) + seq!['#', ' '] + p.name + seq!['\n'] + render_sections(
        p.sections,
        indent,
    )
}

impl Page {
    /// Model of this page.
    pub open spec fn model(self) -> PageV {
        PageV { name: self.name@, sections: section_models_of(self.sections@) }
    }

    /// Builds a page with the given name and no sections.
    pub fn new(name: String) -> (r: Self)
        ensures
            r.model() == (PageV { name: name@, sections: Seq::<SectionV>::empty() }),
    {
        let r = Page { name, sections: Vec::new() };
        proof {
            assert(section_models_of(r.sections@) =~= Seq::<SectionV>::empty());
            assert(r.model() =~= PageV { name: r.name@, sections: Seq::<SectionV>::empty() });
        }
        r
    }

    /// Renders this page at the given indentation level.
    pub fn to_string(&self, indentation: usize) -> (r: String)
        ensures
            r@ == render_page(self.model(), indentation as nat),
    {
        let ghost m = self.model();
        let mut out: Vec<char> = Vec::new();
        let len = self.name.as_str().unicode_len();
        let half = len / 2 + 1;
        proof {
            assert(half == ((len as nat) + 2) / 2);
        }
        let pad = if half <= MAX_TEXT_LEN / 2 {
            MAX_TEXT_LEN / 2 - half
        } else {
            0
        };
        proof {
            assert(pad == title_pad(m.name.len()));
        }
        push_spaces(&mut out, pad);
        out.push('#');
        out.push(' ');
        let mut nv = str_chars(self.name.as_str());
        out.append(&mut nv);
        out.push('\n');
        let ghost head = out@;
        proof {
            assert(head =~= spaces(title_pad(m.name.len())) + seq!['#', ' '] + m.name
                + seq!['\n']);
            lemma_section_models_of(self.sections@);
            assert(m.sections.take(0) =~= Seq::<SectionV>::empty());
        }
        let mut k: usize = 0;
        while k < self.sections.len()
            invariant
                k <= self.sections@.len(),
                m == self.model(),
                m.sections.len() == self.sections@.len(),
                forall|j: int|
                    0 <= j < self.sections@.len() ==> m.sections[j] == self.sections@[j].model(),
                out@ == head + render_sections(m.sections.take(k as int), indentation as nat),
                head == spaces(title_pad(m.name.len())) + seq!['#', ' '] + m.name + seq!['\n'],
            decreases self.sections@.len() - k,
        {
            self.sections[k].render_into(indentation, &mut out);
            proof {
                assert(m.sections.take((k + 1) as int).drop_last() =~= m.sections.take(k as int));
                assert(m.sections.take((k + 1) as int).last() == m.sections[k as int]);
                assert(out@ =~= head + render_sections(
                    m.sections.take((k + 1) as int),
                    indentation as nat,
                ));
            }
            k = k + 1;
        }
        proof {
            assert(m.sections.take(m.sections.len() as int) =~= m.sections);
            assert(out@ =~= render_page(m, indentation as nat));
        }
        string_from_chars(&out)
    }
}

impl ContentDependency<Section> for Page {
    open spec fn content_seq(&self) -> Seq<Section> {
        self.sections@
    }

    fn add(&mut self, elem: Section) {
        self.sections.push(elem);
    }

    fn add_in_position(&mut self, index: usize, elem: Section) {
        self.sections.insert(index, elem);
    }
}

} // verus!
