use vstd::prelude::*;

use crate::content::{Content, ContentList, ContentV, ListType, ListV};
use crate::events::{
    attr_models_of, event_models_of, lemma_attr_models_of, lemma_event_models_of, Attribute, AttrV,
    BuildError, EventV, ParseEvent,
};
use crate::page::{Page, PageV};
use crate::section::{Section, SectionV};
use crate::textops::{
    digit_of, digits_value, is_digit, lemma_digits_value_prefix_le, lemma_split_lines_nonempty,
    split_lines, str_chars, string_eq, string_from_chars, trim_chars, trim_vec,
};

verus! {

/// The value of `key` among `attrs`; with a repeated name the last
/// occurrence wins.
pub open spec fn attr_lookup(attrs: Seq<AttrV>, key: Seq<char>) -> Option<Seq<char>>
    decreases attrs.len(),
{
    if attrs.len() == 0 {
        None
    } else if attrs.last().name == key {
        Some(attrs.last().value)
    } else {
        attr_lookup(attrs.drop_last(), key)
    }
}

/// `s` with every carriage return removed.
pub open spec fn remove_cr(s: Seq<char>) -> Seq<char>
    decreases s.len(),
{
    if s.len() == 0 {
        Seq::empty()
    } else if s.last() == '\r' {
        remove_cr(s.drop_last())
    } else {
        remove_cr(s.drop_last()).push(s.last())
    }
}

/// One line of character data after normalization: trimmed, with a fully
/// blank line collapsed to a single paragraph-break newline.
pub open spec fn normalize_line(l: Seq<char>) -> Seq<char> {
    if trim_chars(l).len() == 0 {
        seq!['\n']
    } else {
        trim_chars(l)
    }
}

/// The normalized lines rejoined with no separator.
pub open spec fn join_normalized(lines: Seq<Seq<char>>) -> Seq<char>
    decreases lines.len(),
{
    if lines.len() == 0 {
        Seq::empty()
    } else {
        join_normalized(lines.drop_last()) + normalize_line(lines.last())
    }
}

/// Character-data normalization: strip carriage returns, trim each line,
/// collapse blank lines to a paragraph break, rejoin with no separator, and
/// trim the whole.
pub open spec fn normalize_chars(s: Seq<char>) -> Seq<char> {
    trim_chars(join_normalized(split_lines(remove_cr(s))))
}

/// What parsing a non-negative integer accepts: an optional leading plus,
/// then at least one decimal digit, denoting a value that fits the machine
/// word.
pub open spec fn all_digits(s: Seq<char>) -> bool {
    forall|i: int| 0 <= i < s.len() ==> is_digit(s[i])
}

pub open spec fn spec_parse_usize(s: Seq<char>) -> Option<nat> {
    let body = if s.len() >= 1 && s[0] == '+' {
        s.drop_first()
    } else {
        s
    };
    if body.len() >= 1 && all_digits(body) && digits_value(body) <= usize::MAX as nat {
        Some(digits_value(body))
    } else {
        None
    }
}

/// Mathematical model of the builder's state: the page under construction,
/// the open section, the stack of open lists (innermost last), and the open
/// text buffer.
#[verifier::ext_equal]
pub ghost struct StateV {
    pub page: Option<PageV>,
    pub section: Option<SectionV>,
    pub lists: Seq<ListV>,
    pub text: Option<Seq<char>>,
}

/// The state before any event: nothing open, no page.
pub open spec fn init_state() -> StateV {
    StateV { page: None, section: None, lists: Seq::empty(), text: None }
}

/// Appending a finished node in context: into the innermost open list if one
/// exists, else into the open section; with neither, the build fails.
pub open spec fn append_node(st: StateV, node: ContentV) -> Result<StateV, BuildError> {
    if st.lists.len() > 0 {
        let top = st.lists.last();
        Ok(
            StateV {
                lists: st.lists.update(
                    st.lists.len() - 1,
                    ListV { list_type: top.list_type, items: top.items.push(node) },
                ),
                ..st
            },
        )
    } else if st.section is Some {
        let sec = st.section->0;
        Ok(
            StateV {
                section: Some(
                    SectionV {
                        number: sec.number,
                        title: sec.title,
                        content: sec.content.push(node),
                    },
                ),
                ..st
            },
        )
    } else {
        Err(BuildError::StructureError)
    }
}

/// One transition of the builder's state machine.
pub open spec fn spec_step(st: StateV, ev: EventV) -> Result<StateV, BuildError> {
    match ev {
        EventV::StartTag { name, attributes } => {
            if name == "Page"@ {
                if st.page is Some {
                    Err(BuildError::StructureError)
                } else {
                    match attr_lookup(attributes, "title"@) {
                        Some(t) => Ok(
                            StateV {
                                page: Some(PageV { name: t, sections: Seq::empty() }),
                                ..st
                            },
                        ),
                        None => Err(BuildError::MissingAttributeError),
                    }
                }
            } else if name == "Section"@ {
                if st.section is Some {
                    Err(BuildError::StructureError)
                } else {
                    match attr_lookup(attributes, "number"@) {
                        None => Err(BuildError::MissingAttributeError),
                        Some(ns) => match spec_parse_usize(ns) {
                            None => Err(BuildError::AttributeFormatError),
                            Some(num) => match attr_lookup(attributes, "name"@) {
                                None => Err(BuildError::MissingAttributeError),
                                Some(t) => Ok(
                                    StateV {
                                        section: Some(
                                            SectionV {
                                                number: num,
                                                title: t,
                                                content: Seq::empty(),
                                            },
                                        ),
                                        ..st
                                    },
                                ),
                            },
                        },
                    }
                }
            } else if name == "Text"@ {
                if st.text is Some {
                    Err(BuildError::StructureError)
                } else {
                    Ok(StateV { text: Some(Seq::empty()), ..st })
                }
            } else if name == "List"@ {
                match attr_lookup(attributes, "type"@) {
                    None => Err(BuildError::MissingAttributeError),
                    Some(v) => if v == "Ordered"@ {
                        Ok(
                            StateV {
                                lists: st.lists.push(
                                    ListV { list_type: ListType::Ordered, items: Seq::empty() },
                                ),
                                ..st
                            },
                        )
                    } else if v == "Unordered"@ {
                        Ok(
                            StateV {
                                lists: st.lists.push(
                                    ListV { list_type: ListType::Unordered, items: Seq::empty() },
                                ),
                                ..st
                            },
                        )
                    } else {
                        Err(BuildError::InvalidEnumValueError)
                    },
                }
            } else if name == "br"@ {
                Ok(st)
            } else {
                Err(BuildError::UnknownTagError)
            }
        },
        EventV::EndTag { name } => {
            if name == "Section"@ {
                match st.section {
                    None => Err(BuildError::StructureError),
                    Some(sec) => match st.page {
                        None => Err(BuildError::StructureError),
                        Some(pg) => Ok(
                            StateV {
                                page: Some(
                                    PageV { name: pg.name, sections: pg.sections.push(sec) },
                                ),
                                section: None,
                                ..st
                            },
                        ),
                    },
                }
            } else if name == "Text"@ {
                match st.text {
                    None => Err(BuildError::StructureError),
                    Some(buf) => append_node(StateV { text: None, ..st }, ContentV::Text(buf)),
                }
            } else if name == "List"@ {
                if st.lists.len() == 0 {
                    Err(BuildError::StructureError)
                } else {
                    append_node(
                        StateV { lists: st.lists.drop_last(), ..st },
                        ContentV::List(st.lists.last()),
                    )
                }
            } else if name == "br"@ {
                append_node(st, ContentV::BR)
            } else {
                Ok(st)
            }
        },
        EventV::Characters { text } => {
            match st.text {
                Some(buf) => Ok(StateV { text: Some(buf + normalize_chars(text)), ..st }),
                None => Ok(st),
            }
        },
        EventV::ParseError => Err(BuildError::SourceParseError),
    }
}

/// The state machine run over a whole event sequence, stopping at the first
/// error.
pub open spec fn spec_run(st: StateV, evs: Seq<EventV>) -> Result<StateV, BuildError>
    decreases evs.len(),
{
    if evs.len() == 0 {
        Ok(st)
    } else {
        match spec_step(st, evs[0]) {
            Ok(s2) => spec_run(s2, evs.drop_first()),
            Err(e) => Err(e),
        }
    }
}

/// The terminal check: a build succeeds only with a page present and
/// nothing left open.
pub open spec fn spec_finish(st: StateV) -> Result<PageV, BuildError> {
    if st.page is Some && st.section is None && st.lists.len() == 0 && st.text is None {
        Ok(st.page->0)
    } else {
        Err(BuildError::StructureError)
    }
}

/// What building a document from an event sequence yields.
pub open spec fn spec_build(evs: Seq<EventV>) -> Result<PageV, BuildError> {
    match spec_run(init_state(), evs) {
        Ok(st) => spec_finish(st),
        Err(e) => Err(e),
    }
}

/// The models of a run of lists, in order.
pub open spec fn list_models_of(s: Seq<ContentList>) -> Seq<ListV>
    decreases s.len(),
{
    if s.len() == 0 {
        Seq::empty()
    } else {
        list_models_of(s.drop_last()).push(s.last().model())
    }
}

/// Appending a list appends its model.
pub proof fn lemma_list_models_of_push(s: Seq<ContentList>, x: ContentList)
    ensures
        list_models_of(s.push(x)) == list_models_of(s).push(x.model()),
{
    assert(s.push(x).drop_last() =~= s);
    assert(s.push(x).last() == x);
    assert(list_models_of(s.push(x)) =~= list_models_of(s).push(x.model()));
}

/// `list_models_of` maps the sequence elementwise.
pub proof fn lemma_list_models_of(s: Seq<ContentList>)
    ensures
        list_models_of(s).len() == s.len(),
        forall|i: int| 0 <= i < s.len() ==> list_models_of(s)[i] == s[i].model(),
    decreases s.len(),
{
    if s.len() != 0 {
        lemma_list_models_of(s.drop_last());
    }
}

/// Looks `key` up among the attributes; the last occurrence wins.
fn lookup_attr(attrs: &Vec<Attribute>, key: &str) -> (r: Option<String>)
    ensures
        match attr_lookup(attr_models_of(attrs@), key@) {
            Some(v) => r matches Some(s) && s@ == v,
            None => r is None,
        },
{
    proof {
        lemma_attr_models_of(attrs@);
        assert(attr_models_of(attrs@).take(attrs@.len() as int) =~= attr_models_of(attrs@));
    }
    let ghost m = attr_models_of(attrs@);
    let mut k: usize = attrs.len();
    while k > 0
        invariant
            k <= attrs@.len(),
            m == attr_models_of(attrs@),
            m.len() == attrs@.len(),
            forall|i: int| 0 <= i < attrs@.len() ==> m[i] == attrs@[i].model(),
            attr_lookup(m, key@) == attr_lookup(m.take(k as int), key@),
        decreases k,
    {
        k = k - 1;
        proof {
            assert(m.take((k + 1) as int).drop_last() =~= m.take(k as int));
            assert(m.take((k + 1) as int).last() == m[k as int]);
        }
        if string_eq(&attrs[k].name, key) {
            return Some(attrs[k].value.clone());
        }
    }
    proof {
        assert(m.take(0) =~= Seq::<AttrV>::empty());
    }
    None
}

/// Normalizes one batch of character data as the builder buffers it.
pub fn parse_characters(s: &str) -> (r: String)
    ensures
        r@ == normalize_chars(s@),
{
    let cs = str_chars(s);
    let mut vf: Vec<char> = Vec::new();
    let mut i: usize = 0;
    while i < cs.len()
        invariant
            i <= cs@.len(),
            vf@ == remove_cr(cs@.take(i as int)),
        decreases cs@.len() - i,
    {
        let c = cs[i];
        proof {
            assert(cs@.take((i + 1) as int).drop_last() =~= cs@.take(i as int));
            assert(cs@.take((i + 1) as int).last() == c);
        }
        if c != '\r' {
            vf.push(c);
        }
        i = i + 1;
    }
    proof {
        assert(cs@.take(cs@.len() as int) =~= cs@);
    }
    let mut out: Vec<char> = Vec::new();
    let mut cur: Vec<char> = Vec::new();
    let mut j: usize = 0;
    while j < vf.len()
        invariant
            j <= vf@.len(),
            out@ == join_normalized(split_lines(vf@.take(j as int)).drop_last()),
            cur@ == split_lines(vf@.take(j as int)).last(),
        decreases vf@.len() - j,
    {
        let c = vf[j];
        proof {
            assert(vf@.take((j + 1) as int).drop_last() =~= vf@.take(j as int));
            assert(vf@.take((j + 1) as int).last() == c);
            lemma_split_lines_nonempty(vf@.take(j as int));
        }
        if c == '\n' {
            let t = trim_vec(&cur);
            if t.len() == 0 {
                out.push('\n');
            } else {
                let mut tm = t;
                out.append(&mut tm);
            }
            cur = Vec::new();
            proof {
                let r = split_lines(vf@.take(j as int));
                assert(split_lines(vf@.take((j + 1) as int)) =~= r.push(Seq::<char>::empty()));
                assert(r.push(Seq::<char>::empty()).drop_last() =~= r);
                assert(out@ =~= join_normalized(r));
            }
        } else {
            cur.push(c);
            proof {
                let r = split_lines(vf@.take(j as int));
                let r2 = r.update(r.len() - 1, r.last().push(c));
                assert(split_lines(vf@.take((j + 1) as int)) =~= r2);
                assert(r2.drop_last() =~= r.drop_last());
            }
        }
        j = j + 1;
    }
    proof {
        assert(vf@.take(vf@.len() as int) =~= vf@);
        lemma_split_lines_nonempty(vf@);
    }
    let t = trim_vec(&cur);
    if t.len() == 0 {
        out.push('\n');
    } else {
        let mut tm = t;
        out.append(&mut tm);
    }
    proof {
        assert(out@ =~= join_normalized(split_lines(vf@)));
    }
    let rf = trim_vec(&out);
    string_from_chars(&rf)
}

/// Parses a non-negative integer: an optional leading plus, then decimal
/// digits, rejecting values that do not fit the machine word.
pub fn parse_usize(s: &String) -> (r: Option<usize>)
    ensures
        match spec_parse_usize(s@) {
            Some(v) => r matches Some(u) && u as nat == v,
            None => r is None,
        },
{
    let cs = str_chars(s.as_str());
    let start: usize = if cs.len() >= 1 && cs[0] == '+' {
        1
    } else {
        0
    };
    let ghost body = if start == 1 {
        s@.drop_first()
    } else {
        s@
    };
    proof {
        assert(body =~= cs@.skip(start as int));
    }
    if cs.len() == start {
        return None;
    }
    let mut acc: usize = 0;
    let mut i: usize = start;
    while i < cs.len()
        invariant
            start <= i <= cs@.len(),
            start == 0 || start == 1,
            body == cs@.skip(start as int),
            (if start == 1 {
                cs@.len() >= 1 && cs@[0] == '+'
            } else {
                true
            }),
            body == (if s@.len() >= 1 && s@[0] == '+' {
                s@.drop_first()
            } else {
                s@
            }),
            cs@ == s@,
            body.len() == cs@.len() - start,
            forall|q: int| 0 <= q < i - start ==> is_digit(body[q]),
            acc == digits_value(body.take((i - start) as int)),
        decreases cs@.len() - i,
    {
        let c = cs[i];
        proof {
            assert(body[(i - start) as int] == cs@[i as int]);
        }
        match digit_of(c) {
            None => {
                proof {
                    let sbody = if s@.len() >= 1 && s@[0] == '+' {
                        s@.drop_first()
                    } else {
                        s@
                    };
                    assert(sbody == body);
                    assert(0 <= i - start < sbody.len());
                    assert(!is_digit(sbody[(i - start) as int]));
                    assert(!all_digits(sbody)) by {
                        assert(0 <= i - start < sbody.len() && !is_digit(
                            sbody[(i - start) as int],
                        ));
                    };
                    assert(spec_parse_usize(s@) is None);
                }
                return None;
            },
            Some(d) => {
                proof {
                    assert(body.take((i + 1 - start) as int).drop_last() =~= body.take(
                        (i - start) as int,
                    ));
                    assert(body.take((i + 1 - start) as int).last() == body[(i - start) as int]);
                }
                if acc > (usize::MAX - d) / 10 {
                    proof {
                        assert(usize::MAX - d == 10 * ((usize::MAX - d) / 10) + (usize::MAX
                            - d) % 10) by (nonlinear_arith);
                        assert(acc * 10 >= ((usize::MAX - d) / 10) * 10 + 10) by (nonlinear_arith)
                            requires acc >= (usize::MAX - d) / 10 + 1;
                        assert(acc * 10 + d > usize::MAX);
                        assert(digits_value(body.take((i + 1 - start) as int)) > usize::MAX as nat);
                        lemma_digits_value_prefix_le(body, (i + 1 - start) as int);
                        assert(digits_value(body) > usize::MAX as nat);
                    }
                    return None;
                }
                proof {
                    assert(acc * 10 <= ((usize::MAX - d) / 10) * 10) by (nonlinear_arith)
                        requires acc <= (usize::MAX - d) / 10;
                    assert(((usize::MAX - d) / 10) * 10 <= usize::MAX - d);
                }
                acc = acc * 10 + d;
            },
        }
        i = i + 1;
    }
    proof {
        assert(body.take((i - start) as int) =~= body);
    }
    Some(acc)
}

/// The builder's working state: the page, the open section, the stack of
/// open lists (innermost last), and the open text buffer.
struct BuildState {
    page: Option<Page>,
    section: Option<Section>,
    lists: Vec<ContentList>,
    text: Option<String>,
}

impl BuildState {
    /// Model of this state.
    spec fn model(self) -> StateV {
        StateV {
            page: match self.page {
                Some(p) => Some(p.model()),
                None => None,
            },
            section: match self.section {
                Some(s) => Some(s.model()),
                None => None,
            },
            lists: list_models_of(self.lists@),
            text: match self.text {
                Some(t) => Some(t@),
                None => None,
            },
        }
    }
}

/// Appends a finished node to the innermost open list, or else to the open
/// section.
fn add_in_context(st: &mut BuildState, node: Content) -> (r: Result<(), BuildError>)
    ensures
        match append_node(old(st).model(), node.model()) {
            Ok(m2) => r is Ok && final(st).model() == m2,
            Err(e) => r == Err::<(), BuildError>(e),
        },
{
    let ghost m = st.model();
    match st.lists.pop() {
        Some(mut top) => {
            let ghost topm = top.model();
            let ghost oc = top.content@;
            top.content.push(node);
            proof {
                crate::content::lemma_models_of_push(oc, node);
                assert(top.model() =~= ListV {
                    list_type: topm.list_type,
                    items: topm.items.push(node.model()),
                });
                lemma_list_models_of(old(st).lists@);
                lemma_list_models_of(old(st).lists@.drop_last());
                assert(list_models_of(old(st).lists@.drop_last()) =~= m.lists.drop_last());
            }
            st.lists.push(top);
            proof {
                lemma_list_models_of_push(old(st).lists@.drop_last(), top);
                assert(list_models_of(st.lists@) =~= m.lists.update(
                    m.lists.len() - 1,
                    ListV { list_type: topm.list_type, items: topm.items.push(node.model()) },
                ));
                assert(st.model() =~= append_node(m, node.model())->Ok_0);
            }
            Ok(())
        },
        None => {
            proof {
                assert(m.lists.len() == 0);
            }
            match st.section.take() {
                Some(mut sec) => {
                    let ghost secm = sec.model();
                    let ghost oc = sec.content@;
                    sec.content.push(node);
                    proof {
                        crate::content::lemma_models_of_push(oc, node);
                        assert(sec.model() =~= SectionV {
                            number: secm.number,
                            title: secm.title,
                            content: secm.content.push(node.model()),
                        });
                    }
                    st.section = Some(sec);
                    proof {
                        assert(st.model() =~= append_node(m, node.model())->Ok_0);
                    }
                    Ok(())
                },
                None => Err(BuildError::StructureError),
            }
        },
    }
}

/// Applies one start-tag event.
fn handle_start(st: &mut BuildState, name: String, attributes: Vec<Attribute>) -> (r: Result<
    (),
    BuildError,
>)
    ensures
        match spec_step(
            old(st).model(),
            EventV::StartTag { name: name@, attributes: attr_models_of(attributes@) },
        ) {
            Ok(m2) => r is Ok && final(st).model() == m2,
            Err(e) => r == Err::<(), BuildError>(e),
        },
{
    let ghost m = st.model();
    if string_eq(&name, "Page") {
        if st.page.is_some() {
            return Err(BuildError::StructureError);
        }
        match lookup_attr(&attributes, "title") {
            Some(t) => {
                st.page = Some(Page::new(t));
                proof {
                    assert(st.model() =~= StateV {
                        page: Some(
                            PageV {
                                name: attr_lookup(attr_models_of(attributes@), "title"@)->0,
                                sections: Seq::empty(),
                            },
                        ),
                        ..m
                    });
                }
                Ok(())
            },
            None => Err(BuildError::MissingAttributeError),
        }
    } else if string_eq(&name, "Section") {
        if st.section.is_some() {
            return Err(BuildError::StructureError);
        }
        match lookup_attr(&attributes, "number") {
            None => Err(BuildError::MissingAttributeError),
            Some(ns) => match parse_usize(&ns) {
                None => Err(BuildError::AttributeFormatError),
                Some(num) => match lookup_attr(&attributes, "name") {
                    None => Err(BuildError::MissingAttributeError),
                    Some(t) => {
                        st.section = Some(Section::new(num, t));
                        proof {
                            assert(st.model() =~= spec_step(
                                m,
                                EventV::StartTag {
                                    name: name@,
                                    attributes: attr_models_of(attributes@),
                                },
                            )->Ok_0);
                        }
                        Ok(())
                    },
                },
            },
        }
    } else if string_eq(&name, "Text") {
        if st.text.is_some() {
            return Err(BuildError::StructureError);
        }
        st.text = Some(String::new());
        proof {
            assert(st.model() =~= StateV { text: Some(Seq::<char>::empty()), ..m });
        }
        Ok(())
    } else if string_eq(&name, "List") {
        match lookup_attr(&attributes, "type") {
            None => Err(BuildError::MissingAttributeError),
            Some(v) => {
                if string_eq(&v, "Ordered") {
                    let nl = ContentList::new(ListType::Ordered);
                    st.lists.push(nl);
                    proof {
                        lemma_list_models_of_push(old(st).lists@, nl);
                        assert(st.model() =~= StateV {
                            lists: m.lists.push(
                                ListV { list_type: ListType::Ordered, items: Seq::empty() },
                            ),
                            ..m
                        });
                    }
                    Ok(())
                } else if string_eq(&v, "Unordered") {
                    let nl = ContentList::new(ListType::Unordered);
                    st.lists.push(nl);
                    proof {
                        lemma_list_models_of_push(old(st).lists@, nl);
                        assert(st.model() =~= StateV {
                            lists: m.lists.push(
                                ListV { list_type: ListType::Unordered, items: Seq::empty() },
                            ),
                            ..m
                        });
                    }
                    Ok(())
                } else {
                    Err(BuildError::InvalidEnumValueError)
                }
            },
        }
    } else if string_eq(&name, "br") {
        Ok(())
    } else {
        Err(BuildError::UnknownTagError)
    }
}

/// Applies one end-tag event.
fn handle_end(st: &mut BuildState, name: String) -> (r: Result<(), BuildError>)
    ensures
        match spec_step(old(st).model(), EventV::EndTag { name: name@ }) {
            Ok(m2) => r is Ok && final(st).model() == m2,
            Err(e) => r == Err::<(), BuildError>(e),
        },
{
    let ghost m = st.model();
    if string_eq(&name, "Section") {
        match st.section.take() {
            None => Err(BuildError::StructureError),
            Some(sec) => match st.page.take() {
                None => Err(BuildError::StructureError),
                Some(mut pg) => {
                    let ghost pgm = pg.model();
                    let ghost secm = sec.model();
                    let ghost os = pg.sections@;
                    pg.sections.push(sec);
                    proof {
                        crate::page::lemma_section_models_of_push(os, sec);
                        assert(pg.model() =~= PageV {
                            name: pgm.name,
                            sections: pgm.sections.push(secm),
                        });
                    }
                    st.page = Some(pg);
                    proof {
                        assert(st.model() =~= StateV {
                            page: Some(PageV { name: pgm.name, sections: pgm.sections.push(secm) }),
                            section: None,
                            ..m
                        });
                    }
                    Ok(())
                },
            },
        }
    } else if string_eq(&name, "Text") {
        match st.text.take() {
            None => Err(BuildError::StructureError),
            Some(buf) => {
                proof {
                    assert(st.model() =~= StateV { text: None, ..m });
                }
                add_in_context(st, Content::Text(buf))
            },
        }
    } else if string_eq(&name, "List") {
        match st.lists.pop() {
            None => Err(BuildError::StructureError),
            Some(top) => {
                proof {
                    assert(list_models_of(st.lists@) =~= m.lists.drop_last());
                    assert(st.model() =~= StateV { lists: m.lists.drop_last(), ..m });
                    assert(top.model() == m.lists.last());
                }
                add_in_context(st, Content::List(top))
            },
        }
    } else if string_eq(&name, "br") {
        add_in_context(st, Content::BR)
    } else {
        Ok(())
    }
}

/// Applies one character-data event: outside a text element the characters
/// are insignificant and ignored.
fn handle_chars(st: &mut BuildState, text: String) -> (r: Result<(), BuildError>)
    ensures
        match spec_step(old(st).model(), EventV::Characters { text: text@ }) {
            Ok(m2) => r is Ok && final(st).model() == m2,
            Err(e) => r == Err::<(), BuildError>(e),
        },
{
    let ghost m = st.model();
    match st.text.take() {
        Some(mut buf) => {
            let n = parse_characters(text.as_str());
            buf.append(n.as_str());
            st.text = Some(buf);
            proof {
                assert(st.model() =~= StateV {
                    text: Some(m.text->0 + normalize_chars(text@)),
                    ..m
                });
            }
            Ok(())
        },
        None => {
            proof {
                assert(st.model() =~= m);
            }
            Ok(())
        },
    }
}

/// Applies one event to the builder's state.
fn apply_event(st: &mut BuildState, ev: ParseEvent) -> (r: Result<(), BuildError>)
    ensures
        match spec_step(old(st).model(), ev.model()) {
            Ok(m2) => r is Ok && final(st).model() == m2,
            Err(e) => r == Err::<(), BuildError>(e),
        },
{
    match ev {
        ParseEvent::StartTag { name, attributes } => handle_start(st, name, attributes),
        ParseEvent::EndTag { name } => handle_end(st, name),
        ParseEvent::Characters { text } => handle_chars(st, text),
        ParseEvent::ParseError => Err(BuildError::SourceParseError),
    }
}

impl Page {
    /// Builds a page from an ordered sequence of markup events, enforcing
    /// the nesting and attribute rules, and fails on the first violation.
    pub fn from_events(events: Vec<ParseEvent>) -> (r: Result<Page, BuildError>)
        ensures
            match spec_build(event_models_of(events@)) {
                Ok(pv) => r matches Ok(p) && p.model() == pv,
                Err(e) => r matches Err(e2) && e2 == e,
            },
    {
        let ghost all = event_models_of(events@);
        let mut st = BuildState { page: None, section: None, lists: Vec::new(), text: None };
        let mut evs = events;
        proof {
            lemma_event_models_of(events@);
            assert(list_models_of(st.lists@) =~= Seq::<ListV>::empty());
            assert(st.model() =~= init_state());
            assert(event_models_of(evs@) == all);
        }
        while evs.len() > 0
            invariant
                all == event_models_of(events@),
                spec_run(st.model(), event_models_of(evs@)) == spec_run(init_state(), all),
            decreases evs@.len(),
        {
            let ghost before = st.model();
            let ghost pre = evs@;
            let ghost remaining = event_models_of(pre);
            let ev = evs.remove(0);
            proof {
                lemma_event_models_of(pre);
                lemma_event_models_of(evs@);
                assert(evs@ =~= pre.drop_first());
                assert(event_models_of(evs@) =~= remaining.drop_first());
                assert(ev.model() == remaining[0]);
            }
            match apply_event(&mut st, ev) {
                Ok(_) => {
                    proof {
                        assert(spec_run(before, remaining) == spec_run(
                            st.model(),
                            event_models_of(evs@),
                        ));
                    }
                },
                Err(e) => {
                    proof {
                        assert(spec_run(before, remaining) == Err::<StateV, BuildError>(e));
                    }
                    return Err(e);
                },
            }
        }
        proof {
            assert(event_models_of(evs@) =~= Seq::<EventV>::empty());
            assert(spec_run(init_state(), all) == Ok::<StateV, BuildError>(st.model()));
        }
        let ghost mfin = st.model();
        match st.page.take() {
            None => Err(BuildError::StructureError),
            Some(p) => {
                if st.section.is_some() {
                    return Err(BuildError::StructureError);
                }
                if st.lists.len() > 0 {
                    return Err(BuildError::StructureError);
                }
                if st.text.is_some() {
                    return Err(BuildError::StructureError);
                }
                proof {
                    assert(spec_finish(mfin) == Ok::<PageV, BuildError>(p.model()));
                }
                Ok(p)
            },
        }
    }
}

} // verus!
