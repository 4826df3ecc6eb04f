use vstd::prelude::*;

use crate::builder::{init_state, spec_build, spec_run, spec_step, StateV};
use crate::content::{
    emit_lines, is_prefixable, item_render, marker, prefix_count, render_content,
    render_items_upto, render_list, wrap_text, ContentV, ListType, ListV,
};
use crate::events::{AttrV, BuildError, EventV};
use crate::page::{render_page, render_sections, title_pad, PageV};
use crate::section::{render_nodes, render_section, section_header, SectionV};
use crate::textops::{
    chunks_of, concat_chunks, dashes, dec_digits, emit_chunks, newline_count, spaces, split_lines,
};
use crate::{spec_effective_width, spec_next_level, INDENTATION_SIZE, MAX_TEXT_LEN};
use vstd::arithmetic::div_mod::{lemma_fundamental_div_mod, lemma_fundamental_div_mod_converse};

verus! {

/// A page with no sections renders as the title banner alone: the centering
/// spaces, `"# "`, the name, and one newline — no section content.
pub proof fn lemma_banner_only(p: PageV, indent: nat)
    requires
        p.sections.len() == 0,
    ensures
        render_page(p, indent) == spaces(title_pad(p.name.len())) + seq!['#', ' '] + p.name
            + seq!['\n'],
{
    assert(render_sections(p.sections, indent) == Seq::<char>::empty());
    assert(render_page(p, indent) =~= spaces(title_pad(p.name.len())) + seq!['#', ' '] + p.name
        + seq!['\n']);
}

/// A section holding a text, a line break, and a second text renders the
/// three in that order: the first body, then a blank line, then the second
/// body, after the header and its underline.
pub proof fn lemma_text_break_text(s: SectionV, a: Seq<char>, b: Seq<char>, indent: nat)
    requires
        s.content == seq![ContentV::Text(a), ContentV::BR, ContentV::Text(b)],
    ensures
        render_section(s, indent) == seq!['\n'] + section_header(s) + seq!['\n'] + dashes(
            section_header(s).len(),
        ) + seq!['\n'] + wrap_text(a, indent) + seq!['\n'] + wrap_text(b, indent),
{
    let c = s.content;
    assert(c.drop_last() =~= seq![ContentV::Text(a), ContentV::BR]);
    assert(c.last() == ContentV::Text(b));
    assert(seq![ContentV::Text(a), ContentV::BR].drop_last() =~= seq![ContentV::Text(a)]);
    assert(seq![ContentV::Text(a), ContentV::BR].last() == ContentV::BR);
    assert(seq![ContentV::Text(a)].drop_last() =~= Seq::<ContentV>::empty());
    assert(seq![ContentV::Text(a)].last() == ContentV::Text(a));
    let c1 = seq![ContentV::Text(a)];
    let c2 = seq![ContentV::Text(a), ContentV::BR];
    assert(render_nodes(Seq::<ContentV>::empty(), indent) == Seq::<char>::empty());
    assert(render_nodes(c1, indent) =~= wrap_text(a, indent));
    assert(render_nodes(c2, indent) =~= render_nodes(c1, indent) + seq!['\n']);
    assert(render_nodes(c, indent) =~= render_nodes(c2, indent) + wrap_text(b, indent));
    assert(render_nodes(c, indent) =~= wrap_text(a, indent) + seq!['\n'] + wrap_text(b, indent));
    assert(render_section(s, indent) =~= seq!['\n'] + section_header(s) + seq!['\n'] + dashes(
        section_header(s).len(),
    ) + seq!['\n'] + wrap_text(a, indent) + seq!['\n'] + wrap_text(b, indent));
}

/// No piece of a newline-free line holds a newline.
proof fn lemma_chunks_newline_free(line: Seq<char>, w: nat)
    requires
        w >= 1,
        forall|i: int| 0 <= i < line.len() ==> line[i] != '\n',
    ensures
        forall|k: int, i: int|
            0 <= k < chunks_of(line, w).len() && 0 <= i < chunks_of(line, w)[k].len()
                ==> chunks_of(line, w)[k][i] != '\n',
    decreases line.len(),
{
    if line.len() > w {
        assert(forall|i: int|
            0 <= i < line.skip(w as int).len() ==> line.skip(w as int)[i] != '\n');
        lemma_chunks_newline_free(line.skip(w as int), w);
        assert(forall|k: int|
            1 <= k < chunks_of(line, w).len() ==> chunks_of(line, w)[k] == chunks_of(
                line.skip(w as int),
                w,
            )[k - 1]);
    }
}

/// Newlines in a concatenation are the newlines of the parts.
proof fn lemma_newline_count_concat(a: Seq<char>, b: Seq<char>)
    ensures
        newline_count(a + b) == newline_count(a) + newline_count(b),
    decreases b.len(),
{
    if b.len() == 0 {
        assert(a + b =~= a);
    } else {
        assert((a + b).drop_last() =~= a + b.drop_last());
        assert((a + b).last() == b.last());
        lemma_newline_count_concat(a, b.drop_last());
    }
}

/// A newline-free sequence holds no newlines.
proof fn lemma_newline_count_free(s: Seq<char>)
    requires
        forall|i: int| 0 <= i < s.len() ==> s[i] != '\n',
    ensures
        newline_count(s) == 0,
    decreases s.len(),
{
    if s.len() > 0 {
        lemma_newline_count_free(s.drop_last());
    }
}

/// Emitting `n` newline-free pieces writes exactly `n` newlines.
proof fn lemma_emit_chunks_newlines(cs: Seq<Seq<char>>, sp: nat)
    requires
        forall|k: int, i: int| 0 <= k < cs.len() && 0 <= i < cs[k].len() ==> cs[k][i] != '\n',
    ensures
        newline_count(emit_chunks(cs, sp)) == cs.len(),
    decreases cs.len(),
{
    if cs.len() > 0 {
        assert(forall|k: int, i: int|
            0 <= k < cs.drop_first().len() && 0 <= i < cs.drop_first()[k].len()
                ==> cs.drop_first()[k][i] != '\n');
        lemma_emit_chunks_newlines(cs.drop_first(), sp);
        lemma_newline_count_concat(spaces(sp) + cs[0] + seq!['\n'], emit_chunks(cs.drop_first(), sp));
        lemma_newline_count_concat(spaces(sp) + cs[0], seq!['\n']);
        lemma_newline_count_concat(spaces(sp), cs[0]);
        assert(forall|i: int| 0 <= i < spaces(sp).len() ==> spaces(sp)[i] != '\n');
        lemma_newline_count_free(spaces(sp));
        lemma_newline_count_free(cs[0]);
        assert(newline_count(seq!['\n']) == 1) by {
            assert(seq!['\n'].drop_last() =~= Seq::<char>::empty());
            assert(newline_count(Seq::<char>::empty()) == 0);
            assert(seq!['\n'].last() == '\n');
        }
    }
}

/// A newline-free body is a single line.
proof fn lemma_split_single(s: Seq<char>)
    requires
        forall|i: int| 0 <= i < s.len() ==> s[i] != '\n',
    ensures
        split_lines(s) == seq![s],
    decreases s.len(),
{
    if s.len() == 0 {
        assert(s =~= Seq::<char>::empty());
        assert(split_lines(s) =~= seq![s]);
    } else {
        lemma_split_single(s.drop_last());
        let r = seq![s.drop_last()];
        assert(r.last() == s.drop_last());
        assert(s.drop_last().push(s.last()) =~= s);
        assert(r.update(0, s) =~= seq![s]);
        assert(split_lines(s) == r.update(r.len() - 1, r.last().push(s.last())));
        assert(split_lines(s) =~= seq![s]);
    }
}

/// A line of length `L >= 1` cut at width `w >= 1` gives exactly
/// `ceil(L / w)` pieces.
pub proof fn lemma_chunks_count(line: Seq<char>, w: nat)
    requires
        w >= 1,
        line.len() >= 1,
    ensures
        chunks_of(line, w).len() == ((line.len() + w - 1) as int) / (w as int),
    decreases line.len(),
{
    let l = line.len() as int;
    let wi = w as int;
    if line.len() <= w {
        lemma_fundamental_div_mod_converse(l + wi - 1, wi, 1, l - 1);
    } else {
        lemma_chunks_count(line.skip(wi), w);
        lemma_fundamental_div_mod(l - wi + wi - 1, wi);
        let q = (l - wi + wi - 1) / wi;
        let r = (l - wi + wi - 1) % wi;
        assert((q + 1) * wi == q * wi + wi) by (nonlinear_arith);
        assert(l + wi - 1 == (q + 1) * wi + r);
        lemma_fundamental_div_mod_converse(l + wi - 1, wi, q + 1, r);
    }
}

/// The pieces of a line concatenate back to the line: the wrap loses
/// nothing.
pub proof fn lemma_chunks_concat(line: Seq<char>, w: nat)
    requires
        w >= 1,
    ensures
        concat_chunks(chunks_of(line, w)) == line,
    decreases line.len(),
{
    if line.len() <= w {
        let cs = chunks_of(line, w);
        assert(cs == seq![line]);
        assert(cs.drop_first() =~= Seq::<Seq<char>>::empty());
        assert(concat_chunks(cs.drop_first()) == Seq::<char>::empty());
        assert(cs[0] == line);
        assert(concat_chunks(cs) =~= line);
    } else {
        lemma_chunks_concat(line.skip(w as int), w);
        let cs = chunks_of(line, w);
        assert(cs[0] == line.take(w as int));
        assert(cs.drop_first() =~= chunks_of(line.skip(w as int), w));
        assert(concat_chunks(cs) =~= line.take(w as int) + line.skip(w as int));
        assert(line.take(w as int) + line.skip(w as int) =~= line);
    }
}

/// Hard-wrap law: a newline-free body of length `L >= 1`, rendered at an
/// indentation level whose spaces still leave room, is cut into exactly
/// `ceil(L / (MAX_TEXT_LEN - level*INDENTATION_SIZE))` pieces, each emitted
/// as one physical output line (so the output holds exactly that many
/// newlines), and the pieces concatenate back to the body exactly.
pub proof fn lemma_hard_wrap(body: Seq<char>, level: nat)
    requires
        body.len() >= 1,
        forall|i: int| 0 <= i < body.len() ==> body[i] != '\n',
        level * (INDENTATION_SIZE as nat) < MAX_TEXT_LEN as nat,
    ensures
        wrap_text(body, level) == emit_chunks(
            chunks_of(body, spec_effective_width(level)),
            level * (INDENTATION_SIZE as nat),
        ),
        chunks_of(body, spec_effective_width(level)).len() == ((body.len()
            + spec_effective_width(level) - 1) as int) / (spec_effective_width(level) as int),
        newline_count(wrap_text(body, level)) == chunks_of(
            body,
            spec_effective_width(level),
        ).len(),
        concat_chunks(chunks_of(body, spec_effective_width(level))) == body,
{
    let w = spec_effective_width(level);
    assert(w >= 1);
    lemma_split_single(body);
    assert(seq![body].drop_last() =~= Seq::<Seq<char>>::empty());
    assert(seq![body].last() == body);
    assert(emit_lines(Seq::<Seq<char>>::empty(), level) == Seq::<char>::empty());
    assert(emit_lines(seq![body], level) =~= emit_chunks(
        chunks_of(body, w),
        level * (INDENTATION_SIZE as nat),
    ));
    assert(wrap_text(body, level) == emit_lines(seq![body], level));
    lemma_chunks_count(body, w);
    lemma_chunks_newline_free(body, w);
    lemma_emit_chunks_newlines(chunks_of(body, w), level * (INDENTATION_SIZE as nat));
    lemma_chunks_concat(body, w);
}

/// Among all-prefixable items every one of the first `k` counts.
proof fn lemma_prefix_count_all(items: Seq<ContentV>, k: int)
    requires
        0 <= k <= items.len(),
        forall|i: int| 0 <= i < k ==> is_prefixable(items[i]),
    ensures
        prefix_count(items, k) == k,
    decreases k,
{
    if k > 0 {
        lemma_prefix_count_all(items, k - 1);
    }
}

/// Ordered-list numbering law: in an ordered list whose items are all text,
/// item `k` (0-based) at level `d` contributes its own line run prefixed by
/// the indentation spaces and the marker `"{d+1}.{k+1} "`, with the item's
/// body rendered at level zero.
pub proof fn lemma_ordered_numbering(l: ListV, d: nat, k: int)
    requires
        l.list_type == ListType::Ordered,
        forall|i: int| 0 <= i < l.items.len() ==> l.items[i] is Text,
        0 <= k < l.items.len(),
        d < usize::MAX as nat,
    ensures
        item_render(l.list_type, l.items, d, k) == spaces(d * (INDENTATION_SIZE as nat))
            + dec_digits(d + 1) + seq!['.'] + dec_digits((k + 1) as nat) + seq![' ']
            + render_content(l.items[k], 0),
        render_list(l, d) == render_items_upto(l.list_type, l.items, d, l.items.len() as int),
{
    assert(is_prefixable(l.items[k]));
    lemma_prefix_count_all(l.items, k);
    assert(spec_next_level(d) == d + 1);
    assert(marker(ListType::Ordered, d, (k + 1) as nat) == dec_digits(d + 1) + seq!['.']
        + dec_digits((k + 1) as nat) + seq![' ']);
    assert(item_render(l.list_type, l.items, d, k) =~= spaces(d * (INDENTATION_SIZE as nat))
        + dec_digits(d + 1) + seq!['.'] + dec_digits((k + 1) as nat) + seq![' ']
        + render_content(l.items[k], 0));
}

/// Nesting-depth law: a list nested as item `j` of an enclosing list at
/// level `d` is rendered in place at level `d+1` with no marker of its own;
/// when that inner list is ordered and all text, its item `k` carries the
/// ordinal prefix `"{d+2}.{k+1} "` — depth one greater than the enclosing
/// list's `"{d+1}"` prefixes — and its body is rendered at level zero, so no
/// leading spaces are added beyond the prefix's own indentation.
pub proof fn lemma_nesting_depth(outer: ListV, inner: ListV, d: nat, j: int, k: int)
    requires
        0 <= j < outer.items.len(),
        outer.items[j] == ContentV::List(inner),
        inner.list_type == ListType::Ordered,
        forall|i: int| 0 <= i < inner.items.len() ==> inner.items[i] is Text,
        0 <= k < inner.items.len(),
        d + 1 < usize::MAX as nat,
    ensures
        item_render(outer.list_type, outer.items, d, j) == render_list(inner, (d + 1) as nat),
        item_render(inner.list_type, inner.items, (d + 1) as nat, k) == spaces(
            ((d + 1) as nat) * (INDENTATION_SIZE as nat),
        ) + dec_digits(d + 2) + seq!['.'] + dec_digits((k + 1) as nat) + seq![' ']
            + render_content(inner.items[k], 0),
{
    assert(spec_next_level(d) == d + 1);
    assert(item_render(outer.list_type, outer.items, d, j) == render_content(
        outer.items[j],
        (d + 1) as nat,
    ));
    lemma_ordered_numbering(inner, (d + 1) as nat, k);
}

/// Whether an event is a `Page` start tag.
pub open spec fn is_page_start(ev: EventV) -> bool {
    match ev {
        EventV::StartTag { name, attributes } => name == "Page"@,
        _ => false,
    }
}

/// A `Page` start tag while a page already exists is refused outright.
pub proof fn lemma_page_not_nestable(st: StateV, name: Seq<char>, attrs: Seq<AttrV>)
    requires
        st.page is Some,
        name == "Page"@,
    ensures
        spec_step(st, EventV::StartTag { name, attributes: attrs }) == Err::<StateV, BuildError>(
            BuildError::StructureError,
        ),
{
}

/// No transition that succeeds ever discards the page.
pub proof fn lemma_page_persists(st: StateV, ev: EventV)
    requires
        st.page is Some,
        spec_step(st, ev) is Ok,
    ensures
        spec_step(st, ev)->Ok_0.page is Some,
{
}

/// Over any run of events, a page once created stays present.
pub proof fn lemma_page_stays(st: StateV, evs: Seq<EventV>)
    requires
        st.page is Some,
    ensures
        spec_run(st, evs) matches Ok(m) ==> m.page is Some,
    decreases evs.len(),
{
    if evs.len() > 0 {
        match spec_step(st, evs[0]) {
            Ok(s2) => {
                lemma_page_persists(st, evs[0]);
                lemma_page_stays(s2, evs.drop_first());
            },
            Err(_) => {},
        }
    }
}

/// A run over a concatenation is the run over the first part continued, if
/// it succeeded, over the second.
pub proof fn lemma_run_decompose(st: StateV, a: Seq<EventV>, b: Seq<EventV>)
    ensures
        spec_run(st, a + b) == (match spec_run(st, a) {
            Ok(m) => spec_run(m, b),
            Err(e) => Err(e),
        }),
    decreases a.len(),
{
    if a.len() == 0 {
        assert(a + b =~= b);
    } else {
        assert((a + b)[0] == a[0]);
        assert((a + b).drop_first() =~= a.drop_first() + b);
        match spec_step(st, a[0]) {
            Ok(s2) => {
                lemma_run_decompose(s2, a.drop_first(), b);
            },
            Err(_) => {},
        }
    }
}

/// Duplicate-page law: an event sequence holding two `Page` start tags —
/// consecutive or not — never builds; the second start finds the page
/// already present and fails with a structure error, unless an earlier
/// event already failed.
pub proof fn lemma_duplicate_page_rejected(evs: Seq<EventV>, i: int, j: int)
    requires
        0 <= i < j < evs.len(),
        is_page_start(evs[i]),
        is_page_start(evs[j]),
    ensures
        spec_build(evs) is Err,
{
    let a = evs.take(i + 1);
    let b = evs.skip(i + 1);
    assert(a + b =~= evs);
    lemma_run_decompose(init_state(), a, b);
    match spec_run(init_state(), a) {
        Err(_) => {},
        Ok(st1) => {
            let a0 = evs.take(i);
            assert(a0 + seq![evs[i]] =~= a);
            lemma_run_decompose(init_state(), a0, seq![evs[i]]);
            match spec_run(init_state(), a0) {
                Err(_) => {},
                Ok(st0) => {
                    assert(seq![evs[i]].drop_first() =~= Seq::<EventV>::empty());
                    assert(seq![evs[i]][0] == evs[i]);
                    match spec_step(st0, evs[i]) {
                        Ok(s2) => {
                            assert(spec_run(s2, Seq::<EventV>::empty()) == Ok::<
                                StateV,
                                BuildError,
                            >(s2));
                            assert(st1 == s2);
                            match evs[i] {
                                EventV::StartTag { name, attributes } => {
                                    assert(name == "Page"@);
                                },
                                _ => {
                                    assert(false);
                                },
                            }
                        },
                        Err(_) => {
                            assert(false);
                        },
                    }
                    assert(st1.page is Some);
                    let b1 = evs.subrange(i + 1, j);
                    let b2 = evs.skip(j);
                    assert(b1 + b2 =~= b);
                    lemma_run_decompose(st1, b1, b2);
                    match spec_run(st1, b1) {
                        Err(_) => {},
                        Ok(st2) => {
                            lemma_page_stays(st1, b1);
                            assert(st2.page is Some);
                            assert(b2[0] == evs[j]);
                            match evs[j] {
                                EventV::StartTag { name, attributes } => {
                                    assert(name == "Page"@);
                                    lemma_page_not_nestable(st2, name, attributes);
                                },
                                _ => {
                                    assert(false);
                                },
                            }
                            assert(spec_step(st2, evs[j]) == Err::<StateV, BuildError>(
                                BuildError::StructureError,
                            ));
                            assert(b2.len() > 0);
                            assert(spec_run(st2, b2) is Err);
                        },
                    }
                    assert(spec_run(st1, b) is Err);
                },
            }
        },
    }
    assert(spec_run(init_state(), evs) is Err);
}

/// Invalid-list-kind law: a `List` start tag whose `type` attribute is
/// present but neither `Ordered` nor `Unordered` fails with an invalid
/// enumeration value, whatever the builder's state.
pub proof fn lemma_invalid_list_kind(st: StateV, attrs: Seq<AttrV>, v: Seq<char>)
    requires
        crate::builder::attr_lookup(attrs, "type"@) == Some(v),
        v != "Ordered"@,
        v != "Unordered"@,
    ensures
        spec_step(st, EventV::StartTag { name: "List"@, attributes: attrs }) == Err::<
            StateV,
            BuildError,
        >(BuildError::InvalidEnumValueError),
{
    proof_distinct_tags();
}

/// The four tag names are pairwise distinct character sequences.
proof fn proof_distinct_tags()
    ensures
        "List"@ != "Page"@,
        "List"@ != "Section"@,
        "List"@ != "Text"@,
{
    reveal_strlit("Page");
    reveal_strlit("Section");
    reveal_strlit("Text");
    reveal_strlit("List");
    assert("List"@[0] != "Page"@[0]);
    assert("List"@.len() != "Section"@.len());
    assert("List"@[0] != "Text"@[0]);
}

} // verus!
