//! Laws of the credentials file model: how removing, appending, reading and
//! writing sections relate.
use vstd::prelude::*;
use crate::config::credentials::{
    credential_text, file_text, flush, header_at, header_of, header_text, lemma_first_unique,
    lemma_last_unique, parse_lines, parse_run, parse_start, parse_text, without, CredentialView,
    ParseState,
};
use crate::text::{join, split_state, strip_cr};

verus! {

/// Removing the sections named `profile` a second time changes nothing.
pub proof fn lemma_remove_idempotent(cs: Seq<CredentialView>, profile: Seq<char>)
    ensures
        without(without(cs, profile), profile) == without(cs, profile),
    decreases cs.len(),
{
    reveal(Seq::filter);
    if cs.len() > 0 {
        lemma_remove_idempotent(cs.drop_last(), profile);
        let w = without(cs.drop_last(), profile);
        if cs.last().profile != profile {
            assert(w.push(cs.last()).drop_last() =~= w);
        }
    }
}

/// Appending a section and then removing its name leaves what removing the
/// name alone leaves: the new section goes, with every earlier one of that name.
pub proof fn lemma_append_then_remove(cs: Seq<CredentialView>, c: CredentialView)
    ensures
        without(cs.push(c), c.profile) == without(cs, c.profile),
        forall|i: int|
            0 <= i < without(cs.push(c), c.profile).len() ==> #[trigger] without(
                cs.push(c),
                c.profile,
            )[i].profile != c.profile,
{
    reveal(Seq::filter);
    assert(cs.push(c).drop_last() =~= cs);
    let pred = |d: CredentialView| d.profile != c.profile;
    assert forall|i: int| 0 <= i < without(cs.push(c), c.profile).len() implies #[trigger] without(
        cs.push(c),
        c.profile,
    )[i].profile != c.profile by {
        cs.push(c).lemma_filter_pred(pred, i);
    }
}

/// A section with no body lines is written as its header line and a newline,
/// and is so written inside a file too.
pub proof fn lemma_empty_body_text(cs: Seq<CredentialView>, c: CredentialView)
    requires
        c.lines.len() == 0,
    ensures
        credential_text(c) == header_text(c.profile) + seq!['\n'],
        cs.len() == 0 ==> file_text(cs.push(c)) == header_text(c.profile) + seq!['\n'],
        cs.len() > 0 ==> file_text(cs.push(c)) == file_text(cs) + seq!['\n', '\n'] + header_text(
            c.profile,
        ) + seq!['\n'],
{
    assert(credential_text(c) =~= header_text(c.profile) + seq!['\n']);
    let texts = cs.push(c).map_values(|d: CredentialView| credential_text(d));
    assert(texts.drop_last() =~= cs.map_values(|d: CredentialView| credential_text(d)));
    assert(texts.last() == credential_text(c));
}

/// Reading from `st` through lines that hold no header changes neither the
/// closed sections nor the name of the open one.
proof fn lemma_no_header_run(st: ParseState, lines: Seq<Seq<char>>)
    requires
        forall|i: int| 0 <= i < lines.len() ==> #[trigger] header_of(lines[i]) is None,
    ensures
        parse_run(st, lines).done == st.done,
        parse_run(st, lines).profile == st.profile,
    decreases lines.len(),
{
    if lines.len() > 0 {
        let rest = lines.drop_last();
        assert forall|i: int| 0 <= i < rest.len() implies #[trigger] header_of(rest[i]) is None by {
            assert(rest[i] == lines[i]);
        }
        lemma_no_header_run(st, rest);
        assert(header_of(lines[lines.len() - 1]) is None);
    }
}

/// Two states that differ at most in the body of an unnamed open section
/// stay so through any lines.
proof fn lemma_run_unnamed(a: ParseState, b: ParseState, lines: Seq<Seq<char>>)
    requires
        a.done == b.done,
        a.profile == b.profile,
        a.profile.len() > 0 ==> a.lines == b.lines,
    ensures
        parse_run(a, lines).done == parse_run(b, lines).done,
        parse_run(a, lines).profile == parse_run(b, lines).profile,
        parse_run(a, lines).profile.len() > 0 ==> parse_run(a, lines).lines == parse_run(
            b,
            lines,
        ).lines,
    decreases lines.len(),
{
    if lines.len() > 0 {
        lemma_run_unnamed(a, b, lines.drop_last());
    }
}

/// Reading `pre` then `rest` from `st` is reading `rest` from where `pre` left.
pub proof fn lemma_run_append(st: ParseState, pre: Seq<Seq<char>>, rest: Seq<Seq<char>>)
    ensures
        parse_run(st, pre + rest) == parse_run(parse_run(st, pre), rest),
    decreases rest.len(),
{
    if rest.len() == 0 {
        assert(pre + rest =~= pre);
    } else {
        assert((pre + rest).drop_last() =~= pre + rest.drop_last());
        assert((pre + rest).last() == rest.last());
        lemma_run_append(st, pre, rest.drop_last());
    }
}

/// Lines before the first header belong to no section: reading them first
/// changes nothing.
pub proof fn lemma_leading_lines_dropped(pre: Seq<Seq<char>>, rest: Seq<Seq<char>>)
    requires
        forall|i: int| 0 <= i < pre.len() ==> #[trigger] header_of(pre[i]) is None,
    ensures
        parse_lines(pre + rest) == parse_lines(rest),
{
    lemma_run_append(parse_start(), pre, rest);
    lemma_no_header_run(parse_start(), pre);
    lemma_run_unnamed(parse_run(parse_start(), pre), parse_start(), rest);
}

/// No newline in `l`.
pub open spec fn no_newline(l: Seq<char>) -> bool {
    forall|k: int| 0 <= k < l.len() ==> l[k] != '\n'
}

/// A section that reads back from its own text: its name is not empty and
/// holds no newline, and each body line holds no newline, is not empty, and
/// is no header.
pub open spec fn reads_back(c: CredentialView) -> bool {
    &&& c.profile.len() > 0
    &&& no_newline(c.profile)
    &&& forall|k: int|
        0 <= k < c.lines.len() ==> {
            let l = #[trigger] c.lines[k];
            &&& l.len() > 0
            &&& header_of(l) is None
            &&& no_newline(l)
        }
}

/// Line `k` of section `i` is the last line of the file's text.
pub open spec fn is_final_line(cs: Seq<CredentialView>, i: int, k: int) -> bool {
    i == cs.len() - 1 && k == cs[i].lines.len() - 1
}

/// No body line ends with a carriage return, but the last line of the file,
/// which no line ending follows.
pub open spec fn no_cr_before_newline(cs: Seq<CredentialView>) -> bool {
    forall|i: int, k: int|
        0 <= i < cs.len() && 0 <= k < cs[i].lines.len() && !is_final_line(cs, i, k) ==> strip_cr(
            #[trigger] cs[i].lines[k],
        ) == cs[i].lines[k]
}

/// The lines that the text of one section is made of.
spec fn section_lines(c: CredentialView) -> Seq<Seq<char>> {
    seq![header_text(c.profile)] + if c.lines.len() == 0 {
        seq![Seq::<char>::empty()]
    } else {
        c.lines
    }
}

/// The lines that the text of a file is made of.
spec fn file_lines(cs: Seq<CredentialView>) -> Seq<Seq<char>>
    decreases cs.len(),
{
    if cs.len() == 0 {
        Seq::empty()
    } else if cs.len() == 1 {
        section_lines(cs[0])
    } else {
        file_lines(cs.drop_last()) + seq![Seq::<char>::empty()] + section_lines(cs.last())
    }
}

proof fn lemma_join_append(a: Seq<Seq<char>>, b: Seq<Seq<char>>, sep: Seq<char>)
    requires
        a.len() > 0,
        b.len() > 0,
    ensures
        join(a + b, sep) == join(a, sep) + sep + join(b, sep),
    decreases b.len(),
{
    if b.len() == 1 {
        assert((a + b).drop_last() =~= a);
    } else {
        assert((a + b).drop_last() =~= a + b.drop_last());
        lemma_join_append(a, b.drop_last(), sep);
        assert(join(a + b, sep) =~= join(a, sep) + sep + join(b, sep));
    }
}

proof fn lemma_section_text(c: CredentialView)
    ensures
        credential_text(c) == join(section_lines(c), seq!['\n']),
{
    let h = seq![header_text(c.profile)];
    if c.lines.len() == 0 {
        let ls = section_lines(c);
        assert(ls.drop_last() =~= h);
        assert(join(ls.drop_last(), seq!['\n']) == header_text(c.profile));
        assert(ls.last() == Seq::<char>::empty());
        assert(join(ls, seq!['\n']) == header_text(c.profile) + seq!['\n'] + Seq::<char>::empty());
        assert(join(c.lines, seq!['\n']) == Seq::<char>::empty());
        assert(credential_text(c) =~= join(ls, seq!['\n']));
    } else {
        lemma_join_append(h, c.lines, seq!['\n']);
    }
}

proof fn lemma_file_text(cs: Seq<CredentialView>)
    ensures
        file_text(cs) == join(file_lines(cs), seq!['\n']),
    decreases cs.len(),
{
    let texts = cs.map_values(|c: CredentialView| credential_text(c));
    if cs.len() == 1 {
        lemma_section_text(cs[0]);
    } else if cs.len() > 1 {
        let rest = cs.drop_last();
        lemma_file_text(rest);
        lemma_section_text(cs.last());
        assert(texts.drop_last() =~= rest.map_values(|c: CredentialView| credential_text(c)));
        let a = file_lines(rest) + seq![Seq::<char>::empty()];
        let b = section_lines(cs.last());
        lemma_file_lines_len(rest);
        lemma_join_append(a, b, seq!['\n']);
        assert(a.drop_last() =~= file_lines(rest));
        assert(join(file_lines(cs), seq!['\n']) =~= file_text(cs));
    }
}

proof fn lemma_file_lines_len(cs: Seq<CredentialView>)
    ensures
        cs.len() > 0 ==> file_lines(cs).len() > 0,
    decreases cs.len(),
{
    if cs.len() > 1 {
        lemma_file_lines_len(cs.drop_last());
    }
}

proof fn lemma_section_lines_plain(c: CredentialView, whole: bool)
    requires
        reads_back(c),
        forall|k: int|
            0 <= k < c.lines.len() && (whole || k < c.lines.len() - 1) ==> strip_cr(
                #[trigger] c.lines[k],
            ) == c.lines[k],
    ensures
        forall|j: int| 0 <= j < section_lines(c).len() ==> no_newline(#[trigger] section_lines(c)[j]),
        forall|j: int|
            0 <= j < section_lines(c).len() && (whole || j < section_lines(c).len() - 1) ==> strip_cr(
                #[trigger] section_lines(c)[j],
            ) == section_lines(c)[j],
{
    let h = header_text(c.profile);
    assert(h.last() == ']');
    assert(no_newline(h)) by {
        assert forall|k: int| 0 <= k < h.len() implies h[k] != '\n' by {
            if 0 < k < h.len() - 1 {
                assert(h[k] == c.profile[k - 1]);
            }
        }
    }
    assert(no_newline(Seq::<char>::empty()));
    assert(strip_cr(Seq::<char>::empty()) == Seq::<char>::empty());
    assert forall|j: int| 0 <= j < section_lines(c).len() implies no_newline(
        #[trigger] section_lines(c)[j],
    ) by {
        if j > 0 && c.lines.len() > 0 {
            assert(section_lines(c)[j] == c.lines[j - 1]);
        }
    }
    assert forall|j: int|
        0 <= j < section_lines(c).len() && (whole || j < section_lines(c).len() - 1) implies strip_cr(
        #[trigger] section_lines(c)[j],
    ) == section_lines(c)[j] by {
        if j > 0 && c.lines.len() > 0 {
            assert(section_lines(c)[j] == c.lines[j - 1]);
        }
    }
}

proof fn lemma_file_lines_plain(cs: Seq<CredentialView>, whole: bool)
    requires
        forall|i: int| 0 <= i < cs.len() ==> reads_back(#[trigger] cs[i]),
        forall|i: int, k: int|
            0 <= i < cs.len() && 0 <= k < cs[i].lines.len() && (whole || !is_final_line(cs, i, k))
                ==> strip_cr(#[trigger] cs[i].lines[k]) == cs[i].lines[k],
    ensures
        forall|j: int| 0 <= j < file_lines(cs).len() ==> no_newline(#[trigger] file_lines(cs)[j]),
        forall|j: int|
            0 <= j < file_lines(cs).len() && (whole || j < file_lines(cs).len() - 1) ==> strip_cr(
                #[trigger] file_lines(cs)[j],
            ) == file_lines(cs)[j],
    decreases cs.len(),
{
    if cs.len() > 0 {
        let c = cs.last();
        assert(reads_back(cs[cs.len() - 1]));
        assert forall|k: int|
            0 <= k < c.lines.len() && (whole || k < c.lines.len() - 1) implies strip_cr(
            #[trigger] c.lines[k],
        ) == c.lines[k] by {
            assert(c.lines[k] == cs[cs.len() - 1].lines[k]);
        }
        lemma_section_lines_plain(c, whole);
    }
    if cs.len() == 1 {
        assert(cs[0] == cs.last());
    } else if cs.len() > 1 {
        let rest = cs.drop_last();
        assert forall|i: int| 0 <= i < rest.len() implies reads_back(#[trigger] rest[i]) by {
            assert(rest[i] == cs[i]);
        }
        assert forall|i: int, k: int| 0 <= i < rest.len() && 0 <= k < rest[i].lines.len() implies strip_cr(
            #[trigger] rest[i].lines[k],
        ) == rest[i].lines[k] by {
            assert(rest[i] == cs[i]);
            assert(!is_final_line(cs, i, k));
        }
        lemma_file_lines_plain(rest, true);
        assert(no_newline(Seq::<char>::empty()));
        assert(strip_cr(Seq::<char>::empty()) == Seq::<char>::empty());
        let a = file_lines(rest) + seq![Seq::<char>::empty()];
        let b = section_lines(cs.last());
        assert(file_lines(cs) == a + b);
        assert forall|j: int| 0 <= j < file_lines(cs).len() implies no_newline(
            #[trigger] file_lines(cs)[j],
        ) by {
            if j < file_lines(rest).len() {
                assert(file_lines(cs)[j] == file_lines(rest)[j]);
            } else if j == file_lines(rest).len() {
                assert(file_lines(cs)[j] == Seq::<char>::empty());
            } else {
                assert(file_lines(cs)[j] == b[j - a.len()]);
            }
        }
        assert forall|j: int|
            0 <= j < file_lines(cs).len() && (whole || j < file_lines(cs).len() - 1) implies strip_cr(
            #[trigger] file_lines(cs)[j],
        ) == file_lines(cs)[j] by {
            if j < file_lines(rest).len() {
                assert(file_lines(cs)[j] == file_lines(rest)[j]);
            } else if j == file_lines(rest).len() {
                assert(file_lines(cs)[j] == Seq::<char>::empty());
            } else {
                assert(file_lines(cs)[j] == b[j - a.len()]);
            }
        }
    }
}

proof fn lemma_split_plain(p: Seq<char>, x: Seq<char>)
    requires
        no_newline(x),
    ensures
        split_state(p + x) == (split_state(p).0, split_state(p).1 + x),
    decreases x.len(),
{
    if x.len() == 0 {
        assert(p + x =~= p);
        assert(split_state(p).1 + x =~= split_state(p).1);
    } else {
        assert((p + x).drop_last() =~= p + x.drop_last());
        assert((p + x).last() == x[x.len() - 1]);
        lemma_split_plain(p, x.drop_last());
        assert(split_state(p).1 + x.drop_last() + seq![x.last()] =~= split_state(p).1 + x);
    }
}

proof fn lemma_split_join(ls: Seq<Seq<char>>)
    requires
        ls.len() > 0,
        forall|i: int| 0 <= i < ls.len() ==> no_newline(#[trigger] ls[i]),
        forall|i: int| 0 <= i < ls.len() - 1 ==> strip_cr(#[trigger] ls[i]) == ls[i],
    ensures
        split_state(join(ls, seq!['\n'])) == (ls.drop_last(), ls.last()),
    decreases ls.len(),
{
    if ls.len() == 1 {
        lemma_split_plain(Seq::empty(), ls[0]);
        assert(Seq::<char>::empty() + ls[0] =~= ls[0]);
        assert(ls.drop_last() =~= Seq::<Seq<char>>::empty());
    } else {
        let rest = ls.drop_last();
        assert forall|i: int| 0 <= i < rest.len() implies no_newline(#[trigger] rest[i]) by {
            assert(rest[i] == ls[i]);
        }
        assert forall|i: int| 0 <= i < rest.len() - 1 implies strip_cr(#[trigger] rest[i])
            == rest[i] by {
            assert(rest[i] == ls[i]);
        }
        lemma_split_join(rest);
        let head = join(rest, seq!['\n']) + seq!['\n'];
        assert(head.drop_last() =~= join(rest, seq!['\n']));
        assert(strip_cr(rest.last()) == rest.last()) by {
            assert(rest.last() == ls[ls.len() - 2]);
        }
        assert(rest.drop_last().push(rest.last()) =~= rest);
        assert(no_newline(ls.last())) by {
            assert(ls.last() == ls[ls.len() - 1]);
        }
        lemma_split_plain(head, ls.last());
        assert(Seq::<char>::empty() + ls.last() =~= ls.last());
    }
}

proof fn lemma_header_of_header_text(name: Seq<char>)
    requires
        name.len() > 0,
    ensures
        header_of(header_text(name)) == Some(name),
{
    let h = header_text(name);
    assert(header_at(h, 0, h.len() - 1));
    lemma_first_unique(h, '[');
    lemma_last_unique(h, ']');
    assert(h.subrange(1, h.len() - 1) =~= name);
}

proof fn lemma_run_body(st: ParseState, body: Seq<Seq<char>>)
    requires
        forall|k: int|
            0 <= k < body.len() ==> (#[trigger] body[k]).len() > 0 && header_of(body[k]) is None,
    ensures
        parse_run(st, body) == (ParseState { lines: st.lines + body, ..st }),
    decreases body.len(),
{
    if body.len() == 0 {
        assert(st.lines + body =~= st.lines);
    } else {
        let rest = body.drop_last();
        lemma_run_body(st, rest);
        assert(body.last() == body[body.len() - 1]);
        assert((st.lines + rest).push(body.last()) =~= st.lines + body);
    }
}

proof fn lemma_run_empty_line(st: ParseState)
    ensures
        parse_run(st, seq![Seq::<char>::empty()]) == st,
{
    let gap = seq![Seq::<char>::empty()];
    assert(gap.drop_last() =~= Seq::<Seq<char>>::empty());
    assert(parse_run(st, gap.drop_last()) == st);
    assert(gap.last() == Seq::<char>::empty());
    assert(!(exists|i: int, j: int| header_at(Seq::<char>::empty(), i, j)));
    assert(header_of(Seq::<char>::empty()) is None);
}

proof fn lemma_run_section(st: ParseState, c: CredentialView)
    requires
        reads_back(c),
    ensures
        parse_run(st, section_lines(c)) == (ParseState {
            done: flush(st),
            profile: c.profile,
            lines: c.lines,
        }),
{
    let h = seq![header_text(c.profile)];
    let tail = if c.lines.len() == 0 {
        seq![Seq::<char>::empty()]
    } else {
        c.lines
    };
    lemma_run_append(st, h, tail);
    lemma_header_of_header_text(c.profile);
    assert(h.drop_last() =~= Seq::<Seq<char>>::empty());
    assert(parse_run(st, h.drop_last()) == st);
    assert(h.last() == header_text(c.profile));
    let opened = ParseState { done: flush(st), profile: c.profile, lines: Seq::empty() };
    assert(parse_run(st, h) == opened);
    if c.lines.len() == 0 {
        lemma_run_empty_line(opened);
        assert(c.lines =~= Seq::<Seq<char>>::empty());
    } else {
        lemma_run_body(opened, c.lines);
        assert(Seq::<Seq<char>>::empty() + c.lines =~= c.lines);
    }
}

proof fn lemma_run_file(cs: Seq<CredentialView>)
    requires
        cs.len() > 0,
        forall|i: int| 0 <= i < cs.len() ==> reads_back(#[trigger] cs[i]),
    ensures
        parse_run(parse_start(), file_lines(cs)) == (ParseState {
            done: cs.drop_last(),
            profile: cs.last().profile,
            lines: cs.last().lines,
        }),
    decreases cs.len(),
{
    assert(reads_back(cs[cs.len() - 1]));
    if cs.len() == 1 {
        lemma_run_section(parse_start(), cs[0]);
        assert(cs.drop_last() =~= Seq::<CredentialView>::empty());
    } else {
        let rest = cs.drop_last();
        assert forall|i: int| 0 <= i < rest.len() implies reads_back(#[trigger] rest[i]) by {
            assert(rest[i] == cs[i]);
        }
        lemma_run_file(rest);
        let before = parse_run(parse_start(), file_lines(rest));
        let gap = seq![Seq::<char>::empty()];
        lemma_run_append(parse_start(), file_lines(rest), gap);
        lemma_run_empty_line(before);
        lemma_run_append(parse_start(), file_lines(rest) + gap, section_lines(cs.last()));
        lemma_run_section(before, cs.last());
        assert(rest.drop_last().push(rest.last()) =~= rest);
    }
}

/// Writing a file and reading the text back gives the same sections, in the
/// same order, when each section reads back (see `reads_back`) and no body
/// line but the file's last one ends with a carriage return.
pub proof fn lemma_round_trip(cs: Seq<CredentialView>)
    requires
        forall|i: int| 0 <= i < cs.len() ==> reads_back(#[trigger] cs[i]),
        no_cr_before_newline(cs),
    ensures
        parse_text(file_text(cs)) == cs,
{
    lemma_file_text(cs);
    if cs.len() == 0 {
        assert(split_state(Seq::<char>::empty()) == (Seq::<Seq<char>>::empty(), Seq::<char>::empty()));
        assert(parse_run(parse_start(), Seq::<Seq<char>>::empty()) == parse_start());
    } else {
        let ls = file_lines(cs);
        lemma_file_lines_len(cs);
        lemma_file_lines_plain(cs, false);
        lemma_split_join(ls);
        lemma_run_file(cs);
        assert(cs.drop_last().push(cs.last()) =~= cs);
        if ls.last().len() == 0 {
            let last = ls.last();
            assert(ls.drop_last().push(last) =~= ls);
            assert(!(exists|i: int, j: int| header_at(last, i, j)));
            assert(parse_run(parse_start(), ls) == parse_run(parse_start(), ls.drop_last()));
        } else {
            assert(ls.drop_last().push(ls.last()) =~= ls);
        }
    }
}

} // verus!
