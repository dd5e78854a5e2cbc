use vstd::prelude::*;
use crate::text::{
    WrapState, all_white_space, break_line, break_point, display_width, finish, initial_state,
    is_break_mark, is_white_space, joined, lemma_trim_start_len, make_room, push_grapheme,
    run_graphemes, separator_in_line, trim_end, trim_start, without_lone_line_feeds,
    wrap_graphemes,
};

verus! {

/// The characters of a text that are not white space, in order.
pub open spec fn visible(s: Seq<char>) -> Seq<char>
    decreases s.len(),
{
    if s.len() == 0 {
        seq![]
    } else if is_white_space(s.last()) {
        visible(s.drop_last())
    } else {
        visible(s.drop_last()).push(s.last())
    }
}

/// The characters of a sequence of texts that are not white space, in order.
pub open spec fn visible_all(texts: Seq<Seq<char>>) -> Seq<char>
    decreases texts.len(),
{
    if texts.len() == 0 {
        seq![]
    } else {
        visible_all(texts.drop_last()) + visible(texts.last())
    }
}

/// The text does not end with white space.
pub open spec fn no_trailing_white_space(s: Seq<char>) -> bool {
    s.len() == 0 || !is_white_space(s.last())
}

/// No grapheme is empty.
pub open spec fn graphemes_non_empty(gs: Seq<Seq<char>>) -> bool {
    forall|i: int| 0 <= i < gs.len() ==> #[trigger] gs[i].len() > 0
}

proof fn lemma_visible_add(a: Seq<char>, b: Seq<char>)
    ensures
        visible(a + b) == visible(a) + visible(b),
    decreases b.len(),
{
    if b.len() == 0 {
        assert(a + b =~= a);
        assert(visible(a) + visible(b) =~= visible(a));
    } else {
        assert((a + b).drop_last() =~= a + b.drop_last());
        assert((a + b).last() == b.last());
        lemma_visible_add(a, b.drop_last());
        if !is_white_space(b.last()) {
            assert(visible(a + b) =~= visible(a) + visible(b));
        }
    }
}

proof fn lemma_visible_white(s: Seq<char>)
    requires
        all_white_space(s),
    ensures
        visible(s) == Seq::<char>::empty(),
    decreases s.len(),
{
    if s.len() > 0 {
        assert(is_white_space(s[s.len() - 1]));
        lemma_visible_white(s.drop_last());
    }
}

proof fn lemma_visible_trim_start(s: Seq<char>)
    ensures
        visible(trim_start(s)) == visible(s),
    decreases s.len(),
{
    if s.len() > 0 && is_white_space(s[0]) {
        lemma_visible_trim_start(s.drop_first());
        assert(s =~= seq![s[0]] + s.drop_first());
        lemma_visible_add(seq![s[0]], s.drop_first());
        let first = seq![s[0]];
        assert(first.drop_last() =~= Seq::<char>::empty());
        assert(first.last() == s[0]);
        assert(visible(first.drop_last()) =~= Seq::<char>::empty());
        assert(visible(first) =~= Seq::<char>::empty());
        assert(visible(s) =~= visible(s.drop_first()));
    }
}

proof fn lemma_visible_trim_end(s: Seq<char>)
    ensures
        visible(trim_end(s)) == visible(s),
        no_trailing_white_space(trim_end(s)),
    decreases s.len(),
{
    if s.len() > 0 && is_white_space(s.last()) {
        lemma_visible_trim_end(s.drop_last());
    }
}

proof fn lemma_visible_split(s: Seq<char>, end: int)
    requires
        0 <= end <= s.len(),
    ensures
        visible(s) == visible(s.subrange(0, end)) + visible(s.subrange(end, s.len() as int)),
{
    assert(s =~= s.subrange(0, end) + s.subrange(end, s.len() as int));
    lemma_visible_add(s.subrange(0, end), s.subrange(end, s.len() as int));
}

/// What the wrapper keeps as it goes: the break place stays inside the
/// pending line, every finished line is free of trailing white space, and no
/// visible character is lost or added.
pub open spec fn wrap_invariant(st: WrapState, done: Seq<Seq<char>>) -> bool {
    &&& separator_in_line(st)
    &&& forall|i: int| 0 <= i < st.lines.len() ==> no_trailing_white_space(#[trigger] st.lines[i])
    &&& visible_all(st.lines) + visible(st.line) == visible_all(done)
}

proof fn lemma_break_line(st: WrapState, end: nat, done: Seq<Seq<char>>)
    requires
        wrap_invariant(st, done),
        end <= st.line.len(),
    ensures
        wrap_invariant(break_line(st, end), done),
{
    let next = break_line(st, end);
    let head = st.line.subrange(0, end as int);
    let tail = st.line.subrange(end as int, st.line.len() as int);
    lemma_visible_trim_end(head);
    lemma_visible_trim_start(tail);
    lemma_visible_split(st.line, end as int);
    assert(next.lines.drop_last() =~= st.lines);
    assert forall|i: int| 0 <= i < next.lines.len() implies no_trailing_white_space(
        #[trigger] next.lines[i],
    ) by {
        if i < st.lines.len() {
            assert(next.lines[i] == st.lines[i]);
        }
    }
    assert(visible_all(next.lines) + visible(next.line) =~= visible_all(st.lines) + visible(
        st.line,
    ));
}

proof fn lemma_make_room(st: WrapState, gw: nat, ws: bool, width: nat, done: Seq<Seq<char>>)
    requires
        wrap_invariant(st, done),
    ensures
        wrap_invariant(make_room(st, gw, ws, width), done),
        make_room(st, gw, ws, width).line.len() == 0 || make_room(st, gw, ws, width).used + gw
            <= width,
    decreases st.line.len(),
{
    if st.line.len() > 0 && st.used + gw > width {
        let end = break_point(st, ws);
        lemma_break_line(st, end, done);
        lemma_trim_start_len(st.line.subrange(end as int, st.line.len() as int));
        lemma_make_room(break_line(st, end), gw, ws, width, done);
    }
}

proof fn lemma_run(gs: Seq<Seq<char>>, width: nat)
    requires
        graphemes_non_empty(gs),
    ensures
        wrap_invariant(run_graphemes(gs, width), gs),
    decreases gs.len(),
{
    if gs.len() == 0 {
        assert(visible_all(Seq::<Seq<char>>::empty()) + visible(Seq::<char>::empty())
            =~= visible_all(gs));
    } else {
        let prev = gs.drop_last();
        let g = gs.last();
        assert(graphemes_non_empty(prev)) by {
            assert forall|i: int| 0 <= i < prev.len() implies #[trigger] prev[i].len() > 0 by {
                assert(prev[i] == gs[i]);
            }
        }
        assert(g.len() > 0) by {
            assert(gs[gs.len() - 1].len() > 0);
        }
        lemma_run(prev, width);
        let st = run_graphemes(prev, width);
        let ws = all_white_space(g);
        let roomy = make_room(st, display_width(g), ws, width);
        lemma_make_room(st, display_width(g), ws, width, prev);
        if ws && roomy.line.len() == 0 {
            lemma_visible_white(g);
            assert(visible_all(gs) =~= visible_all(prev) + visible(g));
            assert(visible_all(roomy.lines) + visible(roomy.line) =~= visible_all(gs));
        } else {
            lemma_visible_add(roomy.line, g);
            assert(visible_all(gs) =~= visible_all(prev) + visible(g));
            let next = run_graphemes(gs, width);
            assert(visible_all(next.lines) + visible(next.line) =~= visible_all(gs));
        }
    }
}

/// Wrapping never yields an empty list: there is always at least one line,
/// and with a width of 0 exactly one, which is empty.
pub proof fn law_wrap_has_a_line(gs: Seq<Seq<char>>, width: nat)
    ensures
        wrap_graphemes(gs, width).len() >= 1,
        width == 0 ==> wrap_graphemes(gs, width) == seq![Seq::<char>::empty()],
{
}

/// No wrapped line ends with white space.
pub proof fn law_wrap_lines_have_no_trailing_white_space(gs: Seq<Seq<char>>, width: nat)
    requires
        graphemes_non_empty(gs),
    ensures
        forall|i: int|
            0 <= i < wrap_graphemes(gs, width).len() ==> no_trailing_white_space(
                #[trigger] wrap_graphemes(gs, width)[i],
            ),
{
    if width > 0 {
        lemma_run(gs, width);
        let st = run_graphemes(gs, width);
        lemma_visible_trim_end(st.line);
        let out = wrap_graphemes(gs, width);
        assert forall|i: int| 0 <= i < out.len() implies no_trailing_white_space(
            #[trigger] out[i],
        ) by {
            if i < st.lines.len() {
                assert(out[i] == st.lines[i]);
            }
        }
    }
}

/// Wrapping into a positive width only drops white space: the characters
/// that are not white space come out in the same order, none lost and none
/// added.
pub proof fn law_wrap_keeps_visible_text(gs: Seq<Seq<char>>, width: nat)
    requires
        graphemes_non_empty(gs),
        width > 0,
    ensures
        visible_all(wrap_graphemes(gs, width)) == visible_all(gs),
{
    lemma_run(gs, width);
    let st = run_graphemes(gs, width);
    lemma_visible_trim_end(st.line);
    let out = wrap_graphemes(gs, width);
    if st.line.len() > 0 || st.lines.len() == 0 {
        assert(out.drop_last() =~= st.lines);
    } else {
        assert(visible(st.line) =~= Seq::<char>::empty());
        assert(visible_all(st.lines) + visible(st.line) =~= visible_all(st.lines));
    }
}


/// `line` stands in the text `c` from place `i` on, with only white space
/// before and after it.
pub open spec fn trims_to(c: Seq<char>, i: int, line: Seq<char>) -> bool {
    &&& 0 <= i
    &&& i + line.len() <= c.len()
    &&& c.subrange(i, i + line.len()) == line
    &&& all_white_space(c.subrange(0, i))
    &&& all_white_space(c.subrange(i + line.len(), c.len() as int))
}

/// `line` is a run of consecutive whole graphemes, less white space at its
/// two ends.
pub open spec fn whole_graphemes_trimmed(gs: Seq<Seq<char>>, line: Seq<char>) -> bool {
    exists|a: int, b: int, i: int|
        0 <= a <= b <= gs.len() && #[trigger] trims_to(joined(gs.subrange(a, b)), i, line)
}

/// The lines stand in `text` in order, at places that do not overlap, with
/// nothing but white space before, between and after them.
pub open spec fn placed_in_order(text: Seq<char>, lines: Seq<Seq<char>>) -> bool
    decreases lines.len(),
{
    if lines.len() == 0 {
        all_white_space(text)
    } else {
        exists|i: int|
            #[trigger] stretch_at(text, i, lines[0]) && all_white_space(text.subrange(0, i))
                && placed_in_order(
                text.subrange(i + lines[0].len(), text.len() as int),
                lines.drop_first(),
            )
    }
}

proof fn lemma_placed_white(text: Seq<char>, lines: Seq<Seq<char>>, w: Seq<char>)
    requires
        placed_in_order(text, lines),
        all_white_space(w),
    ensures
        placed_in_order(text + w, lines),
    decreases lines.len(),
{
    if lines.len() == 0 {
        lemma_white_concat(text, w);
    } else {
        let l = lines[0];
        let i = choose|i: int|
            #[trigger] stretch_at(text, i, l) && all_white_space(text.subrange(0, i)) && placed_in_order(
                text.subrange(i + l.len(), text.len() as int),
                lines.drop_first(),
            );
        let rest = text.subrange(i + l.len(), text.len() as int);
        lemma_placed_white(rest, lines.drop_first(), w);
        let t = text + w;
        assert(t.subrange(i, i + l.len()) =~= text.subrange(i, i + l.len()));
        assert(t.subrange(0, i) =~= text.subrange(0, i));
        assert(t.subrange(i + l.len(), t.len() as int) =~= rest + w);
        assert(stretch_at(t, i, l));
    }
}

proof fn lemma_placed_push(text: Seq<char>, lines: Seq<Seq<char>>, w: Seq<char>, l: Seq<char>)
    requires
        placed_in_order(text, lines),
        all_white_space(w),
    ensures
        placed_in_order(text + w + l, lines.push(l)),
    decreases lines.len(),
{
    let t = text + w + l;
    let ls = lines.push(l);
    if lines.len() == 0 {
        lemma_white_concat(text, w);
        let i = (text + w).len() as int;
        assert(t.subrange(0, i) =~= text + w);
        assert(t.subrange(i, i + l.len()) =~= l);
        assert(ls[0] == l);
        assert(ls.drop_first() =~= Seq::<Seq<char>>::empty());
        assert(t.subrange(i + l.len(), t.len() as int) =~= Seq::<char>::empty());
        assert(placed_in_order(Seq::<char>::empty(), Seq::<Seq<char>>::empty()));
        assert(stretch_at(t, i, ls[0]));
    } else {
        let l0 = lines[0];
        let i = choose|i: int|
            #[trigger] stretch_at(text, i, l0) && all_white_space(text.subrange(0, i)) && placed_in_order(
                text.subrange(i + l0.len(), text.len() as int),
                lines.drop_first(),
            );
        let rest = text.subrange(i + l0.len(), text.len() as int);
        lemma_placed_push(rest, lines.drop_first(), w, l);
        assert(ls[0] == l0);
        assert(ls.drop_first() =~= lines.drop_first().push(l));
        assert(t.subrange(i, i + l0.len()) =~= text.subrange(i, i + l0.len()));
        assert(t.subrange(0, i) =~= text.subrange(0, i));
        assert(t.subrange(i + l0.len(), t.len() as int) =~= rest + w + l);
        assert(stretch_at(t, i, ls[0]));
    }
}

/// The pending line is the graphemes from `a` on, less the white space `p`
/// at their start, and its break place (if any) falls between two graphemes.
spec fn pending_from(gs: Seq<Seq<char>>, st: WrapState, a: int, p: Seq<char>) -> bool {
    &&& 0 <= a <= gs.len()
    &&& st.lines.len() <= a
    &&& placed_in_order(joined(gs.subrange(0, a)), st.lines)
    &&& all_white_space(p)
    &&& p + st.line == joined(gs.subrange(a, gs.len() as int))
    &&& st.separator matches Some(s) ==> exists|k: int|
        a <= k <= gs.len() && #[trigger] joined(gs.subrange(a, k)) == p + st.line.subrange(
            0,
            s as int,
        )
}

spec fn pending_whole(gs: Seq<Seq<char>>, st: WrapState) -> bool {
    exists|a: int, p: Seq<char>| #[trigger] pending_from(gs, st, a, p)
}

spec fn lines_whole(gs: Seq<Seq<char>>, lines: Seq<Seq<char>>) -> bool {
    forall|j: int| 0 <= j < lines.len() ==> whole_graphemes_trimmed(gs, #[trigger] lines[j])
}

proof fn lemma_joined_split(gs: Seq<Seq<char>>, a: int, k: int, b: int)
    requires
        0 <= a <= k <= b <= gs.len(),
    ensures
        joined(gs.subrange(a, b)) == joined(gs.subrange(a, k)) + joined(gs.subrange(k, b)),
    decreases b - k,
{
    if b == k {
        assert(gs.subrange(k, b) =~= Seq::<Seq<char>>::empty());
        assert(joined(gs.subrange(a, k)) + joined(gs.subrange(k, b)) =~= joined(gs.subrange(a, k)));
    } else {
        lemma_joined_split(gs, a, k, b - 1);
        assert(gs.subrange(a, b).drop_last() =~= gs.subrange(a, b - 1));
        assert(gs.subrange(k, b).drop_last() =~= gs.subrange(k, b - 1));
        assert(gs.subrange(a, b).last() == gs[b - 1]);
        assert(gs.subrange(k, b).last() == gs[b - 1]);
        assert(joined(gs.subrange(a, b)) =~= joined(gs.subrange(a, k)) + joined(gs.subrange(k, b)));
    }
}

proof fn lemma_joined_push(gs: Seq<Seq<char>>, a: int)
    requires
        0 <= a < gs.len(),
    ensures
        joined(gs.subrange(a, gs.len() as int)) == joined(gs.drop_last().subrange(
            a,
            gs.len() - 1,
        )) + gs.last(),
{
    assert(gs.subrange(a, gs.len() as int).drop_last() =~= gs.drop_last().subrange(a, gs.len() - 1));
    assert(gs.subrange(a, gs.len() as int).last() == gs.last());
}

proof fn lemma_white_concat(x: Seq<char>, y: Seq<char>)
    requires
        all_white_space(x),
        all_white_space(y),
    ensures
        all_white_space(x + y),
{
    assert forall|i: int| 0 <= i < (x + y).len() implies #[trigger] is_white_space((x + y)[i]) by {
        if i < x.len() {
            assert((x + y)[i] == x[i]);
        } else {
            assert((x + y)[i] == y[i - x.len()]);
        }
    }
}

proof fn lemma_trim_end_split(s: Seq<char>)
    ensures
        trim_end(s).len() <= s.len(),
        s == trim_end(s) + s.subrange(trim_end(s).len() as int, s.len() as int),
        all_white_space(s.subrange(trim_end(s).len() as int, s.len() as int)),
    decreases s.len(),
{
    if s.len() > 0 && is_white_space(s.last()) {
        lemma_trim_end_split(s.drop_last());
        let t = trim_end(s.drop_last());
        let q = s.drop_last().subrange(t.len() as int, s.len() - 1);
        assert(s.subrange(t.len() as int, s.len() as int) =~= q.push(s.last()));
        lemma_white_concat(q, seq![s.last()]);
        assert(q + seq![s.last()] =~= q.push(s.last()));
        assert(s =~= s.drop_last().push(s.last()));
        assert(s.drop_last() == t + q);
        assert((t + q).push(s.last()) =~= t + q.push(s.last()));
        assert(s =~= t + s.subrange(t.len() as int, s.len() as int));
    } else {
        assert(s.subrange(s.len() as int, s.len() as int) =~= Seq::<char>::empty());
        assert(s =~= s + Seq::<char>::empty());
    }
}

proof fn lemma_trim_start_split(s: Seq<char>)
    ensures
        trim_start(s).len() <= s.len(),
        s == s.subrange(0, s.len() - trim_start(s).len()) + trim_start(s),
        all_white_space(s.subrange(0, s.len() - trim_start(s).len())),
    decreases s.len(),
{
    if s.len() > 0 && is_white_space(s[0]) {
        lemma_trim_start_split(s.drop_first());
        let t = trim_start(s.drop_first());
        let p = s.drop_first().subrange(0, s.len() - 1 - t.len());
        assert(s.subrange(0, s.len() - t.len()) =~= seq![s[0]] + p);
        lemma_white_concat(seq![s[0]], p);
        assert(s =~= seq![s[0]] + s.drop_first());
        assert(s.drop_first() == p + t);
        assert(seq![s[0]] + (p + t) =~= (seq![s[0]] + p) + t);
        assert(s =~= s.subrange(0, s.len() - t.len()) + t);
    } else {
        assert(s.subrange(0, 0) =~= Seq::<char>::empty());
        assert(s =~= Seq::<char>::empty() + s);
    }
}

proof fn lemma_lines_whole_grow(gs: Seq<Seq<char>>, lines: Seq<Seq<char>>)
    requires
        gs.len() > 0,
        lines_whole(gs.drop_last(), lines),
    ensures
        lines_whole(gs, lines),
{
    assert forall|j: int| 0 <= j < lines.len() implies whole_graphemes_trimmed(
        gs,
        #[trigger] lines[j],
    ) by {
        assert(whole_graphemes_trimmed(gs.drop_last(), lines[j]));
        let (a, b, i) = choose|a: int, b: int, i: int|
            0 <= a <= b <= gs.drop_last().len() && #[trigger] trims_to(
                joined(gs.drop_last().subrange(a, b)),
                i,
                lines[j],
            );
        assert(gs.drop_last().subrange(a, b) =~= gs.subrange(a, b));
        assert(trims_to(joined(gs.subrange(a, b)), i, lines[j]));
    }
}

proof fn lemma_break_whole(
    gs: Seq<Seq<char>>,
    st: WrapState,
    a: int,
    p: Seq<char>,
    end: nat,
    k: int,
)
    requires
        0 <= a <= k <= gs.len(),
        all_white_space(p),
        p + st.line == joined(gs.subrange(a, gs.len() as int)),
        end <= st.line.len(),
        joined(gs.subrange(a, k)) == p + st.line.subrange(0, end as int),
        lines_whole(gs, st.lines),
        st.lines.len() <= a < k,
        placed_in_order(joined(gs.subrange(0, a)), st.lines),
    ensures
        lines_whole(gs, break_line(st, end).lines),
        pending_whole(gs, break_line(st, end)),
{
    let next = break_line(st, end);
    let head0 = st.line.subrange(0, end as int);
    let head = trim_end(head0);
    lemma_trim_end_split(head0);
    let q = head0.subrange(head.len() as int, head0.len() as int);
    let c = joined(gs.subrange(a, k));
    assert(c == p + head + q);
    let i = p.len() as int;
    assert(c.subrange(i, i + head.len()) =~= head);
    assert(c.subrange(0, i) =~= p);
    assert(c.subrange(i + head.len(), c.len() as int) =~= q);
    assert(trims_to(c, i, head));
    assert(whole_graphemes_trimmed(gs, head));
    assert forall|j: int| 0 <= j < next.lines.len() implies whole_graphemes_trimmed(
        gs,
        #[trigger] next.lines[j],
    ) by {
        if j < st.lines.len() {
            assert(next.lines[j] == st.lines[j]);
        } else {
            assert(next.lines[j] == head);
        }
    }
    let tail0 = st.line.subrange(end as int, st.line.len() as int);
    let rest = trim_start(tail0);
    lemma_trim_start_split(tail0);
    let p2 = tail0.subrange(0, tail0.len() - rest.len());
    lemma_joined_split(gs, a, k, gs.len() as int);
    let after = joined(gs.subrange(k, gs.len() as int));
    assert(st.line =~= head0 + tail0);
    assert(p + st.line =~= (p + head0) + tail0);
    assert(c + after == (p + head0) + tail0);
    assert(after =~= (c + after).subrange(c.len() as int, (c + after).len() as int));
    assert(tail0 =~= ((p + head0) + tail0).subrange(c.len() as int, (c + after).len() as int));
    assert(p2 + next.line == joined(gs.subrange(k, gs.len() as int)));
    let before = joined(gs.subrange(0, a));
    lemma_joined_split(gs, 0, a, k);
    lemma_placed_push(before, st.lines, p, head);
    lemma_placed_white(before + p + head, st.lines.push(head), q);
    assert(joined(gs.subrange(0, k)) =~= before + p + head + q);
    assert(pending_from(gs, next, k, p2));
}

proof fn lemma_make_room_whole(st: WrapState, gw: nat, ws: bool, width: nat, gs: Seq<Seq<char>>)
    requires
        separator_in_line(st),
        pending_whole(gs, st),
        lines_whole(gs, st.lines),
    ensures
        pending_whole(gs, make_room(st, gw, ws, width)),
        lines_whole(gs, make_room(st, gw, ws, width).lines),
    decreases st.line.len(),
{
    if st.line.len() > 0 && st.used + gw > width {
        let (a, p) = choose|a: int, p: Seq<char>| #[trigger] pending_from(gs, st, a, p);
        let end = break_point(st, ws);
        if ws || st.separator is None {
            assert(st.line.subrange(0, end as int) =~= st.line);
            if a == gs.len() {
                assert(gs.subrange(a, a) =~= Seq::<Seq<char>>::empty());
                assert((p + st.line).len() > 0);
            }
            lemma_break_whole(gs, st, a, p, end, gs.len() as int);
        } else {
            let k = choose|k: int|
                a <= k <= gs.len() && #[trigger] joined(gs.subrange(a, k)) == p + st.line.subrange(
                    0,
                    end as int,
                );
            if k == a {
                assert(gs.subrange(a, a) =~= Seq::<Seq<char>>::empty());
                assert((p + st.line.subrange(0, end as int)).len() > 0);
            }
            lemma_break_whole(gs, st, a, p, end, k);
        }
        lemma_trim_start_len(st.line.subrange(end as int, st.line.len() as int));
        lemma_make_room_whole(break_line(st, end), gw, ws, width, gs);
    }
}

proof fn lemma_run_whole(gs: Seq<Seq<char>>, width: nat)
    requires
        graphemes_non_empty(gs),
    ensures
        pending_whole(gs, run_graphemes(gs, width)),
        lines_whole(gs, run_graphemes(gs, width).lines),
    decreases gs.len(),
{
    if gs.len() == 0 {
        assert(gs.subrange(0, 0) =~= Seq::<Seq<char>>::empty());
        assert(Seq::<char>::empty() + Seq::<char>::empty() =~= Seq::<char>::empty());
        assert(placed_in_order(joined(gs.subrange(0, 0)), Seq::<Seq<char>>::empty()));
        assert(pending_from(gs, run_graphemes(gs, width), 0, Seq::<char>::empty()));
    } else {
        let prev = gs.drop_last();
        let g = gs.last();
        assert(graphemes_non_empty(prev)) by {
            assert forall|i: int| 0 <= i < prev.len() implies #[trigger] prev[i].len() > 0 by {
                assert(prev[i] == gs[i]);
            }
        }
        lemma_run_whole(prev, width);
        lemma_run(prev, width);
        let st = run_graphemes(prev, width);
        let ws = all_white_space(g);
        let gw = display_width(g);
        let roomy = make_room(st, gw, ws, width);
        lemma_make_room_whole(st, gw, ws, width, prev);
        lemma_make_room(st, gw, ws, width, prev);
        lemma_lines_whole_grow(gs, roomy.lines);
        let (a, p) = choose|a: int, p: Seq<char>| #[trigger] pending_from(prev, roomy, a, p);
        let n = gs.len() as int;
        if a < n {
            lemma_joined_push(gs, a);
        } else {
            assert(gs.subrange(a, n) =~= Seq::<Seq<char>>::empty());
        }
        assert(prev.subrange(a, n - 1) =~= gs.subrange(a, n - 1));
        assert(prev.subrange(0, a) =~= gs.subrange(0, a));
        let next = run_graphemes(gs, width);
        if ws && roomy.line.len() == 0 {
            lemma_white_concat(p, g);
            if a < n {
                assert(joined(gs.subrange(a, n)) == joined(gs.subrange(a, n - 1)) + g);
            }
            assert((p + g) + next.line =~= p + g);
            assert(roomy.line =~= Seq::<char>::empty());
            assert(p + roomy.line =~= p);
            assert(joined(gs.subrange(a, n)) =~= (p + g) + next.line);
            assert(pending_from(gs, next, a, p + g));
        } else {
            assert(next.line == roomy.line + g);
            assert(p + next.line =~= (p + roomy.line) + g);
            assert(p + next.line == joined(gs.subrange(a, n)));
            if next.separator is Some {
                let s = next.separator->0;
                if ws || is_break_mark(g) {
                    assert(next.line.subrange(0, s as int) =~= next.line);
                    assert(joined(gs.subrange(a, n)) == p + next.line.subrange(0, s as int));
                } else {
                    let k = choose|k: int|
                        a <= k <= prev.len() && #[trigger] joined(prev.subrange(a, k)) == p
                            + roomy.line.subrange(0, s as int);
                    assert(prev.subrange(a, k) =~= gs.subrange(a, k));
                    assert(next.line.subrange(0, s as int) =~= roomy.line.subrange(0, s as int));
                    assert(joined(gs.subrange(a, k)) == p + next.line.subrange(0, s as int));
                }
            }
            assert(pending_from(gs, next, a, p));
        }
    }
}

/// Wrapping never cuts a grapheme: every line is a run of consecutive whole
/// graphemes of the title, less white space at its two ends.
pub proof fn law_wrap_keeps_graphemes_whole(gs: Seq<Seq<char>>, width: nat)
    requires
        graphemes_non_empty(gs),
    ensures
        forall|j: int|
            0 <= j < wrap_graphemes(gs, width).len() ==> whole_graphemes_trimmed(
                gs,
                #[trigger] wrap_graphemes(gs, width)[j],
            ),
{
    let out = wrap_graphemes(gs, width);
    if width == 0 {
        let e = Seq::<char>::empty();
        assert(gs.subrange(0, 0) =~= Seq::<Seq<char>>::empty());
        assert(e.subrange(0, 0) =~= e);
        assert(trims_to(joined(gs.subrange(0, 0)), 0, e));
        assert(out[0] == e);
        assert(whole_graphemes_trimmed(gs, out[0]));
    } else {
        lemma_run_whole(gs, width);
        let st = run_graphemes(gs, width);
        if st.line.len() > 0 || st.lines.len() == 0 {
            let (a, p) = choose|a: int, p: Seq<char>| #[trigger] pending_from(gs, st, a, p);
            let last = trim_end(st.line);
            lemma_trim_end_split(st.line);
            let q = st.line.subrange(last.len() as int, st.line.len() as int);
            let c = joined(gs.subrange(a, gs.len() as int));
            assert(c == p + last + q);
            let i = p.len() as int;
            assert(c.subrange(i, i + last.len()) =~= last);
            assert(c.subrange(0, i) =~= p);
            assert(c.subrange(i + last.len(), c.len() as int) =~= q);
            assert(trims_to(c, i, last));
            assert(whole_graphemes_trimmed(gs, last));
            assert forall|j: int| 0 <= j < out.len() implies whole_graphemes_trimmed(
                gs,
                #[trigger] out[j],
            ) by {
                if j < st.lines.len() {
                    assert(out[j] == st.lines[j]);
                } else {
                    assert(out[j] == last);
                }
            }
        }
    }
}


/// `line` stands in `text` from place `i` on.
pub open spec fn stretch_at(text: Seq<char>, i: int, line: Seq<char>) -> bool {
    0 <= i && i + line.len() <= text.len() && text.subrange(i, i + line.len()) == line
}

/// `line` is a stretch of consecutive characters of `text`.
pub open spec fn is_stretch_of(text: Seq<char>, line: Seq<char>) -> bool {
    exists|i: int| #[trigger] stretch_at(text, i, line)
}

/// Place `m` (counted from 1) of the line holds a character that is not white space.
spec fn anchor(line: Seq<char>, m: int) -> bool {
    1 <= m <= line.len() && !is_white_space(line[m - 1])
}

/// What keeps lines from coming out empty: finished lines are not empty; a
/// pending line holds a visible character before any break place; and once
/// a visible character was seen, something is pending or finished.
spec fn non_empty_invariant(st: WrapState, done: Seq<Seq<char>>) -> bool {
    &&& forall|j: int| 0 <= j < st.lines.len() ==> #[trigger] st.lines[j].len() > 0
    &&& st.line.len() > 0 ==> exists|m: int|
        #[trigger] anchor(st.line, m) && (st.separator matches Some(s) ==> m <= s)
    &&& visible_all(done).len() > 0 ==> st.line.len() > 0 || st.lines.len() > 0
}

proof fn lemma_trim_end_keeps_anchor(s: Seq<char>, m: int)
    requires
        anchor(s, m),
    ensures
        trim_end(s).len() >= m,
    decreases s.len(),
{
    if s.len() > 0 && is_white_space(s.last()) {
        assert(m < s.len());
        assert(s.drop_last()[m - 1] == s[m - 1]);
        lemma_trim_end_keeps_anchor(s.drop_last(), m);
    }
}

proof fn lemma_trim_start_first(s: Seq<char>)
    ensures
        trim_start(s).len() > 0 ==> !is_white_space(trim_start(s)[0]),
    decreases s.len(),
{
    if s.len() > 0 && is_white_space(s[0]) {
        lemma_trim_start_first(s.drop_first());
    }
}

proof fn lemma_make_room_non_empty(st: WrapState, gw: nat, ws: bool, width: nat, done: Seq<Seq<char>>)
    requires
        separator_in_line(st),
        non_empty_invariant(st, done),
    ensures
        non_empty_invariant(make_room(st, gw, ws, width), done),
    decreases st.line.len(),
{
    if st.line.len() > 0 && st.used + gw > width {
        let end = break_point(st, ws);
        let m = choose|m: int| #[trigger] anchor(st.line, m) && (st.separator matches Some(s) ==> m <= s);
        let head0 = st.line.subrange(0, end as int);
        assert(head0[m - 1] == st.line[m - 1]);
        assert(anchor(head0, m));
        lemma_trim_end_keeps_anchor(head0, m);
        let next = break_line(st, end);
        let tail0 = st.line.subrange(end as int, st.line.len() as int);
        lemma_trim_start_first(tail0);
        if next.line.len() > 0 {
            assert(anchor(next.line, 1));
        }
        assert forall|j: int| 0 <= j < next.lines.len() implies #[trigger] next.lines[j].len() > 0 by {
            if j < st.lines.len() {
                assert(next.lines[j] == st.lines[j]);
            }
        }
        assert(non_empty_invariant(next, done));
        lemma_trim_start_len(tail0);
        lemma_make_room_non_empty(next, gw, ws, width, done);
    }
}

proof fn lemma_run_non_empty(gs: Seq<Seq<char>>, width: nat)
    requires
        graphemes_non_empty(gs),
    ensures
        non_empty_invariant(run_graphemes(gs, width), gs),
    decreases gs.len(),
{
    if gs.len() > 0 {
        let prev = gs.drop_last();
        let g = gs.last();
        assert(graphemes_non_empty(prev)) by {
            assert forall|i: int| 0 <= i < prev.len() implies #[trigger] prev[i].len() > 0 by {
                assert(prev[i] == gs[i]);
            }
        }
        lemma_run_non_empty(prev, width);
        lemma_run(prev, width);
        let st = run_graphemes(prev, width);
        let ws = all_white_space(g);
        let gw = display_width(g);
        let roomy = make_room(st, gw, ws, width);
        lemma_make_room_non_empty(st, gw, ws, width, prev);
        lemma_make_room(st, gw, ws, width, prev);
        assert(visible_all(gs) == visible_all(prev) + visible(g));
        let next = run_graphemes(gs, width);
        if ws && roomy.line.len() == 0 {
            lemma_visible_white(g);
            assert(visible_all(gs) =~= visible_all(prev));
        } else {
            assert(next.line == roomy.line + g);
            if roomy.line.len() > 0 {
                let m = choose|m: int|
                    #[trigger] anchor(roomy.line, m) && (roomy.separator matches Some(s) ==> m <= s);
                assert(next.line[m - 1] == roomy.line[m - 1]);
                assert(anchor(next.line, m));
            } else {
                let t = choose|t: int| 0 <= t < g.len() && !is_white_space(g[t]);
                assert(next.line[t] == g[t]);
                assert(anchor(next.line, t + 1));
            }
        }
    }
}

/// Where the graphemes hold a character that is not white space, wrapping
/// into a positive width gives no empty line.
pub proof fn law_wrap_lines_not_empty(gs: Seq<Seq<char>>, width: nat)
    requires
        graphemes_non_empty(gs),
        width > 0,
        visible_all(gs).len() > 0,
    ensures
        forall|j: int|
            0 <= j < wrap_graphemes(gs, width).len() ==> #[trigger] wrap_graphemes(gs, width)[j].len() > 0,
{
    lemma_run_non_empty(gs, width);
    let st = run_graphemes(gs, width);
    let out = wrap_graphemes(gs, width);
    if st.line.len() > 0 {
        let m = choose|m: int| #[trigger] anchor(st.line, m) && (st.separator matches Some(s) ==> m <= s);
        lemma_trim_end_keeps_anchor(st.line, m);
    }
    assert forall|j: int| 0 <= j < out.len() implies #[trigger] out[j].len() > 0 by {
        if j < st.lines.len() {
            assert(out[j] == st.lines[j]);
        }
    }
}

proof fn lemma_visible_all_joined(gs: Seq<Seq<char>>)
    ensures
        visible_all(gs) == visible(joined(gs)),
    decreases gs.len(),
{
    if gs.len() > 0 {
        lemma_visible_all_joined(gs.drop_last());
        lemma_visible_add(joined(gs.drop_last()), gs.last());
    }
}

proof fn lemma_visible_without_lone_line_feeds(s: Seq<char>)
    ensures
        visible(without_lone_line_feeds(s)) == visible(s),
    decreases s.len(),
{
    if s.len() > 0 {
        lemma_visible_without_lone_line_feeds(s.drop_last());
        let r = without_lone_line_feeds(s.drop_last());
        if !(s.last() == '\n' && !(s.len() >= 2 && s[s.len() - 2] == '\r')) {
            assert(without_lone_line_feeds(s) == r.push(s.last()));
            assert(r.push(s.last()).drop_last() =~= r);
        }
    }
}

/// What the lines of a title are, given its graphemes joined back: each a
/// stretch of the title less its lone line feeds, keeping all its visible
/// characters, and none empty when it has one.
pub proof fn lemma_title_lines(title: Seq<char>, gs: Seq<Seq<char>>, width: nat)
    requires
        graphemes_non_empty(gs),
        joined(gs) == without_lone_line_feeds(title),
        width > 0,
    ensures
        forall|j: int|
            0 <= j < wrap_graphemes(gs, width).len() ==> is_stretch_of(
                without_lone_line_feeds(title),
                #[trigger] wrap_graphemes(gs, width)[j],
            ),
        visible_all(wrap_graphemes(gs, width)) == visible(title),
        visible(title).len() > 0 ==> forall|j: int|
            0 <= j < wrap_graphemes(gs, width).len() ==> #[trigger] wrap_graphemes(gs, width)[j].len()
                > 0,
{
    let out = wrap_graphemes(gs, width);
    let text = without_lone_line_feeds(title);
    law_wrap_keeps_graphemes_whole(gs, width);
    law_wrap_keeps_visible_text(gs, width);
    lemma_visible_all_joined(gs);
    lemma_visible_without_lone_line_feeds(title);
    if visible(title).len() > 0 {
        law_wrap_lines_not_empty(gs, width);
    }
    assert forall|j: int| 0 <= j < out.len() implies is_stretch_of(text, #[trigger] out[j]) by {
        let line = out[j];
        assert(whole_graphemes_trimmed(gs, line));
        let (a, b, i) = choose|a: int, b: int, i: int|
            0 <= a <= b <= gs.len() && #[trigger] trims_to(joined(gs.subrange(a, b)), i, line);
        let n = gs.len() as int;
        lemma_joined_split(gs, 0, a, n);
        lemma_joined_split(gs, a, b, n);
        assert(gs.subrange(0, n) =~= gs);
        let pre = joined(gs.subrange(0, a));
        let mid = joined(gs.subrange(a, b));
        let post = joined(gs.subrange(b, n));
        assert(text == pre + (mid + post));
        let o = pre.len() + i;
        assert(text.subrange(o, o + line.len()) =~= mid.subrange(i, i + line.len()));
        assert(stretch_at(text, o, line));
    }
}


/// The sum of the display widths of the graphemes, each measured alone.
pub open spec fn widths(gs: Seq<Seq<char>>) -> nat
    decreases gs.len(),
{
    if gs.len() == 0 {
        0
    } else {
        widths(gs.drop_last()) + display_width(gs.last())
    }
}

/// No grapheme mixes white space with other characters at its start or its
/// end: one that starts or ends with white space is white space throughout.
pub open spec fn white_space_whole(gs: Seq<Seq<char>>) -> bool {
    forall|k: int|
        #![trigger gs[k]]
        0 <= k < gs.len() && gs[k].len() > 0 && (is_white_space(gs[k][0]) || is_white_space(
            gs[k].last(),
        )) ==> all_white_space(gs[k])
}

/// The display width of every run of the graphemes is the sum of their widths.
pub open spec fn widths_add_up(gs: Seq<Seq<char>>) -> bool {
    forall|a: int, b: int|
        0 <= a <= b <= gs.len() ==> #[trigger] display_width(joined(gs.subrange(a, b))) == widths(
            gs.subrange(a, b),
        )
}

/// The run of graphemes from `a` to `b` neither starts nor ends with a
/// white space grapheme.
pub open spec fn clean_run(gs: Seq<Seq<char>>, a: int, b: int) -> bool {
    a < b ==> !all_white_space(gs[a]) && !all_white_space(gs[b - 1])
}

/// `line` is a run of consecutive whole graphemes, neither starting nor
/// ending with a white space grapheme, whose widths add up to at most
/// `width`, or a single grapheme.
pub open spec fn fits_or_single(gs: Seq<Seq<char>>, line: Seq<char>, width: nat) -> bool {
    exists|a: int, b: int|
        0 <= a <= b <= gs.len() && #[trigger] joined(gs.subrange(a, b)) == line && clean_run(gs, a, b)
            && (widths(gs.subrange(a, b)) <= width || b == a + 1)
}

spec fn fit_pending(gs: Seq<Seq<char>>, st: WrapState, width: nat, a: int) -> bool {
    let n = gs.len() as int;
    &&& 0 <= a <= n
    &&& st.line == joined(gs.subrange(a, n))
    &&& st.used == widths(gs.subrange(a, n))
    &&& (st.used <= width || n == a + 1)
    &&& (a < n ==> !all_white_space(gs[a]))
    &&& st.separator matches Some(s) ==> exists|k: int|
        a <= k <= n && s == #[trigger] joined(gs.subrange(a, k)).len()
}

spec fn fit_invariant(gs: Seq<Seq<char>>, st: WrapState, width: nat) -> bool {
    &&& exists|a: int| #[trigger] fit_pending(gs, st, width, a)
    &&& forall|j: int| 0 <= j < st.lines.len() ==> fits_or_single(gs, #[trigger] st.lines[j], width)
}

proof fn lemma_widths_split(gs: Seq<Seq<char>>, a: int, k: int, b: int)
    requires
        0 <= a <= k <= b <= gs.len(),
    ensures
        widths(gs.subrange(a, b)) == widths(gs.subrange(a, k)) + widths(gs.subrange(k, b)),
    decreases b - k,
{
    if b == k {
        assert(gs.subrange(k, b) =~= Seq::<Seq<char>>::empty());
    } else {
        lemma_widths_split(gs, a, k, b - 1);
        assert(gs.subrange(a, b).drop_last() =~= gs.subrange(a, b - 1));
        assert(gs.subrange(k, b).drop_last() =~= gs.subrange(k, b - 1));
        assert(gs.subrange(a, b).last() == gs[b - 1]);
        assert(gs.subrange(k, b).last() == gs[b - 1]);
    }
}

proof fn lemma_trim_end_white_tail(x: Seq<char>, y: Seq<char>)
    requires
        all_white_space(y),
    ensures
        trim_end(x + y) == trim_end(x),
    decreases y.len(),
{
    if y.len() > 0 {
        assert((x + y).last() == y.last());
        assert(is_white_space(y[y.len() - 1]));
        assert((x + y).drop_last() =~= x + y.drop_last());
        lemma_trim_end_white_tail(x, y.drop_last());
    } else {
        assert(x + y =~= x);
    }
}

proof fn lemma_trim_start_white_head(x: Seq<char>, y: Seq<char>)
    requires
        all_white_space(x),
    ensures
        trim_start(x + y) == trim_start(y),
    decreases x.len(),
{
    if x.len() > 0 {
        assert((x + y)[0] == x[0]);
        assert(is_white_space(x[0]));
        assert((x + y).drop_first() =~= x.drop_first() + y);
        lemma_trim_start_white_head(x.drop_first(), y);
    } else {
        assert(x + y =~= y);
    }
}

/// Trimming the end of a run of whole graphemes drops whole white space graphemes.
proof fn lemma_trim_end_run(gs: Seq<Seq<char>>, a: int, b: int) -> (k: int)
    requires
        0 <= a <= b <= gs.len(),
        graphemes_non_empty(gs),
        white_space_whole(gs),
    ensures
        a <= k <= b,
        trim_end(joined(gs.subrange(a, b))) == joined(gs.subrange(a, k)),
        k == a || !all_white_space(gs[k - 1]),
    decreases b - a,
{
    if a == b {
        assert(gs.subrange(a, b) =~= Seq::<Seq<char>>::empty());
        a
    } else {
        let g = gs[b - 1];
        assert(gs[b - 1].len() > 0);
        assert(gs.subrange(a, b).drop_last() =~= gs.subrange(a, b - 1));
        assert(gs.subrange(a, b).last() == g);
        let x = joined(gs.subrange(a, b - 1));
        assert(joined(gs.subrange(a, b)) == x + g);
        if all_white_space(g) {
            lemma_trim_end_white_tail(x, g);
            lemma_trim_end_run(gs, a, b - 1)
        } else {
            assert(!is_white_space(g.last()));
            assert((x + g).last() == g.last());
            b
        }
    }
}

/// Trimming the start of a run of whole graphemes drops whole white space graphemes.
proof fn lemma_trim_start_run(gs: Seq<Seq<char>>, a: int, b: int) -> (k: int)
    requires
        0 <= a <= b <= gs.len(),
        graphemes_non_empty(gs),
        white_space_whole(gs),
    ensures
        a <= k <= b,
        trim_start(joined(gs.subrange(a, b))) == joined(gs.subrange(k, b)),
        k == b || !all_white_space(gs[k]),
    decreases b - a,
{
    if a == b {
        a
    } else {
        let g = gs[a];
        assert(gs[a].len() > 0);
        lemma_joined_split(gs, a, a + 1, b);
        assert(gs.subrange(a, a + 1).drop_last() =~= Seq::<Seq<char>>::empty());
        assert(gs.subrange(a, a + 1).last() == g);
        assert(joined(gs.subrange(a, a + 1).drop_last()) =~= Seq::<char>::empty());
        assert(joined(gs.subrange(a, a + 1)) =~= Seq::<char>::empty() + g);
        assert(joined(gs.subrange(a, a + 1)) =~= g);
        let y = joined(gs.subrange(a + 1, b));
        assert(joined(gs.subrange(a, b)) == g + y);
        if all_white_space(g) {
            lemma_trim_start_white_head(g, y);
            lemma_trim_start_run(gs, a + 1, b)
        } else {
            assert(!is_white_space(g[0]));
            assert((g + y)[0] == g[0]);
            a
        }
    }
}

proof fn lemma_break_fit(gs: Seq<Seq<char>>, st: WrapState, width: nat, a: int, end: nat, k: int)
    requires
        graphemes_non_empty(gs),
        white_space_whole(gs),
        widths_add_up(gs),
        fit_pending(gs, st, width, a),
        forall|j: int| 0 <= j < st.lines.len() ==> fits_or_single(gs, #[trigger] st.lines[j], width),
        a <= k <= gs.len(),
        end == joined(gs.subrange(a, k)).len(),
        st.used > width ==> k == gs.len(),
    ensures
        fit_invariant(gs, break_line(st, end), width),
{
    let n = gs.len() as int;
    let next = break_line(st, end);
    lemma_joined_split(gs, a, k, n);
    lemma_widths_split(gs, a, k, n);
    let left = joined(gs.subrange(a, k));
    let right = joined(gs.subrange(k, n));
    assert(st.line.subrange(0, end as int) =~= left);
    assert(st.line.subrange(end as int, st.line.len() as int) =~= right);
    let k1 = lemma_trim_end_run(gs, a, k);
    lemma_widths_split(gs, a, k1, k);
    let head = joined(gs.subrange(a, k1));
    if st.used <= width {
        assert(widths(gs.subrange(a, k1)) <= width);
    } else if k1 == a {
        assert(gs.subrange(a, k1) =~= Seq::<Seq<char>>::empty());
    }
    assert(fits_or_single(gs, head, width));
    assert forall|j: int| 0 <= j < next.lines.len() implies fits_or_single(
        gs,
        #[trigger] next.lines[j],
        width,
    ) by {
        if j < st.lines.len() {
            assert(next.lines[j] == st.lines[j]);
        } else {
            assert(next.lines[j] == head);
        }
    }
    let k2 = lemma_trim_start_run(gs, k, n);
    lemma_widths_split(gs, k, k2, n);
    assert(next.line == joined(gs.subrange(k2, n)));
    assert(next.used == widths(gs.subrange(k2, n)));
    if st.used > width {
        assert(gs.subrange(k2, n) =~= Seq::<Seq<char>>::empty());
    }
    assert(fit_pending(gs, next, width, k2));
}

proof fn lemma_make_room_fit(st: WrapState, gw: nat, ws: bool, width: nat, gs: Seq<Seq<char>>)
    requires
        graphemes_non_empty(gs),
        white_space_whole(gs),
        widths_add_up(gs),
        separator_in_line(st),
        fit_invariant(gs, st, width),
    ensures
        fit_invariant(gs, make_room(st, gw, ws, width), width),
    decreases st.line.len(),
{
    if st.line.len() > 0 && st.used + gw > width {
        let n = gs.len() as int;
        let a = choose|a: int| #[trigger] fit_pending(gs, st, width, a);
        let end = break_point(st, ws);
        if ws || st.separator is None {
            lemma_break_fit(gs, st, width, a, end, n);
        } else {
            let s = st.separator->0;
            let k = choose|k: int| a <= k <= n && s == #[trigger] joined(gs.subrange(a, k)).len();
            if st.used > width {
                assert(n == a + 1);
                if k == a {
                    assert(gs.subrange(a, k) =~= Seq::<Seq<char>>::empty());
                }
            }
            lemma_break_fit(gs, st, width, a, end, k);
        }
        lemma_trim_start_len(st.line.subrange(end as int, st.line.len() as int));
        lemma_make_room_fit(break_line(st, end), gw, ws, width, gs);
    }
}

proof fn lemma_run_fit(gs: Seq<Seq<char>>, width: nat)
    requires
        graphemes_non_empty(gs),
        white_space_whole(gs),
        widths_add_up(gs),
    ensures
        fit_invariant(gs, run_graphemes(gs, width), width),
    decreases gs.len(),
{
    let n = gs.len() as int;
    if n == 0 {
        assert(gs.subrange(0, 0) =~= Seq::<Seq<char>>::empty());
        assert(fit_pending(gs, run_graphemes(gs, width), width, 0));
    } else {
        let prev = gs.drop_last();
        let g = gs.last();
        assert(graphemes_non_empty(prev)) by {
            assert forall|i: int| 0 <= i < prev.len() implies #[trigger] prev[i].len() > 0 by {
                assert(prev[i] == gs[i]);
            }
        }
        assert(white_space_whole(prev)) by {
            assert forall|i: int| 0 <= i < prev.len() && prev[i].len() > 0 && (is_white_space(prev[i][0]) || is_white_space(prev[i].last()))
                implies all_white_space(#[trigger] prev[i]) by {
                assert(prev[i] == gs[i]);
            }
        }
        assert(widths_add_up(prev)) by {
            assert forall|a: int, b: int| 0 <= a <= b <= prev.len() implies #[trigger] display_width(
                joined(prev.subrange(a, b)),
            ) == widths(prev.subrange(a, b)) by {
                assert(prev.subrange(a, b) =~= gs.subrange(a, b));
            }
        }
        lemma_run_fit(prev, width);
        lemma_run(prev, width);
        let st = run_graphemes(prev, width);
        let ws = all_white_space(g);
        let gw = display_width(g);
        let roomy = make_room(st, gw, ws, width);
        lemma_make_room(st, gw, ws, width, prev);
        // Carry the invariant over to the longer grapheme sequence.
        assert(fit_invariant(gs.drop_last(), st, width));
        lemma_make_room_fit(st, gw, ws, width, prev);
        let a = choose|a: int| #[trigger] fit_pending(prev, roomy, width, a);
        assert forall|j: int| 0 <= j < roomy.lines.len() implies fits_or_single(
            gs,
            #[trigger] roomy.lines[j],
            width,
        ) by {
            assert(fits_or_single(prev, roomy.lines[j], width));
            let (x, y) = choose|x: int, y: int|
                0 <= x <= y <= prev.len() && #[trigger] joined(prev.subrange(x, y)) == roomy.lines[j]
                    && clean_run(prev, x, y) && (widths(prev.subrange(x, y)) <= width || y == x + 1);
            assert(prev.subrange(x, y) =~= gs.subrange(x, y));
            if x < y {
                assert(prev[x] == gs[x]);
                assert(prev[y - 1] == gs[y - 1]);
            }
        }
        assert(prev.subrange(a, n - 1) =~= gs.subrange(a, n - 1));
        if a < n - 1 {
            assert(joined(gs.subrange(a, n - 1)).len() > 0) by {
                assert(gs.subrange(a, n - 1).last() == gs[n - 2]);
                assert(gs[n - 2].len() > 0);
            }
        }
        let next = run_graphemes(gs, width);
        if ws && roomy.line.len() == 0 {
            assert(a == n - 1);
            assert(gs.subrange(n, n) =~= Seq::<Seq<char>>::empty());
            assert(gs.subrange(a, n - 1) =~= Seq::<Seq<char>>::empty());
            assert(fit_pending(gs, next, width, n));
        } else {
            assert(gs.subrange(a, n).drop_last() =~= gs.subrange(a, n - 1));
            assert(gs.subrange(a, n).last() == g);
            assert(next.line == joined(gs.subrange(a, n)));
            assert(next.used == widths(gs.subrange(a, n)));
            if roomy.line.len() == 0 {
                assert(a == n - 1);
            } else {
                assert(prev[a] == gs[a]);
            }
            if next.separator is Some {
                let s = next.separator->0;
                if ws || is_break_mark(g) {
                    assert(s == joined(gs.subrange(a, n)).len());
                } else {
                    let k = choose|k: int| a <= k <= n - 1 && s == #[trigger] joined(prev.subrange(a, k)).len();
                    assert(prev.subrange(a, k) =~= gs.subrange(a, k));
                    assert(s == joined(gs.subrange(a, k)).len());
                }
            }
            assert(fit_pending(gs, next, width, a));
        }
    }
}

/// Where no grapheme mixes white space with other characters at its edges
/// and display widths add up over graphemes: every wrapped line is a run of
/// whole graphemes whose widths add up to at most the width, unless it is a
/// single grapheme (one wider than the width stands alone).
pub proof fn law_wrap_lines_fit(gs: Seq<Seq<char>>, width: nat)
    requires
        graphemes_non_empty(gs),
        white_space_whole(gs),
        widths_add_up(gs),
    ensures
        forall|j: int|
            0 <= j < wrap_graphemes(gs, width).len() ==> fits_or_single(
                gs,
                #[trigger] wrap_graphemes(gs, width)[j],
                width,
            ),
{
    let out = wrap_graphemes(gs, width);
    let n = gs.len() as int;
    if width == 0 {
        assert(gs.subrange(0, 0) =~= Seq::<Seq<char>>::empty());
        assert(joined(gs.subrange(0, 0)) == out[0]);
        assert(fits_or_single(gs, out[0], width));
    } else {
        lemma_run_fit(gs, width);
        let st = run_graphemes(gs, width);
        let a = choose|a: int| #[trigger] fit_pending(gs, st, width, a);
        let k1 = lemma_trim_end_run(gs, a, n);
        lemma_widths_split(gs, a, k1, n);
        let last = joined(gs.subrange(a, k1));
        if k1 == a {
            assert(gs.subrange(a, k1) =~= Seq::<Seq<char>>::empty());
        }
        assert(fits_or_single(gs, last, width));
        assert forall|j: int| 0 <= j < out.len() implies fits_or_single(gs, #[trigger] out[j], width) by {
            if j < st.lines.len() {
                assert(out[j] == st.lines[j]);
            } else {
                assert(out[j] == last);
            }
        }
    }
}

spec fn starts_visible(s: Seq<char>) -> bool {
    s.len() > 0 ==> !is_white_space(s[0])
}

proof fn lemma_make_room_lead(st: WrapState, gw: nat, ws: bool, width: nat)
    requires
        separator_in_line(st),
        starts_visible(st.line),
        forall|j: int| 0 <= j < st.lines.len() ==> starts_visible(#[trigger] st.lines[j]),
    ensures
        starts_visible(make_room(st, gw, ws, width).line),
        forall|j: int|
            0 <= j < make_room(st, gw, ws, width).lines.len() ==> starts_visible(
                #[trigger] make_room(st, gw, ws, width).lines[j],
            ),
    decreases st.line.len(),
{
    if st.line.len() > 0 && st.used + gw > width {
        let end = break_point(st, ws);
        let head0 = st.line.subrange(0, end as int);
        lemma_trim_end_split(head0);
        if trim_end(head0).len() > 0 {
            assert(trim_end(head0)[0] == head0[0]);
        }
        let tail0 = st.line.subrange(end as int, st.line.len() as int);
        lemma_trim_start_first(tail0);
        let next = break_line(st, end);
        assert forall|j: int| 0 <= j < next.lines.len() implies starts_visible(#[trigger] next.lines[j]) by {
            if j < st.lines.len() {
                assert(next.lines[j] == st.lines[j]);
            }
        }
        lemma_trim_start_len(tail0);
        lemma_make_room_lead(next, gw, ws, width);
    }
}

proof fn lemma_run_lead(gs: Seq<Seq<char>>, width: nat)
    requires
        graphemes_non_empty(gs),
        white_space_whole(gs),
    ensures
        starts_visible(run_graphemes(gs, width).line),
        forall|j: int|
            0 <= j < run_graphemes(gs, width).lines.len() ==> starts_visible(
                #[trigger] run_graphemes(gs, width).lines[j],
            ),
    decreases gs.len(),
{
    if gs.len() > 0 {
        let prev = gs.drop_last();
        let g = gs.last();
        assert(graphemes_non_empty(prev)) by {
            assert forall|i: int| 0 <= i < prev.len() implies #[trigger] prev[i].len() > 0 by {
                assert(prev[i] == gs[i]);
            }
        }
        assert(white_space_whole(prev)) by {
            assert forall|i: int| 0 <= i < prev.len() && prev[i].len() > 0 && (is_white_space(prev[i][0]) || is_white_space(prev[i].last()))
                implies all_white_space(#[trigger] prev[i]) by {
                assert(prev[i] == gs[i]);
            }
        }
        lemma_run_lead(prev, width);
        lemma_run(prev, width);
        let st = run_graphemes(prev, width);
        let ws = all_white_space(g);
        let gw = display_width(g);
        let roomy = make_room(st, gw, ws, width);
        lemma_make_room_lead(st, gw, ws, width);
        if !(ws && roomy.line.len() == 0) {
            let line = roomy.line + g;
            if roomy.line.len() > 0 {
                assert(line[0] == roomy.line[0]);
            } else {
                assert(gs[gs.len() - 1].len() > 0);
                assert(line[0] == g[0]);
            }
        }
    }
}

/// Where no grapheme mixes white space with other characters at its edges,
/// no wrapped line starts with white space.
pub proof fn law_wrap_lines_have_no_leading_white_space(gs: Seq<Seq<char>>, width: nat)
    requires
        graphemes_non_empty(gs),
        white_space_whole(gs),
    ensures
        forall|j: int|
            0 <= j < wrap_graphemes(gs, width).len() ==> #[trigger] wrap_graphemes(gs, width)[j].len()
                == 0 || !is_white_space(wrap_graphemes(gs, width)[j][0]),
{
    let out = wrap_graphemes(gs, width);
    if width > 0 {
        lemma_run_lead(gs, width);
        let st = run_graphemes(gs, width);
        lemma_trim_end_split(st.line);
        if trim_end(st.line).len() > 0 {
            assert(trim_end(st.line)[0] == st.line[0]);
        }
        assert forall|j: int| 0 <= j < out.len() implies #[trigger] out[j].len() == 0
            || !is_white_space(out[j][0]) by {
            if j < st.lines.len() {
                assert(out[j] == st.lines[j]);
                assert(starts_visible(st.lines[j]));
            }
        }
    }
}

/// Wrapping gives no more lines than there are graphemes (one line when
/// there are none).
pub proof fn law_wrap_line_count(gs: Seq<Seq<char>>, width: nat)
    requires
        graphemes_non_empty(gs),
    ensures
        wrap_graphemes(gs, width).len() <= if gs.len() == 0 {
            1
        } else {
            gs.len()
        },
{
    if width > 0 {
        lemma_run_whole(gs, width);
        let st = run_graphemes(gs, width);
        let (a, p) = choose|a: int, p: Seq<char>| #[trigger] pending_from(gs, st, a, p);
        if st.line.len() > 0 && a == gs.len() {
            assert(gs.subrange(a, a) =~= Seq::<Seq<char>>::empty());
            assert((p + st.line).len() > 0);
        }
    }
}

proof fn lemma_run_without_break(gs: Seq<Seq<char>>, width: nat)
    requires
        graphemes_non_empty(gs),
        widths(gs) <= width,
    ensures
        run_graphemes(gs, width).lines.len() == 0,
        run_graphemes(gs, width).used <= widths(gs),
    decreases gs.len(),
{
    if gs.len() > 0 {
        let prev = gs.drop_last();
        let g = gs.last();
        assert(graphemes_non_empty(prev)) by {
            assert forall|i: int| 0 <= i < prev.len() implies #[trigger] prev[i].len() > 0 by {
                assert(prev[i] == gs[i]);
            }
        }
        lemma_run_without_break(prev, width);
        lemma_run(prev, width);
        let st = run_graphemes(prev, width);
        let gw = display_width(g);
        assert(make_room(st, gw, all_white_space(g), width) == st);
    }
}

/// Graphemes whose widths add up to at most a positive width come out as a
/// single line.
pub proof fn law_wrap_fitting_graphemes_give_one_line(gs: Seq<Seq<char>>, width: nat)
    requires
        graphemes_non_empty(gs),
        width > 0,
        widths(gs) <= width,
    ensures
        wrap_graphemes(gs, width).len() == 1,
{
    lemma_run_without_break(gs, width);
}

proof fn lemma_joined_run_not_empty(gs: Seq<Seq<char>>, a: int, b: int)
    requires
        graphemes_non_empty(gs),
        0 <= a < b <= gs.len(),
    ensures
        joined(gs.subrange(a, b)).len() > 0,
{
    assert(gs.subrange(a, b).last() == gs[b - 1]);
    assert(gs[b - 1].len() > 0);
}

/// Wrapping a clean run of graphemes that fits (or is a single grapheme)
/// adds them all to one pending line without a break.
proof fn lemma_run_clean(r: Seq<Seq<char>>, width: nat)
    requires
        graphemes_non_empty(r),
        r.len() > 0,
        !all_white_space(r[0]),
        widths(r) <= width || r.len() == 1,
    ensures
        run_graphemes(r, width).lines.len() == 0,
        run_graphemes(r, width).line == joined(r),
        run_graphemes(r, width).used == widths(r),
    decreases r.len(),
{
    let prev = r.drop_last();
    let g = r.last();
    assert(r[r.len() - 1].len() > 0);
    assert(graphemes_non_empty(prev)) by {
        assert forall|i: int| 0 <= i < prev.len() implies #[trigger] prev[i].len() > 0 by {
            assert(prev[i] == r[i]);
        }
    }
    lemma_run(prev, width);
    if r.len() == 1 {
        assert(prev =~= Seq::<Seq<char>>::empty());
        assert(g == r[0]);
        assert(make_room(initial_state(), display_width(g), all_white_space(g), width) == initial_state());
        assert(joined(prev) =~= Seq::<char>::empty());
        assert(widths(prev) == 0);
        assert(Seq::<char>::empty() + g =~= g);
    } else {
        assert(prev[0] == r[0]);
        lemma_run_clean(prev, width);
        let st = run_graphemes(prev, width);
        assert(joined(prev).len() > 0) by {
            assert(prev.last() == r[prev.len() - 1]);
        }
        assert(make_room(st, display_width(g), all_white_space(g), width) == st);
    }
}

/// `line` is a run of whole graphemes that, wrapped again at `width`, gives
/// just itself.
pub open spec fn rewraps_to_itself(gs: Seq<Seq<char>>, line: Seq<char>, width: nat) -> bool {
    exists|a: int, b: int|
        0 <= a <= b <= gs.len() && #[trigger] joined(gs.subrange(a, b)) == line && wrap_graphemes(
            gs.subrange(a, b),
            width,
        ) == seq![line]
}

/// Where no grapheme mixes white space with other characters at its edges
/// and display widths add up over graphemes: wrapping the graphemes of any
/// wrapped line again, at the same width, gives that line back alone.
pub proof fn law_rewrapping_a_line_gives_it_back(gs: Seq<Seq<char>>, width: nat)
    requires
        graphemes_non_empty(gs),
        white_space_whole(gs),
        widths_add_up(gs),
    ensures
        forall|j: int|
            0 <= j < wrap_graphemes(gs, width).len() ==> rewraps_to_itself(
                gs,
                #[trigger] wrap_graphemes(gs, width)[j],
                width,
            ),
{
    let out = wrap_graphemes(gs, width);
    law_wrap_lines_fit(gs, width);
    assert forall|j: int| 0 <= j < out.len() implies rewraps_to_itself(gs, #[trigger] out[j], width) by {
        let line = out[j];
        assert(fits_or_single(gs, line, width));
        let (a, b) = choose|a: int, b: int|
            0 <= a <= b <= gs.len() && #[trigger] joined(gs.subrange(a, b)) == line && clean_run(gs, a, b)
                && (widths(gs.subrange(a, b)) <= width || b == a + 1);
        let r = gs.subrange(a, b);
        if a == b {
            assert(r =~= Seq::<Seq<char>>::empty());
            assert(line =~= Seq::<char>::empty());
            assert(trim_end(Seq::<char>::empty()) == Seq::<char>::empty());
            assert(wrap_graphemes(r, width) =~= seq![line]);
        } else {
            if width == 0 {
                assert(out =~= seq![Seq::<char>::empty()]);
                lemma_joined_run_not_empty(gs, a, b);
            }
            assert(graphemes_non_empty(r)) by {
                assert forall|i: int| 0 <= i < r.len() implies #[trigger] r[i].len() > 0 by {
                    assert(r[i] == gs[a + i]);
                }
            }
            assert(r[0] == gs[a]);
            assert(r.last() == gs[b - 1]);
            lemma_run_clean(r, width);
            let g = r.last();
            assert(gs[b - 1].len() > 0);
            assert(!is_white_space(g.last())) by {
                if is_white_space(g.last()) {
                    assert(all_white_space(gs[b - 1]));
                }
            }
            assert(joined(r) == joined(r.drop_last()) + g);
            assert(joined(r).last() == g.last());
            assert(trim_end(joined(r)) == joined(r));
            assert(wrap_graphemes(r, width) =~= seq![line]);
        }
    }
}

/// Wrapping into a positive width places the lines in the joined graphemes
/// in order, at places that do not overlap, with nothing but white space
/// before, between and after them.
pub proof fn law_wrap_lines_in_order(gs: Seq<Seq<char>>, width: nat)
    requires
        graphemes_non_empty(gs),
        width > 0,
    ensures
        placed_in_order(joined(gs), wrap_graphemes(gs, width)),
{
    lemma_run_whole(gs, width);
    let st = run_graphemes(gs, width);
    let n = gs.len() as int;
    let (a, p) = choose|a: int, p: Seq<char>| #[trigger] pending_from(gs, st, a, p);
    let before = joined(gs.subrange(0, a));
    lemma_joined_split(gs, 0, a, n);
    assert(gs.subrange(0, n) =~= gs);
    assert(joined(gs) == before + (p + st.line));
    if st.line.len() > 0 || st.lines.len() == 0 {
        let last = trim_end(st.line);
        lemma_trim_end_split(st.line);
        let q = st.line.subrange(last.len() as int, st.line.len() as int);
        lemma_placed_push(before, st.lines, p, last);
        lemma_placed_white(before + p + last, st.lines.push(last), q);
        assert(joined(gs) =~= before + p + last + q);
    } else {
        assert(p + st.line =~= p);
        lemma_placed_white(before, st.lines, p);
    }
}

proof fn lemma_make_room_keeps_lines(st: WrapState, gw: nat, ws: bool, width: nat)
    requires
        separator_in_line(st),
    ensures
        separator_in_line(make_room(st, gw, ws, width)),
        st.lines.len() <= make_room(st, gw, ws, width).lines.len(),
        forall|j: int|
            0 <= j < st.lines.len() ==> #[trigger] make_room(st, gw, ws, width).lines[j]
                == st.lines[j],
    decreases st.line.len(),
{
    if st.line.len() > 0 && st.used + gw > width {
        let end = break_point(st, ws);
        let next = break_line(st, end);
        lemma_trim_start_len(st.line.subrange(end as int, st.line.len() as int));
        lemma_make_room_keeps_lines(next, gw, ws, width);
        assert forall|j: int| 0 <= j < st.lines.len() implies #[trigger] make_room(
            st,
            gw,
            ws,
            width,
        ).lines[j] == st.lines[j] by {
            assert(next.lines[j] == st.lines[j]);
        }
    }
}

proof fn lemma_push_keeps_lines(st: WrapState, g: Seq<char>, width: nat)
    requires
        separator_in_line(st),
    ensures
        separator_in_line(push_grapheme(st, g, width)),
        st.lines.len() <= push_grapheme(st, g, width).lines.len(),
        forall|j: int|
            0 <= j < st.lines.len() ==> #[trigger] push_grapheme(st, g, width).lines[j]
                == st.lines[j],
{
    lemma_make_room_keeps_lines(st, display_width(g), all_white_space(g), width);
}

proof fn lemma_run_keeps_lines(gs: Seq<Seq<char>>, i: int, width: nat)
    requires
        0 <= i <= gs.len(),
    ensures
        separator_in_line(run_graphemes(gs, width)),
        run_graphemes(gs.take(i), width).lines.len() <= run_graphemes(gs, width).lines.len(),
        forall|j: int|
            0 <= j < run_graphemes(gs.take(i), width).lines.len() ==> #[trigger] run_graphemes(
                gs,
                width,
            ).lines[j] == run_graphemes(gs.take(i), width).lines[j],
    decreases gs.len(),
{
    if i == gs.len() {
        assert(gs.take(i) =~= gs);
    }
    if gs.len() > 0 {
        let prev = gs.drop_last();
        lemma_run_keeps_lines(prev, if i < gs.len() { i } else { prev.len() as int }, width);
        lemma_push_keeps_lines(run_graphemes(prev, width), gs.last(), width);
        if i < gs.len() {
            assert(prev.take(i) =~= gs.take(i));
        }
    }
}

/// The graphemes of `word`, none white space nor a mark, added after a
/// line that ends in a break place while they keep fitting: they only
/// lengthen the pending line.
proof fn lemma_word_runs_on(a: Seq<Seq<char>>, word: Seq<Seq<char>>, i: int, width: nat)
    requires
        0 <= i <= word.len(),
        run_graphemes(a, width).line.len() > 0,
        run_graphemes(a, width).separator == Some(run_graphemes(a, width).line.len()),
        run_graphemes(a, width).used + widths(word) <= width,
        forall|j: int|
            0 <= j < word.len() ==> !all_white_space(#[trigger] word[j]) && word[j] != seq![
                '\u{b7}',
            ] && word[j] != seq!['-'],
    ensures
        ({
            let s1 = run_graphemes(a, width);
            run_graphemes(a + word.take(i), width) == (WrapState {
                lines: s1.lines,
                line: s1.line + joined(word.take(i)),
                used: s1.used + widths(word.take(i)),
                separator: s1.separator,
            })
        }),
    decreases i,
{
    let s1 = run_graphemes(a, width);
    let n = word.len() as int;
    if i == 0 {
        assert(word.take(0) =~= Seq::<Seq<char>>::empty());
        assert(a + word.take(0) =~= a);
        assert(s1.line + joined(word.take(0)) =~= s1.line);
    } else {
        let h = i - 1;
        lemma_word_runs_on(a, word, h, width);
        let st = run_graphemes(a + word.take(h), width);
        let g = word[h];
        assert((a + word.take(i)).drop_last() =~= a + word.take(h));
        assert((a + word.take(i)).last() == g);
        assert(word.take(i).drop_last() =~= word.take(h));
        assert(word.take(i).last() == g);
        lemma_widths_split(word, 0, i, n);
        assert(word.take(i) =~= word.subrange(0, i));
        assert(word.subrange(0, n) =~= word);
        assert(st.used + display_width(g) <= width);
        assert(make_room(st, display_width(g), false, width) == st);
        assert(!is_break_mark(g));
        assert(s1.line + joined(word.take(h)) + g =~= s1.line + joined(word.take(i)));
    }
}

/// A middle dot or a hyphen is a place where a title may be broken: where a
/// grapheme that is not white space no longer fits on a line that runs on
/// past such a mark (with no white space or other mark after it), the line
/// is broken right after the mark. The finished line is the line as it
/// stood when the mark was added, which ends with the mark; it stays among
/// the wrapped lines whatever follows.
pub proof fn law_wrap_breaks_right_after_a_mark(
    before: Seq<Seq<char>>,
    mark: Seq<char>,
    word: Seq<Seq<char>>,
    next: Seq<char>,
    after: Seq<Seq<char>>,
    width: nat,
)
    requires
        mark == seq!['\u{b7}'] || mark == seq!['-'],
        forall|i: int|
            0 <= i < word.len() ==> !all_white_space(#[trigger] word[i]) && word[i] != seq![
                '\u{b7}',
            ] && word[i] != seq!['-'],
        !all_white_space(next),
        width > 0,
        run_graphemes(before.push(mark), width).used + widths(word) <= width,
        width < run_graphemes(before.push(mark), width).used + widths(word) + display_width(next),
    ensures
        ({
            let at_mark = run_graphemes(before.push(mark), width);
            let lines = wrap_graphemes(before.push(mark) + word + seq![next] + after, width);
            &&& at_mark.line.len() > 0
            &&& at_mark.line.last() == mark[0]
            &&& at_mark.lines.len() < lines.len()
            &&& lines[at_mark.lines.len() as int] == at_mark.line
        }),
{
    let a = before.push(mark);
    let s0 = run_graphemes(before, width);
    let s1 = run_graphemes(a, width);
    let k = s1.lines.len() as int;
    assert(a.drop_last() =~= before);
    assert(!is_white_space(mark[0]));
    assert(!all_white_space(mark));
    assert(is_break_mark(mark));
    lemma_run_keeps_lines(before, 0, width);
    let roomy = make_room(s0, display_width(mark), false, width);
    assert(s1.line == roomy.line + mark);
    assert(s1.separator == Some(s1.line.len()));
    assert(s1.line.last() == mark[0]);
    let n = word.len() as int;
    lemma_word_runs_on(a, word, n, width);
    assert(word.take(n) =~= word);
    let t = a + word;
    let s2 = run_graphemes(t, width);
    assert(s2.line.subrange(0, s1.line.len() as int) =~= s1.line);
    let full = t + seq![next] + after;
    let u = t.push(next);
    assert(u.drop_last() =~= t);
    let broken = break_line(s2, s1.line.len());
    assert(break_point(s2, false) == s1.line.len());
    assert(trim_end(s1.line) == s1.line);
    assert(broken.lines[k] == s1.line);
    assert(make_room(s2, display_width(next), false, width) == make_room(
        broken,
        display_width(next),
        false,
        width,
    ));
    lemma_make_room_keeps_lines(broken, display_width(next), false, width);
    let s3 = run_graphemes(u, width);
    assert(s3.lines[k] == s1.line);
    assert(full.take(u.len() as int) =~= u);
    assert(a + word + seq![next] + after =~= full);
    lemma_run_keeps_lines(full, u.len() as int, width);
    let last = run_graphemes(full, width);
    assert(last.lines[k] == s1.line);
    assert(wrap_graphemes(full, width) == finish(last));
    assert(finish(last)[k] == s1.line);
}

} // verus!
