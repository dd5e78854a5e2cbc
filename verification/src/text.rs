use vstd::prelude::*;
use ratatui::style::Style;
use ratatui::text::Span;
use crate::title_laws::{
    fits_or_single, is_stretch_of, law_wrap_line_count, law_wrap_lines_fit,
    law_wrap_lines_have_no_leading_white_space, law_wrap_lines_have_no_trailing_white_space,
    law_wrap_lines_in_order, lemma_title_lines, placed_in_order, stretch_at, visible, visible_all,
    white_space_whole, widths_add_up,
};

verus! {

/// The extended grapheme clusters of a title, in order, as ratatui's
/// `Span::styled_graphemes` yields them (lone line feeds left out).
pub uninterp spec fn title_graphemes(title: Seq<char>) -> Seq<Seq<char>>;

/// The display width, in terminal columns, that ratatui gives a text.
pub uninterp spec fn display_width(text: Seq<char>) -> nat;

/// Whether a character has the Unicode `White_Space` property (the code
/// points listed for it in the Unicode Character Database's PropList.txt).
pub open spec fn is_white_space(c: char) -> bool {
    let u = c as u32;
    ||| 0x9 <= u <= 0xd
    ||| u == 0x20
    ||| u == 0x85
    ||| u == 0xa0
    ||| u == 0x1680
    ||| 0x2000 <= u <= 0x200a
    ||| u == 0x2028
    ||| u == 0x2029
    ||| u == 0x202f
    ||| u == 0x205f
    ||| u == 0x3000
}

/// The graphemes joined into one text.
pub open spec fn joined(gs: Seq<Seq<char>>) -> Seq<char>
    decreases gs.len(),
{
    if gs.len() == 0 {
        seq![]
    } else {
        joined(gs.drop_last()) + gs.last()
    }
}

/// The text without its lone line feeds: those not right after a carriage
/// return (a carriage return and a line feed make one grapheme cluster).
pub open spec fn without_lone_line_feeds(s: Seq<char>) -> Seq<char>
    decreases s.len(),
{
    if s.len() == 0 {
        seq![]
    } else if s.last() == '\n' && !(s.len() >= 2 && s[s.len() - 2] == '\r') {
        without_lone_line_feeds(s.drop_last())
    } else {
        without_lone_line_feeds(s.drop_last()).push(s.last())
    }
}

/// Splits a title into its grapheme clusters through ratatui's
/// `Span::styled_graphemes` (which walks `unicode_segmentation`'s extended
/// graphemes and drops the clusters that are a lone `"\n"`). The contract
/// claims that the result is `title_graphemes` of the title; and, as the
/// segmentation's source shows (it cuts the title into consecutive non-empty
/// slices between boundaries, and a line feed is a cluster of its own unless
/// it follows a carriage return) together with the filter, that no cluster is
/// empty or a lone line feed, and that the clusters joined give the title
/// less its lone line feeds.
#[verifier::external_body]
fn graphemes_of(title: &str) -> (r: Vec<String>)
    ensures
        texts_view(r@) == title_graphemes(title@),
        forall|i: int| 0 <= i < r@.len() ==> #[trigger] r@[i]@.len() > 0,
        forall|i: int| 0 <= i < r@.len() ==> #[trigger] r@[i]@ != seq!['\n'],
        joined(texts_view(r@)) == without_lone_line_feeds(title@),
{
    Span::raw(title).styled_graphemes(Style::default()).map(|g| g.symbol.to_string()).collect()
}

/// The width of a text through ratatui's `Span::width` (unicode-width's
/// `UnicodeWidthStr::width`). The contract claims that the result is
/// `display_width` of the text, and that an empty text has width 0 (the width
/// is a fold over the characters that starts at 0).
#[verifier::external_body]
fn text_width(text: &[char]) -> (r: usize)
    ensures
        r == display_width(text@),
        text@.len() == 0 ==> r == 0,
{
    Span::raw(text.iter().collect::<String>()).width()
}

/// Whether the character has the Unicode `White_Space` property, as
/// `char::is_whitespace` answers.
pub fn char_is_whitespace(c: char) -> (r: bool)
    ensures
        r == is_white_space(c),
{
    let u = c as u32;
    (0x9 <= u && u <= 0xd) || u == 0x20 || u == 0x85 || u == 0xa0 || u == 0x1680 || (0x2000 <= u
        && u <= 0x200a) || u == 0x2028 || u == 0x2029 || u == 0x202f || u == 0x205f || u == 0x3000
}

/// Collects characters into a `String` (std's `FromIterator<&char>`); the
/// contract claims that the string holds exactly those characters.
#[verifier::external_body]
fn string_from_chars(chars: &[char]) -> (r: String)
    ensures
        r@ == chars@,
{
    chars.iter().collect()
}

/// The characters of a string, in order.
fn chars_of(s: &str) -> (r: Vec<char>)
    ensures
        r@ == s@,
{
    let mut r: Vec<char> = Vec::new();
    for c in it: s.chars()
        invariant
            r@ == it.seq().take(it.index() as int),
            it.seq() == s@,
    {
        r.push(c);
    }
    r
}


/// Whether every character of a grapheme is white space.
pub open spec fn all_white_space(g: Seq<char>) -> bool {
    forall|i: int| 0 <= i < g.len() ==> #[trigger] is_white_space(g[i])
}

/// Whether a grapheme is a mark after which a title may be broken:
/// a middle dot or a hyphen.
pub open spec fn is_break_mark(g: Seq<char>) -> bool {
    g == seq!['\u{b7}'] || g == seq!['-']
}

/// The text without its leading white space.
pub open spec fn trim_start(s: Seq<char>) -> Seq<char>
    decreases s.len(),
{
    if s.len() > 0 && is_white_space(s[0]) {
        trim_start(s.drop_first())
    } else {
        s
    }
}

/// The text without its trailing white space.
pub open spec fn trim_end(s: Seq<char>) -> Seq<char>
    decreases s.len(),
{
    if s.len() > 0 && is_white_space(s.last()) {
        trim_end(s.drop_last())
    } else {
        s
    }
}

/// The state of the title wrapper between two graphemes: the finished lines,
/// the pending line, the columns that the pending line takes, and the place
/// (in characters) right after the last break mark or white space in it.
pub struct WrapState {
    pub lines: Seq<Seq<char>>,
    pub line: Seq<char>,
    pub used: nat,
    pub separator: Option<nat>,
}

/// Nothing wrapped yet.
pub open spec fn initial_state() -> WrapState {
    WrapState { lines: seq![], line: seq![], used: 0, separator: None }
}

/// Where the pending line is broken to make room: at its end before white
/// space, else right after its last break mark or white space, else at its end.
pub open spec fn break_point(st: WrapState, whitespace: bool) -> nat {
    if whitespace {
        st.line.len()
    } else {
        match st.separator {
            Some(s) => s,
            None => st.line.len(),
        }
    }
}

/// Breaks the pending line at `end`: the part before it, without trailing
/// white space, becomes a finished line; the part after it, without leading
/// white space, stays pending.
pub open spec fn break_line(st: WrapState, end: nat) -> WrapState {
    let rest = trim_start(st.line.subrange(end as int, st.line.len() as int));
    WrapState {
        lines: st.lines.push(trim_end(st.line.subrange(0, end as int))),
        line: rest,
        used: display_width(rest),
        separator: None,
    }
}

/// The remembered break place lies inside the pending line, after its first character.
pub open spec fn separator_in_line(st: WrapState) -> bool {
    st.separator matches Some(s) ==> 1 <= s <= st.line.len()
}

/// Breaks the pending line until it is empty or the next grapheme, of width
/// `grapheme_width`, fits in `width` columns beside it.
pub open spec fn make_room(st: WrapState, grapheme_width: nat, whitespace: bool, width: nat) -> WrapState
    decreases st.line.len(),
    when separator_in_line(st)
{
    if st.line.len() > 0 && st.used + grapheme_width > width {
        proof {
            lemma_trim_start_len(
                st.line.subrange(break_point(st, whitespace) as int, st.line.len() as int),
            );
        }
        make_room(break_line(st, break_point(st, whitespace)), grapheme_width, whitespace, width)
    } else {
        st
    }
}

/// Adds one grapheme: first makes room for it, then appends it to the pending
/// line, unless it is white space at the start of a line, which is dropped.
pub open spec fn push_grapheme(st: WrapState, g: Seq<char>, width: nat) -> WrapState {
    let whitespace = all_white_space(g);
    let grapheme_width = display_width(g);
    let roomy = make_room(st, grapheme_width, whitespace, width);
    if whitespace && roomy.line.len() == 0 {
        roomy
    } else {
        let line = roomy.line + g;
        WrapState {
            lines: roomy.lines,
            line,
            used: roomy.used + grapheme_width,
            separator: if whitespace || is_break_mark(g) {
                Some(line.len())
            } else {
                roomy.separator
            },
        }
    }
}

/// The state after wrapping the given graphemes one after the other.
pub open spec fn run_graphemes(gs: Seq<Seq<char>>, width: nat) -> WrapState
    decreases gs.len(),
{
    if gs.len() == 0 {
        initial_state()
    } else {
        push_grapheme(run_graphemes(gs.drop_last(), width), gs.last(), width)
    }
}

/// The finished lines, and the pending line without trailing white space if
/// it is not empty or nothing else was produced.
pub open spec fn finish(st: WrapState) -> Seq<Seq<char>> {
    if st.line.len() > 0 || st.lines.len() == 0 {
        st.lines.push(trim_end(st.line))
    } else {
        st.lines
    }
}

/// The lines of graphemes wrapped into `width` columns; a width of 0 gives
/// one empty line.
pub open spec fn wrap_graphemes(gs: Seq<Seq<char>>, width: nat) -> Seq<Seq<char>> {
    if width == 0 {
        seq![seq![]]
    } else {
        finish(run_graphemes(gs, width))
    }
}

/// The lines of a title wrapped into `width` columns.
pub open spec fn wrapped_title(title: Seq<char>, width: nat) -> Seq<Seq<char>> {
    wrap_graphemes(title_graphemes(title), width)
}

/// The characters of each string.
pub open spec fn texts_view(texts: Seq<String>) -> Seq<Seq<char>> {
    texts.map_values(|s: String| s@)
}

pub proof fn lemma_trim_start_len(s: Seq<char>)
    ensures
        trim_start(s).len() <= s.len(),
    decreases s.len(),
{
    if s.len() > 0 && is_white_space(s[0]) {
        lemma_trim_start_len(s.drop_first());
    }
}


/// Where the text `line[start..]` begins once its leading white space is dropped.
fn trim_start_from(line: &Vec<char>, start: usize) -> (k: usize)
    requires
        start <= line@.len(),
    ensures
        start <= k <= line@.len(),
        trim_start(line@.subrange(start as int, line@.len() as int)) == line@.subrange(
            k as int,
            line@.len() as int,
        ),
{
    let mut k = start;
    while k < line.len() && char_is_whitespace(line[k])
        invariant
            start <= k <= line@.len(),
            trim_start(line@.subrange(start as int, line@.len() as int)) == trim_start(
                line@.subrange(k as int, line@.len() as int),
            ),
        decreases line@.len() - k,
    {
        assert(line@.subrange(k as int, line@.len() as int).drop_first() =~= line@.subrange(
            k + 1,
            line@.len() as int,
        ));
        k = k + 1;
    }
    k
}

/// Where the text `line[start..end]` ends once its trailing white space is dropped.
fn trim_end_before(line: &Vec<char>, start: usize, end: usize) -> (e: usize)
    requires
        start <= end <= line@.len(),
    ensures
        start <= e <= end,
        trim_end(line@.subrange(start as int, end as int)) == line@.subrange(start as int, e as int),
{
    let mut e = end;
    while e > start && char_is_whitespace(line[e - 1])
        invariant
            start <= e <= end <= line@.len(),
            trim_end(line@.subrange(start as int, end as int)) == trim_end(
                line@.subrange(start as int, e as int),
            ),
        decreases e,
    {
        assert(line@.subrange(start as int, e as int).drop_last() =~= line@.subrange(
            start as int,
            e - 1,
        ));
        e = e - 1;
    }
    e
}

/// The characters `v[a..b]`.
fn copy_range(v: &Vec<char>, a: usize, b: usize) -> (r: Vec<char>)
    requires
        a <= b <= v@.len(),
    ensures
        r@ == v@.subrange(a as int, b as int),
{
    let mut r: Vec<char> = Vec::new();
    let mut k = a;
    while k < b
        invariant
            a <= k <= b <= v@.len(),
            r@ == v@.subrange(a as int, k as int),
        decreases b - k,
    {
        r.push(v[k]);
        k = k + 1;
    }
    r
}

/// Whether every character of the text is white space.
fn all_whitespace(text: &Vec<char>) -> (r: bool)
    ensures
        r == all_white_space(text@),
{
    let mut k: usize = 0;
    while k < text.len()
        invariant
            k <= text@.len(),
            forall|j: int| 0 <= j < k ==> #[trigger] is_white_space(text@[j]),
        decreases text@.len() - k,
    {
        if !char_is_whitespace(text[k]) {
            return false;
        }
        k = k + 1;
    }
    true
}

/// Whether the grapheme is a middle dot or a hyphen.
fn break_mark(text: &Vec<char>) -> (r: bool)
    ensures
        r == is_break_mark(text@),
{
    if text.len() == 1 && (text[0] == '\u{b7}' || text[0] == '-') {
        assert(text@ =~= seq![text@[0]]);
        true
    } else {
        proof {
            if text@ == seq!['\u{b7}'] {
                assert(text@[0] == seq!['\u{b7}'][0]);
            }
            if text@ == seq!['-'] {
                assert(text@[0] == seq!['-'][0]);
            }
        }
        false
    }
}

/// Whether `used + grapheme_width > width`, computed without overflow.
fn exceeds(used: usize, grapheme_width: usize, width: u16) -> (r: bool)
    ensures
        r == (used + grapheme_width > width),
{
    grapheme_width > width as usize || used > width as usize - grapheme_width
}


/// The wrapper's state as the spec sees it.
pub open spec fn state_of(
    lines: Seq<String>,
    line: Seq<char>,
    used: usize,
    separator: Option<usize>,
) -> WrapState {
    WrapState {
        lines: texts_view(lines),
        line,
        used: used as nat,
        separator: match separator {
            Some(s) => Some(s as nat),
            None => None,
        },
    }
}

/// Wraps a sequence of grapheme clusters into lines for `width` columns.
///
/// Graphemes are never split: one wider than the width stands alone on its
/// line. A line is broken right after its last middle dot, hyphen or white
/// space when the next grapheme does not fit beside it (at the end of the
/// line when that next grapheme is white space, or when there is no such
/// place). The columns a line takes are counted as the display width of the
/// text left pending after the last break plus the widths of the graphemes
/// added since. Lines lose their trailing white space, white space that would
/// start a line is dropped, and the white space after a break is dropped. A
/// width of 0, or no graphemes, gives one empty line.
pub fn wrap_grapheme_lines(graphemes: &Vec<String>, width: u16) -> (lines: Vec<String>)
    requires
        forall|i: int| 0 <= i < graphemes@.len() ==> #[trigger] graphemes@[i]@.len() > 0,
    ensures
        texts_view(lines@) == wrap_graphemes(texts_view(graphemes@), width as nat),
{
    if width == 0 {
        let mut lines: Vec<String> = Vec::new();
        lines.push(String::new());
        proof {
            assert(texts_view(lines@) =~= seq![Seq::<char>::empty()]);
        }
        return lines;
    }
    let ghost gs = texts_view(graphemes@);
    let ghost w = width as nat;
    let mut lines: Vec<String> = Vec::new();
    let mut line: Vec<char> = Vec::new();
    let mut used: usize = 0;
    let mut separator: Option<usize> = None;
    let mut i: usize = 0;
    proof {
        assert(gs.take(0) =~= Seq::<Seq<char>>::empty());
        assert(texts_view(lines@) =~= Seq::<Seq<char>>::empty());
    }
    while i < graphemes.len()
        invariant
            gs == texts_view(graphemes@),
            w == width as nat,
            width > 0,
            graphemes@.len() == gs.len(),
            forall|j: int| 0 <= j < graphemes@.len() ==> #[trigger] graphemes@[j]@ == gs[j],
            forall|j: int| 0 <= j < graphemes@.len() ==> #[trigger] graphemes@[j]@.len() > 0,
            i <= graphemes@.len(),
            state_of(lines@, line@, used, separator) == run_graphemes(gs.take(i as int), w),
            separator_in_line(state_of(lines@, line@, used, separator)),
            line@.len() == 0 ==> used == 0,
        decreases graphemes@.len() - i,
    {
        let text = chars_of(graphemes[i].as_str());
        let whitespace = all_whitespace(&text);
        let grapheme_width = text_width(text.as_slice());
        let ghost before = state_of(lines@, line@, used, separator);
        while line.len() > 0 && exceeds(used, grapheme_width, width)
            invariant
                w == width as nat,
                whitespace == all_white_space(text@),
                grapheme_width == display_width(text@),
                separator_in_line(before),
                separator_in_line(state_of(lines@, line@, used, separator)),
                make_room(state_of(lines@, line@, used, separator), grapheme_width as nat, whitespace, w)
                    == make_room(before, grapheme_width as nat, whitespace, w),
                line@.len() == 0 ==> used == 0,
            decreases line@.len(),
        {
            let ghost cur = state_of(lines@, line@, used, separator);
            let end = if whitespace {
                line.len()
            } else {
                match separator {
                    Some(s) => s,
                    None => line.len(),
                }
            };
            assert(end == break_point(cur, whitespace));
            let head_end = trim_end_before(&line, 0, end);
            let rest_start = trim_start_from(&line, end);
            let head = copy_range(&line, 0, head_end);
            lines.push(string_from_chars(head.as_slice()));
            line = copy_range(&line, rest_start, line.len());
            used = text_width(line.as_slice());
            separator = None;
            proof {
                let next = state_of(lines@, line@, used, separator);
                assert(texts_view(lines@) =~= cur.lines.push(
                    trim_end(cur.line.subrange(0, end as int)),
                ));
                assert(next == break_line(cur, end as nat));
                lemma_trim_start_len(cur.line.subrange(end as int, cur.line.len() as int));
            }
        }
        let ghost roomy = state_of(lines@, line@, used, separator);
        assert(roomy == make_room(before, grapheme_width as nat, whitespace, w));
        if whitespace && line.len() == 0 {
            proof {
                assert(gs.take(i + 1).drop_last() =~= gs.take(i as int));
                assert(gs.take(i + 1).last() == text@);
            }
            i = i + 1;
            continue;
        }
        let ghost line_before = line@;
        let mut k: usize = 0;
        while k < text.len()
            invariant
                k <= text@.len(),
                line@ == line_before + text@.subrange(0, k as int),
            decreases text@.len() - k,
        {
            line.push(text[k]);
            k = k + 1;
            assert(line@ =~= line_before + text@.subrange(0, k as int));
        }
        assert(text@.subrange(0, text@.len() as int) =~= text@);
        used = used + grapheme_width;
        if whitespace || break_mark(&text) {
            separator = Some(line.len());
        }
        proof {
            assert(gs.take(i + 1).drop_last() =~= gs.take(i as int));
            assert(gs.take(i + 1).last() == text@);
            assert(state_of(lines@, line@, used, separator) == push_grapheme(before, text@, w));
        }
        i = i + 1;
    }
    proof {
        assert(gs.take(i as int) =~= gs);
    }
    if line.len() > 0 || lines.len() == 0 {
        let ghost st = state_of(lines@, line@, used, separator);
        let e = trim_end_before(&line, 0, line.len());
        let last = copy_range(&line, 0, e);
        lines.push(string_from_chars(last.as_slice()));
        proof {
            assert(line@.subrange(0, line@.len() as int) =~= line@);
            assert(texts_view(lines@) =~= st.lines.push(trim_end(st.line)));
        }
    }
    lines
}

/// Wraps a tab title into lines for `width` columns: the title is cut into
/// its grapheme clusters, which are wrapped by `wrap_grapheme_lines`.
///
/// For a positive width the lines stand in the title (less its lone line
/// feeds) in order, at places that do not overlap, with nothing but white
/// space before, between and after them; so no character other than white
/// space is lost, and where the title has such a character no line is empty.
/// No line ends with white space, and there are no more lines than
/// graphemes (one line for none). Where white space stands in graphemes of
/// its own, no line starts with white space either; where moreover display
/// widths add up over graphemes, every line is a run of whole graphemes
/// whose widths add up to at most `width`, or a single grapheme.
pub fn wrapped_title_lines(title: &str, width: u16) -> (lines: Vec<String>)
    ensures
        texts_view(lines@) == wrapped_title(title@, width as nat),
        forall|j: int|
            0 <= j < lines@.len() ==> is_stretch_of(without_lone_line_feeds(title@), #[trigger] lines@[j]@),
        width > 0 ==> placed_in_order(without_lone_line_feeds(title@), texts_view(lines@)),
        width > 0 ==> visible_all(texts_view(lines@)) == visible(title@),
        width > 0 && visible(title@).len() > 0 ==> forall|j: int|
            0 <= j < lines@.len() ==> #[trigger] lines@[j]@.len() > 0,
        forall|j: int|
            0 <= j < lines@.len() ==> #[trigger] lines@[j]@.len() == 0 || !is_white_space(
                lines@[j]@.last(),
            ),
        lines@.len() <= if title_graphemes(title@).len() == 0 {
            1
        } else {
            title_graphemes(title@).len()
        },
        white_space_whole(title_graphemes(title@)) ==> forall|j: int|
            0 <= j < lines@.len() ==> #[trigger] lines@[j]@.len() == 0 || !is_white_space(
                lines@[j]@[0],
            ),
        white_space_whole(title_graphemes(title@)) && widths_add_up(title_graphemes(title@))
            ==> forall|j: int|
            0 <= j < lines@.len() ==> fits_or_single(
                title_graphemes(title@),
                #[trigger] lines@[j]@,
                width as nat,
            ),
{
    if width == 0 {
        let mut lines: Vec<String> = Vec::new();
        lines.push(String::new());
        proof {
            let gs = title_graphemes(title@);
            assert(texts_view(lines@) =~= seq![Seq::<char>::empty()]);
            assert(lines@[0]@.subrange(0, 0) =~= lines@[0]@);
            assert(without_lone_line_feeds(title@).subrange(0, 0) =~= lines@[0]@);
            assert(stretch_at(without_lone_line_feeds(title@), 0, lines@[0]@));
            assert(gs.subrange(0, 0) =~= Seq::<Seq<char>>::empty());
            assert(joined(gs.subrange(0, 0)) == lines@[0]@);
            assert(fits_or_single(gs, lines@[0]@, 0));
        }
        return lines;
    }
    let graphemes = graphemes_of(title);
    let lines = wrap_grapheme_lines(&graphemes, width);
    proof {
        let gs = texts_view(graphemes@);
        let w = width as nat;
        lemma_title_lines(title@, gs, w);
        law_wrap_lines_in_order(gs, w);
        law_wrap_lines_have_no_trailing_white_space(gs, w);
        law_wrap_line_count(gs, w);
        assert forall|j: int| 0 <= j < lines@.len() implies #[trigger] lines@[j]@ == texts_view(
            lines@,
        )[j] by {}
        if white_space_whole(gs) {
            law_wrap_lines_have_no_leading_white_space(gs, w);
            if widths_add_up(gs) {
                law_wrap_lines_fit(gs, w);
            }
        }
        assert forall|j: int| 0 <= j < lines@.len() implies is_stretch_of(
            without_lone_line_feeds(title@),
            #[trigger] lines@[j]@,
        ) by {
            assert(texts_view(lines@)[j] == lines@[j]@);
        }
        if visible(title@).len() > 0 {
            assert forall|j: int| 0 <= j < lines@.len() implies #[trigger] lines@[j]@.len() > 0 by {
                assert(texts_view(lines@)[j] == lines@[j]@);
            }
        }
    }
    lines
}

} // verus!
