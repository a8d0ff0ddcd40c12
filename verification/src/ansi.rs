//! Colouring of container log lines: ANSI SGR escape sequences are taken
//! out of the text and turned into the text tags that style each segment.

use vstd::prelude::*;
use crate::sorted::{first_where, lemma_first_where_at, lemma_first_where_bounds};
use crate::text::{chars_of, push_char};

verus! {

/// The escape character that opens a control sequence.
pub const ESC: char = '\u{1b}';

/// A text style that a log segment can carry.
#[derive(Debug, Clone, Copy, PartialEq, Eq, Structural)]
pub enum AnsiTag {
    Bold,
    FgBlack,
    FgRed,
    FgGreen,
    FgYellow,
    FgBlue,
    FgMagenta,
    FgCyan,
    FgWhite,
}

/// The name of the text tag that renders a style.
pub open spec fn tag_name(t: AnsiTag) -> Seq<char> {
    match t {
        AnsiTag::Bold => "ansi-bold"@,
        AnsiTag::FgBlack => "ansi-fg-black"@,
        AnsiTag::FgRed => "ansi-fg-red"@,
        AnsiTag::FgGreen => "ansi-fg-green"@,
        AnsiTag::FgYellow => "ansi-fg-yellow"@,
        AnsiTag::FgBlue => "ansi-fg-blue"@,
        AnsiTag::FgMagenta => "ansi-fg-magenta"@,
        AnsiTag::FgCyan => "ansi-fg-cyan"@,
        AnsiTag::FgWhite => "ansi-fg-white"@,
    }
}

/// The foreground colour with index `i` of the eight ANSI colours (white
/// for any index past cyan).
pub open spec fn fg_for(i: int) -> AnsiTag {
    if i == 0 {
        AnsiTag::FgBlack
    } else if i == 1 {
        AnsiTag::FgRed
    } else if i == 2 {
        AnsiTag::FgGreen
    } else if i == 3 {
        AnsiTag::FgYellow
    } else if i == 4 {
        AnsiTag::FgBlue
    } else if i == 5 {
        AnsiTag::FgMagenta
    } else if i == 6 {
        AnsiTag::FgCyan
    } else {
        AnsiTag::FgWhite
    }
}

pub open spec fn is_foreground(t: AnsiTag) -> bool {
    t != AnsiTag::Bold
}

pub open spec fn not_foreground() -> spec_fn(AnsiTag) -> bool {
    |t: AnsiTag| !is_foreground(t)
}

pub open spec fn not_bold() -> spec_fn(AnsiTag) -> bool {
    |t: AnsiTag| t != AnsiTag::Bold
}

pub open spec fn is_digit(c: char) -> bool {
    '0' <= c && c <= '9'
}

/// The characters a control sequence's parameters are made of.
pub open spec fn is_code_char(c: char) -> bool {
    is_digit(c) || c == ';'
}

pub open spec fn ends_code() -> spec_fn(char) -> bool {
    |c: char| !is_code_char(c)
}

/// The number that a string of decimal digits spells.
pub open spec fn digits_value(s: Seq<char>) -> int
    decreases s.len(),
{
    if s.len() == 0 {
        0
    } else {
        digits_value(s.drop_last()) * 10 + (s.last() as int - '0' as int)
    }
}

/// `s` cut at each `;` (`str::split(';')`).
pub open spec fn split_parts(s: Seq<char>) -> Seq<Seq<char>>
    decreases s.len(),
{
    if s.len() == 0 {
        seq![Seq::<char>::empty()]
    } else {
        let p = split_parts(s.drop_last());
        if s.last() == ';' {
            p.push(Seq::empty())
        } else {
            p.update(p.len() - 1, p.last().push(s.last()))
        }
    }
}

/// One SGR parameter applied to the active styles. A parameter that is not
/// a `u32` (empty, or too large) changes nothing; 0 resets, 1 adds bold, 21
/// and 22 remove it, 30-37 and 90-97 set the foreground colour (bright ones
/// as their base colour), 39 resets it; others change nothing.
pub open spec fn apply_code(tags: Seq<AnsiTag>, part: Seq<char>) -> Seq<AnsiTag> {
    if part.len() == 0 || digits_value(part) > u32::MAX {
        tags
    } else {
        apply_code_value(tags, digits_value(part))
    }
}

/// The parameters `parts` applied in order.
pub open spec fn apply_codes(tags: Seq<AnsiTag>, parts: Seq<Seq<char>>) -> Seq<AnsiTag>
    decreases parts.len(),
{
    if parts.len() == 0 {
        tags
    } else {
        apply_code(apply_codes(tags, parts.drop_last()), parts.last())
    }
}

/// The styles after an SGR sequence with parameters `code`; no parameters
/// at all resets.
pub open spec fn apply_sgr(code: Seq<char>, tags: Seq<AnsiTag>) -> Seq<AnsiTag> {
    if code.len() == 0 {
        Seq::empty()
    } else {
        apply_codes(tags, split_parts(code))
    }
}

/// Where the parser stands: the finished segments, the text of the current
/// one, and the active styles.
pub struct ParseState {
    pub segments: Seq<(Seq<char>, Seq<AnsiTag>)>,
    pub text: Seq<char>,
    pub tags: Seq<AnsiTag>,
}

/// Closes the current segment, if it has text.
pub open spec fn flush(st: ParseState) -> ParseState {
    if st.text.len() > 0 {
        ParseState { segments: st.segments.push((st.text, st.tags)), text: Seq::empty(), tags: st.tags }
    } else {
        st
    }
}

/// The segments of `s` read from state `st`. An escape character followed
/// by `[` opens a control sequence: its parameters (digits and `;`) run up to
/// the first other character, which ends it and is dropped with it. Each
/// control sequence closes the current segment; one that ends in `m` then
/// changes the styles. Every other character is text.
pub open spec fn parse_from(s: Seq<char>, st: ParseState) -> Seq<(Seq<char>, Seq<AnsiTag>)>
    decreases s.len(),
{
    if s.len() == 0 {
        flush(st).segments
    } else if s[0] != ESC || s.len() < 2 || s[1] != '[' {
        parse_from(s.drop_first(), ParseState { text: st.text.push(s[0]), ..st })
    } else {
        let body = s.skip(2);
        let n = first_where(body, ends_code());
        proof {
            lemma_first_where_bounds(body, ends_code());
        }
        let code = body.take(n);
        let st1 = flush(st);
        if n < body.len() {
            let st2 = if body[n] == 'm' { ParseState { tags: apply_sgr(code, st1.tags), ..st1 } } else { st1 };
            parse_from(body.skip(n + 1), st2)
        } else {
            parse_from(body.skip(n), st1)
        }
    }
}

/// A set of active styles as the parser keeps it: no style twice, and at
/// most one foreground colour.
pub open spec fn styles_wf(tags: Seq<AnsiTag>) -> bool {
    &&& tags.no_duplicates()
    &&& forall|i: int, j: int|
        0 <= i < tags.len() && 0 <= j < tags.len() && i != j ==> !(is_foreground(#[trigger] tags[i])
            && is_foreground(#[trigger] tags[j]))
}

proof fn lemma_filter_styles_wf(tags: Seq<AnsiTag>, p: spec_fn(AnsiTag) -> bool)
    requires
        styles_wf(tags),
    ensures
        styles_wf(tags.filter(p)),
        forall|i: int| 0 <= i < tags.filter(p).len() ==> p(#[trigger] tags.filter(p)[i]),
    decreases tags.len(),
{
    reveal(Seq::filter);
    crate::sorted::lemma_filter_elements(tags, p);
    if tags.len() > 0 {
        let d = tags.drop_last();
        assert(styles_wf(d)) by {
            assert forall|i: int, j: int| 0 <= i < d.len() && 0 <= j < d.len() && i != j implies d[i] != d[j] by {
                assert(d[i] == tags[i] && d[j] == tags[j]);
            }
            assert forall|i: int, j: int| 0 <= i < d.len() && 0 <= j < d.len() && i != j implies !(is_foreground(#[trigger] d[i])
                && is_foreground(#[trigger] d[j])) by {
                assert(d[i] == tags[i] && d[j] == tags[j]);
            }
        }
        lemma_filter_styles_wf(d, p);
        crate::sorted::lemma_filter_elements(d, p);
        let fd = d.filter(p);
        let f = tags.filter(p);
        let x = tags.last();
        if p(x) {
            assert(f == fd.push(x));
            assert forall|k: int| 0 <= k < fd.len() implies fd[k] != x by {
                assert(d.contains(fd[k]));
                let q = choose|q: int| 0 <= q < d.len() && d[q] == fd[k];
                assert(tags[q] == fd[k]);
                assert(tags[tags.len() - 1] == x);
            }
            assert forall|i: int, j: int| 0 <= i < f.len() && 0 <= j < f.len() && i != j implies f[i] != f[j] by {
                if i < fd.len() && j < fd.len() {
                    assert(f[i] == fd[i] && f[j] == fd[j]);
                } else if i < fd.len() {
                    assert(f[i] == fd[i]);
                } else {
                    assert(f[j] == fd[j]);
                }
            }
            assert forall|i: int, j: int| 0 <= i < f.len() && 0 <= j < f.len() && i != j implies !(is_foreground(#[trigger] f[i])
                && is_foreground(#[trigger] f[j])) by {
                if i < fd.len() && j < fd.len() {
                    assert(f[i] == fd[i] && f[j] == fd[j]);
                } else {
                    let k = if i < fd.len() { i } else { j };
                    assert(f[k] == fd[k]);
                    assert(d.contains(fd[k]));
                    let q = choose|q: int| 0 <= q < d.len() && d[q] == fd[k];
                    assert(tags[q] == fd[k]);
                    assert(tags[tags.len() - 1] == x);
                }
            }
        } else {
            assert(f == fd);
        }
    }
}

proof fn lemma_apply_code_wf(tags: Seq<AnsiTag>, part: Seq<char>)
    requires
        styles_wf(tags),
    ensures
        styles_wf(apply_code(tags, part)),
{
    if part.len() > 0 && digits_value(part) <= u32::MAX {
        let v = digits_value(part);
        if v == 0 {
        } else if v == 1 {
            if !tags.contains(AnsiTag::Bold) {
                let t = tags.push(AnsiTag::Bold);
                assert forall|i: int, j: int| 0 <= i < t.len() && 0 <= j < t.len() && i != j implies t[i] != t[j] by {
                    if i < tags.len() && j < tags.len() {
                    } else if i < tags.len() {
                        assert(tags.contains(t[i]));
                    } else {
                        assert(tags.contains(t[j]));
                    }
                }
            }
        } else if v == 21 || v == 22 {
            lemma_filter_styles_wf(tags, not_bold());
        } else if (30 <= v && v <= 37) || (90 <= v && v <= 97) {
            lemma_filter_styles_wf(tags, not_foreground());
            let f = tags.filter(not_foreground());
            let t = f.push(fg_for(v % 10));
            assert forall|i: int, j: int| 0 <= i < t.len() && 0 <= j < t.len() && i != j implies t[i] != t[j] by {
                if i < f.len() && j < f.len() {
                } else if i < f.len() {
                    assert(not_foreground()(f[i]));
                } else {
                    assert(not_foreground()(f[j]));
                }
            }
            assert forall|i: int, j: int| 0 <= i < t.len() && 0 <= j < t.len() && i != j implies !(is_foreground(#[trigger] t[i])
                && is_foreground(#[trigger] t[j])) by {
                if i < f.len() {
                    assert(not_foreground()(f[i]));
                } else {
                    assert(not_foreground()(f[j]));
                }
            }
        } else if v == 39 {
            lemma_filter_styles_wf(tags, not_foreground());
        }
    }
}

proof fn lemma_apply_sgr_wf(code: Seq<char>, tags: Seq<AnsiTag>)
    requires
        styles_wf(tags),
    ensures
        styles_wf(apply_sgr(code, tags)),
{
    if code.len() > 0 {
        lemma_apply_codes_wf(tags, split_parts(code));
    }
}

proof fn lemma_apply_codes_wf(tags: Seq<AnsiTag>, parts: Seq<Seq<char>>)
    requires
        styles_wf(tags),
    ensures
        styles_wf(apply_codes(tags, parts)),
    decreases parts.len(),
{
    if parts.len() > 0 {
        lemma_apply_codes_wf(tags, parts.drop_last());
        lemma_apply_code_wf(apply_codes(tags, parts.drop_last()), parts.last());
    }
}

/// Every segment has text, and its styles name no style twice and at most
/// one foreground colour.
pub open spec fn segments_wf(segments: Seq<(Seq<char>, Seq<AnsiTag>)>) -> bool {
    forall|k: int| 0 <= k < segments.len() ==> (#[trigger] segments[k]).0.len() > 0 && styles_wf(segments[k].1)
}

proof fn lemma_parse_from_wf(s: Seq<char>, st: ParseState)
    requires
        segments_wf(st.segments),
        styles_wf(st.tags),
    ensures
        segments_wf(parse_from(s, st)),
    decreases s.len(),
{
    let st1 = flush(st);
    assert(segments_wf(st1.segments) && styles_wf(st1.tags));
    if s.len() == 0 {
    } else if s[0] != ESC || s.len() < 2 || s[1] != '[' {
        lemma_parse_from_wf(s.drop_first(), ParseState { text: st.text.push(s[0]), ..st });
    } else {
        let body = s.skip(2);
        let n = first_where(body, ends_code());
        lemma_first_where_bounds(body, ends_code());
        let code = body.take(n);
        if n < body.len() {
            if body[n] == 'm' {
                lemma_apply_sgr_wf(code, st1.tags);
                lemma_parse_from_wf(body.skip(n + 1), ParseState { tags: apply_sgr(code, st1.tags), ..st1 });
            } else {
                lemma_parse_from_wf(body.skip(n + 1), st1);
            }
        } else {
            lemma_parse_from_wf(body.skip(n), st1);
        }
    }
}

/// A log line comes out as segments that each have text, with no style
/// twice and at most one foreground colour per segment.
pub proof fn lemma_parse_ansi_wf(line: Seq<char>)
    ensures
        segments_wf(parse_ansi(line)),
{
    lemma_parse_from_wf(line, ParseState { segments: Seq::empty(), text: Seq::empty(), tags: Seq::empty() });
}

/// The styled segments of a log line.
pub open spec fn parse_ansi(line: Seq<char>) -> Seq<(Seq<char>, Seq<AnsiTag>)> {
    parse_from(line, ParseState { segments: Seq::empty(), text: Seq::empty(), tags: Seq::empty() })
}

/// The segments with each style given by its tag name.
pub open spec fn named_segments(s: Seq<(Seq<char>, Seq<AnsiTag>)>) -> Seq<(Seq<char>, Seq<Seq<char>>)> {
    s.map_values(|seg: (Seq<char>, Seq<AnsiTag>)| (seg.0, tag_names(seg.1)))
}

pub open spec fn tag_names(s: Seq<AnsiTag>) -> Seq<Seq<char>> {
    s.map_values(|t: AnsiTag| tag_name(t))
}

pub open spec fn texts(s: Seq<&'static str>) -> Seq<Seq<char>> {
    s.map_values(|t: &'static str| t@)
}

pub open spec fn segment_views(r: Seq<(String, Vec<&'static str>)>) -> Seq<(Seq<char>, Seq<Seq<char>>)> {
    r.map_values(|p: (String, Vec<&'static str>)| (p.0@, texts(p.1@)))
}

pub open spec fn tagged_views(r: Seq<(String, Vec<AnsiTag>)>) -> Seq<(Seq<char>, Seq<AnsiTag>)> {
    r.map_values(|p: (String, Vec<AnsiTag>)| (p.0@, p.1@))
}

impl AnsiTag {
    /// The name of the text tag that renders this style.
    pub fn name(self) -> (r: &'static str)
        ensures
            r@ == tag_name(self),
    {
        match self {
            AnsiTag::Bold => "ansi-bold",
            AnsiTag::FgBlack => "ansi-fg-black",
            AnsiTag::FgRed => "ansi-fg-red",
            AnsiTag::FgGreen => "ansi-fg-green",
            AnsiTag::FgYellow => "ansi-fg-yellow",
            AnsiTag::FgBlue => "ansi-fg-blue",
            AnsiTag::FgMagenta => "ansi-fg-magenta",
            AnsiTag::FgCyan => "ansi-fg-cyan",
            AnsiTag::FgWhite => "ansi-fg-white",
        }
    }
}

/// The foreground style of ANSI colour `index`.
pub fn fg_tag(index: u32) -> (r: AnsiTag)
    ensures
        r == fg_for(index as int),
{
    match index {
        0 => AnsiTag::FgBlack,
        1 => AnsiTag::FgRed,
        2 => AnsiTag::FgGreen,
        3 => AnsiTag::FgYellow,
        4 => AnsiTag::FgBlue,
        5 => AnsiTag::FgMagenta,
        6 => AnsiTag::FgCyan,
        _ => AnsiTag::FgWhite,
    }
}

/// Adds `tag` unless it is active already.
pub fn push_unique(active_tags: &mut Vec<AnsiTag>, tag: AnsiTag)
    ensures
        final(active_tags)@ == if old(active_tags)@.contains(tag) {
            old(active_tags)@
        } else {
            old(active_tags)@.push(tag)
        },
{
    let mut i: usize = 0;
    while i < active_tags.len()
        invariant
            i <= active_tags.len(),
            forall|k: int| 0 <= k < i ==> active_tags@[k] != tag,
        decreases active_tags.len() - i,
    {
        if active_tags[i] == tag {
            return;
        }
        i += 1;
    }
    active_tags.push(tag);
}

/// The styles of `tags` that `keep` keeps, as a vector.
fn retain_tags(tags: &Vec<AnsiTag>, drop_bold: bool) -> (r: Vec<AnsiTag>)
    ensures
        r@ == if drop_bold { tags@.filter(not_bold()) } else { tags@.filter(not_foreground()) },
{
    let mut r: Vec<AnsiTag> = Vec::new();
    let mut i: usize = 0;
    proof {
        reveal(Seq::filter);
        assert(tags@.take(0) =~= Seq::<AnsiTag>::empty());
    }
    while i < tags.len()
        invariant
            i <= tags.len(),
            r@ == if drop_bold { tags@.take(i as int).filter(not_bold()) } else { tags@.take(i as int).filter(not_foreground()) },
        decreases tags.len() - i,
    {
        proof {
            reveal(Seq::filter);
            assert(tags@.take(i + 1).drop_last() =~= tags@.take(i as int));
        }
        let t = tags[i];
        let is_bold = match t {
            AnsiTag::Bold => true,
            _ => false,
        };
        if is_bold != drop_bold {
            r.push(t);
        }
        i += 1;
    }
    assert(tags@.take(tags.len() as int) =~= tags@);
    r
}

/// One parameter applied to the active styles; `ok` tells whether it parsed
/// as a `u32`, with value `v`.
fn apply_part(active_tags: &mut Vec<AnsiTag>, ok: bool, v: u64)
    requires
        ok ==> v <= u32::MAX,
    ensures
        final(active_tags)@ == if !ok {
            old(active_tags)@
        } else {
            apply_code_value(old(active_tags)@, v as int)
        },
{
    if !ok {
        return;
    }
    if v == 0 {
        active_tags.clear();
    } else if v == 1 {
        push_unique(active_tags, AnsiTag::Bold);
    } else if v == 21 || v == 22 {
        let r = retain_tags(active_tags, true);
        *active_tags = r;
    } else if (30 <= v && v <= 37) || (90 <= v && v <= 97) {
        let mut r = retain_tags(active_tags, false);
        r.push(fg_tag((v % 10) as u32));
        *active_tags = r;
    } else if v == 39 {
        let r = retain_tags(active_tags, false);
        *active_tags = r;
    }
}

/// Cutting at each `;` gives at least one part.
proof fn lemma_split_parts_nonempty(s: Seq<char>)
    ensures
        split_parts(s).len() > 0,
    decreases s.len(),
{
    if s.len() > 0 {
        lemma_split_parts_nonempty(s.drop_last());
    }
}

/// The eight standard ANSI colour names, by index.
pub open spec fn ansi_colour_names() -> Seq<Seq<char>> {
    seq!["black"@, "red"@, "green"@, "yellow"@, "blue"@, "magenta"@, "cyan"@, "white"@]
}

/// The colour that an SGR parameter from 30 to 37 or from 90 to 97 sets is
/// rendered by the tag "ansi-fg-" followed by the standard name of colour
/// `v % 10` (30 and 90 black, 31 and 91 red, ... 37 and 97 white), and
/// distinct colours have distinct tags.
pub proof fn lemma_sgr_colour_names(v: int, w: int)
    ensures
        (30 <= v <= 37) || (90 <= v <= 97) ==> tag_name(fg_for(v % 10)) == "ansi-fg-"@ + ansi_colour_names()[v % 10],
        (30 <= v <= 37) && (30 <= w <= 37) && v != w ==> fg_for(v % 10) != fg_for(w % 10),
{
    reveal_strlit("ansi-fg-");
    reveal_strlit("ansi-fg-black");
    reveal_strlit("ansi-fg-red");
    reveal_strlit("ansi-fg-green");
    reveal_strlit("ansi-fg-yellow");
    reveal_strlit("ansi-fg-blue");
    reveal_strlit("ansi-fg-magenta");
    reveal_strlit("ansi-fg-cyan");
    reveal_strlit("ansi-fg-white");
    reveal_strlit("black");
    reveal_strlit("red");
    reveal_strlit("green");
    reveal_strlit("yellow");
    reveal_strlit("blue");
    reveal_strlit("magenta");
    reveal_strlit("cyan");
    reveal_strlit("white");
    if (30 <= v <= 37) || (90 <= v <= 97) {
        let k = v % 10;
        assert(0 <= k < 8);
        assert(tag_name(fg_for(k)) =~= "ansi-fg-"@ + ansi_colour_names()[k]);
    }
}

/// What each SGR parameter value does to the active styles: 0 turns every
/// style off; 1 turns bold on; 21 and 22 turn bold off; 30 to 37 and 90 to
/// 97 replace the foreground colour by the one with index `v % 10`; 39
/// turns the foreground colour off; any other value changes nothing. No
/// other style is touched.
pub proof fn lemma_sgr_parameter(tags: Seq<AnsiTag>, v: int, t: AnsiTag)
    ensures
        v == 0 ==> !apply_code_value(tags, v).contains(t),
        v == 1 ==> (apply_code_value(tags, v).contains(t) <==> tags.contains(t) || t == AnsiTag::Bold),
        v == 21 || v == 22 ==> (apply_code_value(tags, v).contains(t) <==> tags.contains(t) && t
            != AnsiTag::Bold),
        (30 <= v <= 37) || (90 <= v <= 97) ==> (apply_code_value(tags, v).contains(t) <==> (tags.contains(t)
            && !is_foreground(t)) || t == fg_for(v % 10)),
        v == 39 ==> (apply_code_value(tags, v).contains(t) <==> tags.contains(t) && !is_foreground(t)),
        !(v == 0 || v == 1 || v == 21 || v == 22 || (30 <= v <= 37) || (90 <= v <= 97) || v == 39)
            ==> apply_code_value(tags, v) == tags,
{
    crate::sorted::lemma_filter_elements(tags, not_foreground());
    crate::sorted::lemma_filter_elements(tags, not_bold());
    let r = apply_code_value(tags, v);
    if v == 0 {
    } else if v == 1 {
        if !tags.contains(AnsiTag::Bold) {
            let n = tags.push(AnsiTag::Bold);
            assert(n[tags.len() as int] == AnsiTag::Bold);
            if n.contains(t) {
                let k = choose|k: int| 0 <= k < n.len() && n[k] == t;
                if k < tags.len() {
                    assert(tags[k] == t);
                }
            }
            if tags.contains(t) {
                let k = choose|k: int| 0 <= k < tags.len() && tags[k] == t;
                assert(n[k] == t);
            }
        }
    } else if v == 21 || v == 22 {
        let f = tags.filter(not_bold());
        if f.contains(t) {
            let k = choose|k: int| 0 <= k < f.len() && f[k] == t;
            assert(not_bold()(f[k]));
        }
        if tags.contains(t) && t != AnsiTag::Bold {
            let k = choose|k: int| 0 <= k < tags.len() && tags[k] == t;
            assert(not_bold()(tags[k]));
        }
    } else if (30 <= v <= 37) || (90 <= v <= 97) {
        let f = tags.filter(not_foreground());
        let n = f.push(fg_for(v % 10));
        assert(n[f.len() as int] == fg_for(v % 10));
        if n.contains(t) {
            let k = choose|k: int| 0 <= k < n.len() && n[k] == t;
            if k < f.len() {
                assert(f[k] == t);
                assert(not_foreground()(f[k]));
            }
        }
        if tags.contains(t) && !is_foreground(t) {
            let k = choose|k: int| 0 <= k < tags.len() && tags[k] == t;
            assert(not_foreground()(tags[k]));
            assert(f.contains(t));
            let q = choose|q: int| 0 <= q < f.len() && f[q] == t;
            assert(n[q] == t);
        }
    } else if v == 39 {
        let f = tags.filter(not_foreground());
        if f.contains(t) {
            let k = choose|k: int| 0 <= k < f.len() && f[k] == t;
            assert(not_foreground()(f[k]));
        }
        if tags.contains(t) && !is_foreground(t) {
            let k = choose|k: int| 0 <= k < tags.len() && tags[k] == t;
            assert(not_foreground()(tags[k]));
        }
    }
}

/// The SGR parameter 39 turns the foreground colour off and keeps every
/// other style: afterwards exactly the styles that were active and are not
/// a foreground colour are active.
pub proof fn lemma_sgr_39_resets_colour(tags: Seq<AnsiTag>, t: AnsiTag)
    ensures
        apply_code(tags, "39"@).contains(t) <==> tags.contains(t) && !is_foreground(t),
        apply_sgr("39"@, tags).contains(t) <==> tags.contains(t) && !is_foreground(t),
{
    reveal_strlit("39");
    let p = "39"@;
    assert(p.len() == 2 && p[0] == '3' && p[1] == '9');
    let e = Seq::<char>::empty();
    let p1 = e.push('3');
    assert(p.drop_last() =~= p1);
    assert(p1.drop_last() =~= e);
    assert(digits_value(e) == 0);
    assert(digits_value(p1) == digits_value(p1.drop_last()) * 10 + (p1.last() as int - '0' as int));
    assert(digits_value(p1) == 3);
    assert(digits_value(p) == digits_value(p.drop_last()) * 10 + (p.last() as int - '0' as int));
    assert(digits_value(p) == 39);
    let r = apply_code(tags, p);
    assert(r == tags.filter(not_foreground()));
    crate::sorted::lemma_filter_elements(tags, not_foreground());
    if r.contains(t) {
        let k = choose|k: int| 0 <= k < r.len() && r[k] == t;
        assert(tags.contains(r[k]) && not_foreground()(r[k]));
    }
    if tags.contains(t) && !is_foreground(t) {
        let k = choose|k: int| 0 <= k < tags.len() && tags[k] == t;
        assert(not_foreground()(tags[k]));
        assert(r.contains(tags[k]));
    }
    let ps = split_parts(p);
    let sp1 = split_parts(p1);
    assert(split_parts(e) == seq![e]);
    assert(sp1 == seq![e].update(0, p1));
    assert(sp1 =~= seq![p1]);
    assert(ps == sp1.update(0, p1.push('9')));
    assert(p1.push('9') =~= p);
    assert(ps =~= seq![p]);
    assert(ps.drop_last() =~= Seq::<Seq<char>>::empty());
    assert(apply_codes(tags, ps) == apply_code(apply_codes(tags, Seq::<Seq<char>>::empty()), p));
}

/// The foreground colour that an SGR parameter sets, if it sets one.
pub open spec fn sets_foreground(part: Seq<char>) -> Option<AnsiTag> {
    if part.len() > 0 && digits_value(part) <= u32::MAX && ((30 <= digits_value(part) <= 37) || (90
        <= digits_value(part) <= 97)) {
        Some(fg_for(digits_value(part) % 10))
    } else {
        None
    }
}

/// An SGR sequence keeps well-formed styles well formed: no style twice and
/// at most one foreground colour. Every style afterwards was active before,
/// or is bold, or is one of the eight colours. A sequence with no
/// parameters, or the single parameter 0, resets the styles; when its last
/// parameter sets a foreground colour, that colour is the only one active
/// afterwards.
pub proof fn lemma_sgr_keeps_styles(code: Seq<char>, tags: Seq<AnsiTag>)
    requires
        styles_wf(tags),
    ensures
        styles_wf(apply_sgr(code, tags)),
        forall|i: int|
            0 <= i < apply_sgr(code, tags).len() ==> tags.contains(#[trigger] apply_sgr(code, tags)[i])
                || apply_sgr(code, tags)[i] == AnsiTag::Bold || exists|k: int|
                0 <= k < 8 && apply_sgr(code, tags)[i] == fg_for(k),
        code.len() == 0 || code == "0"@ ==> apply_sgr(code, tags) == Seq::<AnsiTag>::empty(),
        code.len() > 0 ==> match sets_foreground(split_parts(code).last()) {
            Some(fg) => apply_sgr(code, tags).contains(fg) && forall|i: int|
                0 <= i < apply_sgr(code, tags).len() && is_foreground(#[trigger] apply_sgr(code, tags)[i])
                    ==> apply_sgr(code, tags)[i] == fg,
            None => true,
        },
{
    lemma_apply_sgr_wf(code, tags);
    let r = apply_sgr(code, tags);
    assert forall|i: int| 0 <= i < r.len() implies tags.contains(#[trigger] r[i]) || r[i] == AnsiTag::Bold
        || exists|k: int| 0 <= k < 8 && r[i] == fg_for(k) by {
        match r[i] {
            AnsiTag::Bold => {},
            AnsiTag::FgBlack => assert(r[i] == fg_for(0)),
            AnsiTag::FgRed => assert(r[i] == fg_for(1)),
            AnsiTag::FgGreen => assert(r[i] == fg_for(2)),
            AnsiTag::FgYellow => assert(r[i] == fg_for(3)),
            AnsiTag::FgBlue => assert(r[i] == fg_for(4)),
            AnsiTag::FgMagenta => assert(r[i] == fg_for(5)),
            AnsiTag::FgCyan => assert(r[i] == fg_for(6)),
            AnsiTag::FgWhite => assert(r[i] == fg_for(7)),
        }
    }
    if code == "0"@ {
        reveal_strlit("0");
        assert(code.len() == 1 && code[0] == '0');
        let e = Seq::<char>::empty();
        let z = e.push('0');
        assert(code.drop_last() =~= e);
        assert(code.last() == '0');
        assert(split_parts(e) == seq![e]);
        assert(split_parts(code) == seq![e].update(0, z));
        assert(seq![e].update(0, z) =~= seq![z]);
        assert(z.drop_last() =~= e);
        assert(z.last() == '0');
        assert(digits_value(e) == 0);
        assert(digits_value(z) == digits_value(z.drop_last()) * 10 + (z.last() as int - '0' as int));
        assert(digits_value(z) == 0);
        assert(seq![z].drop_last() =~= Seq::<Seq<char>>::empty());
        assert(apply_codes(tags, seq![z]) == apply_code(apply_codes(tags, Seq::<Seq<char>>::empty()), z));
    }
    if code.len() > 0 {
        let parts = split_parts(code);
        lemma_split_parts_nonempty(code);
        if parts.len() > 0 {
            let prev = apply_codes(tags, parts.drop_last());
            lemma_apply_codes_wf(tags, parts.drop_last());
            match sets_foreground(parts.last()) {
                Some(fg) => {
                    let f = prev.filter(not_foreground());
                    lemma_filter_styles_wf(prev, not_foreground());
                    let t = f.push(fg);
                    assert(r == t);
                    assert(t[t.len() - 1] == fg);
                    assert(t.contains(fg));
                    assert forall|i: int| 0 <= i < t.len() && is_foreground(#[trigger] t[i]) implies t[i] == fg by {
                        if i < f.len() {
                            assert(not_foreground()(f[i]));
                        }
                    }
                },
                None => {},
            }
        }
    }
}

/// `apply_code` on a parameter that parsed, with value `v`.
pub open spec fn apply_code_value(tags: Seq<AnsiTag>, v: int) -> Seq<AnsiTag> {
    if v == 0 {
        Seq::empty()
    } else if v == 1 {
        if tags.contains(AnsiTag::Bold) { tags } else { tags.push(AnsiTag::Bold) }
    } else if v == 21 || v == 22 {
        tags.filter(not_bold())
    } else if (30 <= v && v <= 37) || (90 <= v && v <= 97) {
        tags.filter(not_foreground()).push(fg_for(v % 10))
    } else if v == 39 {
        tags.filter(not_foreground())
    } else {
        tags
    }
}

proof fn lemma_digits_grow(s: Seq<char>, c: char)
    requires
        is_digit(c),
        forall|k: int| 0 <= k < s.len() ==> is_digit(#[trigger] s[k]),
    ensures
        digits_value(s.push(c)) == digits_value(s) * 10 + (c as int - '0' as int),
        digits_value(s.push(c)) >= digits_value(s),
{
    assert(s.push(c).drop_last() =~= s);
    assert(digits_value(s) >= 0) by {
        lemma_digits_nonneg(s);
    }
}

proof fn lemma_digits_nonneg(s: Seq<char>)
    requires
        forall|k: int| 0 <= k < s.len() ==> is_digit(#[trigger] s[k]),
    ensures
        digits_value(s) >= 0,
    decreases s.len(),
{
    if s.len() > 0 {
        lemma_digits_nonneg(s.drop_last());
    }
}

/// Applies the SGR parameters `code` (digits and `;`) to the active styles.
pub fn apply_sgr_codes(code: &Vec<char>, active_tags: &mut Vec<AnsiTag>)
    requires
        forall|k: int| 0 <= k < code@.len() ==> is_code_char(#[trigger] code@[k]),
    ensures
        final(active_tags)@ == apply_sgr(code@, old(active_tags)@),
        styles_wf(old(active_tags)@) ==> {
            &&& styles_wf(final(active_tags)@)
            &&& forall|i: int|
                0 <= i < final(active_tags)@.len() ==> old(active_tags)@.contains(
                    #[trigger] final(active_tags)@[i],
                ) || final(active_tags)@[i] == AnsiTag::Bold || exists|k: int|
                    0 <= k < 8 && final(active_tags)@[i] == fg_for(k)
            &&& (code@.len() == 0 || code@ == "0"@) ==> final(active_tags)@.len() == 0
            &&& code@.len() > 0 ==> match sets_foreground(split_parts(code@).last()) {
                Some(fg) => final(active_tags)@.contains(fg) && forall|i: int|
                    0 <= i < final(active_tags)@.len() && is_foreground(#[trigger] final(active_tags)@[i])
                        ==> final(active_tags)@[i] == fg,
                None => true,
            }
        },
{
    proof {
        if styles_wf(active_tags@) {
            lemma_sgr_keeps_styles(code@, active_tags@);
        }
    }
    if code.len() == 0 {
        active_tags.clear();
        return;
    }
    let ghost t0 = active_tags@;
    let ghost c = code@;
    let mut i: usize = 0;
    // The parameter being read: whether it has digits, and its value, kept
    // at u32::MAX + 1 once it exceeds u32::MAX.
    let mut has_digits = false;
    let mut value: u64 = 0;
    proof {
        assert(c.take(0) =~= Seq::<char>::empty());
    }
    while i < code.len()
        invariant
            i <= code.len(),
            c == code@,
            c.len() > 0,
            forall|k: int| 0 <= k < c.len() ==> is_code_char(#[trigger] c[k]),
            split_parts(c.take(i as int)).len() > 0,
            active_tags@ == apply_codes(t0, split_parts(c.take(i as int)).drop_last()),
            has_digits == (split_parts(c.take(i as int)).last().len() > 0),
            value <= u32::MAX + 1,
            value <= u32::MAX ==> value == digits_value(split_parts(c.take(i as int)).last()),
            value > u32::MAX ==> digits_value(split_parts(c.take(i as int)).last()) > u32::MAX,
            forall|k: int| 0 <= k < split_parts(c.take(i as int)).last().len() ==> is_digit(#[trigger] split_parts(c.take(i as int)).last()[k]),
        decreases code.len() - i,
    {
        let ch = code[i];
        let ghost prev = c.take(i as int);
        let ghost parts = split_parts(prev);
        proof {
            assert(c.take(i + 1) =~= prev.push(ch));
            assert(c.take(i + 1).drop_last() =~= prev);
        }
        if ch == ';' {
            apply_part(active_tags, has_digits && value <= 0xffff_ffff, value);
            proof {
                let np = split_parts(c.take(i + 1));
                assert(np == parts.push(Seq::<char>::empty()));
                assert(np.drop_last() =~= parts);
                assert(parts =~= parts.drop_last().push(parts.last()));
                assert(apply_codes(t0, parts) == apply_code(apply_codes(t0, parts.drop_last()), parts.last()));
            }
            has_digits = false;
            value = 0;
        } else {
            let d = (ch as u32 - '0' as u32) as u64;
            proof {
                lemma_digits_grow(parts.last(), ch);
                let np = split_parts(c.take(i + 1));
                assert(np == parts.update(parts.len() - 1, parts.last().push(ch)));
                assert(np.drop_last() =~= parts.drop_last());
                assert(np.last() == parts.last().push(ch));
            }
            if value > 0xffff_ffff {
                value = 0x1_0000_0000;
            } else {
                let next = value * 10 + d;
                value = if next > 0xffff_ffff {
                    0x1_0000_0000
                } else {
                    next
                };
            }
            has_digits = true;
            proof {
                let np = split_parts(c.take(i + 1));
                assert forall|k: int| 0 <= k < np.last().len() implies is_digit(#[trigger] np.last()[k]) by {
                    if k < parts.last().len() {
                        assert(np.last()[k] == parts.last()[k]);
                    }
                }
            }
        }
        i += 1;
    }
    proof {
        assert(c.take(c.len() as int) =~= c);
        let parts = split_parts(c);
        assert(parts =~= parts.drop_last().push(parts.last()));
    }
    apply_part(active_tags, has_digits && value <= 0xffff_ffff, value);
}


fn copy_tags(tags: &Vec<AnsiTag>) -> (r: Vec<AnsiTag>)
    ensures
        r@ == tags@,
{
    let mut r: Vec<AnsiTag> = Vec::new();
    let mut i: usize = 0;
    while i < tags.len()
        invariant
            i <= tags.len(),
            r@ == tags@.take(i as int),
        decreases tags.len() - i,
    {
        r.push(tags[i]);
        assert(r@ =~= tags@.take(i + 1));
        i += 1;
    }
    assert(tags@.take(tags.len() as int) =~= tags@);
    r
}

/// The styled segments of a log line, each style as its tag's name.
pub fn parse_ansi_line(line: &str) -> (r: Vec<(String, Vec<&'static str>)>)
    ensures
        segment_views(r@) == named_segments(parse_ansi(line@)),
        segments_wf(parse_ansi(line@)),
{
    proof {
        lemma_parse_ansi_wf(line@);
    }
    let chars = chars_of(line);
    let n = chars.len();
    let mut segments: Vec<(String, Vec<AnsiTag>)> = Vec::new();
    let mut text = String::new();
    let mut tags: Vec<AnsiTag> = Vec::new();
    let mut i: usize = 0;
    proof {
        assert(chars@.skip(0) =~= chars@);
        assert(tagged_views(segments@) =~= Seq::<(Seq<char>, Seq<AnsiTag>)>::empty());
        assert(tags@ =~= Seq::<AnsiTag>::empty());
    }
    while i < n
        invariant
            i <= n == chars@.len(),
            chars@ == line@,
            parse_from(
                chars@.skip(i as int),
                ParseState { segments: tagged_views(segments@), text: text@, tags: tags@ },
            ) == parse_ansi(line@),
        decreases n - i,
    {
        let ghost s = chars@.skip(i as int);
        let ghost st = ParseState { segments: tagged_views(segments@), text: text@, tags: tags@ };
        let ch = chars[i];
        assert(s[0] == ch);
        if ch != ESC || i + 1 >= n || chars[i + 1] != '[' {
            proof {
                assert(s.drop_first() =~= chars@.skip(i + 1));
            }
            push_char(&mut text, ch);
            i += 1;
        } else {
            assert(s[1] == chars@[i + 1]);
            let ghost body = s.skip(2);
            assert(body =~= chars@.skip(i + 2));
            let mut j: usize = i + 2;
            while j < n && (('0' <= chars[j] && chars[j] <= '9') || chars[j] == ';')
                invariant
                    i + 2 <= j <= n == chars@.len(),
                    body == chars@.skip(i + 2),
                    forall|k: int| 0 <= k < j - (i + 2) ==> !(ends_code())(#[trigger] body[k]),
                decreases n - j,
            {
                assert(body[j - (i + 2)] == chars@[j as int]);
                j += 1;
            }
            proof {
                if j < n {
                    assert(body[j - (i + 2)] == chars@[j as int]);
                }
                lemma_first_where_at(body, ends_code(), j - (i + 2));
            }
            let mut code: Vec<char> = Vec::new();
            let mut k: usize = i + 2;
            while k < j
                invariant
                    i + 2 <= k <= j <= n == chars@.len(),
                    code@ == chars@.subrange(i + 2, k as int),
                decreases j - k,
            {
                code.push(chars[k]);
                assert(code@ =~= chars@.subrange(i + 2, k + 1));
                k += 1;
            }
            let ghost nn = j - (i + 2);
            assert(code@ =~= body.take(nn));
            assert forall|m: int| 0 <= m < code@.len() implies is_code_char(#[trigger] code@[m]) by {
                assert(code@[m] == body[m]);
                assert(!(ends_code())(body[m]));
            }
            if !text.as_str().is_empty() {
                let t = copy_tags(&tags);
                let ghost prev = tagged_views(segments@);
                segments.push((text, t));
                assert(tagged_views(segments@) =~= prev.push((st.text, st.tags)));
                text = String::new();
            }
            assert(ParseState { segments: tagged_views(segments@), text: text@, tags: tags@ } == flush(st));
            if j < n {
                if chars[j] == 'm' {
                    apply_sgr_codes(&code, &mut tags);
                }
                assert(body[nn] == chars@[j as int]);
                assert(body.skip(nn + 1) =~= chars@.skip(j + 1));
                i = j + 1;
            } else {
                assert(body.skip(nn) =~= chars@.skip(j as int));
                i = j;
            }
        }
    }
    // Close the last segment.
    proof {
        assert(chars@.skip(n as int) =~= Seq::<char>::empty());
    }
    if !text.as_str().is_empty() {
        let ghost prev = tagged_views(segments@);
        let ghost tv = tags@;
        let ghost xv = text@;
        segments.push((text, tags));
        assert(tagged_views(segments@) =~= prev.push((xv, tv)));
    }
    let ghost segs = tagged_views(segments@);
    assert(segs == parse_ansi(line@));
    // Name the styles.
    let mut out: Vec<(String, Vec<&'static str>)> = Vec::new();
    let mut m: usize = 0;
    while m < segments.len()
        invariant
            m <= segments.len(),
            segs == tagged_views(segments@),
            segment_views(out@) == named_segments(segs.take(m as int)),
        decreases segments.len() - m,
    {
        let ghost tm = segments@[m as int].1@;
        let mut names: Vec<&'static str> = Vec::new();
        let mut q: usize = 0;
        while q < segments[m].1.len()
            invariant
                m < segments.len(),
                tm == segments@[m as int].1@,
                q <= tm.len(),
                texts(names@) == tag_names(tm.take(q as int)),
            decreases tm.len() - q,
        {
            let ghost prev = names@;
            let nm = segments[m].1[q].name();
            names.push(nm);
            assert(names@ == prev.push(nm));
            assert(prev.len() == texts(prev).len());
            assert(texts(prev).len() == q);
            assert(texts(names@) =~= tag_names(tm.take(q + 1))) by {
                assert forall|k: int| 0 <= k < q + 1 implies #[trigger] texts(names@)[k] == tag_names(tm.take(q + 1))[k] by {
                    if k < q {
                        assert(texts(names@)[k] == texts(prev)[k]);
                        assert(tag_names(tm.take(q + 1))[k] == tag_names(tm.take(q as int))[k]);
                    }
                }
            }
            q += 1;
        }
        assert(tm.take(tm.len() as int) =~= tm);
        let t = segments[m].0.clone();
        let ghost prev_out = out@;
        let ghost pair = (t, names);
        out.push((t, names));
        assert(out@ == prev_out.push(pair));
        assert(segment_views(prev_out).len() == m);
        assert(segment_views(out@) =~= named_segments(segs.take(m + 1))) by {
            assert forall|k: int| 0 <= k < m + 1 implies #[trigger] segment_views(out@)[k] == named_segments(segs.take(m + 1))[k] by {
                if k < m {
                    assert(segment_views(out@)[k] == segment_views(prev_out)[k]);
                    assert(named_segments(segs.take(m + 1))[k] == named_segments(segs.take(m as int))[k]);
                } else {
                    assert(segs.take(m + 1)[k] == segs[m as int]);
                }
            }
        }
        m += 1;
    }
    assert(segs.take(segs.len() as int) =~= segs);
    out
}

} // verus!
