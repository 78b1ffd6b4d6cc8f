//! Style spans of a text: sorting them and flattening overlapping spans into contiguous,
//! non-overlapping ones.
use vstd::prelude::*;
use crate::code::{Attribute, Code, CodeUnit, Color};
use crate::text::attrs::{Attrs, attrs_table};
use crate::text::visual::StyleSpan;

verus! {

/// The sort key of a span: its line, then its grapheme index.
pub open spec fn key_le(a: StyleSpan, b: StyleSpan) -> bool {
    a.line < b.line || (a.line == b.line && a.character <= b.character)
}

/// Index of the first span of `s` that sorts after `x`, or the length of `s`.
pub open spec fn first_after(s: Seq<StyleSpan>, x: StyleSpan) -> nat
    decreases s.len(),
{
    if s.len() == 0 {
        0
    } else if !key_le(s[0], x) {
        0
    } else {
        1 + first_after(s.drop_first(), x)
    }
}

/// The spans sorted by line and grapheme index, spans with equal keys keeping their order.
pub open spec fn sorted_spans(s: Seq<StyleSpan>) -> Seq<StyleSpan>
    decreases s.len(),
{
    if s.len() == 0 {
        seq![]
    } else {
        let rest = sorted_spans(s.drop_last());
        rest.insert(first_after(rest, s.last()) as int, s.last())
    }
}

/// The spans are in key order.
pub open spec fn key_sorted(s: Seq<StyleSpan>) -> bool {
    forall|i: int, j: int| 0 <= i < j < s.len() ==> key_le(#[trigger] s[i], #[trigger] s[j])
}

/// The spans are in line order.
pub open spec fn line_sorted(s: Seq<StyleSpan>) -> bool {
    forall|i: int, j: int| 0 <= i < j < s.len() ==> (#[trigger] s[i]).line <= (#[trigger] s[j]).line
}

proof fn lemma_first_after(s: Seq<StyleSpan>, x: StyleSpan)
    requires
        key_sorted(s),
    ensures
        first_after(s, x) <= s.len(),
        forall|i: int| 0 <= i < first_after(s, x) ==> key_le(#[trigger] s[i], x),
        forall|i: int| first_after(s, x) <= i < s.len() ==> !key_le(#[trigger] s[i], x),
    decreases s.len(),
{
    if s.len() > 0 {
        let rest = s.drop_first();
        assert(key_sorted(rest)) by {
            assert forall|i: int, j: int| 0 <= i < j < rest.len() implies key_le(#[trigger] rest[i], #[trigger] rest[j]) by {
                assert(key_le(s[i + 1], s[j + 1]));
            }
        }
        lemma_first_after(rest, x);
        if !key_le(s[0], x) {
            assert forall|i: int| 0 <= i < s.len() implies !key_le(#[trigger] s[i], x) by {
                if i > 0 {
                    assert(key_le(s[0], s[i]));
                }
            }
        } else {
            assert forall|i: int| 0 <= i < first_after(s, x) implies key_le(#[trigger] s[i], x) by {
                if i > 0 {
                    assert(s[i] == rest[i - 1]);
                }
            }
            assert forall|i: int| first_after(s, x) <= i < s.len() implies !key_le(#[trigger] s[i], x) by {
                assert(s[i] == rest[i - 1]);
            }
        }
    }
}

/// Inserting after the spans that do not sort after `x` keeps key order.
proof fn lemma_insert_sorted(s: Seq<StyleSpan>, x: StyleSpan)
    requires
        key_sorted(s),
    ensures
        key_sorted(s.insert(first_after(s, x) as int, x)),
{
    lemma_first_after(s, x);
    let p = first_after(s, x) as int;
    let r = s.insert(p, x);
    s.insert_ensures(p, x);
    assert forall|i: int, j: int| 0 <= i < j < r.len() implies key_le(#[trigger] r[i], #[trigger] r[j]) by {
        if j < p {
            assert(r[i] == s[i] && r[j] == s[j]);
        } else if j == p {
            assert(r[i] == s[i]);
        } else if i < p {
            assert(r[i] == s[i]);
            assert(r[j] == s[j - 1]);
            assert(key_le(s[i], x));
            assert(!key_le(s[j - 1], x));
        } else if i == p {
            assert(r[j] == s[j - 1]);
            assert(!key_le(s[j - 1], x));
        } else {
            assert(r[i] == s[i - 1] && r[j] == s[j - 1]);
        }
    }
}

/// Sorting puts the spans in key order.
pub proof fn lemma_sorted_spans(s: Seq<StyleSpan>)
    ensures
        key_sorted(sorted_spans(s)),
        sorted_spans(s).len() == s.len(),
    decreases s.len(),
{
    if s.len() > 0 {
        lemma_sorted_spans(s.drop_last());
        lemma_first_after(sorted_spans(s.drop_last()), s.last());
        lemma_insert_sorted(sorted_spans(s.drop_last()), s.last());
    }
}

/// Spans in key order are in line order.
pub proof fn lemma_key_sorted_line_sorted(s: Seq<StyleSpan>)
    requires
        key_sorted(s),
    ensures
        line_sorted(s),
{
    assert forall|i: int, j: int| 0 <= i < j < s.len() implies (#[trigger] s[i]).line <= (#[trigger] s[j]).line by {
        assert(key_le(s[i], s[j]));
    }
}

/// Whether `a` sorts no later than `b`.
fn span_le(a: &StyleSpan, b: &StyleSpan) -> (r: bool)
    ensures
        r == key_le(*a, *b),
{
    a.line < b.line || (a.line == b.line && a.character <= b.character)
}

/// Sorts the spans by line and grapheme index, keeping the order of equal keys.
pub fn sort_spans(spans: &Vec<StyleSpan>) -> (r: Vec<StyleSpan>)
    ensures
        r@ == sorted_spans(spans@),
        key_sorted(r@),
        ends_fit(spans@) ==> ends_fit(r@),
{
    let mut out: Vec<StyleSpan> = Vec::new();
    let mut i: usize = 0;
    while i < spans.len()
        invariant
            i <= spans@.len(),
            out@ == sorted_spans(spans@.take(i as int)),
            key_sorted(out@),
            ends_fit(spans@) ==> ends_fit(out@),
        decreases spans@.len() - i,
    {
        let x = spans[i];
        proof {
            assert(spans@.take(i + 1).drop_last() =~= spans@.take(i as int));
            assert(spans@.take(i + 1).last() == x);
        }
        let mut p: usize = 0;
        proof {
            assert(out@.skip(0) =~= out@);
        }
        while p < out.len() && span_le(&out[p], &x)
            invariant
                p <= out@.len(),
                first_after(out@, x) == p + first_after(out@.skip(p as int), x),
            decreases out@.len() - p,
        {
            proof {
                assert(out@.skip(p as int).drop_first() =~= out@.skip(p + 1));
                assert(out@.skip(p as int)[0] == out@[p as int]);
            }
            p = p + 1;
        }
        proof {
            if p < out@.len() {
                assert(out@.skip(p as int)[0] == out@[p as int]);
            }
            assert(first_after(out@, x) == p);
            lemma_insert_sorted(out@, x);
        }
        let ghost before = out@;
        out.insert(p, x);
        proof {
            before.insert_ensures(p as int, x);
            if ends_fit(spans@) {
                assert forall|k: int| 0 <= k < out@.len() implies (#[trigger] out@[k]).character + out@[k].length <= usize::MAX by {
                    if k < p {
                        assert(out@[k] == before[k]);
                    } else if k > p {
                        assert(out@[k] == before[k - 1]);
                    } else {
                        assert(x == spans@[i as int]);
                    }
                }
            }
        }
        i = i + 1;
    }
    proof {
        assert(spans@.take(i as int) =~= spans@);
    }
    out
}

/// A grapheme with no style.
pub open spec fn plain_unit() -> CodeUnit {
    CodeUnit { fg: None, bg: None, attrs: Attrs(0) }
}

/// `u` with `code` applied.
pub open spec fn apply_code(u: CodeUnit, code: Code) -> CodeUnit {
    match code {
        Code::Attribute(a) => CodeUnit { attrs: u.attrs.spec_apply(a), ..u },
        Code::Background(c) => CodeUnit { bg: Some(c), ..u },
        Code::Foreground(c) => CodeUnit { fg: Some(c), ..u },
    }
}

/// The styles of a line's graphemes after `code` is applied to graphemes `start..end`, the
/// line growing with unstyled graphemes up to `end`.
pub open spec fn set_range(units: Seq<CodeUnit>, code: Code, start: nat, end: nat) -> Seq<CodeUnit> {
    let grown = if units.len() < end { units + Seq::new((end - units.len()) as nat, |i: int| plain_unit()) } else { units };
    Seq::new(grown.len(), |i: int| if start <= i < end { apply_code(grown[i], code) } else { grown[i] })
}

/// State of the pass that combines a line's grapheme styles into spans: the foreground and
/// background with the index where they started, the attributes by bit with the index where
/// each started, and the spans so far.
pub type CombineState = (Option<Color>, nat, Option<Color>, nat, Seq<Option<Attribute>>, Seq<nat>, Seq<StyleSpan>);

/// The attributes of a unit by bit, none beyond the line.
pub open spec fn unit_attrs(units: Seq<CodeUnit>, i: int) -> Seq<Option<Attribute>> {
    if 0 <= i < units.len() {
        Seq::new(14, |k: int| units[i].attrs.spec_get(k as u16))
    } else {
        Seq::new(14, |k: int| None::<Attribute>)
    }
}

/// The first `n` attribute bits at index `i`: where a bit changes, the span of the attribute
/// that ends there is emitted and the bit restarts at `i`.
pub open spec fn combine_attrs(st: CombineState, now: Seq<Option<Attribute>>, li: usize, i: nat, n: nat) -> CombineState
    decreases n,
{
    if n == 0 {
        st
    } else {
        let prev = combine_attrs(st, now, li, i, (n - 1) as nat);
        let (fg, fg_i, bg, bg_i, attrs, attrs_i, out) = prev;
        let k = (n - 1) as int;
        if now[k] != attrs[k] {
            let out2 = match attrs[k] {
                Some(a) => out.push(StyleSpan { code: Code::Attribute(a), line: li, character: attrs_i[k] as usize, length: (i - attrs_i[k]) as usize }),
                None => out,
            };
            (fg, fg_i, bg, bg_i, attrs.update(k, now[k]), attrs_i.update(k, i), out2)
        } else {
            prev
        }
    }
}

/// One index of the combining pass: the foreground, then the background, then the attributes.
pub open spec fn combine_step(st: CombineState, units: Seq<CodeUnit>, li: usize, i: nat) -> CombineState {
    let (fg, fg_i, bg, bg_i, attrs, attrs_i, out) = st;
    let unit_fg = if i < units.len() { units[i as int].fg } else { None };
    let unit_bg = if i < units.len() { units[i as int].bg } else { None };
    let (out1, fg1, fg_i1) = if unit_fg != fg {
        (match fg {
            Some(c) => out.push(StyleSpan { code: Code::Foreground(c), line: li, character: fg_i as usize, length: (i - fg_i) as usize }),
            None => out,
        }, unit_fg, i)
    } else {
        (out, fg, fg_i)
    };
    let (out2, bg1, bg_i1) = if unit_bg != bg {
        (match bg {
            Some(c) => out1.push(StyleSpan { code: Code::Background(c), line: li, character: bg_i as usize, length: (i - bg_i) as usize }),
            None => out1,
        }, unit_bg, i)
    } else {
        (out1, bg, bg_i)
    };
    combine_attrs((fg1, fg_i1, bg1, bg_i1, attrs, attrs_i, out2), unit_attrs(units, i as int), li, i, 14)
}

/// The combining pass over indices `0..n`.
pub open spec fn combine_fold(units: Seq<CodeUnit>, li: usize, n: nat) -> CombineState
    decreases n,
{
    if n == 0 {
        (None, 0, None, 0, Seq::new(14, |k: int| None::<Attribute>), Seq::new(14, |k: int| k as nat), seq![])
    } else {
        combine_step(combine_fold(units, li, (n - 1) as nat), units, li, (n - 1) as nat)
    }
}

/// The spans of line `li` combined from its grapheme styles: one per maximal run of a
/// foreground, background or attribute, emitted where the run ends.
pub open spec fn combined(units: Seq<CodeUnit>, li: usize) -> Seq<StyleSpan> {
    combine_fold(units, li, units.len() + 1).6
}

/// State of the flattening pass: the grapheme styles of the current line, its index, and the
/// spans of the lines before it.
pub type FlattenState = (Seq<CodeUnit>, usize, Seq<StyleSpan>);

/// The flattening pass over the spans: a span on a later line first closes the current line.
pub open spec fn flatten_fold(spans: Seq<StyleSpan>) -> FlattenState
    decreases spans.len(),
{
    if spans.len() == 0 {
        (seq![], 0, seq![])
    } else {
        let (units, last_line, out) = flatten_fold(spans.drop_last());
        let x = spans.last();
        let (units1, last1, out1) = if x.line > last_line {
            (Seq::<CodeUnit>::empty(), x.line, out + combined(units, last_line))
        } else {
            (units, last_line, out)
        };
        (set_range(units1, x.code, x.character as nat, (x.character + x.length) as nat), last1, out1)
    }
}

/// The flattened spans: those of every line closed, then those of the last line if it has
/// graphemes.
pub open spec fn flattened(spans: Seq<StyleSpan>) -> Seq<StyleSpan> {
    let (units, last_line, out) = flatten_fold(spans);
    if units.len() > 0 { out + combined(units, last_line) } else { out }
}

/// Every span's end can be computed.
pub open spec fn ends_fit(spans: Seq<StyleSpan>) -> bool {
    forall|i: int| 0 <= i < spans.len() ==> (#[trigger] spans[i]).character + spans[i].length <= usize::MAX
}

/// Whether two optional colors are equal.
fn same_color(a: Option<Color>, b: Option<Color>) -> (r: bool)
    ensures
        r == (a == b),
{
    match (a, b) {
        (Some(x), Some(y)) => x == y,
        (None, None) => true,
        _ => false,
    }
}

/// Whether two optional attributes are equal.
fn same_attr(a: Option<Attribute>, b: Option<Attribute>) -> (r: bool)
    ensures
        r == (a == b),
{
    match (a, b) {
        (Some(x), Some(y)) => x == y,
        (None, None) => true,
        _ => false,
    }
}

/// Fourteen absent attributes.
fn no_attrs() -> (r: Vec<Option<Attribute>>)
    ensures
        r@ == Seq::new(14, |k: int| None::<Attribute>),
{
    let mut v: Vec<Option<Attribute>> = Vec::new();
    let mut k: usize = 0;
    while k < 14
        invariant
            k <= 14,
            v@ == Seq::new(k as nat, |j: int| None::<Attribute>),
        decreases 14 - k,
    {
        v.push(None);
        k = k + 1;
        proof {
            assert(v@ =~= Seq::new(k as nat, |j: int| None::<Attribute>));
        }
    }
    v
}

/// Applies `code` to graphemes `start..end` of the line, growing it with unstyled graphemes.
fn set_line(line: &mut Vec<CodeUnit>, code: Code, start: usize, end: usize)
    requires
        start <= end,
    ensures
        final(line)@ == set_range(old(line)@, code, start as nat, end as nat),
{
    let ghost grown = if old(line)@.len() < end {
        old(line)@ + Seq::new((end - old(line)@.len()) as nat, |i: int| plain_unit())
    } else {
        old(line)@
    };
    while line.len() < end
        invariant
            old(line)@.len() <= line@.len(),
            line@.len() <= if old(line)@.len() < end { end as nat } else { old(line)@.len() },
            line@ == grown.take(line@.len() as int),
            grown == (if old(line)@.len() < end {
                old(line)@ + Seq::new((end - old(line)@.len()) as nat, |i: int| plain_unit())
            } else {
                old(line)@
            }),
        decreases end - line@.len(),
    {
        line.push(CodeUnit { fg: None, bg: None, attrs: Attrs(0) });
        proof {
            assert(line@ =~= grown.take(line@.len() as int));
        }
    }
    proof {
        assert(line@ =~= grown);
    }
    let mut i = start;
    while i < end
        invariant
            start <= i <= end,
            end <= line@.len(),
            line@.len() == grown.len(),
            forall|k: int| 0 <= k < line@.len() ==> #[trigger] line@[k] == if start <= k < i { apply_code(grown[k], code) } else { grown[k] },
        decreases end - i,
    {
        let mut u = line[i];
        match code {
            Code::Attribute(a) => u.apply_attr(a),
            Code::Background(c) => u.set_bg(c),
            Code::Foreground(c) => u.set_fg(c),
        }
        line.set(i, u);
        i = i + 1;
    }
    proof {
        assert(line@ =~= set_range(old(line)@, code, start as nat, end as nat));
    }
}

/// Combines the grapheme styles of line `li` into spans.
fn combine(line: &Vec<CodeUnit>, li: usize) -> (r: Vec<StyleSpan>)
    ensures
        r@ == combined(line@, li),
        ends_fit(r@),
{
    let ghost units = line@;
    let n = line.len();
    let mut fg: Option<Color> = None;
    let mut fg_i: usize = 0;
    let mut bg: Option<Color> = None;
    let mut bg_i: usize = 0;
    let mut attrs = no_attrs();
    let mut attrs_i: Vec<usize> = Vec::new();
    let mut k: usize = 0;
    while k < 14
        invariant
            k <= 14,
            attrs_i@ == Seq::new(k as nat, |j: int| j as usize),
        decreases 14 - k,
    {
        attrs_i.push(k);
        k = k + 1;
        proof {
            assert(attrs_i@ =~= Seq::new(k as nat, |j: int| j as usize));
        }
    }
    let mut styles: Vec<StyleSpan> = Vec::new();
    let mut i: usize = 0;
    let mut done = false;
    proof {
        assert(attrs_i@.map_values(|x: usize| x as nat) =~= Seq::new(14, |j: int| j as nat));
    }
    while !done
        invariant
            n == units.len(),
            units == line@,
            i <= n,
            attrs@.len() == 14,
            attrs_i@.len() == 14,
            fg_i <= i,
            bg_i <= i,
            forall|k: int| 0 <= k < 14 ==> (#[trigger] attrs@[k]) is Some ==> attrs_i@[k] <= i,
            ends_fit(styles@),
            ({
                let st = combine_fold(units, li, if done { (i + 1) as nat } else { i as nat });
                &&& st.0 == fg
                &&& st.1 == fg_i
                &&& st.2 == bg
                &&& st.3 == bg_i
                &&& st.4 == attrs@
                &&& st.5 == attrs_i@.map_values(|x: usize| x as nat)
                &&& st.6 == styles@
            }),
            done ==> i == n,
        decreases (n - i) + if done { 0int } else { 1int },
    {
        let ghost before = combine_fold(units, li, i as nat);
        let unit_fg = if i < n { line[i].fg() } else { None };
        let unit_bg = if i < n { line[i].bg() } else { None };
        if !same_color(unit_fg, fg) {
            if let Some(c) = fg {
                styles.push(StyleSpan::new(Code::Foreground(c), li, fg_i, i - fg_i));
            }
            fg = unit_fg;
            fg_i = i;
        }
        if !same_color(unit_bg, bg) {
            if let Some(c) = bg {
                styles.push(StyleSpan::new(Code::Background(c), li, bg_i, i - bg_i));
            }
            bg = unit_bg;
            bg_i = i;
        }
        let now = if i < n { line[i].attrs().extract() } else { no_attrs() };
        proof {
            assert(now@ =~= unit_attrs(units, i as int));
        }
        let ghost mid: CombineState = (fg, fg_i as nat, bg, bg_i as nat, attrs@, attrs_i@.map_values(|x: usize| x as nat), styles@);
        let mut ai: usize = 0;
        while ai < 14
            invariant
                ai <= 14,
                i <= n,
                attrs@.len() == 14,
                attrs_i@.len() == 14,
                now@ == unit_attrs(units, i as int),
                forall|k: int| 0 <= k < 14 ==> (#[trigger] attrs@[k]) is Some ==> attrs_i@[k] <= i,
                ends_fit(styles@),
                ({
                    let st = combine_attrs(mid, now@, li, i as nat, ai as nat);
                    &&& st.0 == fg
                    &&& st.1 == fg_i
                    &&& st.2 == bg
                    &&& st.3 == bg_i
                    &&& st.4 == attrs@
                    &&& st.5 == attrs_i@.map_values(|x: usize| x as nat)
                    &&& st.6 == styles@
                }),
            decreases 14 - ai,
        {
            if !same_attr(now[ai], attrs[ai]) {
                if let Some(a) = attrs[ai] {
                    styles.push(StyleSpan::new(Code::Attribute(a), li, attrs_i[ai], i - attrs_i[ai]));
                }
                attrs.set(ai, now[ai]);
                attrs_i.set(ai, i);
                proof {
                    assert(attrs_i@.map_values(|x: usize| x as nat) =~= combine_attrs(mid, now@, li, i as nat, ai as nat).5.update(ai as int, i as nat));
                }
            }
            ai = ai + 1;
        }
        proof {
            assert(combine_fold(units, li, (i + 1) as nat) == combine_step(before, units, li, i as nat));
        }
        if i == n {
            done = true;
        } else {
            i = i + 1;
        }
    }
    styles
}

/// Flattens the spans, line by line, into contiguous non-overlapping spans.
pub fn flatten_spans(spans: &Vec<StyleSpan>) -> (r: Vec<StyleSpan>)
    requires
        line_sorted(spans@),
        ends_fit(spans@),
    ensures
        r@ == flattened(spans@),
        ends_fit(r@),
{
    let mut line: Vec<CodeUnit> = Vec::new();
    let mut styles: Vec<StyleSpan> = Vec::new();
    let mut last_line: usize = 0;
    let mut i: usize = 0;
    while i < spans.len()
        invariant
            i <= spans@.len(),
            line_sorted(spans@),
            ends_fit(spans@),
            (line@, last_line, styles@) == flatten_fold(spans@.take(i as int)),
            ends_fit(styles@),
            i > 0 ==> last_line == spans@[i - 1].line,
            i == 0 ==> last_line == 0,
        decreases spans@.len() - i,
    {
        let x = spans[i];
        proof {
            assert(spans@.take(i + 1).drop_last() =~= spans@.take(i as int));
            assert(spans@.take(i + 1).last() == x);
            if i > 0 {
                assert(spans@[i - 1].line <= spans@[i as int].line);
            }
        }
        if x.line > last_line {
            let more = combine(&line, last_line);
            let ghost before = styles@;
            let mut more_mut = more;
            styles.append(&mut more_mut);
            proof {
                assert(styles@ =~= before + combined(line@, last_line));
            }
            last_line = x.line;
            line = Vec::new();
        }
        let end = x.end();
        set_line(&mut line, x.code, x.character, end);
        i = i + 1;
    }
    proof {
        assert(spans@.take(i as int) =~= spans@);
    }
    if line.len() > 0 {
        let mut more = combine(&line, last_line);
        let ghost before = styles@;
        styles.append(&mut more);
        proof {
            assert(styles@ =~= before + combined(line@, last_line));
        }
    }
    styles
}

/// Spans of kind `fg` (foreground, else background) come one after the other without
/// overlapping.
pub open spec fn kind_disjoint(out: Seq<StyleSpan>, fg: bool) -> bool {
    forall|p: int, q: int|
        0 <= p < q < out.len() && is_kind(#[trigger] out[p], fg) && is_kind(#[trigger] out[q], fg) ==> out[p].character
            + out[p].length <= out[q].character
}

/// The span is a foreground span (`fg`) or a background span.
pub open spec fn is_kind(x: StyleSpan, fg: bool) -> bool {
    if fg { x.code is Foreground } else { x.code is Background }
}

/// Spans of kind `fg` end at or before `start`.
pub open spec fn kind_before(out: Seq<StyleSpan>, fg: bool, start: nat) -> bool {
    forall|p: int| 0 <= p < out.len() && is_kind(#[trigger] out[p], fg) ==> out[p].character + out[p].length <= start
}

proof fn lemma_combine_attrs_only_attrs(st: CombineState, now: Seq<Option<Attribute>>, li: usize, i: nat, n: nat)
    ensures
        ({
            let r = combine_attrs(st, now, li, i, n);
            &&& r.0 == st.0 && r.1 == st.1 && r.2 == st.2 && r.3 == st.3
            &&& r.6.len() >= st.6.len()
            &&& r.6.take(st.6.len() as int) == st.6
            &&& forall|j: int| st.6.len() <= j < r.6.len() ==> (#[trigger] r.6[j]).code is Attribute
        }),
    decreases n,
{
    if n > 0 {
        lemma_combine_attrs_only_attrs(st, now, li, i, (n - 1) as nat);
        let prev = combine_attrs(st, now, li, i, (n - 1) as nat);
        let r = combine_attrs(st, now, li, i, n);
        assert(r.6.take(st.6.len() as int) =~= st.6) by {
            assert forall|j: int| 0 <= j < st.6.len() implies r.6[j] == st.6[j] by {
                assert(prev.6.take(st.6.len() as int)[j] == st.6[j]);
            }
        }
    } else {
        assert(st.6.take(st.6.len() as int) =~= st.6);
    }
}

/// Pushing a span of another kind, or of this kind ending by `start`, keeps the spans of this
/// kind ordered.
proof fn lemma_kind_push(out: Seq<StyleSpan>, x: StyleSpan, fg: bool, start: nat)
    requires
        kind_disjoint(out, fg),
        kind_before(out, fg, start),
        is_kind(x, fg) ==> start <= x.character,
    ensures
        kind_disjoint(out.push(x), fg),
{
    let o = out.push(x);
    assert forall|p: int, q: int| 0 <= p < q < o.len() && is_kind(#[trigger] o[p], fg) && is_kind(#[trigger] o[q], fg) implies o[p].character
        + o[p].length <= o[q].character by {
        if q < out.len() {
            assert(o[p] == out[p] && o[q] == out[q]);
        } else {
            assert(o[p] == out[p]);
        }
    }
}

/// The state of the combining pass keeps, for each color, its spans in order and ending by the
/// start of the current run.
proof fn lemma_combine_fold_disjoint(units: Seq<CodeUnit>, li: usize, n: nat)
    requires
        n <= units.len() + 1,
        units.len() < usize::MAX,
    ensures
        ({
            let st = combine_fold(units, li, n);
            &&& n == 0 ==> st.1 == 0 && st.3 == 0
            &&& n > 0 ==> st.1 < n && st.3 < n
            &&& kind_disjoint(st.6, true)
            &&& kind_disjoint(st.6, false)
            &&& kind_before(st.6, true, st.1)
            &&& kind_before(st.6, false, st.3)
        }),
    decreases n,
{
    if n > 0 {
        let i = (n - 1) as nat;
        lemma_combine_fold_disjoint(units, li, i);
        let st = combine_fold(units, li, i);
        let (fg, fg_i, bg, bg_i, attrs, attrs_i, out) = st;
        let unit_fg = if i < units.len() { units[i as int].fg } else { None };
        let unit_bg = if i < units.len() { units[i as int].bg } else { None };
        let (out1, fg1, fg_i1) = if unit_fg != fg {
            (match fg {
                Some(c) => out.push(StyleSpan { code: Code::Foreground(c), line: li, character: fg_i as usize, length: (i - fg_i) as usize }),
                None => out,
            }, unit_fg, i)
        } else {
            (out, fg, fg_i)
        };
        if unit_fg != fg && fg is Some {
            let x = StyleSpan { code: Code::Foreground(fg->0), line: li, character: fg_i as usize, length: (i - fg_i) as usize };
            lemma_kind_push(out, x, true, fg_i);
            lemma_kind_push(out, x, false, bg_i);
            assert(kind_before(out1, true, fg_i1)) by {
                assert forall|p: int| 0 <= p < out1.len() && is_kind(#[trigger] out1[p], true) implies out1[p].character + out1[p].length <= fg_i1 by {
                    if p < out.len() {
                        assert(out1[p] == out[p]);
                    }
                }
            }
            assert(kind_before(out1, false, bg_i)) by {
                assert forall|p: int| 0 <= p < out1.len() && is_kind(#[trigger] out1[p], false) implies out1[p].character + out1[p].length <= bg_i by {
                    if p < out.len() {
                        assert(out1[p] == out[p]);
                    }
                }
            }
        }
        if unit_fg != fg && fg is None {
            assert(kind_before(out1, true, fg_i1)) by {
                assert forall|p: int| 0 <= p < out1.len() && is_kind(#[trigger] out1[p], true) implies out1[p].character + out1[p].length <= fg_i1 by {
                    assert(out1[p] == out[p]);
                }
            }
        }
        let (out2, bg1, bg_i1) = if unit_bg != bg {
            (match bg {
                Some(c) => out1.push(StyleSpan { code: Code::Background(c), line: li, character: bg_i as usize, length: (i - bg_i) as usize }),
                None => out1,
            }, unit_bg, i)
        } else {
            (out1, bg, bg_i)
        };
        if unit_bg != bg && bg is Some {
            let x = StyleSpan { code: Code::Background(bg->0), line: li, character: bg_i as usize, length: (i - bg_i) as usize };
            lemma_kind_push(out1, x, true, fg_i1);
            lemma_kind_push(out1, x, false, bg_i);
            assert(kind_before(out2, false, bg_i1)) by {
                assert forall|p: int| 0 <= p < out2.len() && is_kind(#[trigger] out2[p], false) implies out2[p].character + out2[p].length <= bg_i1 by {
                    if p < out1.len() {
                        assert(out2[p] == out1[p]);
                    }
                }
            }
            assert(kind_before(out2, true, fg_i1)) by {
                assert forall|p: int| 0 <= p < out2.len() && is_kind(#[trigger] out2[p], true) implies out2[p].character + out2[p].length <= fg_i1 by {
                    if p < out1.len() {
                        assert(out2[p] == out1[p]);
                    }
                }
            }
        }
        if unit_bg != bg && bg is None {
            assert(kind_before(out2, false, bg_i1)) by {
                assert forall|p: int| 0 <= p < out2.len() && is_kind(#[trigger] out2[p], false) implies out2[p].character + out2[p].length <= bg_i1 by {
                    assert(out2[p] == out1[p]);
                }
            }
        }
        let st2 = (fg1, fg_i1, bg1, bg_i1, attrs, attrs_i, out2);
        lemma_combine_attrs_only_attrs(st2, unit_attrs(units, i as int), li, i, 14);
        let r = combine_attrs(st2, unit_attrs(units, i as int), li, i, 14);
        assert(r == combine_fold(units, li, n));
        assert forall|p: int| 0 <= p < r.6.len() && (is_kind(#[trigger] r.6[p], true) || is_kind(r.6[p], false)) implies p < out2.len() && r.6[p] == out2[p] by {
            if p >= out2.len() {
                assert(r.6[p].code is Attribute);
            } else {
                assert(r.6.take(out2.len() as int)[p] == out2[p]);
            }
        }
        assert(kind_disjoint(r.6, true) && kind_disjoint(r.6, false));
        assert(kind_before(r.6, true, r.1) && kind_before(r.6, false, r.3));
    }
}

/// The flattened spans of a line do not overlap: its foreground spans come one after the
/// other, and so do its background spans.
pub proof fn lemma_combined_disjoint(units: Seq<CodeUnit>, li: usize)
    requires
        units.len() < usize::MAX,
    ensures
        kind_disjoint(combined(units, li), true),
        kind_disjoint(combined(units, li), false),
{
    lemma_combine_fold_disjoint(units, li, units.len() + 1);
}

/// Two spans set the same color: both the foreground, or both the background.
pub open spec fn same_color_kind(a: StyleSpan, b: StyleSpan) -> bool {
    (a.code is Foreground && b.code is Foreground) || (a.code is Background && b.code is Background)
}

/// Color spans of one kind on one line never overlap: of two of them, the earlier in the
/// sequence ends where or before the later one starts.
pub open spec fn colors_disjoint(out: Seq<StyleSpan>) -> bool {
    forall|p: int, q: int|
        0 <= p < q < out.len() && (#[trigger] out[p]).line == (#[trigger] out[q]).line && same_color_kind(out[p], out[q])
            ==> out[p].character + out[p].length <= out[q].character
}

/// Every span of `out` is on line `li`.
pub open spec fn all_on_line(out: Seq<StyleSpan>, li: usize) -> bool {
    forall|j: int| 0 <= j < out.len() ==> (#[trigger] out[j]).line == li
}

proof fn lemma_combine_attrs_line(st: CombineState, now: Seq<Option<Attribute>>, li: usize, i: nat, n: nat)
    requires
        all_on_line(st.6, li),
    ensures
        all_on_line(combine_attrs(st, now, li, i, n).6, li),
    decreases n,
{
    if n > 0 {
        lemma_combine_attrs_line(st, now, li, i, (n - 1) as nat);
    }
}

proof fn lemma_combine_fold_line(units: Seq<CodeUnit>, li: usize, n: nat)
    ensures
        all_on_line(combine_fold(units, li, n).6, li),
    decreases n,
{
    if n > 0 {
        let i = (n - 1) as nat;
        lemma_combine_fold_line(units, li, i);
        let st = combine_fold(units, li, i);
        let (fg, fg_i, bg, bg_i, attrs, attrs_i, out) = st;
        let unit_fg = if i < units.len() { units[i as int].fg } else { None };
        let unit_bg = if i < units.len() { units[i as int].bg } else { None };
        let (out1, fg1, fg_i1) = if unit_fg != fg {
            (match fg {
                Some(c) => out.push(StyleSpan { code: Code::Foreground(c), line: li, character: fg_i as usize, length: (i - fg_i) as usize }),
                None => out,
            }, unit_fg, i)
        } else {
            (out, fg, fg_i)
        };
        let (out2, bg1, bg_i1) = if unit_bg != bg {
            (match bg {
                Some(c) => out1.push(StyleSpan { code: Code::Background(c), line: li, character: bg_i as usize, length: (i - bg_i) as usize }),
                None => out1,
            }, unit_bg, i)
        } else {
            (out1, bg, bg_i)
        };
        assert(all_on_line(out1, li));
        assert(all_on_line(out2, li));
        lemma_combine_attrs_line((fg1, fg_i1, bg1, bg_i1, attrs, attrs_i, out2), unit_attrs(units, i as int), li, i, 14);
    }
}

/// Appending the combined spans of a later line keeps the color spans apart.
proof fn lemma_colors_disjoint_append(a: Seq<StyleSpan>, units: Seq<CodeUnit>, li: usize)
    requires
        colors_disjoint(a),
        forall|j: int| 0 <= j < a.len() ==> (#[trigger] a[j]).line < li,
        units.len() < usize::MAX,
    ensures
        colors_disjoint(a + combined(units, li)),
{
    let b = combined(units, li);
    lemma_combined_disjoint(units, li);
    lemma_combine_fold_line(units, li, units.len() + 1);
    let o = a + b;
    assert forall|p: int, q: int|
        0 <= p < q < o.len() && (#[trigger] o[p]).line == (#[trigger] o[q]).line && same_color_kind(o[p], o[q]) implies o[p].character
        + o[p].length <= o[q].character by {
        if q < a.len() {
            assert(o[p] == a[p] && o[q] == a[q]);
        } else if p < a.len() {
            assert(o[p] == a[p] && o[q] == b[q - a.len()]);
        } else {
            assert(o[p] == b[p - a.len()] && o[q] == b[q - a.len()]);
            if o[p].code is Foreground {
                assert(is_kind(b[p - a.len()], true) && is_kind(b[q - a.len()], true));
            } else {
                assert(is_kind(b[p - a.len()], false) && is_kind(b[q - a.len()], false));
            }
        }
    }
}

/// Every span ends before `usize::MAX`.
pub open spec fn ends_below_max(spans: Seq<StyleSpan>) -> bool {
    forall|i: int| 0 <= i < spans.len() ==> (#[trigger] spans[i]).character + spans[i].length < usize::MAX
}

/// The flattening pass closes lines in order: the spans written so far are on lines before the
/// current one and their colors do not overlap, and the current line's styles can be indexed.
proof fn lemma_flatten_fold_disjoint(spans: Seq<StyleSpan>)
    requires
        line_sorted(spans),
        ends_below_max(spans),
    ensures
        ({
            let (units, last_line, out) = flatten_fold(spans);
            &&& colors_disjoint(out)
            &&& forall|j: int| 0 <= j < out.len() ==> (#[trigger] out[j]).line < last_line
            &&& units.len() < usize::MAX
            &&& spans.len() > 0 ==> last_line == spans.last().line
            &&& spans.len() == 0 ==> last_line == 0
        }),
    decreases spans.len(),
{
    if spans.len() > 0 {
        let prev = spans.drop_last();
        assert(line_sorted(prev)) by {
            assert forall|i: int, j: int| 0 <= i < j < prev.len() implies (#[trigger] prev[i]).line <= (#[trigger] prev[j]).line by {
                assert(prev[i] == spans[i] && prev[j] == spans[j]);
            }
        }
        assert(ends_below_max(prev)) by {
            assert forall|i: int| 0 <= i < prev.len() implies (#[trigger] prev[i]).character + prev[i].length < usize::MAX by {
                assert(prev[i] == spans[i]);
            }
        }
        lemma_flatten_fold_disjoint(prev);
        let (units, last_line, out) = flatten_fold(prev);
        let x = spans.last();
        assert(x == spans[spans.len() - 1]);
        if x.line > last_line {
            lemma_colors_disjoint_append(out, units, last_line);
            lemma_combine_fold_line(units, last_line, units.len() + 1);
            let o = out + combined(units, last_line);
            assert forall|j: int| 0 <= j < o.len() implies (#[trigger] o[j]).line < x.line by {
                if j < out.len() {
                    assert(o[j] == out[j]);
                } else {
                    assert(o[j] == combined(units, last_line)[j - out.len()]);
                }
            }
        } else {
            if prev.len() > 0 {
                assert(prev.last() == spans[spans.len() - 2]);
                assert(spans[spans.len() - 2].line <= x.line);
            }
        }
    }
}

/// The flattened spans of sorted spans do not overlap where they set the same color: on each
/// line, the foreground spans come one after the other, and so do the background spans.
proof fn lemma_flattened_colors_disjoint(spans: Seq<StyleSpan>)
    requires
        line_sorted(spans),
        ends_below_max(spans),
    ensures
        colors_disjoint(flattened(spans)),
{
    lemma_flatten_fold_disjoint(spans);
    let (units, last_line, out) = flatten_fold(spans);
    if units.len() > 0 {
        lemma_colors_disjoint_append(out, units, last_line);
    }
}

/// The color of kind `fg` of grapheme `i` of a line's styles, none beyond the line.
pub open spec fn unit_color(units: Seq<CodeUnit>, i: int, fg: bool) -> Option<Color> {
    if 0 <= i < units.len() {
        if fg { units[i].fg } else { units[i].bg }
    } else {
        None
    }
}

/// The color a color span sets.
pub open spec fn span_color(x: StyleSpan) -> Color {
    match x.code {
        Code::Foreground(c) => c,
        Code::Background(c) => c,
        Code::Attribute(_) => Color::Reset,
    }
}

/// The span covers grapheme `i` of its line.
pub open spec fn covers(x: StyleSpan, i: int) -> bool {
    x.character <= i < x.character + x.length
}

/// Every span of kind `fg` in `out` covers graphemes of that color only.
pub open spec fn spans_match(units: Seq<CodeUnit>, out: Seq<StyleSpan>, fg: bool) -> bool {
    forall|j: int, k: int|
        0 <= j < out.len() && is_kind(out[j], fg) && #[trigger] covers(out[j], k) ==> unit_color(units, k, fg) == Some(
            span_color(out[j]),
        )
}

/// Every grapheme before `upto` with a color of kind `fg` is covered by a span of that kind.
pub open spec fn covered_before(units: Seq<CodeUnit>, out: Seq<StyleSpan>, fg: bool, upto: int) -> bool {
    forall|k: int|
        0 <= k < upto && (#[trigger] unit_color(units, k, fg)) is Some ==> exists|j: int|
            0 <= j < out.len() && is_kind(out[j], fg) && #[trigger] covers(out[j], k)
}

/// The graphemes `cur_i..n` all have the color `cur` of kind `fg`.
pub open spec fn run_same(units: Seq<CodeUnit>, cur: Option<Color>, cur_i: nat, n: nat, fg: bool) -> bool {
    cur_i <= n && forall|k: int| cur_i <= k < n ==> #[trigger] unit_color(units, k, fg) == cur
}

/// Spans added after `out` that are of another kind keep what is said of kind `fg`.
proof fn lemma_match_extend(units: Seq<CodeUnit>, out: Seq<StyleSpan>, more: Seq<StyleSpan>, fg: bool, upto: int)
    requires
        spans_match(units, out, fg),
        covered_before(units, out, fg, upto),
        more.len() >= out.len(),
        more.take(out.len() as int) == out,
        forall|j: int| out.len() <= j < more.len() ==> !is_kind(#[trigger] more[j], fg),
    ensures
        spans_match(units, more, fg),
        covered_before(units, more, fg, upto),
{
    assert forall|j: int, k: int| 0 <= j < more.len() && is_kind(more[j], fg) && #[trigger] covers(more[j], k) implies unit_color(
        units,
        k,
        fg,
    ) == Some(span_color(more[j])) by {
        assert(more.take(out.len() as int)[j] == more[j]);
        assert(covers(out[j], k));
    }
    assert forall|k: int| 0 <= k < upto && (#[trigger] unit_color(units, k, fg)) is Some implies exists|j: int|
        0 <= j < more.len() && is_kind(more[j], fg) && #[trigger] covers(more[j], k) by {
        let j = choose|j: int| 0 <= j < out.len() && is_kind(out[j], fg) && #[trigger] covers(out[j], k);
        assert(more.take(out.len() as int)[j] == more[j]);
        assert(covers(more[j], k));
    }
}

/// One index of the pass for the color of kind `fg`: the run goes on, or ends with a span of
/// its color and a new run starts.
proof fn lemma_color_step(units: Seq<CodeUnit>, li: usize, out: Seq<StyleSpan>, cur: Option<Color>, cur_i: nat, i: nat, fg: bool)
    requires
        spans_match(units, out, fg),
        covered_before(units, out, fg, cur_i as int),
        run_same(units, cur, cur_i, i, fg),
        i < usize::MAX,
    ensures
        ({
            let uc = unit_color(units, i as int, fg);
            let (out1, cur1, cur_i1) = if uc != cur {
                (match cur {
                    Some(c) => out.push(StyleSpan {
                        code: if fg { Code::Foreground(c) } else { Code::Background(c) },
                        line: li,
                        character: cur_i as usize,
                        length: (i - cur_i) as usize,
                    }),
                    None => out,
                }, uc, i)
            } else {
                (out, cur, cur_i)
            };
            &&& spans_match(units, out1, fg)
            &&& covered_before(units, out1, fg, cur_i1 as int)
            &&& run_same(units, cur1, cur_i1, i + 1, fg)
            &&& out1.len() >= out.len()
            &&& out1.take(out.len() as int) == out
            &&& forall|j: int| out.len() <= j < out1.len() ==> is_kind(#[trigger] out1[j], fg)
        }),
{
    let uc = unit_color(units, i as int, fg);
    if uc != cur {
        if cur is Some {
            let c = cur->0;
            let x = StyleSpan {
                code: if fg { Code::Foreground(c) } else { Code::Background(c) },
                line: li,
                character: cur_i as usize,
                length: (i - cur_i) as usize,
            };
            let o = out.push(x);
            assert(o.take(out.len() as int) =~= out);
            assert forall|j: int, k: int| 0 <= j < o.len() && is_kind(o[j], fg) && #[trigger] covers(o[j], k) implies unit_color(
                units,
                k,
                fg,
            ) == Some(span_color(o[j])) by {
                if j < out.len() {
                    assert(o[j] == out[j]);
                    assert(covers(out[j], k));
                } else {
                    assert(o[j] == x);
                }
            }
            assert forall|k: int| 0 <= k < i && (#[trigger] unit_color(units, k, fg)) is Some implies exists|j: int|
                0 <= j < o.len() && is_kind(o[j], fg) && #[trigger] covers(o[j], k) by {
                if k < cur_i {
                    let j = choose|j: int| 0 <= j < out.len() && is_kind(out[j], fg) && #[trigger] covers(out[j], k);
                    assert(o[j] == out[j]);
                    assert(covers(o[j], k));
                } else {
                    assert(o[out.len() as int] == x);
                    assert(covers(o[out.len() as int], k));
                }
            }
        } else {
            assert(out.take(out.len() as int) =~= out);
            assert forall|k: int| 0 <= k < i && (#[trigger] unit_color(units, k, fg)) is Some implies exists|j: int|
                0 <= j < out.len() && is_kind(out[j], fg) && #[trigger] covers(out[j], k) by {
                if k >= cur_i {
                    assert(unit_color(units, k, fg) == cur);
                }
            }
        }
    } else {
        assert(out.take(out.len() as int) =~= out);
    }
}

/// The combining pass keeps, for each color, spans that match the line's styles and cover all
/// of its colored graphemes before the current run, which has one color.
proof fn lemma_combine_fold_match(units: Seq<CodeUnit>, li: usize, n: nat)
    requires
        n <= units.len() + 1,
        units.len() < usize::MAX,
    ensures
        ({
            let st = combine_fold(units, li, n);
            &&& spans_match(units, st.6, true)
            &&& spans_match(units, st.6, false)
            &&& covered_before(units, st.6, true, st.1 as int)
            &&& covered_before(units, st.6, false, st.3 as int)
            &&& run_same(units, st.0, st.1, n, true)
            &&& run_same(units, st.2, st.3, n, false)
        }),
    decreases n,
{
    if n > 0 {
        let i = (n - 1) as nat;
        lemma_combine_fold_match(units, li, i);
        let st = combine_fold(units, li, i);
        let (fg, fg_i, bg, bg_i, attrs, attrs_i, out) = st;
        assert(unit_color(units, i as int, true) == (if i < units.len() { units[i as int].fg } else { None }));
        assert(unit_color(units, i as int, false) == (if i < units.len() { units[i as int].bg } else { None }));
        lemma_color_step(units, li, out, fg, fg_i, i, true);
        let unit_fg = unit_color(units, i as int, true);
        let unit_bg = unit_color(units, i as int, false);
        let (out1, fg1, fg_i1) = if unit_fg != fg {
            (match fg {
                Some(c) => out.push(StyleSpan { code: Code::Foreground(c), line: li, character: fg_i as usize, length: (i - fg_i) as usize }),
                None => out,
            }, unit_fg, i)
        } else {
            (out, fg, fg_i)
        };
        lemma_match_extend(units, out, out1, false, bg_i as int);
        assert(run_same(units, bg, bg_i, i, false));
        lemma_color_step(units, li, out1, bg, bg_i, i, false);
        let (out2, bg1, bg_i1) = if unit_bg != bg {
            (match bg {
                Some(c) => out1.push(StyleSpan { code: Code::Background(c), line: li, character: bg_i as usize, length: (i - bg_i) as usize }),
                None => out1,
            }, unit_bg, i)
        } else {
            (out1, bg, bg_i)
        };
        lemma_match_extend(units, out1, out2, true, fg_i1 as int);
        let st2 = (fg1, fg_i1, bg1, bg_i1, attrs, attrs_i, out2);
        lemma_combine_attrs_only_attrs(st2, unit_attrs(units, i as int), li, i, 14);
        let r = combine_attrs(st2, unit_attrs(units, i as int), li, i, 14);
        assert(r == combine_fold(units, li, n));
        lemma_match_extend(units, out2, r.6, true, fg_i1 as int);
        lemma_match_extend(units, out2, r.6, false, bg_i1 as int);
    }
}

/// The combined spans of a line say its colors exactly: a span of a color kind covers only
/// graphemes of its color, and every grapheme with a color of that kind is covered by one.
pub proof fn lemma_combined_colors(units: Seq<CodeUnit>, li: usize, fg: bool)
    requires
        units.len() < usize::MAX,
    ensures
        spans_match(units, combined(units, li), fg),
        covered_before(units, combined(units, li), fg, units.len() as int),
{
    let n = units.len() + 1;
    lemma_combine_fold_match(units, li, n);
    let st = combine_fold(units, li, n);
    assert forall|k: int| 0 <= k < units.len() && (#[trigger] unit_color(units, k, fg)) is Some implies exists|j: int|
        0 <= j < st.6.len() && is_kind(st.6[j], fg) && #[trigger] covers(st.6[j], k) by {
        if fg {
            if k >= st.1 {
                assert(unit_color(units, k, true) == st.0);
                assert(unit_color(units, units.len() as int, true) == st.0);
            }
        } else {
            if k >= st.3 {
                assert(unit_color(units, k, false) == st.2);
                assert(unit_color(units, units.len() as int, false) == st.2);
            }
        }
    }
}

/// The color of kind `fg` that the last of `spans` covering grapheme `i` of line `li` sets, if
/// any span covers it.
pub open spec fn last_color(spans: Seq<StyleSpan>, li: usize, i: int, fg: bool) -> Option<Color>
    decreases spans.len(),
{
    if spans.len() == 0 {
        None
    } else {
        let x = spans.last();
        if x.line == li && is_kind(x, fg) && covers(x, i) {
            Some(span_color(x))
        } else {
            last_color(spans.drop_last(), li, i, fg)
        }
    }
}

/// No span is on a line after `last`.
proof fn lemma_last_color_after(spans: Seq<StyleSpan>, li: usize, i: int, fg: bool)
    requires
        forall|j: int| 0 <= j < spans.len() ==> (#[trigger] spans[j]).line < li,
    ensures
        last_color(spans, li, i, fg) is None,
    decreases spans.len(),
{
    if spans.len() > 0 {
        let prev = spans.drop_last();
        assert forall|j: int| 0 <= j < prev.len() implies (#[trigger] prev[j]).line < li by {
            assert(prev[j] == spans[j]);
        }
        assert(spans.last() == spans[spans.len() - 1]);
        lemma_last_color_after(prev, li, i, fg);
    }
}

/// The spans written by the flattening pass set, where they cover, the color of the last input
/// span covering there, and cover every grapheme of an earlier line that an input span covers.
pub open spec fn closed_lines_win(spans: Seq<StyleSpan>, out: Seq<StyleSpan>, last: usize, fg: bool) -> bool {
    &&& forall|j: int, k: int|
        0 <= j < out.len() && is_kind(out[j], fg) && #[trigger] covers(out[j], k) ==> last_color(spans, out[j].line, k, fg)
            == Some(span_color(out[j]))
    &&& forall|l: usize, k: int|
        l < last && (#[trigger] last_color(spans, l, k, fg)) is Some ==> exists|j: int|
            0 <= j < out.len() && out[j].line == l && is_kind(out[j], fg) && #[trigger] covers(out[j], k)
}

/// The flattening pass: the current line's styles give each grapheme the color of the last
/// span covering it, and the lines closed before it are written as `closed_lines_win` says.
proof fn lemma_flatten_fold_wins(spans: Seq<StyleSpan>, fg: bool)
    requires
        line_sorted(spans),
        ends_below_max(spans),
    ensures
        ({
            let (units, last_line, out) = flatten_fold(spans);
            &&& forall|i: int| #[trigger] unit_color(units, i, fg) == last_color(spans, last_line, i, fg)
            &&& closed_lines_win(spans, out, last_line, fg)
            &&& forall|j: int| 0 <= j < spans.len() ==> (#[trigger] spans[j]).line <= last_line
        }),
    decreases spans.len(),
{
    lemma_flatten_fold_disjoint(spans);
    if spans.len() == 0 {
        return;
    }
    let prev = spans.drop_last();
    assert(line_sorted(prev)) by {
        assert forall|i: int, j: int| 0 <= i < j < prev.len() implies (#[trigger] prev[i]).line <= (#[trigger] prev[j]).line by {
            assert(prev[i] == spans[i] && prev[j] == spans[j]);
        }
    }
    assert(ends_below_max(prev)) by {
        assert forall|i: int| 0 <= i < prev.len() implies (#[trigger] prev[i]).character + prev[i].length < usize::MAX by {
            assert(prev[i] == spans[i]);
        }
    }
    lemma_flatten_fold_wins(prev, fg);
    lemma_flatten_fold_disjoint(prev);
    let (units, last, out) = flatten_fold(prev);
    let x = spans.last();
    assert(x == spans[spans.len() - 1]);
    assert forall|j: int| 0 <= j < prev.len() implies (#[trigger] prev[j]).line <= x.line by {
        assert(prev[j] == spans[j]);
        assert(spans[j].line <= spans[spans.len() - 1].line);
    }
    let (units1, last1, out1) = if x.line > last {
        (Seq::<CodeUnit>::empty(), x.line, out + combined(units, last))
    } else {
        (units, last, out)
    };
    let start = x.character as nat;
    let end = (x.character + x.length) as nat;
    let fin = set_range(units1, x.code, start, end);
    assert(flatten_fold(spans) == (fin, last1, out1));
    // colors on lines other than that of `x` are those of the spans before it
    assert forall|l: usize, k: int| l != x.line implies #[trigger] last_color(spans, l, k, fg) == last_color(prev, l, k, fg) by {}
    if x.line > last {
        let block = combined(units, last);
        lemma_combined_colors(units, last, fg);
        lemma_combine_fold_line(units, last, units.len() + 1);
        assert forall|j: int, k: int| 0 <= j < out1.len() && is_kind(out1[j], fg) && #[trigger] covers(out1[j], k) implies last_color(
            spans,
            out1[j].line,
            k,
            fg,
        ) == Some(span_color(out1[j])) by {
            if j < out.len() {
                assert(out1[j] == out[j]);
                assert(covers(out[j], k));
            } else {
                assert(out1[j] == block[j - out.len()]);
                assert(covers(block[j - out.len()], k));
                assert(unit_color(units, k, fg) == last_color(prev, last, k, fg));
            }
        }
        assert forall|l: usize, k: int| l < last1 && (#[trigger] last_color(spans, l, k, fg)) is Some implies exists|j: int|
            0 <= j < out1.len() && out1[j].line == l && is_kind(out1[j], fg) && #[trigger] covers(out1[j], k) by {
            if l < last {
                let j = choose|j: int| 0 <= j < out.len() && out[j].line == l && is_kind(out[j], fg) && #[trigger] covers(out[j], k);
                assert(out1[j] == out[j]);
            } else if l == last {
                assert(unit_color(units, k, fg) == last_color(prev, last, k, fg));
                let j = choose|j: int| 0 <= j < block.len() && is_kind(block[j], fg) && #[trigger] covers(block[j], k);
                assert(out1[out.len() + j] == block[j]);
                assert(covers(out1[out.len() + j], k));
            } else {
                assert forall|m: int| 0 <= m < prev.len() implies (#[trigger] prev[m]).line < l by {}
                lemma_last_color_after(prev, l, k, fg);
            }
        }
        assert forall|i: int| #[trigger] unit_color(fin, i, fg) == last_color(spans, last1, i, fg) by {
            assert forall|m: int| 0 <= m < prev.len() implies (#[trigger] prev[m]).line < x.line by {}
            lemma_last_color_after(prev, x.line, i, fg);
        }
    } else {
        assert(x.line == last) by {
            if prev.len() > 0 {
                assert(prev.last() == spans[spans.len() - 2]);
            }
        }
        assert forall|i: int| #[trigger] unit_color(fin, i, fg) == last_color(spans, last1, i, fg) by {
            assert(unit_color(units, i, fg) == last_color(prev, last, i, fg));
        }
    }
}

/// The flattened spans of sorted spans keep, for each color, what the last span covering a
/// grapheme says: a flattened span of that color kind covers a grapheme exactly when an input
/// span does, and then it sets the color of the last input span covering that grapheme.
pub proof fn lemma_flattened_last_wins(spans: Seq<StyleSpan>, li: usize, k: int, fg: bool)
    requires
        line_sorted(spans),
        ends_below_max(spans),
    ensures
        forall|j: int|
            0 <= j < flattened(spans).len() && flattened(spans)[j].line == li && is_kind(flattened(spans)[j], fg) && #[trigger] covers(
                flattened(spans)[j],
                k,
            ) ==> last_color(spans, li, k, fg) == Some(span_color(flattened(spans)[j])),
        last_color(spans, li, k, fg) is Some ==> exists|j: int|
            0 <= j < flattened(spans).len() && flattened(spans)[j].line == li && is_kind(flattened(spans)[j], fg)
                && #[trigger] covers(flattened(spans)[j], k),
{
    lemma_flatten_fold_wins(spans, fg);
    lemma_flatten_fold_disjoint(spans);
    let (units, last, out) = flatten_fold(spans);
    let f = flattened(spans);
    if units.len() > 0 {
        let block = combined(units, last);
        lemma_combined_colors(units, last, fg);
        lemma_combine_fold_line(units, last, units.len() + 1);
        assert forall|j: int| 0 <= j < f.len() && f[j].line == li && is_kind(f[j], fg) && #[trigger] covers(f[j], k) implies last_color(
            spans,
            li,
            k,
            fg,
        ) == Some(span_color(f[j])) by {
            if j < out.len() {
                assert(f[j] == out[j]);
                assert(covers(out[j], k));
            } else {
                assert(f[j] == block[j - out.len()]);
                assert(covers(block[j - out.len()], k));
                assert(unit_color(units, k, fg) == last_color(spans, last, k, fg));
            }
        }
        if last_color(spans, li, k, fg) is Some {
            if li < last {
                let j = choose|j: int| 0 <= j < out.len() && out[j].line == li && is_kind(out[j], fg) && #[trigger] covers(out[j], k);
                assert(f[j] == out[j]);
            } else if li == last {
                assert(unit_color(units, k, fg) == last_color(spans, last, k, fg));
                let j = choose|j: int| 0 <= j < block.len() && is_kind(block[j], fg) && #[trigger] covers(block[j], k);
                assert(f[out.len() + j] == block[j]);
                assert(covers(f[out.len() + j], k));
            } else {
                lemma_last_color_after(spans, li, k, fg);
            }
        }
    } else {
        assert(f == out);
        assert forall|j: int| 0 <= j < f.len() && f[j].line == li && is_kind(f[j], fg) && #[trigger] covers(f[j], k) implies last_color(
            spans,
            li,
            k,
            fg,
        ) == Some(span_color(f[j])) by {
            assert(covers(out[j], k));
        }
        if last_color(spans, li, k, fg) is Some {
            if li < last {
            } else if li == last {
                assert(unit_color(units, k, fg) == last_color(spans, last, k, fg));
            } else {
                lemma_last_color_after(spans, li, k, fg);
            }
        }
    }
}

/// The span sets attribute `a`.
pub open spec fn is_attr(x: StyleSpan, a: Attribute) -> bool {
    x.code == Code::Attribute(a)
}

/// The spans setting attribute `a` come one after the other without overlapping.
pub open spec fn attr_disjoint(out: Seq<StyleSpan>, a: Attribute) -> bool {
    forall|p: int, q: int|
        0 <= p < q < out.len() && is_attr(#[trigger] out[p], a) && is_attr(#[trigger] out[q], a) ==> out[p].character
            + out[p].length <= out[q].character
}

/// The spans setting attribute `a` end at or before `start`.
pub open spec fn attr_before(out: Seq<StyleSpan>, a: Attribute, start: nat) -> bool {
    forall|p: int| 0 <= p < out.len() && is_attr(#[trigger] out[p], a) ==> out[p].character + out[p].length <= start
}

/// What the combining pass keeps of the attributes before index `i`: each bit holds no
/// attribute or its own, a bit that is on started at or before `i`, the spans of each listed
/// attribute are apart and end by the start of its current run and by `i`, and every attribute
/// span sets a listed attribute.
pub open spec fn attrs_state_ok(attrs: Seq<Option<Attribute>>, attrs_i: Seq<nat>, out: Seq<StyleSpan>, i: nat) -> bool {
    &&& attrs.len() == 14
    &&& attrs_i.len() == 14
    &&& forall|k: int| 0 <= k < 14 ==> (#[trigger] attrs[k]) is None || attrs[k] == Some(attrs_table()[k])
    &&& forall|k: int| 0 <= k < 14 && (#[trigger] attrs[k]) is Some ==> attrs_i[k] <= i
    &&& forall|k: int|
        0 <= k < 14 ==> attr_disjoint(out, #[trigger] attrs_table()[k]) && attr_before(out, attrs_table()[k], attrs_i[k])
            && attr_before(out, attrs_table()[k], i)
    &&& forall|p: int|
        0 <= p < out.len() && (#[trigger] out[p]).code is Attribute ==> exists|k: int|
            0 <= k < 14 && out[p].code == Code::Attribute(#[trigger] attrs_table()[k])
}

/// The listed attributes are distinct.
proof fn lemma_attrs_table_distinct()
    ensures
        forall|k: int, m: int| 0 <= k < 14 && 0 <= m < 14 && #[trigger] attrs_table()[k] == #[trigger] attrs_table()[m] ==> k == m,
{
    let tb = attrs_table();
    assert(tb.len() == 14);
    assert forall|k: int, m: int| 0 <= k < 14 && 0 <= m < 14 && #[trigger] tb[k] == #[trigger] tb[m] implies k == m by {
        assert(tb[0] == Attribute::Bold && tb[1] == Attribute::Dim && tb[2] == Attribute::Italic);
        assert(tb[3] == Attribute::Underlined && tb[4] == Attribute::DoubleUnderlined && tb[5] == Attribute::Undercurled);
        assert(tb[6] == Attribute::Underdotted && tb[7] == Attribute::Underdashed && tb[8] == Attribute::SlowBlink);
        assert(tb[9] == Attribute::RapidBlink && tb[10] == Attribute::Reverse && tb[11] == Attribute::Hidden);
        assert(tb[12] == Attribute::CrossedOut && tb[13] == Attribute::OverLined);
    }
}

/// Spans that are no attribute spans, ending by `i`, keep what is said of the attributes.
proof fn lemma_attrs_extend(attrs: Seq<Option<Attribute>>, attrs_i: Seq<nat>, out: Seq<StyleSpan>, more: Seq<StyleSpan>, i: nat)
    requires
        attrs_state_ok(attrs, attrs_i, out, i),
        more.len() >= out.len(),
        more.take(out.len() as int) == out,
        forall|j: int| out.len() <= j < more.len() ==> !((#[trigger] more[j]).code is Attribute),
    ensures
        attrs_state_ok(attrs, attrs_i, more, i),
{
    assert forall|k: int| 0 <= k < 14 implies attr_disjoint(more, #[trigger] attrs_table()[k]) && attr_before(
        more,
        attrs_table()[k],
        attrs_i[k],
    ) && attr_before(more, attrs_table()[k], i) by {
        let a = attrs_table()[k];
        assert(attr_disjoint(out, a) && attr_before(out, a, attrs_i[k]) && attr_before(out, a, i));
        assert forall|p: int, q: int| 0 <= p < q < more.len() && is_attr(#[trigger] more[p], a) && is_attr(#[trigger] more[q], a) implies more[p].character
            + more[p].length <= more[q].character by {
            assert(more.take(out.len() as int)[p] == more[p]);
            assert(more.take(out.len() as int)[q] == more[q]);
        }
        assert forall|p: int| 0 <= p < more.len() && is_attr(#[trigger] more[p], a) implies more[p].character + more[p].length <= attrs_i[k]
            && more[p].character + more[p].length <= i by {
            assert(more.take(out.len() as int)[p] == more[p]);
        }
    }
    assert forall|p: int| 0 <= p < more.len() && (#[trigger] more[p]).code is Attribute implies exists|k: int|
        0 <= k < 14 && more[p].code == Code::Attribute(#[trigger] attrs_table()[k]) by {
        assert(more.take(out.len() as int)[p] == more[p]);
        assert(out[p].code is Attribute);
    }
}

/// The attribute bits `0..n` at index `i` keep what is said of the attributes.
proof fn lemma_combine_attrs_ok(st: CombineState, now: Seq<Option<Attribute>>, li: usize, i: nat, n: nat)
    requires
        attrs_state_ok(st.4, st.5, st.6, i),
        now.len() == 14,
        forall|k: int| 0 <= k < 14 ==> (#[trigger] now[k]) is None || now[k] == Some(attrs_table()[k]),
        n <= 14,
        i < usize::MAX,
    ensures
        ({
            let r = combine_attrs(st, now, li, i, n);
            &&& attrs_state_ok(r.4, r.5, r.6, i)
            &&& r.0 == st.0 && r.1 == st.1 && r.2 == st.2 && r.3 == st.3
        }),
    decreases n,
{
    if n > 0 {
        lemma_combine_attrs_ok(st, now, li, i, (n - 1) as nat);
        let prev = combine_attrs(st, now, li, i, (n - 1) as nat);
        let (fg, fg_i, bg, bg_i, attrs, attrs_i, out) = prev;
        let k = (n - 1) as int;
        if now[k] != attrs[k] {
            lemma_attrs_table_distinct();
            let out2 = match attrs[k] {
                Some(a) => out.push(StyleSpan { code: Code::Attribute(a), line: li, character: attrs_i[k] as usize, length: (i - attrs_i[k]) as usize }),
                None => out,
            };
            let attrs2 = attrs.update(k, now[k]);
            let attrs_i2 = attrs_i.update(k, i);
            assert forall|m: int| 0 <= m < 14 implies attr_disjoint(out2, #[trigger] attrs_table()[m]) && attr_before(
                out2,
                attrs_table()[m],
                attrs_i2[m],
            ) && attr_before(out2, attrs_table()[m], i) by {
                let a = attrs_table()[m];
                assert(attr_disjoint(out, a) && attr_before(out, a, attrs_i[m]) && attr_before(out, a, i));
                if attrs[k] is Some {
                    let x = out2[out.len() as int];
                    assert(out2 == out.push(x));
                    assert(x.code == Code::Attribute(attrs_table()[k]));
                    assert forall|p: int, q: int| 0 <= p < q < out2.len() && is_attr(#[trigger] out2[p], a) && is_attr(#[trigger] out2[q], a) implies out2[p].character
                        + out2[p].length <= out2[q].character by {
                        if q < out.len() {
                            assert(out2[p] == out[p] && out2[q] == out[q]);
                        } else {
                            assert(out2[p] == out[p]);
                            assert(attrs_table()[k] == a);
                        }
                    }
                    assert forall|p: int| 0 <= p < out2.len() && is_attr(#[trigger] out2[p], a) implies out2[p].character + out2[p].length
                        <= attrs_i2[m] && out2[p].character + out2[p].length <= i by {
                        if p < out.len() {
                            assert(out2[p] == out[p]);
                        } else {
                            assert(attrs_table()[k] == a);
                        }
                    }
                } else {
                    assert(out2 == out);
                }
            }
            assert forall|p: int| 0 <= p < out2.len() && (#[trigger] out2[p]).code is Attribute implies exists|m: int|
                0 <= m < 14 && out2[p].code == Code::Attribute(#[trigger] attrs_table()[m]) by {
                if p < out.len() {
                    assert(out2[p] == out[p]);
                } else {
                    assert(out2[p].code == Code::Attribute(attrs_table()[k]));
                }
            }
            assert(attrs_state_ok(attrs2, attrs_i2, out2, i));
        }
    }
}

/// The combining pass keeps what is said of the attributes up to index `n`.
proof fn lemma_combine_fold_attrs(units: Seq<CodeUnit>, li: usize, n: nat)
    requires
        n <= units.len() + 1,
        units.len() < usize::MAX,
    ensures
        ({
            let st = combine_fold(units, li, n);
            attrs_state_ok(st.4, st.5, st.6, n)
        }),
    decreases n,
{
    if n == 0 {
        let st = combine_fold(units, li, 0);
        assert(attrs_state_ok(st.4, st.5, st.6, 0));
    } else {
        let i = (n - 1) as nat;
        lemma_combine_fold_attrs(units, li, i);
        let st = combine_fold(units, li, i);
        let (fg, fg_i, bg, bg_i, attrs, attrs_i, out) = st;
        let unit_fg = if i < units.len() { units[i as int].fg } else { None };
        let unit_bg = if i < units.len() { units[i as int].bg } else { None };
        let (out1, fg1, fg_i1) = if unit_fg != fg {
            (match fg {
                Some(c) => out.push(StyleSpan { code: Code::Foreground(c), line: li, character: fg_i as usize, length: (i - fg_i) as usize }),
                None => out,
            }, unit_fg, i)
        } else {
            (out, fg, fg_i)
        };
        let (out2, bg1, bg_i1) = if unit_bg != bg {
            (match bg {
                Some(c) => out1.push(StyleSpan { code: Code::Background(c), line: li, character: bg_i as usize, length: (i - bg_i) as usize }),
                None => out1,
            }, unit_bg, i)
        } else {
            (out1, bg, bg_i)
        };
        assert(out2.take(out.len() as int) =~= out);
        assert forall|j: int| out.len() <= j < out2.len() implies !((#[trigger] out2[j]).code is Attribute) by {}
        lemma_attrs_extend(attrs, attrs_i, out, out2, i);
        let now = unit_attrs(units, i as int);
        assert forall|k: int| 0 <= k < 14 implies (#[trigger] now[k]) is None || now[k] == Some(attrs_table()[k]) by {}
        let st2 = (fg1, fg_i1, bg1, bg_i1, attrs, attrs_i, out2);
        lemma_combine_attrs_ok(st2, now, li, i, 14);
        let r = combine_attrs(st2, now, li, i, 14);
        assert(r == combine_fold(units, li, n));
        assert forall|k: int| 0 <= k < 14 implies attr_before(r.6, #[trigger] attrs_table()[k], n) by {
            assert(attr_before(r.6, attrs_table()[k], i));
        }
    }
}

/// Attribute spans of one attribute on one line never overlap: of two of them, the earlier in
/// the sequence ends where or before the later one starts.
pub open spec fn attrs_apart(out: Seq<StyleSpan>) -> bool {
    forall|p: int, q: int|
        0 <= p < q < out.len() && (#[trigger] out[p]).line == (#[trigger] out[q]).line && out[p].code is Attribute
            && out[q].code == out[p].code ==> out[p].character + out[p].length <= out[q].character
}

/// Appending the combined spans of a later line keeps the attribute spans apart.
proof fn lemma_attrs_apart_append(a: Seq<StyleSpan>, units: Seq<CodeUnit>, li: usize)
    requires
        attrs_apart(a),
        forall|j: int| 0 <= j < a.len() ==> (#[trigger] a[j]).line < li,
        units.len() < usize::MAX,
    ensures
        attrs_apart(a + combined(units, li)),
{
    let b = combined(units, li);
    lemma_combine_fold_attrs(units, li, units.len() + 1);
    lemma_combine_fold_line(units, li, units.len() + 1);
    let o = a + b;
    assert forall|p: int, q: int|
        0 <= p < q < o.len() && (#[trigger] o[p]).line == (#[trigger] o[q]).line && o[p].code is Attribute && o[q].code
            == o[p].code implies o[p].character + o[p].length <= o[q].character by {
        if q < a.len() {
            assert(o[p] == a[p] && o[q] == a[q]);
        } else if p < a.len() {
            assert(o[p] == a[p] && o[q] == b[q - a.len()]);
        } else {
            let bp = p - a.len();
            let bq = q - a.len();
            assert(o[p] == b[bp] && o[q] == b[bq]);
            let k = choose|k: int| 0 <= k < 14 && b[bp].code == Code::Attribute(#[trigger] attrs_table()[k]);
            assert(attr_disjoint(b, attrs_table()[k]));
            assert(is_attr(b[bp], attrs_table()[k]) && is_attr(b[bq], attrs_table()[k]));
        }
    }
}

/// The flattened spans of sorted spans do not overlap where they set the same thing: on each
/// line, the foreground spans come one after the other, so do the background spans, and so do
/// the spans of each attribute.
pub proof fn lemma_flattened_disjoint(spans: Seq<StyleSpan>)
    requires
        line_sorted(spans),
        ends_below_max(spans),
    ensures
        colors_disjoint(flattened(spans)),
        attrs_apart(flattened(spans)),
{
    lemma_flattened_colors_disjoint(spans);
    lemma_flatten_fold_attrs_apart(spans);
    lemma_flatten_fold_disjoint(spans);
    let (units, last_line, out) = flatten_fold(spans);
    if units.len() > 0 {
        lemma_attrs_apart_append(out, units, last_line);
    }
}

/// The spans written by the flattening pass keep the attribute spans apart.
proof fn lemma_flatten_fold_attrs_apart(spans: Seq<StyleSpan>)
    requires
        line_sorted(spans),
        ends_below_max(spans),
    ensures
        attrs_apart(flatten_fold(spans).2),
    decreases spans.len(),
{
    if spans.len() > 0 {
        let prev = spans.drop_last();
        assert(line_sorted(prev)) by {
            assert forall|i: int, j: int| 0 <= i < j < prev.len() implies (#[trigger] prev[i]).line <= (#[trigger] prev[j]).line by {
                assert(prev[i] == spans[i] && prev[j] == spans[j]);
            }
        }
        assert(ends_below_max(prev)) by {
            assert forall|i: int| 0 <= i < prev.len() implies (#[trigger] prev[i]).character + prev[i].length < usize::MAX by {
                assert(prev[i] == spans[i]);
            }
        }
        lemma_flatten_fold_attrs_apart(prev);
        lemma_flatten_fold_disjoint(prev);
        let (units, last_line, out) = flatten_fold(prev);
        if spans.last().line > last_line {
            lemma_attrs_apart_append(out, units, last_line);
        }
    }
}

} // verus!
