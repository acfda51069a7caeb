//! Texts as sequences of characters: splitting into lines, measuring, padding,
//! joining, trimming and substituting. Every contract is stated over `Seq<char>`,
//! the view of `str` and `String`.

use vstd::prelude::*;

verus! {

/// `String::push` appends the character to the end of the string and changes
/// nothing else.
pub assume_specification[ String::push ](s: &mut String, c: char)
    ensures
        final(s)@ == old(s)@.push(c),
;

/// The number of terminal columns that a text occupies, as
/// `unicode_width::UnicodeWidthStr::width` computes it from the Unicode tables
/// (wide East-Asian characters count twice, combining marks not at all).
pub uninterp spec fn display_width(s: Seq<char>) -> usize;

/// Whether a character has the Unicode property `White_Space`, as
/// `char::is_whitespace` reports it.
pub uninterp spec fn is_white_space(c: char) -> bool;

/// Calls `unicode_width::UnicodeWidthStr::width` on the text. The width is a
/// function of the characters alone: it is read from tables compiled into the
/// crate, and the sum wraps instead of overflowing.
#[verifier::external_body]
pub(crate) fn str_width(s: &str) -> (w: usize)
    ensures
        w == display_width(s@),
{
    unicode_width::UnicodeWidthStr::width(s)
}

/// Calls `char::is_whitespace`, which tells whether the character has the
/// Unicode property `White_Space`.
#[verifier::external_body]
fn char_is_whitespace(c: char) -> (b: bool)
    ensures
        b == is_white_space(c),
{
    c.is_whitespace()
}

/// `n` spaces.
pub open spec fn spaces(n: nat) -> Seq<char> {
    Seq::new(n, |i: int| ' ')
}

/// The text `s` written `n` times in a row.
pub open spec fn repeated(s: Seq<char>, n: nat) -> Seq<char>
    decreases n,
{
    if n == 0 {
        Seq::empty()
    } else {
        repeated(s, (n - 1) as nat) + s
    }
}

/// The items written one after the other with `sep` between each two neighbours.
pub open spec fn joined(items: Seq<Seq<char>>, sep: Seq<char>) -> Seq<char>
    decreases items.len(),
{
    if items.len() == 0 {
        Seq::empty()
    } else if items.len() == 1 {
        items[0]
    } else {
        joined(items.drop_last(), sep) + sep + items.last()
    }
}

/// The lines of a text: the pieces between its line breaks. A text without a
/// line break is its own single line, and a text that ends in a line break has
/// an empty last line.
pub open spec fn lines(s: Seq<char>) -> Seq<Seq<char>>
    decreases s.len(),
{
    if s.len() == 0 {
        seq![Seq::<char>::empty()]
    } else {
        let before = lines(s.drop_last());
        if s.last() == '\n' {
            before.push(Seq::<char>::empty())
        } else {
            before.drop_last().push(before.last().push(s.last()))
        }
    }
}

/// The number of line breaks in a text.
pub open spec fn line_breaks(s: Seq<char>) -> nat
    decreases s.len(),
{
    if s.len() == 0 {
        0
    } else if s.last() == '\n' {
        line_breaks(s.drop_last()) + 1
    } else {
        line_breaks(s.drop_last())
    }
}

/// The numbers as natural numbers.
pub open spec fn naturals(ws: Seq<usize>) -> Seq<nat> {
    Seq::new(ws.len(), |i: int| ws[i] as nat)
}

/// The display width of each of the given lines.
pub open spec fn widths_of(ls: Seq<Seq<char>>) -> Seq<nat> {
    Seq::new(ls.len(), |i: int| display_width(ls[i]) as nat)
}

/// The largest of the given numbers, 0 where there is none.
pub open spec fn largest(ws: Seq<nat>) -> nat
    decreases ws.len(),
{
    if ws.len() == 0 {
        0
    } else {
        let w = largest(ws.drop_last());
        if ws.last() > w {
            ws.last()
        } else {
            w
        }
    }
}

/// The largest display width among the given lines, 0 where there is none.
pub open spec fn widest(ls: Seq<Seq<char>>) -> nat {
    largest(widths_of(ls))
}

/// For each character of the text, whether it is white space.
pub open spec fn white_flags(s: Seq<char>) -> Seq<bool> {
    Seq::new(s.len(), |i: int| is_white_space(s[i]))
}

/// The number of flags that stand before the run of set flags at the end.
pub open spec fn without_trailing(flags: Seq<bool>) -> nat
    decreases flags.len(),
{
    if flags.len() > 0 && flags.last() {
        without_trailing(flags.drop_last())
    } else {
        flags.len()
    }
}

/// The length of `s` without its trailing white space.
pub open spec fn trimmed_len(s: Seq<char>) -> nat {
    without_trailing(white_flags(s))
}

/// `s` without its trailing white space.
pub open spec fn trim_end(s: Seq<char>) -> Seq<char> {
    s.take(trimmed_len(s) as int)
}

/// Whether `needle` stands in `hay` at position `i`.
pub open spec fn occurs_at(hay: Seq<char>, needle: Seq<char>, i: int) -> bool {
    0 <= i && i + needle.len() <= hay.len() && hay.subrange(i, i + needle.len()) == needle
}

/// The first position at or after `from` at which `needle` stands in `hay`.
pub open spec fn first_occurrence_from(hay: Seq<char>, needle: Seq<char>, from: int) -> Option<int>
    decreases hay.len() - from + 1,
{
    if from < 0 || from + needle.len() > hay.len() {
        None
    } else if occurs_at(hay, needle, from) {
        Some(from)
    } else {
        first_occurrence_from(hay, needle, from + 1)
    }
}

/// The first position at which `needle` stands in `hay`.
pub open spec fn first_occurrence(hay: Seq<char>, needle: Seq<char>) -> Option<int> {
    first_occurrence_from(hay, needle, 0)
}

/// `hay` with the first occurrence of `needle` replaced by `with`; `hay` itself
/// where `needle` does not occur.
pub open spec fn replace_first(hay: Seq<char>, needle: Seq<char>, with: Seq<char>) -> Seq<char> {
    match first_occurrence(hay, needle) {
        Some(i) => hay.take(i) + with + hay.skip(i + needle.len()),
        None => hay,
    }
}

/// Whether the text holds no line break.
pub open spec fn one_line(s: Seq<char>) -> bool {
    forall|i: int| 0 <= i < s.len() ==> s[i] != '\n'
}

/// Whether none of the texts holds a line break.
pub open spec fn all_one_line(items: Seq<Seq<char>>) -> bool {
    forall|i: int| 0 <= i < items.len() ==> one_line(#[trigger] items[i])
}

/// A text always has at least one line, and one more line than line breaks.
pub proof fn lemma_lines_len(s: Seq<char>)
    ensures
        lines(s).len() == line_breaks(s) + 1,
    decreases s.len(),
{
    if s.len() > 0 {
        lemma_lines_len(s.drop_last());
    }
}

/// No line of a text holds a line break.
pub proof fn lemma_lines_hold_no_break(s: Seq<char>)
    ensures
        all_one_line(lines(s)),
    decreases s.len(),
{
    if s.len() > 0 {
        lemma_lines_hold_no_break(s.drop_last());
        lemma_lines_len(s.drop_last());
    }
}

/// Joining the lines of a text with line breaks gives the text back.
pub proof fn lemma_lines_joined(s: Seq<char>)
    ensures
        joined(lines(s), seq!['\n']) == s,
    decreases s.len(),
{
    let nl = seq!['\n'];
    if s.len() == 0 {
        assert(joined(lines(s), nl) =~= s);
    } else {
        let t = s.drop_last();
        let before = lines(t);
        lemma_lines_joined(t);
        lemma_lines_len(t);
        if s.last() == '\n' {
            let after = before.push(Seq::<char>::empty());
            assert(after.drop_last() =~= before);
            assert(joined(after, nl) =~= joined(before, nl) + nl + Seq::<char>::empty());
            assert(t + nl =~= s);
        } else {
            let last = before.last().push(s.last());
            let after = before.drop_last().push(last);
            assert(after.drop_last() =~= before.drop_last());
            if before.len() == 1 {
                assert(joined(before, nl) == before[0]);
                assert(joined(after, nl) == after[0]);
                assert(after[0] =~= t.push(s.last()));
                assert(t.push(s.last()) =~= s);
            } else {
                assert(joined(before, nl) == joined(before.drop_last(), nl) + nl + before.last());
                assert(joined(after, nl) == joined(before.drop_last(), nl) + nl + last);
                assert(joined(after, nl) =~= t.push(s.last()));
                assert(t.push(s.last()) =~= s);
            }
        }
    }
}

/// A text without a line break is its own single line.
pub proof fn lemma_lines_of_one_line(s: Seq<char>)
    requires
        one_line(s),
    ensures
        lines(s) == seq![s],
    decreases s.len(),
{
    if s.len() == 0 {
        assert(s =~= Seq::<char>::empty());
    } else {
        let t = s.drop_last();
        lemma_lines_of_one_line(t);
        assert(s[s.len() - 1] != '\n');
        assert(t.push(s.last()) =~= s);
        assert(seq![t].drop_last().push(seq![t].last().push(s.last())) =~= seq![s]);
    }
}

/// What is appended without a line break lengthens the last line.
pub proof fn lemma_lines_append(a: Seq<char>, b: Seq<char>)
    requires
        one_line(b),
    ensures
        lines(a + b) == lines(a).drop_last().push(lines(a).last() + b),
    decreases b.len(),
{
    lemma_lines_len(a);
    let l = lines(a);
    if b.len() == 0 {
        assert(a + b =~= a);
        assert(l.last() + b =~= l.last());
        assert(l.drop_last().push(l.last()) =~= l);
    } else {
        let b0 = b.drop_last();
        lemma_lines_append(a, b0);
        assert((a + b).drop_last() =~= a + b0);
        assert((a + b).last() == b.last());
        let m = lines(a + b0);
        assert(m.drop_last() =~= l.drop_last());
        assert(m.last().push(b.last()) =~= l.last() + b);
    }
}

/// The lines of texts that are joined with line breaks are those texts, where
/// none of them holds a line break itself.
pub proof fn lemma_joined_lines(items: Seq<Seq<char>>)
    requires
        items.len() > 0,
        all_one_line(items),
    ensures
        lines(joined(items, seq!['\n'])) == items,
    decreases items.len(),
{
    let nl = seq!['\n'];
    if items.len() == 1 {
        lemma_lines_of_one_line(items[0]);
        assert(seq![items[0]] =~= items);
    } else {
        let init = items.drop_last();
        assert(all_one_line(init)) by {
            assert forall|i: int| 0 <= i < init.len() implies one_line(#[trigger] init[i]) by {
                assert(init[i] == items[i]);
            }
        }
        lemma_joined_lines(init);
        let j = joined(init, nl);
        assert((j + nl).drop_last() =~= j);
        assert(lines(j + nl) == init.push(Seq::<char>::empty()));
        assert(one_line(items.last()));
        lemma_lines_append(j + nl, items.last());
        assert(init.push(Seq::<char>::empty()).drop_last() =~= init);
        assert(Seq::<char>::empty() + items.last() =~= items.last());
        assert(init.push(items.last()) =~= items);
    }
}

/// Texts without a line break, joined by one without, hold no line break.
pub proof fn lemma_one_line_joined(items: Seq<Seq<char>>, sep: Seq<char>)
    requires
        all_one_line(items),
        one_line(sep),
    ensures
        one_line(joined(items, sep)),
    decreases items.len(),
{
    if items.len() > 1 {
        let init = items.drop_last();
        assert forall|i: int| 0 <= i < init.len() implies one_line(#[trigger] init[i]) by {
            assert(init[i] == items[i]);
        }
        lemma_one_line_joined(init, sep);
        assert(one_line(items.last()));
    } else if items.len() == 1 {
        assert(one_line(items[0]));
    }
}

/// A text without a line break, repeated, holds no line break.
pub proof fn lemma_one_line_repeated(s: Seq<char>, n: nat)
    requires
        one_line(s),
    ensures
        one_line(repeated(s, n)),
    decreases n,
{
    if n > 0 {
        lemma_one_line_repeated(s, (n - 1) as nat);
    }
}

/// None of the numbers is larger than the largest.
pub proof fn lemma_largest_bounds(ws: Seq<nat>, i: int)
    requires
        0 <= i < ws.len(),
    ensures
        ws[i] <= largest(ws),
    decreases ws.len(),
{
    if i < ws.len() - 1 {
        lemma_largest_bounds(ws.drop_last(), i);
    }
}

/// The largest of the numbers is one of them.
pub proof fn lemma_largest_is_reached(ws: Seq<nat>)
    requires
        ws.len() > 0,
    ensures
        exists|i: int| 0 <= i < ws.len() && ws[i] == largest(ws),
    decreases ws.len(),
{
    let before = ws.drop_last();
    if before.len() == 0 || ws.last() > largest(before) {
        assert(before.len() == 0 ==> largest(before) == 0);
        assert(ws[ws.len() - 1] == largest(ws));
    } else {
        lemma_largest_is_reached(before);
        let i = choose|i: int| 0 <= i < before.len() && before[i] == largest(before);
        assert(ws[i] == largest(ws));
    }
}

/// Every line is at most as wide as the widest one.
pub proof fn lemma_widest_bounds(ls: Seq<Seq<char>>, i: int)
    requires
        0 <= i < ls.len(),
    ensures
        display_width(ls[i]) <= widest(ls),
{
    lemma_largest_bounds(widths_of(ls), i);
}

/// The widest line is one of the lines.
pub proof fn lemma_widest_is_reached(ls: Seq<Seq<char>>)
    requires
        ls.len() > 0,
    ensures
        exists|i: int| 0 <= i < ls.len() && display_width(ls[i]) == widest(ls),
{
    lemma_largest_is_reached(widths_of(ls));
    let i = choose|i: int| 0 <= i < ls.len() && widths_of(ls)[i] == largest(widths_of(ls));
    assert(display_width(ls[i]) == widest(ls));
}

/// Before the run of set flags at the end stands a flag that is not set, or
/// none.
pub proof fn lemma_without_trailing(flags: Seq<bool>)
    ensures
        without_trailing(flags) <= flags.len(),
        without_trailing(flags) > 0 ==> !flags[without_trailing(flags) - 1],
        forall|i: int| without_trailing(flags) <= i < flags.len() ==> flags[i],
    decreases flags.len(),
{
    if flags.len() > 0 && flags.last() {
        let t = flags.drop_last();
        lemma_without_trailing(t);
        assert forall|i: int| without_trailing(flags) <= i < flags.len() implies flags[i] by {
            if i < t.len() {
                assert(flags[i] == t[i]);
            }
        }
    }
}

/// What remains after trimming does not end in white space, and what was cut
/// off is white space only.
pub proof fn lemma_trim_end(s: Seq<char>)
    ensures
        trimmed_len(s) <= s.len(),
        trimmed_len(s) > 0 ==> !is_white_space(s[trimmed_len(s) - 1]),
        forall|i: int| trimmed_len(s) <= i < s.len() ==> is_white_space(s[i]),
{
    let flags = white_flags(s);
    lemma_without_trailing(flags);
    assert forall|i: int| trimmed_len(s) <= i < s.len() implies is_white_space(s[i]) by {
        assert(flags[i]);
    }
}

/// The first occurrence is an occurrence, and none stands before it; where
/// there is no first occurrence there is none at all.
pub proof fn lemma_first_occurrence(hay: Seq<char>, needle: Seq<char>)
    ensures
        match first_occurrence(hay, needle) {
            Some(i) => occurs_at(hay, needle, i) && forall|j: int| 0 <= j < i ==> !occurs_at(hay, needle, j),
            None => forall|j: int| !occurs_at(hay, needle, j),
        },
{
    lemma_first_occurrence_from(hay, needle, 0);
}

proof fn lemma_first_occurrence_from(hay: Seq<char>, needle: Seq<char>, from: int)
    requires
        0 <= from,
    ensures
        match first_occurrence_from(hay, needle, from) {
            Some(i) => from <= i && occurs_at(hay, needle, i) && forall|j: int| from <= j < i ==> !occurs_at(hay, needle, j),
            None => forall|j: int| from <= j ==> !occurs_at(hay, needle, j),
        },
    decreases hay.len() - from + 1,
{
    if from + needle.len() > hay.len() {
    } else if occurs_at(hay, needle, from) {
    } else {
        lemma_first_occurrence_from(hay, needle, from + 1);
    }
}

/// The characters of a text.
pub fn to_chars(s: &str) -> (v: Vec<char>)
    ensures
        v@ == s@,
{
    let mut v: Vec<char> = Vec::new();
    for c in it: s.chars()
        invariant
            it.seq() == s@,
            v@ == s@.take(it.index() as int),
    {
        v.push(c);
    }
    assert(s@.take(s@.len() as int) == s@);
    v
}

/// The text made of the characters `v[from..to]`.
pub fn from_chars(v: &Vec<char>, from: usize, to: usize) -> (s: String)
    requires
        from <= to <= v.len(),
    ensures
        s@ == v@.subrange(from as int, to as int),
{
    let mut s = String::new();
    let mut i: usize = from;
    while i < to
        invariant
            from <= i <= to <= v.len(),
            s@ == v@.subrange(from as int, i as int),
        decreases to - i,
    {
        s.push(v[i]);
        i += 1;
    }
    s
}

/// Appends `n` spaces to `out`.
pub fn push_spaces(out: &mut String, n: u128)
    ensures
        final(out)@ == old(out)@ + spaces(n as nat),
{
    let mut k: u128 = 0;
    while k < n
        invariant
            k <= n,
            out@ == old(out)@ + spaces(k as nat),
        decreases n - k,
    {
        out.push(' ');
        k += 1;
    }
}

/// Appends `s`, written `n` times, to `out`.
pub fn push_repeated(out: &mut String, s: &str, n: u128)
    ensures
        final(out)@ == old(out)@ + repeated(s@, n as nat),
{
    let mut k: u128 = 0;
    while k < n
        invariant
            k <= n,
            out@ == old(out)@ + repeated(s@, k as nat),
        decreases n - k,
    {
        out.append(s);
        k += 1;
    }
}

/// Joins the items with `sep` between each two neighbours.
pub fn join(items: &Vec<String>, sep: &str) -> (out: String)
    ensures
        out@ == joined(items.deep_view(), sep@),
{
    let mut out = String::new();
    let mut i: usize = 0;
    while i < items.len()
        invariant
            i <= items.len(),
            out@ == joined(items.deep_view().take(i as int), sep@),
        decreases items.len() - i,
    {
        if i > 0 {
            out.append(sep);
        }
        out.append(items[i].as_str());
        proof {
            let all = items.deep_view();
            assert(all.take(i + 1).drop_last() =~= all.take(i as int));
            assert(all.take(i + 1).last() == items[i as int]@);
        }
        i += 1;
    }
    assert(items.deep_view().take(items.len() as int) =~= items.deep_view());
    out
}

/// Splits a text into its lines.
pub fn split_lines(s: &str) -> (out: Vec<String>)
    ensures
        out.deep_view() == lines(s@),
        out.len() >= 1,
{
    let mut out: Vec<String> = Vec::new();
    let mut cur = String::new();
    for c in it: s.chars()
        invariant
            it.seq() == s@,
            out.deep_view().push(cur@) == lines(s@.take(it.index() as int)),
    {
        let ghost before = out.deep_view().push(cur@);
        let ghost i = it.index() as int;
        proof {
            assert(s@.take(i + 1).drop_last() =~= s@.take(i));
            assert(s@.take(i + 1).last() == c);
        }
        if c == '\n' {
            let ghost done = out.deep_view();
            out.push(cur);
            cur = String::new();
            assert(out.deep_view() =~= before);
        } else {
            cur.push(c);
            assert(before.drop_last() =~= out.deep_view());
        }
    }
    let ghost done = out.deep_view();
    assert(s@.take(s@.len() as int) == s@);
    out.push(cur);
    assert(out.deep_view() =~= done.push(cur@));
    out
}

/// The number of lines of a text: one more than it has line breaks.
pub fn count_lines(s: &str) -> (n: usize)
    ensures
        n == lines(s@).len(),
        n == line_breaks(s@) + 1,
{
    proof {
        lemma_lines_len(s@);
    }
    split_lines(s).len()
}

/// The largest of the given numbers, 0 where there is none.
pub fn largest_of(ws: &Vec<usize>) -> (w: usize)
    ensures
        w == largest(naturals(ws@)),
{
    let ghost all = naturals(ws@);
    let mut w: usize = 0;
    let mut i: usize = 0;
    while i < ws.len()
        invariant
            i <= ws.len(),
            all == naturals(ws@),
            w == largest(all.take(i as int)),
        decreases ws.len() - i,
    {
        assert(all.take(i + 1).drop_last() =~= all.take(i as int));
        assert(all.take(i + 1).last() == ws[i as int]);
        if ws[i] > w {
            w = ws[i];
        }
        i += 1;
    }
    assert(all.take(ws.len() as int) =~= all);
    w
}

/// The display width of each of the given lines.
pub fn line_widths(ls: &Vec<String>) -> (ws: Vec<usize>)
    ensures
        naturals(ws@) == widths_of(ls.deep_view()),
{
    let mut ws: Vec<usize> = Vec::new();
    let mut i: usize = 0;
    while i < ls.len()
        invariant
            i <= ls.len(),
            ws.len() == i,
            forall|k: int| 0 <= k < i ==> ws@[k] == display_width(ls[k]@),
        decreases ls.len() - i,
    {
        ws.push(str_width(ls[i].as_str()));
        i += 1;
    }
    assert(naturals(ws@) =~= widths_of(ls.deep_view()));
    ws
}

/// The display width of the widest of the given lines.
pub fn widest_line(ls: &Vec<String>) -> (w: usize)
    ensures
        w == widest(ls.deep_view()),
{
    let ws = line_widths(ls);
    largest_of(&ws)
}

/// The display width of a text: that of its widest line.
pub fn text_width(s: &str) -> (w: usize)
    ensures
        w == widest(lines(s@)),
{
    let ls = split_lines(s);
    widest_line(&ls)
}

/// For each character, whether it is white space.
pub fn white_space_flags(v: &Vec<char>) -> (flags: Vec<bool>)
    ensures
        flags@ == white_flags(v@),
{
    let mut flags: Vec<bool> = Vec::new();
    let mut i: usize = 0;
    while i < v.len()
        invariant
            i <= v.len(),
            flags.len() == i,
            forall|k: int| 0 <= k < i ==> flags@[k] == is_white_space(v@[k]),
        decreases v.len() - i,
    {
        flags.push(char_is_whitespace(v[i]));
        i += 1;
    }
    assert(flags@ =~= white_flags(v@));
    flags
}

/// The number of flags that stand before the run of set flags at the end.
pub fn count_without_trailing(flags: &Vec<bool>) -> (k: usize)
    ensures
        k == without_trailing(flags@),
{
    let mut k: usize = flags.len();
    assert(flags@.take(k as int) =~= flags@);
    while k > 0 && flags[k - 1]
        invariant
            k <= flags.len(),
            without_trailing(flags@) == without_trailing(flags@.take(k as int)),
        decreases k,
    {
        assert(flags@.take(k as int).drop_last() =~= flags@.take(k - 1));
        k -= 1;
    }
    k
}

/// The text without its trailing white space.
pub fn trim_trailing(s: &str) -> (out: String)
    ensures
        out@ == trim_end(s@),
{
    let v = to_chars(s);
    let flags = white_space_flags(&v);
    let k = count_without_trailing(&flags);
    proof {
        lemma_without_trailing(flags@);
    }
    from_chars(&v, 0, k)
}

/// Whether `needle` stands in `hay` at position `i`.
pub fn matches_at(hay: &Vec<char>, needle: &Vec<char>, i: usize) -> (b: bool)
    ensures
        b == occurs_at(hay@, needle@, i as int),
{
    if needle.len() > hay.len() || i > hay.len() - needle.len() {
        return false;
    }
    let mut k: usize = 0;
    while k < needle.len()
        invariant
            k <= needle.len(),
            i + needle.len() <= hay.len(),
            forall|j: int| 0 <= j < k ==> hay@[i + j] == needle@[j],
        decreases needle.len() - k,
    {
        if hay[i + k] != needle[k] {
            proof {
                let part = hay@.subrange(i as int, i + needle.len());
                assert(part[k as int] == hay@[i + k]);
            }
            return false;
        }
        k += 1;
    }
    assert(hay@.subrange(i as int, i + needle.len()) =~= needle@);
    true
}

/// The first position at which `needle` stands in `hay`.
pub fn find_first(hay: &Vec<char>, needle: &Vec<char>) -> (r: Option<usize>)
    ensures
        match r {
            Some(i) => first_occurrence(hay@, needle@) == Some(i as int) && i + needle.len()
                <= hay.len(),
            None => first_occurrence(hay@, needle@) is None,
        },
{
    if needle.len() > hay.len() {
        return None;
    }
    let last: usize = hay.len() - needle.len();
    let mut i: usize = 0;
    loop
        invariant
            i <= last,
            last == hay.len() - needle.len(),
            first_occurrence(hay@, needle@) == first_occurrence_from(hay@, needle@, i as int),
        decreases last - i,
    {
        if matches_at(hay, needle, i) {
            return Some(i);
        }
        if i == last {
            assert(first_occurrence_from(hay@, needle@, i + 1) is None);
            return None;
        }
        i += 1;
    }
}

/// Replaces the first occurrence of `needle` in `hay` by `with`.
pub fn replace_first_occurrence(hay: &str, needle: &str, with: &str) -> (out: String)
    ensures
        out@ == replace_first(hay@, needle@, with@),
{
    let h = to_chars(hay);
    let n = to_chars(needle);
    match find_first(&h, &n) {
        Some(i) => {
            proof {
                lemma_first_occurrence(hay@, needle@);
            }
            let mut out = from_chars(&h, 0, i);
            out.append(with);
            let tail = from_chars(&h, i + n.len(), h.len());
            out.append(tail.as_str());
            out
        },
        None => from_chars(&h, 0, h.len()),
    }
}

} // verus!
