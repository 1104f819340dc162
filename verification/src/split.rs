//! Cutting a text into pieces: at a separator, at white space, into lines.

use vstd::prelude::*;

use crate::text;

verus! {

/// The characters with the Unicode property `White_Space`.
pub open spec fn is_white(c: char) -> bool {
    ||| '\u{9}' <= c <= '\u{d}'
    ||| c == ' '
    ||| c == '\u{85}'
    ||| c == '\u{a0}'
    ||| c == '\u{1680}'
    ||| '\u{2000}' <= c <= '\u{200a}'
    ||| c == '\u{2028}'
    ||| c == '\u{2029}'
    ||| c == '\u{202f}'
    ||| c == '\u{205f}'
    ||| c == '\u{3000}'
}

/// Decides [`is_white`].
pub fn white(c: char) -> (yes: bool)
    ensures
        yes == is_white(c),
{
    ('\u{9}' <= c && c <= '\u{d}') || c == ' ' || c == '\u{85}' || c == '\u{a0}' || c == '\u{1680}'
        || ('\u{2000}' <= c && c <= '\u{200a}') || c == '\u{2028}' || c == '\u{2029}' || c
        == '\u{202f}' || c == '\u{205f}' || c == '\u{3000}'
}

/// The pieces of `s` between the characters that satisfy `cut`.
pub open spec fn split_where(s: Seq<char>, cut: spec_fn(char) -> bool) -> Seq<Seq<char>>
    decreases s.len(),
{
    if s.len() == 0 {
        seq![Seq::<char>::empty()]
    } else {
        let pieces = split_where(s.drop_last(), cut);
        if cut(s.last()) {
            pieces.push(Seq::empty())
        } else {
            pieces.drop_last().push(pieces.last().push(s.last()))
        }
    }
}

/// The pieces of `s` between its separators `sep`.
pub open spec fn split_on(s: Seq<char>, sep: char) -> Seq<Seq<char>> {
    split_where(s, |c: char| c == sep)
}

/// The maximal runs of characters of `s` that are not white space.
pub open spec fn words_of(s: Seq<char>) -> Seq<Seq<char>> {
    split_where(s, |c: char| is_white(c)).filter(|w: Seq<char>| w.len() > 0)
}

/// A line without the carriage return before its line feed.
pub open spec fn without_cr(line: Seq<char>) -> Seq<char> {
    if line.len() > 0 && line.last() == '\r' {
        line.drop_last()
    } else {
        line
    }
}

/// The lines of a text. A line ends at `\n` or `\r\n`, and the last one may end without either.
pub open spec fn lines_of(s: Seq<char>) -> Seq<Seq<char>> {
    let pieces = split_on(s, '\n');
    let ended = pieces.drop_last().map_values(|line: Seq<char>| without_cr(line));
    if pieces.last().len() == 0 {
        ended
    } else {
        ended.push(pieces.last())
    }
}

/// Pieces joined by a separator.
pub open spec fn join(pieces: Seq<Seq<char>>, sep: char) -> Seq<char>
    decreases pieces.len(),
{
    if pieces.len() == 0 {
        Seq::empty()
    } else if pieces.len() == 1 {
        pieces[0]
    } else {
        join(pieces.drop_last(), sep).push(sep) + pieces.last()
    }
}

/// A text has at least one piece.
pub proof fn lemma_split_nonempty(s: Seq<char>, cut: spec_fn(char) -> bool)
    ensures
        split_where(s, cut).len() >= 1,
    decreases s.len(),
{
    if s.len() > 0 {
        lemma_split_nonempty(s.drop_last(), cut);
    }
}

/// Splitting joined pieces gives the pieces back, where none of them holds the separator.
pub proof fn lemma_split_join(pieces: Seq<Seq<char>>, sep: char)
    requires
        pieces.len() >= 1,
        forall|i: int| 0 <= i < pieces.len() ==> !(#[trigger] pieces[i]).contains(sep),
    ensures
        split_on(join(pieces, sep), sep) == pieces,
    decreases pieces.len(),
{
    let cut = |c: char| c == sep;
    if pieces.len() == 1 {
        assert(split_where(Seq::<char>::empty(), cut) =~= seq![Seq::<char>::empty()]);
        lemma_split_append(Seq::empty(), pieces[0], sep);
        assert(Seq::<char>::empty() + pieces[0] =~= pieces[0]);
        assert(split_on(pieces[0], sep) =~= pieces);
    } else {
        let front = join(pieces.drop_last(), sep);
        lemma_split_join(pieces.drop_last(), sep);
        let cut_front = front.push(sep);
        assert(cut_front.drop_last() =~= front);
        assert(split_on(cut_front, sep) == pieces.drop_last().push(Seq::empty()));
        lemma_split_append(cut_front, pieces.last(), sep);
        assert(split_on(join(pieces, sep), sep) =~= pieces);
    }
}

/// Appending characters other than the separator lengthens the last piece.
pub proof fn lemma_split_append(s: Seq<char>, tail: Seq<char>, sep: char)
    requires
        !tail.contains(sep),
    ensures
        split_on(s, sep).len() >= 1,
        split_on(s + tail, sep) == split_on(s, sep).drop_last().push(
            split_on(s, sep).last() + tail,
        ),
    decreases tail.len(),
{
    let cut = |c: char| c == sep;
    lemma_split_nonempty(s, cut);
    if tail.len() == 0 {
        assert(s + tail =~= s);
        assert(split_on(s, sep).last() + tail =~= split_on(s, sep).last());
        assert(split_on(s, sep).drop_last().push(split_on(s, sep).last()) =~= split_on(s, sep));
    } else {
        let shorter = tail.drop_last();
        assert forall|i: int| 0 <= i < shorter.len() implies shorter[i] != sep by {
            assert(tail[i] == shorter[i]);
        }
        lemma_split_append(s, shorter, sep);
        assert((s + tail).drop_last() =~= s + shorter);
        assert((s + tail).last() == tail.last());
        assert(tail[tail.len() - 1] != sep);
        let last = split_on(s, sep).last();
        assert((last + shorter).push(tail.last()) =~= last + tail);
        assert(split_on(s, sep).drop_last().push(last + shorter).drop_last()
            =~= split_on(s, sep).drop_last());
    }
}

/// The pieces of a text hold no separator, and joined they are the text.
pub proof fn lemma_join_split(s: Seq<char>, sep: char)
    ensures
        split_on(s, sep).len() >= 1,
        join(split_on(s, sep), sep) == s,
        forall|i: int|
            0 <= i < split_on(s, sep).len() ==> !(#[trigger] split_on(s, sep)[i]).contains(sep),
    decreases s.len(),
{
    let cut = |c: char| c == sep;
    let pieces = split_on(s, sep);
    if s.len() == 0 {
        assert(s =~= Seq::<char>::empty());
        assert(pieces[0] =~= s);
    } else {
        lemma_join_split(s.drop_last(), sep);
        let before = split_on(s.drop_last(), sep);
        assert(s =~= s.drop_last().push(s.last()));
        if s.last() == sep {
            assert(pieces.drop_last() =~= before);
            assert(join(before, sep).push(sep) + Seq::<char>::empty() =~= s);
            assert forall|i: int| 0 <= i < pieces.len() implies !(#[trigger] pieces[i]).contains(
                sep,
            ) by {
                if i < before.len() {
                    assert(pieces[i] == before[i]);
                }
            }
        } else {
            assert(pieces.drop_last() =~= before.drop_last());
            assert(pieces.last() =~= before.last().push(s.last()));
            if before.len() == 1 {
                assert(join(pieces, sep) =~= s);
            } else {
                assert(join(pieces.drop_last(), sep).push(sep) + pieces.last() =~= (join(
                    before.drop_last(),
                    sep,
                ).push(sep) + before.last()).push(s.last()));
            }
            assert forall|i: int| 0 <= i < pieces.len() implies !(#[trigger] pieces[i]).contains(
                sep,
            ) by {
                if i < before.len() - 1 {
                    assert(pieces[i] == before[i]);
                } else {
                    let p = before[before.len() - 1];
                    assert(!p.contains(sep));
                    assert forall|j: int| 0 <= j < pieces[i].len() implies pieces[i][j] != sep by {
                        if j < p.len() {
                            assert(pieces[i][j] == p[j]);
                        }
                    }
                }
            }
        }
    }
}

/// What stands before and after the first separator is determined.
pub proof fn lemma_first_cut(a: Seq<char>, b: Seq<char>, c: Seq<char>, d: Seq<char>, sep: char)
    requires
        a.push(sep) + b == c.push(sep) + d,
        !a.contains(sep),
        !c.contains(sep),
    ensures
        a == c,
        b == d,
{
    let s = a.push(sep) + b;
    assert(s[a.len() as int] == sep);
    assert(s[c.len() as int] == sep);
    if a.len() < c.len() {
        assert(c[a.len() as int] == sep);
    }
    if c.len() < a.len() {
        assert(a[c.len() as int] == sep);
    }
    assert(a =~= s.take(a.len() as int));
    assert(c =~= s.take(c.len() as int));
    assert(b =~= s.skip(a.len() as int + 1));
    assert(d =~= s.skip(c.len() as int + 1));
}

/// Where the first `sep` of a text stands, if there is one.
pub open spec fn first_at(s: Seq<char>, sep: char) -> int {
    choose|i: int| 0 <= i < s.len() && s[i] == sep && !s.take(i).contains(sep)
}

/// What stands before and after the first `sep` of a text.
#[verifier::opaque]
pub open spec fn cut_once(s: Seq<char>, sep: char) -> Option<(Seq<char>, Seq<char>)> {
    if s.contains(sep) {
        let i = first_at(s, sep);
        Some((s.take(i), s.skip(i + 1)))
    } else {
        None
    }
}

/// A text that is put together from two parts around its first separator is cut into them.
pub proof fn lemma_cut_once(before: Seq<char>, after: Seq<char>, sep: char)
    requires
        !before.contains(sep),
    ensures
        (before.push(sep) + after).contains(sep),
        cut_once(before.push(sep) + after, sep) == Some((before, after)),
{
    reveal(cut_once);
    let s = before.push(sep) + after;
    let n = before.len() as int;
    assert(s[n] == sep);
    assert(s.take(n) =~= before);
    assert(s.skip(n + 1) =~= after);
    let i = first_at(s, sep);
    if i < n {
        assert(before[i] == sep);
    } else if i > n {
        assert(s.take(i)[n] == sep);
    }
}

/// Splits a text at its first `sep`.
pub fn split_once(s: &str, sep: char) -> (out: Option<(String, String)>)
    ensures
        match out {
            Some((before, after)) => {
                &&& s@ == before@.push(sep) + after@
                &&& !before@.contains(sep)
                &&& cut_once(s@, sep) == Some((before@, after@))
            },
            None => !s@.contains(sep),
        },
{
    let chars = text::chars_of(s);
    let mut i: usize = 0;
    while i < chars.len()
        invariant
            chars@ == s@,
            i <= chars@.len(),
            forall|j: int| 0 <= j < i ==> chars@[j] != sep,
        decreases chars@.len() - i,
    {
        if chars[i] == sep {
            let before = text::text_of(&chars, 0, i);
            let after = text::text_of(&chars, i + 1, chars.len());
            assert(s@ =~= before@.push(sep) + after@);
            proof {
                lemma_cut_once(before@, after@, sep);
            }
            return Some((before, after));
        }
        i = i + 1;
    }
    None
}

/// Splits a text at every `sep`.
pub fn split(s: &str, sep: char) -> (out: Vec<String>)
    ensures
        text::views(out@) == split_on(s@, sep),
{
    let ghost cut = |c: char| c == sep;
    let chars = text::chars_of(s);
    let mut out: Vec<String> = Vec::new();
    let mut piece = String::new();
    let mut i: usize = 0;
    assert(text::views(out@).push(piece@) =~= split_on(s@.take(0), sep));
    while i < chars.len()
        invariant
            chars@ == s@,
            i <= chars@.len(),
            text::views(out@).push(piece@) == split_on(s@.take(i as int), sep),
        decreases chars@.len() - i,
    {
        let ghost before = text::views(out@).push(piece@);
        proof {
            assert(s@.take(i + 1).drop_last() =~= s@.take(i as int));
            assert(s@.take(i + 1).last() == s@[i as int]);
            assert(before.drop_last() =~= text::views(out@));
        }
        let c = chars[i];
        if c == sep {
            out.push(piece);
            piece = String::new();
            assert(text::views(out@) =~= before);
            assert(text::views(out@).push(piece@) =~= split_on(s@.take(i + 1), sep));
        } else {
            piece.push(c);
            assert(text::views(out@).push(piece@) =~= split_on(s@.take(i + 1), sep));
        }
        i = i + 1;
    }
    assert(s@.take(i as int) =~= s@);
    let ghost before = text::views(out@);
    out.push(piece);
    assert(text::views(out@) =~= before.push(piece@));
    out
}

/// Splits a text at its white space.
pub fn words(s: &str) -> (out: Vec<String>)
    ensures
        text::views(out@) == words_of(s@),
{
    let ghost cut = |c: char| is_white(c);
    let ghost full = |w: Seq<char>| w.len() > 0;
    let chars = text::chars_of(s);
    let mut out: Vec<String> = Vec::new();
    let mut word = String::new();
    let ghost mut done: Seq<Seq<char>> = Seq::empty();
    let mut i: usize = 0;
    proof {
        assert(done.push(word@) =~= split_where(s@.take(0), cut));
        reveal(Seq::filter);
        assert(text::views(out@) =~= done.filter(full));
    }
    while i < chars.len()
        invariant
            chars@ == s@,
            i <= chars@.len(),
            cut == (|c: char| is_white(c)),
            full == (|w: Seq<char>| w.len() > 0),
            done.push(word@) == split_where(s@.take(i as int), cut),
            text::views(out@) == done.filter(full),
        decreases chars@.len() - i,
    {
        let ghost before = done.push(word@);
        proof {
            assert(s@.take(i + 1).drop_last() =~= s@.take(i as int));
            assert(s@.take(i + 1).last() == s@[i as int]);
            assert(before.drop_last() =~= done);
        }
        let c = chars[i];
        if white(c) {
            proof {
                done.lemma_filter_push(word@, full);
                done = before;
            }
            if !word.as_str().is_empty() {
                let ghost kept = text::views(out@);
                let ghost last = word@;
                out.push(word);
                assert(text::views(out@) =~= kept.push(last));
            }
            word = String::new();
            assert(done.push(word@) =~= split_where(s@.take(i + 1), cut));
        } else {
            word.push(c);
            assert(done.push(word@) =~= split_where(s@.take(i + 1), cut));
        }
        i = i + 1;
    }
    assert(s@.take(i as int) =~= s@);
    proof {
        done.lemma_filter_push(word@, full);
    }
    if !word.as_str().is_empty() {
        let ghost kept = text::views(out@);
        let ghost last = word@;
        out.push(word);
        assert(text::views(out@) =~= kept.push(last));
    }
    out
}

/// A line without the carriage return before its line feed, as text.
fn drop_cr(line: &str) -> (out: String)
    ensures
        out@ == without_cr(line@),
{
    let chars = text::chars_of(line);
    let n = chars.len();
    if n > 0 && chars[n - 1] == '\r' {
        text::text_of(&chars, 0, n - 1)
    } else {
        line.to_string()
    }
}

/// The lines of a text.
pub fn lines(s: &str) -> (out: Vec<String>)
    ensures
        text::views(out@) == lines_of(s@),
{
    let pieces = split(s, '\n');
    let ghost cuts = split_on(s@, '\n');
    let ghost ended = cuts.drop_last().map_values(|line: Seq<char>| without_cr(line));
    proof {
        lemma_split_nonempty(s@, |c: char| c == '\n');
        assert(cuts.len() == pieces@.len());
    }
    let n = pieces.len() - 1;
    let mut out: Vec<String> = Vec::new();
    let mut i: usize = 0;
    while i < n
        invariant
            i <= n,
            n == pieces@.len() - 1,
            cuts == text::views(pieces@),
            ended == cuts.drop_last().map_values(|line: Seq<char>| without_cr(line)),
            text::views(out@) == ended.take(i as int),
        decreases n - i,
    {
        let ghost before = text::views(out@);
        let line = drop_cr(&pieces[i]);
        proof {
            assert(cuts[i as int] == pieces@[i as int]@);
            assert(ended[i as int] == without_cr(cuts[i as int]));
            assert(ended.take(i + 1) =~= ended.take(i as int).push(ended[i as int]));
        }
        let ghost l = line@;
        out.push(line);
        assert(text::views(out@) =~= before.push(l));
        i = i + 1;
    }
    assert(ended.take(n as int) =~= ended);
    assert(cuts.last() == pieces@[n as int]@);
    if !pieces[n].as_str().is_empty() {
        let ghost before = text::views(out@);
        out.push(pieces[n].clone());
        assert(text::views(out@) =~= before.push(cuts.last()));
    }
    out
}

/// What is left of `s` without the trailing characters that satisfy `drop`.
pub open spec fn strip_end(s: Seq<char>, drop: spec_fn(char) -> bool) -> Seq<char>
    decreases s.len(),
{
    if s.len() > 0 && drop(s.last()) {
        strip_end(s.drop_last(), drop)
    } else {
        s
    }
}

/// What is left of `s` without the leading characters that satisfy `drop`.
pub open spec fn strip_start(s: Seq<char>, drop: spec_fn(char) -> bool) -> Seq<char>
    decreases s.len(),
{
    if s.len() > 0 && drop(s[0]) {
        strip_start(s.drop_first(), drop)
    } else {
        s
    }
}

/// A text without the white space around it.
pub open spec fn trimmed(s: Seq<char>) -> Seq<char> {
    strip_start(strip_end(s, |c: char| is_white(c)), |c: char| is_white(c))
}

/// A text without the line ends at its end.
pub open spec fn without_line_ends(s: Seq<char>) -> Seq<char> {
    strip_end(s, |c: char| c == '\n' || c == '\r')
}

/// Removes the white space around a text.
pub fn trim(s: &str) -> (out: String)
    ensures
        out@ == trimmed(s@),
{
    let ghost drop = |c: char| is_white(c);
    let chars = text::chars_of(s);
    let mut to: usize = chars.len();
    assert(s@.take(to as int) =~= s@);
    while to > 0 && white(chars[to - 1])
        invariant
            chars@ == s@,
            to <= chars@.len(),
            drop == (|c: char| is_white(c)),
            strip_end(s@.take(to as int), drop) == strip_end(s@, drop),
        decreases to,
    {
        proof {
            assert(s@.take(to as int).last() == s@[to - 1]);
            assert(s@.take(to as int).drop_last() =~= s@.take(to - 1));
        }
        to = to - 1;
    }
    proof {
        if to > 0 {
            assert(s@.take(to as int).last() == s@[to - 1]);
        }
        assert(strip_end(s@, drop) == s@.take(to as int));
    }
    let mut from: usize = 0;
    assert(s@.subrange(0, to as int) =~= s@.take(to as int));
    while from < to && white(chars[from])
        invariant
            chars@ == s@,
            from <= to <= chars@.len(),
            drop == (|c: char| is_white(c)),
            strip_start(s@.subrange(from as int, to as int), drop) == strip_start(
                s@.take(to as int),
                drop,
            ),
        decreases to - from,
    {
        proof {
            assert(s@.subrange(from as int, to as int)[0] == s@[from as int]);
            assert(s@.subrange(from as int, to as int).drop_first() =~= s@.subrange(
                from + 1,
                to as int,
            ));
        }
        from = from + 1;
    }
    proof {
        if from < to {
            assert(s@.subrange(from as int, to as int)[0] == s@[from as int]);
        }
    }
    text::text_of(&chars, from, to)
}

/// Removes the line ends at the end of a text.
pub fn trim_line_ends(s: &str) -> (out: String)
    ensures
        out@ == without_line_ends(s@),
{
    let ghost drop = |c: char| c == '\n' || c == '\r';
    let chars = text::chars_of(s);
    let mut to: usize = chars.len();
    assert(s@.take(to as int) =~= s@);
    while to > 0 && (chars[to - 1] == '\n' || chars[to - 1] == '\r')
        invariant
            chars@ == s@,
            to <= chars@.len(),
            drop == (|c: char| c == '\n' || c == '\r'),
            strip_end(s@.take(to as int), drop) == strip_end(s@, drop),
        decreases to,
    {
        proof {
            assert(s@.take(to as int).last() == s@[to - 1]);
            assert(s@.take(to as int).drop_last() =~= s@.take(to - 1));
        }
        to = to - 1;
    }
    proof {
        if to > 0 {
            assert(s@.take(to as int).last() == s@[to - 1]);
        }
    }
    text::text_of(&chars, 0, to)
}

/// The lower-case form of an ASCII letter, and any other character itself.
pub open spec fn ascii_lower(c: char) -> char {
    if 'A' <= c <= 'Z' {
        ((c as u32 + 32) as u32) as char
    } else {
        c
    }
}

/// Two texts that differ at most in the case of ASCII letters.
pub open spec fn same_ignoring_case(a: Seq<char>, b: Seq<char>) -> bool {
    &&& a.len() == b.len()
    &&& forall|i: int| 0 <= i < a.len() ==> ascii_lower(#[trigger] a[i]) == ascii_lower(b[i])
}

/// Decides [`ascii_lower`] for the characters of the ASCII range.
fn lower(c: char) -> (out: char)
    ensures
        out == ascii_lower(c),
{
    if 'A' <= c && c <= 'Z' {
        (c as u8 + 32) as char
    } else {
        c
    }
}

/// Whether two texts differ at most in the case of ASCII letters.
pub fn eq_ignoring_case(a: &str, b: &str) -> (eq: bool)
    ensures
        eq == same_ignoring_case(a@, b@),
{
    let xs = text::chars_of(a);
    let ys = text::chars_of(b);
    if xs.len() != ys.len() {
        return false;
    }
    let mut i: usize = 0;
    while i < xs.len()
        invariant
            xs@ == a@,
            ys@ == b@,
            xs@.len() == ys@.len(),
            i <= xs@.len(),
            forall|j: int| 0 <= j < i ==> ascii_lower(#[trigger] a@[j]) == ascii_lower(b@[j]),
        decreases xs@.len() - i,
    {
        if lower(xs[i]) != lower(ys[i]) {
            assert(ascii_lower(a@[i as int]) != ascii_lower(b@[i as int]));
            return false;
        }
        i = i + 1;
    }
    true
}

} // verus!
