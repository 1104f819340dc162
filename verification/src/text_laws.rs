//! What reading texts and numbers promises.

use vstd::prelude::*;

use crate::number::{digit_value, read_digits, read_number, NumberError};
use crate::split::{
    ascii_lower, cut_once, is_white, join, lemma_cut_once, lemma_join_split, lemma_split_join,
    lemma_split_nonempty, lines_of,
    same_ignoring_case, split_on, split_where, strip_end, strip_start, trimmed, without_cr,
    without_line_ends, words_of,
};
use crate::text::{before_last, occurs, occurs_at};

verus! {

/// A text stands in another exactly where the other is made of something, the text and something
/// more.
pub proof fn law_occurs(hay: Seq<char>, needle: Seq<char>, a: Seq<char>, b: Seq<char>)
    ensures
        occurs(a + needle + b, needle),
        occurs(hay, needle) ==> exists|i: int|
            #![trigger hay.take(i)]
            0 <= i && i + needle.len() <= hay.len() && hay == hay.take(i) + needle + hay.skip(
                i + needle.len(),
            ),
{
    let all = a + needle + b;
    assert(all.subrange(a.len() as int, a.len() as int + needle.len()) =~= needle);
    assert(occurs_at(all, needle, a.len() as int));
    if occurs(hay, needle) {
        let i = choose|i: int| occurs_at(hay, needle, i);
        assert(hay =~= hay.take(i) + needle + hay.skip(i + needle.len()));
    }
}

/// A text is cut before the last place where a character stands in it.
pub proof fn law_before_last(front: Seq<char>, c: char, back: Seq<char>)
    requires
        !back.contains(c),
    ensures
        before_last(front.push(c) + back, c) == front,
        before_last(back, c) == back,
    decreases back.len(),
{
    let s = front.push(c) + back;
    assert(s[front.len() as int] == c);
    if back.len() == 0 {
        assert(s.drop_last() =~= front);
    } else {
        assert(back[back.len() - 1] != c);
        let shorter = back.drop_last();
        assert forall|i: int| 0 <= i < shorter.len() implies shorter[i] != c by {
            assert(back[i] == shorter[i]);
        }
        law_before_last(front, c, shorter);
        assert(s.drop_last() =~= front.push(c) + shorter);
    }
}

/// The characters of white space, by their numbers.
pub proof fn law_white_space(c: char)
    ensures
        is_white(c) <==> {
            ||| 0x09 <= c as u32 <= 0x0d
            ||| c as u32 == 0x20
            ||| c as u32 == 0x85
            ||| c as u32 == 0xa0
            ||| c as u32 == 0x1680
            ||| 0x2000 <= c as u32 <= 0x200a
            ||| c as u32 == 0x2028
            ||| c as u32 == 0x2029
            ||| c as u32 == 0x202f
            ||| c as u32 == 0x205f
            ||| c as u32 == 0x3000
        },
{
}

/// A text is cut at the first separator: the first part holds none.
pub proof fn law_cut_once(before: Seq<char>, after: Seq<char>, sep: char)
    requires
        !before.contains(sep),
    ensures
        cut_once(before + seq![sep] + after, sep) == Some((before, after)),
        cut_once(before, sep) is None,
{
    assert(before + seq![sep] + after =~= before.push(sep) + after);
    lemma_cut_once(before, after, sep);
    reveal(cut_once);
}

proof fn lemma_strip_end(s: Seq<char>, drop: spec_fn(char) -> bool) -> (j: int)
    ensures
        0 <= j <= s.len(),
        strip_end(s, drop) == s.take(j),
        j > 0 ==> !drop(s[j - 1]),
        forall|k: int| j <= k < s.len() ==> drop(#[trigger] s[k]),
    decreases s.len(),
{
    if s.len() > 0 && drop(s.last()) {
        let j = lemma_strip_end(s.drop_last(), drop);
        assert(s.drop_last().take(j) =~= s.take(j));
        assert forall|k: int| j <= k < s.len() implies drop(#[trigger] s[k]) by {
            if k < s.len() - 1 {
                assert(s.drop_last()[k] == s[k]);
            }
        }
        j
    } else {
        assert(s.take(s.len() as int) =~= s);
        s.len() as int
    }
}

proof fn lemma_strip_start(s: Seq<char>, drop: spec_fn(char) -> bool) -> (i: int)
    ensures
        0 <= i <= s.len(),
        strip_start(s, drop) == s.skip(i),
        i < s.len() ==> !drop(s[i]),
        forall|k: int| 0 <= k < i ==> drop(#[trigger] s[k]),
    decreases s.len(),
{
    if s.len() > 0 && drop(s[0]) {
        let i = lemma_strip_start(s.drop_first(), drop);
        assert(s.drop_first().skip(i) =~= s.skip(i + 1));
        assert forall|k: int| 0 <= k < i + 1 implies drop(#[trigger] s[k]) by {
            if k > 0 {
                assert(s.drop_first()[k - 1] == s[k]);
            }
        }
        i + 1
    } else {
        assert(s.skip(0) =~= s);
        0
    }
}

/// Trimming takes white space away at both ends, all of it and nothing else.
pub proof fn law_trimmed(s: Seq<char>) -> (ends: (int, int))
    ensures
        0 <= ends.0 <= ends.1 <= s.len(),
        trimmed(s) == s.subrange(ends.0, ends.1),
        forall|k: int| 0 <= k < ends.0 ==> is_white(#[trigger] s[k]),
        forall|k: int| ends.1 <= k < s.len() ==> is_white(#[trigger] s[k]),
        trimmed(s).len() > 0 ==> !is_white(trimmed(s)[0]) && !is_white(trimmed(s).last()),
{
    let white = |c: char| is_white(c);
    let j = lemma_strip_end(s, white);
    let front = s.take(j);
    let i = lemma_strip_start(front, white);
    assert(trimmed(s) == front.skip(i));
    assert(front.skip(i) =~= s.subrange(i, j));
    assert forall|k: int| 0 <= k < i implies is_white(#[trigger] s[k]) by {
        assert(front[k] == s[k]);
        assert(white(front[k]));
    }
    assert forall|k: int| j <= k < s.len() implies is_white(#[trigger] s[k]) by {
        assert(white(s[k]));
    }
    if i < j {
        assert(trimmed(s)[0] == front[i]);
        assert(trimmed(s).last() == s[j - 1]);
        assert(!white(s[j - 1]) && !white(front[i]));
    }
    (i, j)
}

/// Of the value that a tool prints, only the line ends behind it are taken away, all of them.
pub proof fn law_without_line_ends(value: Seq<char>, ends: Seq<char>)
    requires
        value.len() > 0 ==> value.last() != '\n' && value.last() != '\r',
        forall|i: int| 0 <= i < ends.len() ==> #[trigger] ends[i] == '\n' || ends[i] == '\r',
    ensures
        without_line_ends(value + ends) == value,
{
    let drop = |c: char| c == '\n' || c == '\r';
    let s = value + ends;
    let j = lemma_strip_end(s, drop);
    if j > value.len() {
        assert(s[j - 1] == ends[j - 1 - value.len()]);
        assert(drop(s[j - 1]));
    }
    if j < value.len() {
        assert(drop(s[value.len() - 1]));
        assert(s[value.len() - 1] == value.last());
    }
    assert(s.take(j) =~= value);
}

/// Two texts that differ only in the case of ASCII letters count as the same, and no others do.
pub proof fn law_same_ignoring_case(a: Seq<char>, b: Seq<char>)
    ensures
        same_ignoring_case(a, b) <==> a.len() == b.len() && forall|i: int|
            #![trigger a[i]]
            0 <= i < a.len() ==> {
                ||| a[i] == b[i]
                ||| 65 <= a[i] as u32 <= 90 && b[i] as u32 == a[i] as u32 + 32
                ||| 65 <= b[i] as u32 <= 90 && a[i] as u32 == b[i] as u32 + 32
            },
{
    assert forall|i: int| #![trigger a[i]] 0 <= i < a.len() implies (ascii_lower(a[i])
        == ascii_lower(b[i])) == ({
        ||| a[i] == b[i]
        ||| 65 <= a[i] as u32 <= 90 && b[i] as u32 == a[i] as u32 + 32
        ||| 65 <= b[i] as u32 <= 90 && a[i] as u32 == b[i] as u32 + 32
    }) by {
        lemma_lower(a[i]);
        lemma_lower(b[i]);
    }
}

proof fn lemma_lower(c: char)
    ensures
        65 <= c as u32 <= 90 ==> ascii_lower(c) as u32 == c as u32 + 32,
        !(65 <= c as u32 <= 90) ==> ascii_lower(c) == c,
{
}

// ---------------------------------------------------------------------------
// Lines and words
// ---------------------------------------------------------------------------

/// The first piece of a text ends at the first cut.
proof fn lemma_split_first(a: Seq<char>, c: char, b: Seq<char>, cut: spec_fn(char) -> bool)
    requires
        cut(c),
        forall|i: int| 0 <= i < a.len() ==> !cut(#[trigger] a[i]),
    ensures
        split_where(a, cut) == seq![a],
        split_where(a.push(c) + b, cut) == seq![a] + split_where(b, cut),
    decreases b.len(),
{
    lemma_split_whole(a, cut);
    let s = a.push(c) + b;
    if b.len() == 0 {
        assert(s =~= a.push(c));
        assert(s.drop_last() =~= a);
        assert(split_where(b, cut) =~= seq![Seq::<char>::empty()]);
        assert(split_where(s, cut) =~= seq![a] + split_where(b, cut));
    } else {
        lemma_split_first(a, c, b.drop_last(), cut);
        lemma_split_nonempty(b.drop_last(), cut);
        assert(s.drop_last() =~= a.push(c) + b.drop_last());
        assert(s.last() == b.last());
        let before = split_where(b.drop_last(), cut);
        assert((seq![a] + before).last() == before.last());
        assert((seq![a] + before).drop_last() =~= seq![a] + before.drop_last());
        assert(split_where(s, cut) =~= seq![a] + split_where(b, cut));
    }
}

proof fn lemma_split_whole(a: Seq<char>, cut: spec_fn(char) -> bool)
    requires
        forall|i: int| 0 <= i < a.len() ==> !cut(#[trigger] a[i]),
    ensures
        split_where(a, cut) == seq![a],
    decreases a.len(),
{
    if a.len() == 0 {
        assert(a =~= Seq::<char>::empty());
    } else {
        let shorter = a.drop_last();
        assert forall|i: int| 0 <= i < shorter.len() implies !cut(#[trigger] shorter[i]) by {
            assert(a[i] == shorter[i]);
        }
        lemma_split_whole(shorter, cut);
        assert(shorter.push(a.last()) =~= a);
        assert(!cut(a[a.len() - 1]));
        assert(split_where(a, cut) =~= seq![a]);
    }
}

/// The first piece of a text ends at the first separator.
proof fn lemma_split_on_first(a: Seq<char>, sep: char, b: Seq<char>)
    requires
        !a.contains(sep),
    ensures
        split_on(a, sep) == seq![a],
        split_on(b, sep).len() >= 1,
        split_on(a.push(sep) + b, sep) == seq![a] + split_on(b, sep),
    decreases b.len(),
{
    lemma_split_on_whole(a, sep);
    lemma_join_split(b, sep);
    let s = a.push(sep) + b;
    if b.len() == 0 {
        assert(s =~= a.push(sep));
        assert(s.drop_last() =~= a);
        assert(split_on(b, sep) =~= seq![Seq::<char>::empty()]);
        assert(split_on(s, sep) =~= seq![a] + split_on(b, sep));
    } else {
        lemma_split_on_first(a, sep, b.drop_last());
        assert(s.drop_last() =~= a.push(sep) + b.drop_last());
        assert(s.last() == b.last());
        let before = split_on(b.drop_last(), sep);
        assert((seq![a] + before).last() == before.last());
        assert((seq![a] + before).drop_last() =~= seq![a] + before.drop_last());
        assert(split_on(s, sep) =~= seq![a] + split_on(b, sep));
    }
}

proof fn lemma_split_on_whole(a: Seq<char>, sep: char)
    requires
        !a.contains(sep),
    ensures
        split_on(a, sep) == seq![a],
{
    lemma_split_join(seq![a], sep);
    assert(join(seq![a], sep) == a);
}

/// A line ends at a line feed, with or without a carriage return before it. The last line may end
/// without either, and a text that ends with a line end has no further line.
pub proof fn law_lines(line: Seq<char>, rest: Seq<char>)
    requires
        !line.contains('\n'),
    ensures
        lines_of(Seq::<char>::empty()).len() == 0,
        line.len() > 0 ==> lines_of(line) == seq![line],
        line.len() == 0 || line.last() != '\r' ==> lines_of(line + seq!['\n'] + rest) == seq![line]
            + lines_of(rest),
        lines_of(line + seq!['\r', '\n'] + rest) == seq![line] + lines_of(rest),
{
    lemma_split_on_first(line, '\n', rest);
    assert(split_on(Seq::<char>::empty(), '\n') =~= seq![Seq::<char>::empty()]);
    if line.len() > 0 {
        assert(lines_of(line) =~= seq![line]);
    }
    if line.len() == 0 || line.last() != '\r' {
        assert(line + seq!['\n'] + rest =~= line.push('\n') + rest);
        lemma_first_line(line, rest);
        assert(without_cr(line) == line);
    }
    let with_cr = line.push('\r');
    assert forall|i: int| 0 <= i < with_cr.len() implies with_cr[i] != '\n' by {
        if i < line.len() {
            assert(line.contains(line[i]));
        }
    }
    assert(line + seq!['\r', '\n'] + rest =~= with_cr.push('\n') + rest);
    lemma_first_line(with_cr, rest);
    assert(without_cr(with_cr) =~= line);
}

proof fn lemma_first_line(line: Seq<char>, rest: Seq<char>)
    requires
        !line.contains('\n'),
    ensures
        lines_of(line.push('\n') + rest) == seq![without_cr(line)] + lines_of(rest),
{
    lemma_split_on_first(line, '\n', rest);
    let all = split_on(line.push('\n') + rest, '\n');
    let tail = split_on(rest, '\n');
    assert(all == seq![line] + tail);
    assert(all.last() == tail.last());
    let f = |l: Seq<char>| without_cr(l);
    assert(all.drop_last().map_values(f) =~= seq![without_cr(line)] + tail.drop_last().map_values(
        f,
    ));
    assert(lines_of(line.push('\n') + rest) =~= seq![without_cr(line)] + lines_of(rest));
}

/// The words of a text stand between its white space, however much of that there is.
pub proof fn law_words(word: Seq<char>, c: char, rest: Seq<char>)
    requires
        forall|i: int| 0 <= i < word.len() ==> !is_white(#[trigger] word[i]),
        is_white(c),
    ensures
        words_of(Seq::<char>::empty()).len() == 0,
        word.len() > 0 ==> words_of(word) == seq![word],
        word.len() > 0 ==> words_of(word + seq![c] + rest) == seq![word] + words_of(rest),
        words_of(seq![c] + rest) == words_of(rest),
{
    let cut = |x: char| is_white(x);
    let full = |w: Seq<char>| w.len() > 0;
    let none = Seq::<char>::empty();
    reveal(Seq::filter);
    assert(cut(c));
    assert forall|i: int| 0 <= i < word.len() implies !cut(#[trigger] word[i]) by {}
    lemma_split_first(word, c, rest, cut);
    lemma_split_first(none, c, rest, cut);
    assert(word + seq![c] + rest =~= word.push(c) + rest);
    assert(seq![c] + rest =~= none.push(c) + rest);
    lemma_filter_one(word, full);
    lemma_filter_one(none, full);
    Seq::filter_distributes_over_add(seq![word], split_where(rest, cut), full);
    Seq::filter_distributes_over_add(seq![none], split_where(rest, cut), full);
    assert(Seq::<Seq<char>>::empty() + words_of(rest) =~= words_of(rest));
}

proof fn lemma_filter_one(word: Seq<char>, full: spec_fn(Seq<char>) -> bool)
    ensures
        seq![word].filter(full) == if full(word) {
            seq![word]
        } else {
            Seq::empty()
        },
{
    reveal(Seq::filter);
    assert(seq![word].drop_last() =~= Seq::<Seq<char>>::empty());
    assert(Seq::<Seq<char>>::empty().filter(full) =~= Seq::empty());
    assert(seq![word].filter(full) =~= if full(word) {
        seq![word]
    } else {
        Seq::empty()
    });
}

// ---------------------------------------------------------------------------
// Numbers
// ---------------------------------------------------------------------------

/// The digits of decimal and hexadecimal numbers, by the numbers of the characters.
pub proof fn law_digits(c: char, d: nat)
    ensures
        digit_value(c, 10) == Some(d) <==> d < 10 && c as u32 == 48 + d,
        digit_value(c, 16) == Some(d) <==> {
            ||| d < 10 && c as u32 == 48 + d
            ||| 10 <= d < 16 && c as u32 == 87 + d
            ||| 10 <= d < 16 && c as u32 == 55 + d
        },
{
}

/// A number is read digit by digit, each worth the radix of the next. It fails as empty where
/// there is nothing, at a character that is no digit, and where it becomes too large. One sign
/// `+` may stand before the digits.
pub proof fn law_number_is_read(s: Seq<char>, c: char, radix: nat, max: nat)
    requires
        s.len() > 0,
        s[0] != '+',
    ensures
        read_number(Seq::empty(), radix, max) == Err::<nat, NumberError>(NumberError::Empty),
        radix <= 16 ==> read_number(seq!['+'], radix, max) == Err::<nat, NumberError>(
            NumberError::InvalidDigit,
        ),
        c != '+' ==> read_number(seq![c], radix, max) == match digit_value(c, radix) {
            Some(d) => if d <= max {
                Ok(d)
            } else {
                Err(NumberError::TooLarge)
            },
            None => Err(NumberError::InvalidDigit),
        },
        read_number(s.push(c), radix, max) == match read_number(s, radix, max) {
            Err(e) => Err(e),
            Ok(value) => match digit_value(c, radix) {
                Some(d) => if value * radix + d <= max {
                    Ok((value * radix + d) as nat)
                } else {
                    Err(NumberError::TooLarge)
                },
                None => Err(NumberError::InvalidDigit),
            },
        },
        read_number(seq!['+'] + s, radix, max) == read_number(s, radix, max),
{
    reveal_with_fuel(read_digits, 2);
    assert(seq![c].drop_last() =~= Seq::<char>::empty());
    assert(seq!['+'].drop_last() =~= Seq::<char>::empty());
    assert(s.push(c).drop_last() =~= s);
    assert(s.push(c)[0] == s[0]);
    assert((seq!['+'] + s).drop_first() =~= s);
    assert(0 * radix == 0) by (nonlinear_arith);
}

} // verus!
