//! What holds of texts.

use vstd::prelude::*;

use crate::text::{
    all_decimal, decimal, decimal_int, digits_value, is_white, join, lower_text, number_of, pieces,
    pieces_from, trim, trim_end, trim_start, upper_text, words, words_from,
};

verus! {

/// Lower case changes the letters from `A` to `Z` alone, and upper case those from `a` to `z`
/// alone.
pub proof fn law_case_of_letters(s: Seq<char>, i: int)
    requires
        0 <= i < s.len(),
    ensures
        lower_text(s).len() == s.len(),
        upper_text(s).len() == s.len(),
        65 <= s[i] as u32 <= 90 ==> lower_text(s)[i] as u32 == s[i] as u32 + 32,
        !(65 <= s[i] as u32 <= 90) ==> lower_text(s)[i] == s[i],
        97 <= s[i] as u32 <= 122 ==> upper_text(s)[i] as u32 + 32 == s[i] as u32,
        !(97 <= s[i] as u32 <= 122) ==> upper_text(s)[i] == s[i],
{
}

/// Blanks are white space, tabs and line ends are, and no visible ASCII character is.
pub proof fn law_white_space(c: char)
    ensures
        c == ' ' || c == '\t' || c == '\n' || c == '\r' ==> is_white(c),
        0x21 <= c as u32 <= 0x7E ==> !is_white(c),
{
}

spec fn all_white(s: Seq<char>) -> bool {
    forall|i: int| 0 <= i < s.len() ==> is_white(#[trigger] s[i])
}

proof fn lemma_trim_start_split(s: Seq<char>)
    ensures
        exists|before: Seq<char>| #[trigger]
            all_white(before) && s == before + trim_start(s),
        trim_start(s).len() > 0 ==> !is_white(trim_start(s)[0]),
    decreases s.len(),
{
    if s.len() > 0 && is_white(s[0]) {
        lemma_trim_start_split(s.skip(1));
        let rest = choose|rest: Seq<char>| #[trigger]
            all_white(rest) && s.skip(1) == rest + trim_start(s.skip(1));
        let before = seq![s[0]] + rest;
        assert forall|i: int| 0 <= i < before.len() implies is_white(#[trigger] before[i]) by {
            if i > 0 {
                assert(before[i] == rest[i - 1]);
            }
        }
        let left = trim_start(s);
        assert(left == trim_start(s.skip(1)));
        assert(s =~= seq![s[0]] + s.skip(1));
        assert(seq![s[0]] + (rest + left) =~= before + left);
        assert(all_white(before));
    } else {
        let before = Seq::<char>::empty();
        assert(all_white(before));
        assert(s =~= before + trim_start(s));
    }
}

proof fn lemma_trim_end_split(s: Seq<char>)
    ensures
        exists|behind: Seq<char>| #[trigger] all_white(behind) && s == trim_end(s) + behind,
        trim_end(s).len() > 0 ==> !is_white(trim_end(s).last()) && trim_end(s)[0] == s[0],
    decreases s.len(),
{
    if s.len() > 0 && is_white(s.last()) {
        lemma_trim_end_split(s.drop_last());
        let rest = choose|rest: Seq<char>| #[trigger]
            all_white(rest) && s.drop_last() == trim_end(s.drop_last()) + rest;
        let behind = rest.push(s.last());
        let left = trim_end(s);
        assert(left == trim_end(s.drop_last()));
        assert(s =~= s.drop_last().push(s.last()));
        assert((left + rest).push(s.last()) =~= left + behind);
        assert(all_white(behind));
    } else {
        let behind = Seq::<char>::empty();
        assert(all_white(behind));
        assert(s =~= trim_end(s) + behind);
    }
}

/// A text is its trimmed form with white space around it, and the trimmed form begins and
/// ends with none.
pub proof fn law_trim(s: Seq<char>)
    ensures
        exists|before: Seq<char>, behind: Seq<char>|
            s == #[trigger] (before + trim(s) + behind) && (forall|i: int|
                0 <= i < before.len() ==> is_white(#[trigger] before[i])) && (forall|i: int|
                0 <= i < behind.len() ==> is_white(#[trigger] behind[i])),
        trim(s).len() > 0 ==> !is_white(trim(s)[0]) && !is_white(trim(s).last()),
{
    lemma_trim_start_split(s);
    lemma_trim_end_split(trim_start(s));
    let before = choose|before: Seq<char>| #[trigger]
        all_white(before) && s == before + trim_start(s);
    let behind = choose|behind: Seq<char>| #[trigger]
        all_white(behind) && trim_start(s) == trim(s) + behind;
    assert(s =~= before + trim(s) + behind);
    assert forall|i: int| 0 <= i < before.len() implies is_white(#[trigger] before[i]) by {}
    assert forall|i: int| 0 <= i < behind.len() implies is_white(#[trigger] behind[i]) by {}
}

proof fn lemma_words_apart(a: Seq<char>, c: char, b: Seq<char>, word: Seq<char>)
    requires
        is_white(c),
    ensures
        words_from(a + seq![c] + b, word) == words_from(a, word) + words_from(b, Seq::empty()),
    decreases a.len(),
{
    let all = a + seq![c] + b;
    if a.len() == 0 {
        assert(all[0] == c);
        assert(all.skip(1) =~= b);
        if word.len() == 0 {
            assert(words_from(a, word) + words_from(b, Seq::empty()) =~= words_from(
                b,
                Seq::empty(),
            ));
        }
    } else {
        assert(all[0] == a[0]);
        assert(all.skip(1) =~= a.skip(1) + seq![c] + b);
        if is_white(a[0]) {
            lemma_words_apart(a.skip(1), c, b, Seq::empty());
            if word.len() > 0 {
                assert(seq![word] + (words_from(a.skip(1), Seq::empty()) + words_from(
                    b,
                    Seq::empty(),
                )) =~= words_from(a, word) + words_from(b, Seq::empty()));
            }
        } else {
            lemma_words_apart(a.skip(1), c, b, word.push(a[0]));
        }
    }
}

proof fn lemma_one_word(w: Seq<char>, open: Seq<char>)
    requires
        forall|i: int| 0 <= i < w.len() ==> !is_white(#[trigger] w[i]),
        open.len() + w.len() > 0,
    ensures
        words_from(w, open) == seq![open + w],
    decreases w.len(),
{
    if w.len() == 0 {
        assert(open + w =~= open);
    } else {
        let rest = w.skip(1);
        assert forall|i: int| 0 <= i < rest.len() implies !is_white(#[trigger] rest[i]) by {
            assert(rest[i] == w[i + 1]);
        }
        assert(!is_white(w[0]));
        lemma_one_word(rest, open.push(w[0]));
        assert(open.push(w[0]) + rest =~= open + w);
    }
}

/// White space parts a text: the words are those before it and those behind it. A text
/// without white space is one word, and an empty one has none.
pub proof fn law_words(a: Seq<char>, c: char, b: Seq<char>, w: Seq<char>)
    requires
        is_white(c),
        w.len() > 0,
        forall|i: int| 0 <= i < w.len() ==> !is_white(#[trigger] w[i]),
    ensures
        words(a + seq![c] + b) == words(a) + words(b),
        words(w) == seq![w],
        words(Seq::empty()) == Seq::<Seq<char>>::empty(),
{
    lemma_words_apart(a, c, b, Seq::empty());
    lemma_one_word(w, Seq::empty());
    assert(Seq::<char>::empty() + w =~= w);
}

proof fn lemma_pieces_apart(a: Seq<char>, sep: char, b: Seq<char>, piece: Seq<char>)
    requires
        !a.contains(sep),
    ensures
        pieces_from(a + seq![sep] + b, sep, piece) == seq![piece + a] + pieces_from(
            b,
            sep,
            Seq::empty(),
        ),
        pieces_from(a, sep, piece) == seq![piece + a],
    decreases a.len(),
{
    let all = a + seq![sep] + b;
    if a.len() == 0 {
        assert(all[0] == sep);
        assert(all.skip(1) =~= b);
        assert(piece + a =~= piece);
    } else {
        let rest = a.skip(1);
        assert(a.contains(a[0]));
        assert forall|i: int| 0 <= i < rest.len() implies rest[i] != sep by {
            assert(rest[i] == a[i + 1]);
            assert(a.contains(a[i + 1]));
        }
        assert(all[0] == a[0]);
        assert(all.skip(1) =~= rest + seq![sep] + b);
        lemma_pieces_apart(rest, sep, b, piece.push(a[0]));
        assert(piece.push(a[0]) + rest =~= piece + a);
    }
}

/// A separator parts a text: the pieces are what stands before it and those behind it. A text
/// without one is one piece.
pub proof fn law_pieces(a: Seq<char>, sep: char, b: Seq<char>)
    requires
        !a.contains(sep),
    ensures
        pieces(a + seq![sep] + b, sep) == seq![a] + pieces(b, sep),
        pieces(a, sep) == seq![a],
{
    lemma_pieces_apart(a, sep, b, Seq::empty());
    assert(Seq::<char>::empty() + a =~= a);
}

/// Texts that are joined stand one after the other with the separator between them.
pub proof fn law_joined_texts(parts: Seq<Seq<char>>, more: Seq<char>, sep: Seq<char>)
    ensures
        join(Seq::empty(), sep) == Seq::<char>::empty(),
        join(seq![more], sep) == more,
        parts.len() > 0 ==> join(parts.push(more), sep) == join(parts, sep) + sep + more,
{
    assert(parts.push(more).drop_last() =~= parts);
}

/// The digit of a number below ten.
pub open spec fn digit(d: int) -> char {
    (48 + d) as u32 as char
}

/// A number is written in decimal digits, the last one of the number of ones; it reads back
/// as the number, and begins with a zero only where it is zero.
pub proof fn law_decimal(n: nat, d: int)
    requires
        0 <= d < 10,
    ensures
        decimal(d as nat) == seq![digit(d)],
        n > 0 ==> decimal((10 * n + d) as nat) == decimal(n).push(digit(d)),
        number_of(decimal(n)) == Some(n),
        n > 0 ==> decimal(n)[0] != '0',
        decimal_int(n as int) == decimal(n),
        n > 0 ==> decimal_int(-(n as int)) == seq!['-'] + decimal(n),
{
    if n > 0 {
        let m = (10 * n + d) as nat;
        assert(m / 10 == n && m % 10 == d);
    }
    lemma_decimal_digits(n);
    assert(decimal(n)[0] != '+');
}

proof fn lemma_decimal_digits(n: nat)
    ensures
        decimal(n).len() > 0,
        all_decimal(decimal(n)),
        digits_value(decimal(n)) == n,
        n > 0 ==> decimal(n)[0] != '0',
        '0' <= decimal(n)[0] <= '9',
    decreases n,
{
    if n >= 10 {
        lemma_decimal_digits(n / 10);
        assert(decimal(n).drop_last() =~= decimal(n / 10));
        assert(decimal(n)[0] == decimal(n / 10)[0]);
    } else {
        assert(decimal(n).drop_last() =~= Seq::empty());
        reveal_with_fuel(digits_value, 2);
    }
}

/// A text of digits stands for their number, one digit after the other; one with anything
/// else, but a plus sign before the digits, stands for none.
pub proof fn law_number_of_digits(s: Seq<char>, d: int)
    requires
        s.len() > 0,
        0 <= d < 10,
        s[0] != '+',
    ensures
        number_of(s) matches Some(n) ==> number_of(s.push(digit(d))) == Some(10 * n + d as nat),
        number_of(seq![digit(d)]) == Some(d as nat),
        number_of(s) == number_of(seq!['+'] + s),
        (exists|i: int| 0 <= i < s.len() && !('0' <= #[trigger] s[i] <= '9')) ==> number_of(s)
            is None,
        number_of(Seq::empty()) is None,
{
    let t = s.push(digit(d));
    assert(t.drop_last() =~= s);
    assert((seq!['+'] + s).skip(1) =~= s);
    let one = seq![digit(d)];
    assert(one.drop_last() =~= Seq::empty());
    reveal_with_fuel(digits_value, 2);
    if number_of(s) is Some {
        assert forall|i: int| 0 <= i < t.len() implies crate::text::is_decimal(#[trigger] t[i]) by {
            if i < s.len() {
                assert(t[i] == s[i]);
            }
        }
        assert(t[0] == s[0]);
    }
}

} // verus!
