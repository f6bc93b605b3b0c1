//! What the operations on texts amount to.
use vstd::prelude::*;
use vstd::arithmetic::div_mod::*;

use crate::text;

verus! {

/// The value of a digit, upper or lower case.
pub open spec fn digit_value(c: char) -> int {
    let u = c as u32;
    if 0x30 <= u <= 0x39 {
        u - 0x30
    } else if 0x41 <= u <= 0x46 {
        u - 0x41 + 10
    } else if 0x61 <= u <= 0x66 {
        u - 0x61 + 10
    } else {
        -1
    }
}

/// The number that digits stand for, the first one counting most.
pub open spec fn number_of(s: Seq<char>, base: int) -> int
    decreases s.len(),
{
    if s.len() == 0 {
        0
    } else {
        number_of(s.drop_last(), base) * base + digit_value(s.last())
    }
}

/// A written number reads back as that number, and has no needless zero in front.
pub proof fn written_numbers_read_back(n: nat, base: nat, upper: bool)
    requires
        2 <= base <= 16,
    ensures
        number_of(text::digits(n, base, upper), base as int) == n,
        text::digits(n, base, upper).len() > 0,
        n > 0 ==> text::digits(n, base, upper)[0] != '0',
    decreases n,
{
    let s = text::digits(n, base, upper);
    if n < base {
        assert(s.drop_last() =~= Seq::empty());
        assert(number_of(s.drop_last(), base as int) == 0);
        assert(0 * base == 0);
    } else {
        assert(n / base < n) by (nonlinear_arith)
            requires
                n >= base,
                base >= 2,
        ;
        written_numbers_read_back(n / base, base, upper);
        lemma_fundamental_div_mod(n as int, base as int);
        let rest = text::digits(n / base, base, upper);
        assert(s == rest.push(text::digit((n % base) as int, upper)));
        assert(s.drop_last() =~= rest);
        assert((n / base) * base == base * (n / base)) by (nonlinear_arith);
        assert(n / base > 0) by {
            lemma_div_is_ordered(base as int, n as int, base as int);
            lemma_div_by_self(base as int);
        }
        assert(s[0] == rest[0]);
    }
}

/// Padding puts zeros in front until a text is wide enough, and changes nothing else.
pub proof fn padding_puts_zeros_in_front(s: Seq<char>, width: int)
    ensures
        text::zero_padded(s, width).len() >= s.len(),
        text::zero_padded(s, width).len() >= width,
        s.len() >= width ==> text::zero_padded(s, width) == s,
        s.len() <= width ==> text::zero_padded(s, width).len() == width,
        text::zero_padded(s, width).skip(text::zero_padded(s, width).len() - s.len()) == s,
        forall|i: int|
            0 <= i < text::zero_padded(s, width).len() - s.len() ==> #[trigger] text::zero_padded(
                s,
                width,
            )[i] == '0',
{
    let p = text::zero_padded(s, width);
    assert(p.skip(p.len() - s.len()) =~= s);
}

/// Nothing but white space is trimmed, and none is left at either end.
pub proof fn trimming_takes_white_ends_off(s: Seq<char>)
    ensures
        text::trimmed(s).len() > 0 ==> !text::is_white(text::trimmed(s)[0]) && !text::is_white(
            text::trimmed(s).last(),
        ),
        exists|a: int, b: int|
            #![trigger s.subrange(a, b)]
            {
                &&& 0 <= a <= b <= s.len()
                &&& text::trimmed(s) == s.subrange(a, b)
                &&& forall|i: int| 0 <= i < a || b <= i < s.len() ==> text::is_white(#[trigger] s[i])
            },
{
    let a = trimmed_start_is_a_tail(s);
    let rest = text::trimmed_start(s);
    let n = trimmed_end_is_a_head(rest);
    let t = text::trimmed(s);
    assert(t =~= s.subrange(a, a + n));
    assert forall|i: int| 0 <= i < a || a + n <= i < s.len() implies text::is_white(
        #[trigger] s[i],
    ) by {
        if i >= a + n {
            assert(rest[i - a] == s[i]);
        }
    }
    if t.len() > 0 {
        assert(t[0] == rest[0]);
    }
}

proof fn trimmed_start_is_a_tail(s: Seq<char>) -> (a: int)
    ensures
        0 <= a <= s.len(),
        text::trimmed_start(s) == s.skip(a),
        forall|i: int| 0 <= i < a ==> text::is_white(#[trigger] s[i]),
        text::trimmed_start(s).len() > 0 ==> !text::is_white(text::trimmed_start(s)[0]),
    decreases s.len(),
{
    if s.len() > 0 && text::is_white(s[0]) {
        let b = trimmed_start_is_a_tail(s.skip(1));
        assert(s.skip(1).skip(b) =~= s.skip(b + 1));
        assert forall|i: int| 0 <= i < b + 1 implies text::is_white(#[trigger] s[i]) by {
            if i > 0 {
                assert(s.skip(1)[i - 1] == s[i]);
            }
        }
        b + 1
    } else {
        assert(s.skip(0) =~= s);
        0
    }
}

proof fn trimmed_end_is_a_head(s: Seq<char>) -> (n: int)
    ensures
        0 <= n <= s.len(),
        text::trimmed_end(s) == s.take(n),
        forall|i: int| n <= i < s.len() ==> text::is_white(#[trigger] s[i]),
        text::trimmed_end(s).len() > 0 ==> !text::is_white(text::trimmed_end(s).last()),
    decreases s.len(),
{
    if s.len() > 0 && text::is_white(s.last()) {
        let m = trimmed_end_is_a_head(s.drop_last());
        assert(s.drop_last().take(m) =~= s.take(m));
        assert forall|i: int| m <= i < s.len() implies text::is_white(#[trigger] s[i]) by {
            if i < s.len() - 1 {
                assert(s.drop_last()[i] == s[i]);
            }
        }
        m
    } else {
        assert(s.take(s.len() as int) =~= s);
        s.len() as int
    }
}

/// The last position of a character is one of its positions, with none behind it; a text
/// without the character has none.
pub proof fn last_positions_are_last(s: Seq<char>, c: char)
    ensures
        text::last_position(s, c) >= 0 ==> text::last_position(s, c) < s.len()
            && s[text::last_position(s, c)] == c,
        text::last_position(s, c) >= -1,
        forall|i: int| text::last_position(s, c) < i < s.len() && i >= 0 ==> #[trigger] s[i] != c,
    decreases s.len(),
{
    if s.len() > 0 && s.last() != c {
        last_positions_are_last(s.drop_last(), c);
        assert forall|i: int|
            text::last_position(s, c) < i < s.len() && i >= 0 implies #[trigger] s[i] != c by {
            if i < s.len() - 1 {
                assert(s.drop_last()[i] == s[i]);
            }
        }
    }
}

/// What is found behind the last of some characters has none of them, and together with
/// what stands before it makes up the text.
pub proof fn texts_split_at_the_last_character(a: Seq<char>, b: Seq<char>, c: char)
    requires
        !b.contains(c),
    ensures
        text::split_last(a.push(c) + b, c) == Some((a, b)),
        text::after_last(a.push(c) + b, c) == b,
        text::split_last(b, c) is None,
        text::after_last(b, c) == b,
{
    let s = a.push(c) + b;
    last_positions_are_last(s, c);
    last_positions_are_last(b, c);
    let p = text::last_position(s, c);
    assert(s[a.len() as int] == c);
    if p > a.len() {
        assert(b[p - a.len() - 1] == c);
    }
    assert(p == a.len());
    assert(s.take(p) =~= a);
    assert(s.skip(p + 1) =~= b);
    if text::last_position(b, c) >= 0 {
        assert(b[text::last_position(b, c)] == c);
    }
}

/// A text is made up of its pieces with the separator between them, and no piece holds the
/// separator.
#[verifier::rlimit(50)]
pub proof fn pieces_make_up_the_text(s: Seq<char>, c: char)
    ensures
        text::joined(text::pieces(s, c), seq![c]) == s,
        text::pieces(s, c).len() > 0,
        forall|i: int| 0 <= i < text::pieces(s, c).len() ==> !(#[trigger] text::pieces(s, c)[i]).contains(c),
    decreases s.len(),
{
    last_positions_are_last(s, c);
    let i = text::last_position(s, c);
    let p = text::pieces(s, c);
    if i < 0 {
        assert(p == seq![s]);
        assert(!s.contains(c));
    } else {
        pieces_make_up_the_text(s.take(i), c);
        let before = text::pieces(s.take(i), c);
        let tail = s.skip(i + 1);
        assert(p == before.push(tail));
        assert(p.drop_last() =~= before);
        assert(s =~= s.take(i) + seq![c] + tail);
        assert(!tail.contains(c)) by {
            if tail.contains(c) {
                let k = choose|k: int| 0 <= k < tail.len() && tail[k] == c;
                assert(s[i + 1 + k] == c);
            }
        }
        assert forall|k: int| 0 <= k < p.len() implies !(#[trigger] p[k]).contains(c) by {
            if k < before.len() {
                assert(p[k] == before[k]);
            }
        }
    }
}

/// Texts without the separator that are joined by it are its pieces again.
pub proof fn joined_texts_are_the_pieces(p: Seq<Seq<char>>, c: char)
    requires
        p.len() > 0,
        forall|i: int| 0 <= i < p.len() ==> !(#[trigger] p[i]).contains(c),
    ensures
        text::pieces(text::joined(p, seq![c]), c) == p,
    decreases p.len(),
{
    let s = text::joined(p, seq![c]);
    last_positions_are_last(s, c);
    if p.len() == 1 {
        assert(!p[0].contains(c));
        if text::last_position(s, c) >= 0 {
            assert(s[text::last_position(s, c)] == c);
        }
        assert(text::pieces(s, c) =~= p);
    } else {
        let rest = p.drop_last();
        assert forall|i: int| 0 <= i < rest.len() implies !(#[trigger] rest[i]).contains(c) by {
            assert(rest[i] == p[i]);
        }
        joined_texts_are_the_pieces(rest, c);
        let head = text::joined(rest, seq![c]);
        let tail = p.last();
        assert(!p[p.len() - 1].contains(c));
        assert(s =~= head.push(c) + tail);
        texts_split_at_the_last_character(head, tail, c);
        assert(s.take(text::last_position(s, c)) == head);
        assert(text::pieces(s, c) =~= p);
    }
}

/// A text without a part is not changed by its replacement.
pub proof fn absent_parts_are_not_replaced(s: Seq<char>, from: Seq<char>, to: Seq<char>)
    requires
        forall|i: int| 0 <= i < s.len() ==> !#[trigger] text::stands_at(s, i, from),
    ensures
        text::replaced(s, from, to) == s,
    decreases s.len(),
{
    if s.len() > 0 && from.len() > 0 {
        assert(!text::stands_at(s, 0, from));
        let rest = s.skip(1);
        assert forall|i: int| 0 <= i < rest.len() implies !#[trigger] text::stands_at(
            rest,
            i,
            from,
        ) by {
            assert(!text::stands_at(s, i + 1, from));
            if text::stands_at(rest, i, from) {
                assert(s.subrange(i + 1, i + 1 + from.len()) =~= rest.subrange(i, i + from.len()));
            }
        }
        absent_parts_are_not_replaced(rest, from, to);
        assert(seq![s[0]] + rest =~= s);
    }
}

/// Replacing one character by another changes that character wherever it stands, and
/// nothing else.
pub proof fn characters_are_replaced_in_place(s: Seq<char>, a: char, b: char)
    ensures
        text::replaced(s, seq![a], seq![b]).len() == s.len(),
        forall|i: int|
            0 <= i < s.len() ==> #[trigger] text::replaced(s, seq![a], seq![b])[i] == if s[i] == a {
                b
            } else {
                s[i]
            },
    decreases s.len(),
{
    if s.len() > 0 {
        let rest = s.skip(1);
        characters_are_replaced_in_place(rest, a, b);
        let r = text::replaced(s, seq![a], seq![b]);
        assert(text::has_prefix(s, seq![a]) <==> s[0] == a) by {
            if s[0] == a {
                assert(s.subrange(0, 1) =~= seq![a]);
            } else if text::has_prefix(s, seq![a]) {
                assert(s.subrange(0, 1)[0] == s[0]);
            }
        }
        assert forall|i: int| 0 <= i < s.len() implies #[trigger] r[i] == if s[i] == a {
            b
        } else {
            s[i]
        } by {
            if i > 0 {
                assert(rest[i - 1] == s[i]);
                assert(r[i] == text::replaced(rest, seq![a], seq![b])[i - 1]);
            }
        }
    }
}

/// Texts are ordered by the first character in which they differ; a text comes before its
/// continuations.
pub proof fn order_is_that_of_the_first_difference(
    p: Seq<char>,
    x: char,
    a: Seq<char>,
    y: char,
    b: Seq<char>,
)
    ensures
        x < y ==> text::comes_before(p + seq![x] + a, p + seq![y] + b),
        text::comes_before(p, p + seq![y] + b),
    decreases p.len(),
{
    let (s, t) = (p + seq![x] + a, p + seq![y] + b);
    if p.len() > 0 {
        let rest = p.skip(1);
        order_is_that_of_the_first_difference(rest, x, a, y, b);
        assert(s.skip(1) =~= rest + seq![x] + a);
        assert(t.skip(1) =~= rest + seq![y] + b);
    }
}

/// A text has a prefix exactly if it is the prefix and something behind it; likewise for a
/// suffix.
pub proof fn prefixes_are_continued(s: Seq<char>, p: Seq<char>)
    ensures
        text::has_prefix(p + s, p),
        text::has_suffix(s + p, p),
        text::has_part(s + p, p),
        text::has_prefix(s, p) ==> s == p + s.skip(p.len() as int),
        text::has_suffix(s, p) ==> s == s.take(s.len() - p.len()) + p,
{
    assert((p + s).subrange(0, p.len() as int) =~= p);
    assert((s + p).subrange(s.len() as int, (s + p).len() as int) =~= p);
    assert(text::stands_at(s + p, s.len() as int, p));
    if text::has_prefix(s, p) {
        assert forall|i: int| 0 <= i < p.len() implies s[i] == p[i] by {
            assert(s.subrange(0, p.len() as int)[i] == s[i]);
        }
        assert(s =~= p + s.skip(p.len() as int));
    }
    if text::has_suffix(s, p) {
        let n = s.len() - p.len();
        assert forall|i: int| 0 <= i < p.len() implies s[n + i] == p[i] by {
            assert(s.subrange(n, n + p.len())[i] == s[n + i]);
        }
        assert(s =~= s.take(n) + p);
    }
}

} // verus!
