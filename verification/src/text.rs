//! Text as sequences of characters: searching, cutting, formatting and ordering.
use vstd::prelude::*;
use vstd::string::*;
use vstd::utf8::*;

verus! {

broadcast use vstd::string::group_string_axioms;

// ---- Standard library calls -------------------------------------------------

/// What `String::from_utf8_lossy` makes of some bytes.
pub uninterp spec fn utf8_lossy(b: Seq<u8>) -> Seq<char>;

/// What `str::to_lowercase` makes of a text.
pub uninterp spec fn lowercase(s: Seq<char>) -> Seq<char>;

/// What `str::to_uppercase` makes of a text.
pub uninterp spec fn uppercase(s: Seq<char>) -> Seq<char>;

/// `String::push` appends one character.
pub assume_specification[ String::push ](s: &mut String, ch: char)
    ensures
        final(s)@ == old(s)@.push(ch),
;

/// `String::from_utf8_lossy`: bytes that are UTF-8 are decoded as they stand;
/// others give the text that is named [`utf8_lossy`].
#[verifier::external_body]
pub(crate) fn from_utf8_lossy(b: &[u8]) -> (r: String)
    ensures
        r@ == utf8_lossy(b@),
        valid_utf8(b@) ==> r@ == decode_utf8(b@),
{
    String::from_utf8_lossy(b).into_owned()
}

/// `str::to_lowercase`: the Unicode lowercase of a text, named [`lowercase`].
#[verifier::external_body]
pub(crate) fn to_lowercase(s: &str) -> (r: String)
    ensures
        r@ == lowercase(s@),
{
    s.to_lowercase()
}

/// `str::to_uppercase`: the Unicode uppercase of a text, named [`uppercase`].
#[verifier::external_body]
pub(crate) fn to_uppercase(s: &str) -> (r: String)
    ensures
        r@ == uppercase(s@),
{
    s.to_uppercase()
}

// ---- Characters -------------------------------------------------------------

/// The texts of some strings.
pub open spec fn texts(s: Seq<String>) -> Seq<Seq<char>> {
    Seq::new(s.len(), |i: int| s[i]@)
}

/// The text of an optional string.
pub open spec fn opt_text(s: Option<String>) -> Option<Seq<char>> {
    match s {
        Some(t) => Some(t@),
        None => None,
    }
}

/// The characters of a text.
pub fn chars_of(s: &str) -> (r: Vec<char>)
    ensures
        r@ == s@,
{
    let mut out: Vec<char> = Vec::new();
    for c in it: s.chars()
        invariant
            it.seq() == s@,
            out@ == s@.take(it.index()),
    {
        out.push(c);
        assert(out@ =~= s@.take(it.index() + 1));
    }
    assert(s@.take(s@.len() as int) =~= s@);
    out
}

/// The text made of the characters from `from` up to `to`.
pub fn slice_text(v: &[char], from: usize, to: usize) -> (r: String)
    requires
        from <= to <= v.len(),
    ensures
        r@ == v@.subrange(from as int, to as int),
{
    let mut out = String::new();
    let mut i: usize = from;
    assert(out@ =~= v@.subrange(from as int, from as int));
    while i < to
        invariant
            from <= i <= to <= v.len(),
            out@ == v@.subrange(from as int, i as int),
        decreases to - i,
    {
        out.push(v[i]);
        i += 1;
        assert(out@ =~= v@.subrange(from as int, i as int));
    }
    out
}

/// A copy of a text.
pub fn copy(s: &str) -> (r: String)
    ensures
        r@ == s@,
{
    s.to_owned()
}

/// `a` followed by `b`.
pub fn concat(a: &str, b: &str) -> (r: String)
    ensures
        r@ == a@ + b@,
{
    let mut out = a.to_owned();
    out.append(b);
    out
}

/// `a`, `b` and `c` in a row.
pub fn concat3(a: &str, b: &str, c: &str) -> (r: String)
    ensures
        r@ == a@ + b@ + c@,
{
    let mut out = a.to_owned();
    out.append(b);
    out.append(c);
    out
}

// ---- Comparing and searching ------------------------------------------------

/// Whether `p` stands in `s` at position `i`.
pub open spec fn stands_at(s: Seq<char>, i: int, p: Seq<char>) -> bool {
    0 <= i && i + p.len() <= s.len() && s.subrange(i, i + p.len()) == p
}

pub open spec fn has_prefix(s: Seq<char>, p: Seq<char>) -> bool {
    stands_at(s, 0, p)
}

pub open spec fn has_suffix(s: Seq<char>, p: Seq<char>) -> bool {
    stands_at(s, s.len() - p.len(), p)
}

/// Whether `p` stands anywhere in `s`.
pub open spec fn has_part(s: Seq<char>, p: Seq<char>) -> bool {
    exists|i: int| #[trigger] stands_at(s, i, p)
}

/// Whether two character sequences agree from `i` on.
fn matches_at(s: &[char], i: usize, p: &[char]) -> (r: bool)
    ensures
        r == stands_at(s@, i as int, p@),
{
    if p.len() > s.len() || i > s.len() - p.len() {
        return false;
    }
    let mut k: usize = 0;
    while k < p.len()
        invariant
            k <= p.len(),
            i + p.len() <= s.len(),
            forall|j: int| 0 <= j < k ==> s@[i + j] == p@[j],
        decreases p.len() - k,
    {
        if s[i + k] != p[k] {
            proof {
                let sub = s@.subrange(i as int, i + p@.len());
                assert(sub[k as int] != p@[k as int]);
            }
            return false;
        }
        k += 1;
    }
    assert(s@.subrange(i as int, i + p@.len()) =~= p@);
    true
}

/// Whether two texts are equal.
pub fn same(a: &str, b: &str) -> (r: bool)
    ensures
        r == (a@ == b@),
{
    let x = chars_of(a);
    let y = chars_of(b);
    if x.len() != y.len() {
        return false;
    }
    let r = matches_at(&x, 0, &y);
    assert(x@.subrange(0, x@.len() as int) =~= x@);
    r
}

pub fn starts_with(s: &str, p: &str) -> (r: bool)
    ensures
        r == has_prefix(s@, p@),
{
    matches_at(&chars_of(s), 0, &chars_of(p))
}

pub fn ends_with(s: &str, p: &str) -> (r: bool)
    ensures
        r == has_suffix(s@, p@),
{
    let x = chars_of(s);
    let y = chars_of(p);
    y.len() <= x.len() && matches_at(&x, x.len() - y.len(), &y)
}

pub fn contains(s: &str, p: &str) -> (r: bool)
    ensures
        r == has_part(s@, p@),
{
    let x = chars_of(s);
    let y = chars_of(p);
    let mut i: usize = 0;
    while i <= x.len()
        invariant
            i <= x.len() + 1,
            x@ == s@,
            y@ == p@,
            forall|j: int| 0 <= j < i ==> !#[trigger] stands_at(s@, j, p@),
        decreases x.len() + 1 - i,
    {
        if matches_at(&x, i, &y) {
            return true;
        }
        if i == x.len() {
            return false;
        }
        i += 1;
    }
    false
}

/// `s` without its suffix `p`, if it has it.
pub fn strip_suffix(s: &str, p: &str) -> (r: Option<String>)
    ensures
        r is Some <==> has_suffix(s@, p@),
        r matches Some(t) ==> t@ == s@.take(s@.len() - p@.len()),
{
    let x = chars_of(s);
    let y = chars_of(p);
    if y.len() <= x.len() && matches_at(&x, x.len() - y.len(), &y) {
        let t = slice_text(&x, 0, x.len() - y.len());
        assert(t@ =~= s@.take(s@.len() - p@.len()));
        Some(t)
    } else {
        None
    }
}

/// `s` without its prefix `p`, if it has it.
pub fn strip_prefix(s: &str, p: &str) -> (r: Option<String>)
    ensures
        r is Some <==> has_prefix(s@, p@),
        r matches Some(t) ==> t@ == s@.skip(p@.len() as int),
{
    let x = chars_of(s);
    let y = chars_of(p);
    if matches_at(&x, 0, &y) {
        let t = slice_text(&x, y.len(), x.len());
        assert(t@ =~= s@.skip(p@.len() as int));
        Some(t)
    } else {
        None
    }
}

// ---- Numbers ----------------------------------------------------------------

/// The character of a digit in base 10 or 16. The digit ten is `A` or `a`.
pub open spec fn digit(d: int, upper: bool) -> char {
    if d < 10 {
        (48 + d) as char
    } else if upper {
        (55 + d) as char
    } else {
        (87 + d) as char
    }
}

/// The digits of a number in some base, without leading zeros.
pub open spec fn digits(n: nat, base: nat, upper: bool) -> Seq<char>
    decreases n,
{
    if base < 2 || n < base {
        seq![digit(n as int, upper)]
    } else {
        proof {
            assert(n / base < n) by (nonlinear_arith)
                requires
                    n >= base,
                    base >= 2,
            ;
        }
        digits(n / base, base, upper).push(digit((n % base) as int, upper))
    }
}

/// A number in decimal.
pub open spec fn decimal(n: int) -> Seq<char> {
    digits(n as nat, 10, true)
}

/// A number in upper-case hexadecimal.
pub open spec fn hex(n: int) -> Seq<char> {
    digits(n as nat, 16, true)
}

/// A number in lower-case hexadecimal.
pub open spec fn low_hex(n: int) -> Seq<char> {
    digits(n as nat, 16, false)
}

/// A text with zeros in front so that it has at least `width` characters.
pub open spec fn zero_padded(s: Seq<char>, width: int) -> Seq<char> {
    if s.len() >= width {
        s
    } else {
        Seq::new((width - s.len()) as nat, |i: int| '0') + s
    }
}

fn digit_char(d: u64, upper: bool) -> (r: char)
    requires
        d < 16,
    ensures
        r == digit(d as int, upper),
{
    if d < 10 {
        (48u8 + d as u8) as char
    } else if upper {
        (55u8 + d as u8) as char
    } else {
        (87u8 + d as u8) as char
    }
}

fn push_digits(out: &mut String, n: u64, base: u64, upper: bool)
    requires
        2 <= base <= 16,
    ensures
        final(out)@ == old(out)@ + digits(n as nat, base as nat, upper),
    decreases n,
{
    let ghost before = out@;
    if n < base {
        out.push(digit_char(n, upper));
        assert(out@ =~= before + digits(n as nat, base as nat, upper));
    } else {
        assert(n / base < n) by (nonlinear_arith)
            requires
                n >= base,
                base >= 2,
        ;
        push_digits(out, n / base, base, upper);
        out.push(digit_char(n % base, upper));
        assert(out@ =~= before + digits(n as nat, base as nat, upper));
    }
}

/// Writes a number in decimal.
pub fn to_decimal(n: u64) -> (r: String)
    ensures
        r@ == decimal(n as int),
{
    let mut out = String::new();
    push_digits(&mut out, n, 10, true);
    assert(out@ =~= decimal(n as int));
    out
}

/// Writes a number in upper-case hexadecimal.
pub fn to_hex(n: u64) -> (r: String)
    ensures
        r@ == hex(n as int),
{
    let mut out = String::new();
    push_digits(&mut out, n, 16, true);
    assert(out@ =~= hex(n as int));
    out
}

/// Writes a number in lower-case hexadecimal.
pub fn to_low_hex(n: u64) -> (r: String)
    ensures
        r@ == low_hex(n as int),
{
    let mut out = String::new();
    push_digits(&mut out, n, 16, false);
    assert(out@ =~= low_hex(n as int));
    out
}

/// Puts zeros in front of a text up to a width.
pub fn pad_zeros(s: &str, width: usize) -> (r: String)
    ensures
        r@ == zero_padded(s@, width as int),
{
    let v = chars_of(s);
    if v.len() >= width {
        return copy(s);
    }
    let zeros: usize = width - v.len();
    let mut out = String::new();
    let mut i: usize = 0;
    assert(out@ =~= Seq::new(0, |i: int| '0'));
    while i < zeros
        invariant
            i <= zeros,
            out@ == Seq::new(i as nat, |i: int| '0'),
        decreases zeros - i,
    {
        out.push('0');
        i += 1;
        assert(out@ =~= Seq::new(i as nat, |i: int| '0'));
    }
    out.append(s);
    out
}

// ---- White space ------------------------------------------------------------

/// Whether a character has the Unicode property White_Space.
pub open spec fn is_white(c: char) -> bool {
    let u = c as u32;
    ||| 0x09 <= u <= 0x0D
    ||| u == 0x20
    ||| u == 0x85
    ||| u == 0xA0
    ||| u == 0x1680
    ||| 0x2000 <= u <= 0x200A
    ||| u == 0x2028
    ||| u == 0x2029
    ||| u == 0x202F
    ||| u == 0x205F
    ||| u == 0x3000
}

fn white(c: char) -> (r: bool)
    ensures
        r == is_white(c),
{
    let u: u32 = c as u32;
    (0x09 <= u && u <= 0x0D) || u == 0x20 || u == 0x85 || u == 0xA0 || u == 0x1680 || (0x2000 <= u
        && u <= 0x200A) || u == 0x2028 || u == 0x2029 || u == 0x202F || u == 0x205F || u == 0x3000
}

/// A text without the white space at its end.
pub open spec fn trimmed_end(s: Seq<char>) -> Seq<char>
    decreases s.len(),
{
    if s.len() > 0 && is_white(s.last()) {
        trimmed_end(s.drop_last())
    } else {
        s
    }
}

/// A text without the white space at its start.
pub open spec fn trimmed_start(s: Seq<char>) -> Seq<char>
    decreases s.len(),
{
    if s.len() > 0 && is_white(s[0]) {
        trimmed_start(s.skip(1))
    } else {
        s
    }
}

/// A text without the white space around it.
pub open spec fn trimmed(s: Seq<char>) -> Seq<char> {
    trimmed_end(trimmed_start(s))
}

/// Removes the white space around a text.
pub fn trim(s: &str) -> (r: String)
    ensures
        r@ == trimmed(s@),
{
    let v = chars_of(s);
    let mut from: usize = 0;
    assert(v@.skip(0) =~= v@);
    while from < v.len() && white(v[from])
        invariant
            from <= v.len(),
            trimmed_start(v@.skip(from as int)) == trimmed_start(v@),
        decreases v.len() - from,
    {
        assert(v@.skip(from as int).skip(1) =~= v@.skip(from + 1));
        from += 1;
    }
    let ghost t = v@.skip(from as int);
    assert(trimmed_start(v@) == t);
    let mut to: usize = v.len();
    assert(v@.subrange(from as int, to as int) =~= t);
    while to > from && white(v[to - 1])
        invariant
            from <= to <= v.len(),
            trimmed_end(v@.subrange(from as int, to as int)) == trimmed_end(t),
        decreases to - from,
    {
        assert(v@.subrange(from as int, to as int).drop_last() =~= v@.subrange(
            from as int,
            to - 1,
        ));
        to -= 1;
    }
    slice_text(&v, from, to)
}

// ---- Lists of texts ---------------------------------------------------------

/// Whether a text is in a list.
pub fn contains_text(list: &Vec<String>, s: &str) -> (r: bool)
    ensures
        r == texts(list@).contains(s@),
{
    let mut i: usize = 0;
    while i < list.len()
        invariant
            i <= list.len(),
            forall|k: int| 0 <= k < i ==> texts(list@)[k] != s@,
        decreases list.len() - i,
    {
        if same(list[i].as_str(), s) {
            assert(texts(list@)[i as int] == s@);
            return true;
        }
        i += 1;
    }
    false
}

/// Whether text `a` comes before text `b`: at the first place where they differ it
/// ends or has the smaller character.
pub open spec fn comes_before(a: Seq<char>, b: Seq<char>) -> bool
    decreases a.len(),
{
    if b.len() == 0 {
        false
    } else if a.len() == 0 {
        true
    } else if a[0] != b[0] {
        a[0] < b[0]
    } else {
        comes_before(a.skip(1), b.skip(1))
    }
}

/// Whether every text comes before the next ones.
pub open spec fn is_ascending(s: Seq<Seq<char>>) -> bool {
    forall|i: int, j: int| 0 <= i < j < s.len() ==> comes_before(#[trigger] s[i], #[trigger] s[j])
}

pub proof fn order_is_irreflexive(a: Seq<char>)
    ensures
        !comes_before(a, a),
    decreases a.len(),
{
    if a.len() > 0 {
        order_is_irreflexive(a.skip(1));
    }
}

pub proof fn order_is_transitive(a: Seq<char>, b: Seq<char>, c: Seq<char>)
    requires
        comes_before(a, b),
        comes_before(b, c),
    ensures
        comes_before(a, c),
    decreases a.len(),
{
    if a.len() > 0 && a[0] == b[0] && b[0] == c[0] {
        order_is_transitive(a.skip(1), b.skip(1), c.skip(1));
    }
}

pub proof fn order_is_total(a: Seq<char>, b: Seq<char>)
    ensures
        a == b || comes_before(a, b) || comes_before(b, a),
    decreases a.len(),
{
    if a.len() > 0 && b.len() > 0 && a[0] == b[0] {
        order_is_total(a.skip(1), b.skip(1));
        if a.skip(1) == b.skip(1) {
            assert(a =~= seq![a[0]] + a.skip(1));
            assert(b =~= seq![b[0]] + b.skip(1));
        }
    } else if a.len() == 0 && b.len() == 0 {
        assert(a =~= b);
    }
}

/// Whether one text comes before another.
pub fn is_before(a: &str, b: &str) -> (r: bool)
    ensures
        r == comes_before(a@, b@),
{
    let x = chars_of(a);
    let y = chars_of(b);
    let mut i: usize = 0;
    assert(x@.skip(0) =~= x@);
    assert(y@.skip(0) =~= y@);
    while i < x.len() && i < y.len()
        invariant
            i <= x.len(),
            i <= y.len(),
            x@ == a@,
            y@ == b@,
            comes_before(x@.skip(i as int), y@.skip(i as int)) == comes_before(x@, y@),
        decreases x.len() - i,
    {
        let ghost (xs, ys) = (x@.skip(i as int), y@.skip(i as int));
        if x[i] != y[i] {
            return x[i] < y[i];
        }
        assert(xs.skip(1) =~= x@.skip(i + 1));
        assert(ys.skip(1) =~= y@.skip(i + 1));
        i += 1;
    }
    i < y.len()
}

/// Adds a text to an ascending list of texts, unless it is there already.
pub fn insert_ascending(list: &mut Vec<String>, s: String)
    requires
        is_ascending(texts(old(list)@)),
    ensures
        is_ascending(texts(final(list)@)),
        forall|t: Seq<char>| #[trigger]
            texts(final(list)@).contains(t) <==> t == s@ || texts(old(list)@).contains(t),
{
    let ghost before = texts(list@);
    let mut i: usize = 0;
    while i < list.len() && is_before(list[i].as_str(), s.as_str())
        invariant
            i <= list.len(),
            before == texts(list@),
            forall|k: int| 0 <= k < i ==> comes_before(#[trigger] before[k], s@),
        decreases list.len() - i,
    {
        i += 1;
    }
    if i < list.len() && same(list[i].as_str(), s.as_str()) {
        assert(before[i as int] == s@);
        return;
    }
    proof {
        assert forall|k: int| i <= k < before.len() implies comes_before(s@, #[trigger] before[k]) by {
            order_is_total(before[i as int], s@);
            if k > i {
                order_is_transitive(s@, before[i as int], before[k]);
            }
        }
    }
    list.insert(i, s);
    let ghost after = texts(list@);
    proof {
        assert(after =~= before.insert(i as int, s@));
        assert forall|a: int, b: int| 0 <= a < b < after.len() implies comes_before(
            #[trigger] after[a],
            #[trigger] after[b],
        ) by {
            let (x, y) = (if a < i { a } else { a - 1 }, if b < i { b } else { b - 1 });
            if a != i && b != i {
                assert(after[a] == before[x] && after[b] == before[y]);
            } else if a == i {
                assert(after[b] == before[y]);
            } else {
                assert(after[a] == before[x]);
            }
        }
        assert forall|t: Seq<char>| #[trigger] after.contains(t) <==> t == s@ || before.contains(
            t,
        ) by {
            if after.contains(t) {
                let k = choose|k: int| 0 <= k < after.len() && after[k] == t;
                if k < i {
                    assert(before[k] == t);
                } else if k > i {
                    assert(before[k - 1] == t);
                }
            }
            if t == s@ {
                assert(after[i as int] == t);
            }
            if before.contains(t) {
                let k = choose|k: int| 0 <= k < before.len() && before[k] == t;
                if k < i {
                    assert(after[k] == t);
                } else {
                    assert(after[k + 1] == t);
                }
            }
        }
    }
}

// ---- Cutting and replacing --------------------------------------------------

/// Position of the last `c` in a text, or -1.
pub open spec fn last_position(s: Seq<char>, c: char) -> int
    decreases s.len(),
{
    if s.len() == 0 {
        -1
    } else if s.last() == c {
        s.len() - 1
    } else {
        last_position(s.drop_last(), c)
    }
}

/// The parts of a text before and after its last `c`.
pub open spec fn split_last(s: Seq<char>, c: char) -> Option<(Seq<char>, Seq<char>)> {
    if last_position(s, c) < 0 {
        None
    } else {
        Some((s.take(last_position(s, c)), s.skip(last_position(s, c) + 1)))
    }
}

/// What a text has after its last `c`; all of it if there is none.
pub open spec fn after_last(s: Seq<char>, c: char) -> Seq<char> {
    match split_last(s, c) {
        Some((_, tail)) => tail,
        None => s,
    }
}

pub proof fn last_position_is_in_range(s: Seq<char>, c: char)
    ensures
        -1 <= last_position(s, c) < s.len(),
        last_position(s, c) >= 0 ==> s[last_position(s, c)] == c,
    decreases s.len(),
{
    if s.len() > 0 && s.last() != c {
        last_position_is_in_range(s.drop_last(), c);
    }
}

/// Splits a text at its last `c`.
pub fn rsplit_once(s: &str, c: char) -> (r: Option<(String, String)>)
    ensures
        match r {
            Some((head, tail)) => split_last(s@, c) == Some((head@, tail@)),
            None => split_last(s@, c) is None,
        },
{
    let v = chars_of(s);
    let mut i: usize = v.len();
    assert(v@.take(v@.len() as int) =~= v@);
    while i > 0
        invariant
            i <= v.len(),
            v@ == s@,
            last_position(v@.take(i as int), c) == last_position(s@, c),
        decreases i,
    {
        assert(v@.take(i as int).drop_last() =~= v@.take(i - 1));
        if v[i - 1] == c {
            let head = slice_text(&v, 0, i - 1);
            let tail = slice_text(&v, i, v.len());
            assert(head@ =~= s@.take(i - 1));
            assert(tail@ =~= s@.skip(i as int));
            return Some((head, tail));
        }
        i -= 1;
    }
    None
}

/// The part of a text after its last `c`; all of it if there is none.
pub fn tail_after(s: &str, c: char) -> (r: String)
    ensures
        r@ == after_last(s@, c),
{
    match rsplit_once(s, c) {
        Some((_, tail)) => tail,
        None => copy(s),
    }
}

/// A text with every occurrence of `from`, found from the left, replaced by `to`.
pub open spec fn replaced(s: Seq<char>, from: Seq<char>, to: Seq<char>) -> Seq<char>
    decreases s.len(),
{
    if s.len() == 0 || from.len() == 0 {
        s
    } else if has_prefix(s, from) {
        to + replaced(s.skip(from.len() as int), from, to)
    } else {
        seq![s[0]] + replaced(s.skip(1), from, to)
    }
}

/// Replaces every occurrence of a text that is not empty.
pub fn replace(s: &str, from: &str, to: &str) -> (r: String)
    requires
        from@.len() > 0,
    ensures
        r@ == replaced(s@, from@, to@),
{
    let v = chars_of(s);
    let f = chars_of(from);
    let mut out = String::new();
    let mut i: usize = 0;
    assert(v@.skip(0) =~= v@);
    assert(out@ + replaced(v@.skip(0), f@, to@) =~= replaced(s@, f@, to@));
    while i < v.len()
        invariant
            i <= v.len(),
            v@ == s@,
            f@ == from@,
            f@.len() > 0,
            out@ + replaced(v@.skip(i as int), f@, to@) == replaced(s@, f@, to@),
        decreases v.len() - i,
    {
        let ghost rest = v@.skip(i as int);
        let ghost done = out@;
        let found = matches_at(&v, i, &f);
        proof {
            if i + f@.len() <= v@.len() {
                assert(rest.subrange(0, f@.len() as int) =~= v@.subrange(i as int, i + f@.len()));
            }
            assert(found == has_prefix(rest, f@));
        }
        if found {
            assert(rest.skip(f@.len() as int) =~= v@.skip(i + f@.len()));
            out.append(to);
            i += f.len();
            assert(out@ + replaced(v@.skip(i as int), f@, to@) =~= done + (to@ + replaced(
                v@.skip(i as int),
                f@,
                to@,
            )));
        } else {
            assert(rest.skip(1) =~= v@.skip(i + 1));
            out.push(v[i]);
            i += 1;
            assert(out@ + replaced(v@.skip(i as int), f@, to@) =~= done + (seq![rest[0]]
                + replaced(v@.skip(i as int), f@, to@)));
        }
    }
    assert(v@.skip(i as int) =~= Seq::empty());
    assert(out@ + Seq::<char>::empty() =~= out@);
    out
}

// ---- Pieces -----------------------------------------------------------------

/// The pieces of a text between the occurrences of a character.
pub open spec fn pieces(s: Seq<char>, c: char) -> Seq<Seq<char>>
    decreases s.len(),
{
    let i = last_position(s, c);
    if i < 0 || i >= s.len() {
        seq![s]
    } else {
        pieces(s.take(i), c).push(s.skip(i + 1))
    }
}

/// Texts with a separator between them.
pub open spec fn joined(s: Seq<Seq<char>>, separator: Seq<char>) -> Seq<char>
    decreases s.len(),
{
    if s.len() == 0 {
        Seq::empty()
    } else if s.len() == 1 {
        s[0]
    } else {
        joined(s.drop_last(), separator) + separator + s.last()
    }
}

/// Splits a text at every occurrence of a character.
pub fn split(s: &str, c: char) -> (r: Vec<String>)
    ensures
        texts(r@) == pieces(s@, c),
        r@.len() >= 1,
    decreases s@.len(),
{
    proof {
        last_position_is_in_range(s@, c);
    }
    match rsplit_once(s, c) {
        None => {
            let mut out: Vec<String> = Vec::new();
            out.push(copy(s));
            assert(texts(out@) =~= pieces(s@, c));
            out
        },
        Some((head, tail)) => {
            let ghost before = tail@;
            let mut out = split(head.as_str(), c);
            let ghost first = out@;
            out.push(tail);
            assert(texts(out@) =~= texts(first).push(before));
            out
        },
    }
}

/// Joins the texts from `from` on.
pub fn join_from(list: &Vec<String>, from: usize, separator: &str) -> (r: String)
    requires
        from <= list@.len(),
    ensures
        r@ == joined(texts(list@).skip(from as int), separator@),
{
    let mut out = String::new();
    let mut i: usize = from;
    let ghost all = texts(list@).skip(from as int);
    while i < list.len()
        invariant
            from <= i <= list.len(),
            all == texts(list@).skip(from as int),
            out@ == joined(all.take(i - from), separator@),
        decreases list.len() - i,
    {
        let ghost next = all.take(i - from + 1);
        assert(next.drop_last() =~= all.take(i - from));
        if i > from {
            out.append(separator);
        }
        out.append(list[i].as_str());
        assert(next.last() == list@[i as int]@);
        if i == from {
            assert(out@ =~= next[0]);
        }
        i += 1;
    }
    assert(all.take(i - from) =~= all);
    out
}

/// Copies an optional text.
pub fn copy_option(s: &Option<String>) -> (r: Option<String>)
    ensures
        opt_text(r) == opt_text(*s),
{
    match s {
        Some(t) => Some(self::copy(t.as_str())),
        None => None,
    }
}

/// Copies a list of texts.
pub fn copy_list(s: &Vec<String>) -> (r: Vec<String>)
    ensures
        texts(r@) == texts(s@),
{
    let mut out: Vec<String> = Vec::new();
    let mut i: usize = 0;
    while i < s.len()
        invariant
            i <= s.len(),
            out@.len() == i,
            forall|k: int| 0 <= k < i ==> (#[trigger] out@[k])@ == s@[k]@,
        decreases s.len() - i,
    {
        out.push(copy(s[i].as_str()));
        i += 1;
    }
    assert(texts(out@) =~= texts(s@));
    out
}

} // verus!
