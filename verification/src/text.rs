//! Text operations used by the evaluator: building strings, decimal
//! numerals, and the string methods of the language.

use vstd::prelude::*;

verus! {

/// Appends a character (`String::push`).
#[verifier::external_body]
pub(crate) fn push_char(s: &mut String, c: char)
    ensures
        final(s)@ == old(s)@.push(c),
{
    s.push(c);
}

/// Appends text.
pub(crate) fn push_text(s: &mut String, t: &str)
    ensures
        final(s)@ == old(s)@ + t@,
{
    s.append(t);
}

/// The decimal numeral of a natural number.
pub open spec fn decimal(n: nat) -> Seq<char>
    decreases n,
{
    if n < 10 {
        seq![digit_char(n)]
    } else {
        decimal(n / 10).push(digit_char(n % 10))
    }
}

/// The character of a decimal digit.
pub open spec fn digit_char(d: nat) -> char {
    if d == 0 {
        '0'
    } else if d == 1 {
        '1'
    } else if d == 2 {
        '2'
    } else if d == 3 {
        '3'
    } else if d == 4 {
        '4'
    } else if d == 5 {
        '5'
    } else if d == 6 {
        '6'
    } else if d == 7 {
        '7'
    } else if d == 8 {
        '8'
    } else {
        '9'
    }
}

fn digit(d: usize) -> (c: char)
    requires
        d < 10,
    ensures
        c == digit_char(d as nat),
{
    if d == 0 {
        '0'
    } else if d == 1 {
        '1'
    } else if d == 2 {
        '2'
    } else if d == 3 {
        '3'
    } else if d == 4 {
        '4'
    } else if d == 5 {
        '5'
    } else if d == 6 {
        '6'
    } else if d == 7 {
        '7'
    } else if d == 8 {
        '8'
    } else {
        '9'
    }
}

/// The decimal numeral of `n`.
pub(crate) fn decimal_text(n: usize) -> (r: String)
    ensures
        r@ == decimal(n as nat),
    decreases n,
{
    if n < 10 {
        let mut s = String::new();
        push_char(&mut s, digit(n));
        assert(s@ =~= decimal(n as nat));
        s
    } else {
        let mut s = decimal_text(n / 10);
        push_char(&mut s, digit(n % 10));
        s
    }
}

/// The characters of a text.
pub(crate) fn chars_of(s: &str) -> (r: Vec<char>)
    ensures
        r@ == s@,
{
    let n = s.unicode_len();
    let mut out: Vec<char> = Vec::new();
    for i in 0..n
        invariant
            n == s@.len(),
            out@ == s@.subrange(0, i as int),
    {
        out.push(s.get_char(i));
        assert(out@ =~= s@.subrange(0, i + 1));
    }
    assert(out@ =~= s@);
    out
}

/// The text made of some characters.
pub(crate) fn text_of(chars: &Vec<char>, from: usize, to: usize) -> (r: String)
    requires
        from <= to <= chars@.len(),
    ensures
        r@ == chars@.subrange(from as int, to as int),
{
    let mut out = String::new();
    let mut i: usize = from;
    while i < to
        invariant
            from <= i <= to <= chars@.len(),
            out@ == chars@.subrange(from as int, i as int),
        decreases to - i,
    {
        push_char(&mut out, chars[i]);
        assert(out@ =~= chars@.subrange(from as int, i + 1));
        i = i + 1;
    }
    out
}

/// Number of bytes of the UTF-8 encoding of a text (`str::len`).
pub(crate) fn byte_length(s: &str) -> (n: usize)
    ensures
        n == vstd::utf8::encode_utf8(s@).len() as usize,
{
    s.len()
}

/// The characters of a text in reverse order.
pub(crate) fn reversed(s: &str) -> (r: String)
    ensures
        r@ == s@.reverse(),
{
    let chars = chars_of(s);
    let n = chars.len();
    let mut out = String::new();
    let mut i: usize = n;
    while i > 0
        invariant
            i <= n == chars@.len(),
            chars@ == s@,
            out@ == s@.subrange(i as int, n as int).reverse(),
        decreases i,
    {
        push_char(&mut out, chars[i - 1]);
        assert(out@ =~= s@.subrange(i - 1, n as int).reverse());
        i = i - 1;
    }
    assert(s@.subrange(0, n as int) =~= s@);
    out
}

/// `t` occurs in `s`.
pub open spec fn occurs_in(s: Seq<char>, t: Seq<char>) -> bool {
    exists|i: int| 0 <= i && i + t.len() <= s.len() && #[trigger] s.subrange(i, i + t.len()) == t
}

/// `s` begins with `t`.
pub open spec fn begins_with(s: Seq<char>, t: Seq<char>) -> bool {
    t.len() <= s.len() && s.subrange(0, t.len() as int) == t
}

/// `s` ends with `t`.
pub open spec fn finishes_with(s: Seq<char>, t: Seq<char>) -> bool {
    t.len() <= s.len() && s.subrange(s.len() - t.len(), s.len() as int) == t
}

/// Whether `t` stands in `s` at position `at`.
fn chars_match(s: &Vec<char>, at: usize, t: &Vec<char>) -> (r: bool)
    requires
        at + t@.len() <= s@.len(),
    ensures
        r == (s@.subrange(at as int, at + t@.len()) == t@),
{
    let n = t.len();
    let m = s.len();
    let mut k: usize = 0;
    while k < n
        invariant
            n == t@.len(),
            m == s@.len(),
            k <= n,
            at + n <= m,
            forall|j: int| 0 <= j < k ==> s@[at + j] == t@[j],
        decreases n - k,
    {
        if s[at + k] != t[k] {
            assert(s@.subrange(at as int, at + n)[k as int] != t@[k as int]);
            return false;
        }
        k = k + 1;
    }
    assert(s@.subrange(at as int, at + n) =~= t@);
    true
}

/// Whether two texts are equal.
pub(crate) fn same_text(a: &str, b: &str) -> (r: bool)
    ensures
        r == (a@ == b@),
{
    let ac = chars_of(a);
    let bc = chars_of(b);
    if ac.len() != bc.len() {
        return false;
    }
    let r = chars_match(&ac, 0, &bc);
    assert(ac@.subrange(0, bc@.len() as int) =~= ac@);
    r
}

/// Whether `t` occurs in `s` (`str::contains` with a text pattern).
pub(crate) fn text_contains(s: &str, t: &str) -> (r: bool)
    ensures
        r == occurs_in(s@, t@),
{
    let sc = chars_of(s);
    let tc = chars_of(t);
    if tc.len() > sc.len() {
        return false;
    }
    let last = sc.len() - tc.len();
    let mut at: usize = 0;
    while at <= last
        invariant
            sc@ == s@,
            tc@ == t@,
            last + tc@.len() == sc@.len(),
            at <= last + 1,
            forall|i: int| 0 <= i < at ==> #[trigger] s@.subrange(i, i + t@.len()) != t@,
        decreases last + 1 - at,
    {
        if chars_match(&sc, at, &tc) {
            assert(s@.subrange(at as int, at + t@.len()) == t@);
            return true;
        }
        if at == last {
            return false;
        }
        at = at + 1;
    }
    false
}

/// Whether `s` begins with `t` (`str::starts_with`).
pub(crate) fn text_starts_with(s: &str, t: &str) -> (r: bool)
    ensures
        r == begins_with(s@, t@),
{
    let sc = chars_of(s);
    let tc = chars_of(t);
    if tc.len() > sc.len() {
        return false;
    }
    chars_match(&sc, 0, &tc)
}

/// Whether `s` ends with `t` (`str::ends_with`).
pub(crate) fn text_ends_with(s: &str, t: &str) -> (r: bool)
    ensures
        r == finishes_with(s@, t@),
{
    let sc = chars_of(s);
    let tc = chars_of(t);
    if tc.len() > sc.len() {
        return false;
    }
    chars_match(&sc, sc.len() - tc.len(), &tc)
}

/// What `str::to_uppercase` gives for a text.
pub uninterp spec fn uppercase(s: Seq<char>) -> Seq<char>;

/// What `str::to_lowercase` gives for a text.
pub uninterp spec fn lowercase(s: Seq<char>) -> Seq<char>;

/// White space as `char::is_whitespace` reads it: the characters with the
/// Unicode `White_Space` property.
pub open spec fn white_space(c: char) -> bool {
    let u = c as u32;
    ||| 0x9 <= u <= 0xd
    ||| u == 0x20
    ||| u == 0x85
    ||| u == 0xa0
    ||| u == 0x1680
    ||| 0x2000 <= u <= 0x200a
    ||| u == 0x2028
    ||| u == 0x2029
    ||| u == 0x202f
    ||| u == 0x205f
    ||| u == 0x3000
}

/// `s` without its leading white space.
pub open spec fn trim_start(s: Seq<char>) -> Seq<char>
    decreases s.len(),
{
    if s.len() > 0 && white_space(s[0]) {
        trim_start(s.drop_first())
    } else {
        s
    }
}

/// `s` without its trailing white space.
pub open spec fn trim_end(s: Seq<char>) -> Seq<char>
    decreases s.len(),
{
    if s.len() > 0 && white_space(s.last()) {
        trim_end(s.drop_last())
    } else {
        s
    }
}

/// `s` without leading and trailing white space (`str::trim`).
pub open spec fn trimmed(s: Seq<char>) -> Seq<char> {
    trim_end(trim_start(s))
}

/// Position of the first occurrence of `t` in `s`, or -1 when there is none.
pub open spec fn first_occurrence(s: Seq<char>, t: Seq<char>) -> int
    decreases s.len(),
{
    if t.len() == 0 {
        0
    } else if s.len() < t.len() {
        -1
    } else if s.take(t.len() as int) == t {
        0
    } else {
        let r = first_occurrence(s.drop_first(), t);
        if r < 0 {
            -1
        } else {
            r + 1
        }
    }
}

pub proof fn lemma_first_occurrence(s: Seq<char>, t: Seq<char>)
    ensures
        -1 <= first_occurrence(s, t),
        first_occurrence(s, t) >= 0 ==> first_occurrence(s, t) + t.len() <= s.len(),
    decreases s.len(),
{
    if t.len() > 0 && s.len() >= t.len() && s.take(t.len() as int) != t {
        lemma_first_occurrence(s.drop_first(), t);
    }
}

/// The pieces of `s` between the occurrences of `sep`, found from the left
/// without overlapping (`str::split`); an empty separator occurs before and
/// after every character.
pub open spec fn split_pieces(s: Seq<char>, sep: Seq<char>) -> Seq<Seq<char>>
    decreases s.len(),
{
    if sep.len() == 0 {
        seq![Seq::empty()] + s.map_values(|c: char| seq![c]) + seq![Seq::empty()]
    } else {
        let p = first_occurrence(s, sep);
        if p < 0 {
            seq![s]
        } else {
            proof {
                lemma_first_occurrence(s, sep);
            }
            seq![s.take(p)] + split_pieces(s.skip(p + sep.len()), sep)
        }
    }
}

/// Texts joined, with `sep` between each two.
pub open spec fn join_texts(pieces: Seq<Seq<char>>, sep: Seq<char>) -> Seq<char>
    decreases pieces.len(),
{
    if pieces.len() == 0 {
        Seq::empty()
    } else if pieces.len() == 1 {
        pieces[0]
    } else {
        join_texts(pieces.drop_last(), sep) + sep + pieces.last()
    }
}

/// `s` with every occurrence of `from` replaced by `to` (`str::replace`): the
/// pieces that splitting at `from` gives, joined with `to`.
pub open spec fn replaced(s: Seq<char>, from: Seq<char>, to: Seq<char>) -> Seq<char> {
    join_texts(split_pieces(s, from), to)
}

/// The text in upper case (`str::to_uppercase`).
#[verifier::external_body]
pub(crate) fn to_upper(s: &str) -> (r: String)
    ensures
        r@ == uppercase(s@),
{
    s.to_uppercase()
}

/// The text in lower case (`str::to_lowercase`).
#[verifier::external_body]
pub(crate) fn to_lower(s: &str) -> (r: String)
    ensures
        r@ == lowercase(s@),
{
    s.to_lowercase()
}

/// Whether a character is white space.
fn is_white_space(c: char) -> (r: bool)
    ensures
        r == white_space(c),
{
    let u = c as u32;
    (0x9 <= u && u <= 0xd) || u == 0x20 || u == 0x85 || u == 0xa0 || u == 0x1680 || (0x2000 <= u
        && u <= 0x200a) || u == 0x2028 || u == 0x2029 || u == 0x202f || u == 0x205f || u == 0x3000
}

proof fn lemma_trim_start(s: Seq<char>, i: int)
    requires
        0 <= i <= s.len(),
        forall|j: int| 0 <= j < i ==> white_space(#[trigger] s[j]),
    ensures
        trim_start(s) == trim_start(s.skip(i)),
    decreases i,
{
    if i > 0 {
        assert forall|j: int| 0 <= j < i - 1 implies white_space(#[trigger] s.drop_first()[j]) by {
            assert(s.drop_first()[j] == s[j + 1]);
        }
        lemma_trim_start(s.drop_first(), i - 1);
        assert(s.drop_first().skip(i - 1) =~= s.skip(i));
    } else {
        assert(s.skip(0) =~= s);
    }
}

proof fn lemma_trim_end(s: Seq<char>, e: int)
    requires
        0 <= e <= s.len(),
        forall|j: int| e <= j < s.len() ==> white_space(#[trigger] s[j]),
    ensures
        trim_end(s) == trim_end(s.take(e)),
    decreases s.len() - e,
{
    if e < s.len() {
        assert forall|j: int| e <= j < s.len() - 1 implies white_space(#[trigger] s.drop_last()[j]) by {
            assert(s.drop_last()[j] == s[j]);
        }
        lemma_trim_end(s.drop_last(), e);
        assert(s.drop_last().take(e) =~= s.take(e));
    } else {
        assert(s.take(e) =~= s);
    }
}

/// The text without leading and trailing white space (`str::trim`).
pub(crate) fn trim_text(s: &str) -> (r: String)
    ensures
        r@ == trimmed(s@),
{
    let cs = chars_of(s);
    let n = cs.len();
    let mut a: usize = 0;
    while a < n && is_white_space(cs[a])
        invariant
            cs@ == s@,
            n == s@.len(),
            a <= n,
            forall|j: int| 0 <= j < a ==> white_space(#[trigger] s@[j]),
        decreases n - a,
    {
        a = a + 1;
    }
    let mut b: usize = n;
    while b > a && is_white_space(cs[b - 1])
        invariant
            cs@ == s@,
            n == s@.len(),
            a <= b <= n,
            forall|j: int| b <= j < n ==> white_space(#[trigger] s@[j]),
        decreases b - a,
    {
        b = b - 1;
    }
    proof {
        lemma_trim_start(s@, a as int);
        let t = s@.skip(a as int);
        if a < n {
            assert(!white_space(t[0]));
        }
        assert(trim_start(t) == t);
        assert forall|j: int| b - a <= j < t.len() implies white_space(#[trigger] t[j]) by {
            assert(t[j] == s@[a + j]);
        }
        lemma_trim_end(t, b - a);
        let u = t.take(b - a);
        if b > a {
            assert(u.last() == s@[b - 1]);
        }
        assert(trim_end(u) == u);
        assert(u =~= s@.subrange(a as int, b as int));
    }
    text_of(&cs, a, b)
}

/// The texts of some strings.
pub open spec fn texts_of(v: Seq<String>) -> Seq<Seq<char>> {
    v.map_values(|p: String| p@)
}

proof fn lemma_first_occurrence_at(t: Seq<char>, sep: Seq<char>, k: int)
    requires
        sep.len() > 0,
        0 <= k,
        k + sep.len() <= t.len(),
        t.subrange(k, k + sep.len()) == sep,
        forall|j: int| 0 <= j < k ==> #[trigger] t.subrange(j, j + sep.len()) != sep,
    ensures
        first_occurrence(t, sep) == k,
    decreases k,
{
    if k == 0 {
        assert(t.take(sep.len() as int) == t.subrange(0, sep.len() as int));
    } else {
        let j0: int = 0;
        assert(t.subrange(j0, j0 + sep.len()) != sep);
        assert(t.subrange(j0, j0 + sep.len()) == t.subrange(0, sep.len() as int));
        assert(t.take(sep.len() as int) == t.subrange(0, sep.len() as int));
        let d = t.drop_first();
        assert forall|j: int| 0 <= j < k - 1 implies #[trigger] d.subrange(j, j + sep.len()) != sep by {
            assert(d.subrange(j, j + sep.len()) =~= t.subrange(j + 1, j + 1 + sep.len()));
        }
        assert(d.subrange(k - 1, k - 1 + sep.len()) =~= t.subrange(k, k + sep.len()));
        lemma_first_occurrence_at(d, sep, k - 1);
    }
}

proof fn lemma_first_occurrence_none(t: Seq<char>, sep: Seq<char>)
    requires
        sep.len() > 0,
        forall|j: int| 0 <= j && j + sep.len() <= t.len() ==> #[trigger] t.subrange(j, j + sep.len()) != sep,
    ensures
        first_occurrence(t, sep) == -1,
    decreases t.len(),
{
    if t.len() >= sep.len() {
        let j0: int = 0;
        assert(t.subrange(j0, j0 + sep.len()) != sep);
        assert(t.subrange(j0, j0 + sep.len()) == t.subrange(0, sep.len() as int));
        assert(t.take(sep.len() as int) == t.subrange(0, sep.len() as int));
        let d = t.drop_first();
        assert forall|j: int| 0 <= j && j + sep.len() <= d.len() implies #[trigger] d.subrange(
            j,
            j + sep.len(),
        ) != sep by {
            assert(d.subrange(j, j + sep.len()) =~= t.subrange(j + 1, j + 1 + sep.len()));
        }
        lemma_first_occurrence_none(d, sep);
    }
}

/// Where `sep` first occurs in `s` at or after `from`.
fn find_from(cs: &Vec<char>, from: usize, ts: &Vec<char>) -> (r: Option<usize>)
    requires
        from <= cs@.len(),
        ts@.len() > 0,
    ensures
        match r {
            Some(q) => from <= q && q + ts@.len() <= cs@.len() && first_occurrence(
                cs@.skip(from as int),
                ts@,
            ) == q - from,
            None => first_occurrence(cs@.skip(from as int), ts@) == -1,
        },
{
    let n = cs.len();
    let m = ts.len();
    let ghost t = cs@.skip(from as int);
    if m > n - from {
        proof {
            lemma_first_occurrence_none(t, ts@);
        }
        return None;
    }
    let last = n - m;
    let mut i: usize = from;
    while i <= last
        invariant
            n == cs@.len(),
            m == ts@.len(),
            m > 0,
            last + m == n,
            from <= i <= last + 1,
            t == cs@.skip(from as int),
            forall|j: int| 0 <= j < i - from ==> #[trigger] t.subrange(j, j + m) != ts@,
        decreases last + 1 - i,
    {
        let hit = chars_match(cs, i, ts);
        assert(t.subrange(i - from, i - from + m) =~= cs@.subrange(i as int, i + m));
        if hit {
            proof {
                lemma_first_occurrence_at(t, ts@, i - from);
            }
            return Some(i);
        }
        if i == last {
            proof {
                lemma_first_occurrence_none(t, ts@);
            }
            return None;
        }
        i = i + 1;
    }
    proof {
        lemma_first_occurrence_none(t, ts@);
    }
    None
}

/// The pieces of `s` between occurrences of `sep` (`str::split`).
pub(crate) fn split_text(s: &str, sep: &str) -> (r: Vec<String>)
    ensures
        texts_of(r@) == split_pieces(s@, sep@),
{
    let cs = chars_of(s);
    let ts = chars_of(sep);
    let n = cs.len();
    let mut out: Vec<String> = Vec::new();
    if ts.len() == 0 {
        out.push(String::new());
        let mut i: usize = 0;
        while i < n
            invariant
                cs@ == s@,
                n == s@.len(),
                i <= n,
                texts_of(out@) == seq![Seq::<char>::empty()] + s@.take(i as int).map_values(
                    |c: char| seq![c],
                ),
            decreases n - i,
        {
            let piece = text_of(&cs, i, i + 1);
            let ghost before = texts_of(out@);
            out.push(piece);
            assert(s@.subrange(i as int, i + 1) =~= seq![s@[i as int]]);
            assert(texts_of(out@) =~= before.push(seq![s@[i as int]]));
            assert(s@.take(i + 1).map_values(|c: char| seq![c]) =~= s@.take(i as int).map_values(
                |c: char| seq![c],
            ).push(seq![s@[i as int]]));
            assert(texts_of(out@) =~= seq![Seq::<char>::empty()] + s@.take(i + 1).map_values(
                |c: char| seq![c],
            ));
            i = i + 1;
        }
        out.push(String::new());
        assert(s@.take(n as int) =~= s@);
        assert(texts_of(out@) =~= split_pieces(s@, sep@));
        return out;
    }
    let mut p: usize = 0;
    assert(s@.skip(0) =~= s@);
    loop
        invariant
            cs@ == s@,
            ts@ == sep@,
            ts@.len() > 0,
            n == s@.len(),
            p <= n,
            texts_of(out@) + split_pieces(s@.skip(p as int), sep@) == split_pieces(s@, sep@),
        decreases n - p,
    {
        let ghost rest = s@.skip(p as int);
        match find_from(&cs, p, &ts) {
            None => {
                let piece = text_of(&cs, p, n);
                assert(piece@ =~= rest);
                out.push(piece);
                assert(texts_of(out@) =~= texts_of(out@.drop_last()) + seq![rest]);
                return out;
            },
            Some(q) => {
                let piece = text_of(&cs, p, q);
                proof {
                    lemma_first_occurrence(rest, sep@);
                    assert(piece@ =~= rest.take(q - p));
                    assert(rest.skip(q - p + sep@.len()) =~= s@.skip(q + sep@.len()));
                    assert(split_pieces(rest, sep@) == seq![rest.take(q - p)] + split_pieces(
                        rest.skip(q - p + sep@.len()),
                        sep@,
                    ));
                }
                let ghost before = texts_of(out@);
                out.push(piece);
                assert(texts_of(out@) =~= before + seq![rest.take(q - p)]);
                p = q + ts.len();
            },
        }
    }
}

/// `s` with every occurrence of `from` replaced by `to` (`str::replace`).
pub(crate) fn replace_text(s: &str, from: &str, to: &str) -> (r: String)
    ensures
        r@ == replaced(s@, from@, to@),
{
    let pieces = split_text(s, from);
    let ghost ps = texts_of(pieces@);
    let n = pieces.len();
    let mut out = String::new();
    if n == 0 {
        return out;
    }
    push_text(&mut out, pieces[0].as_str());
    assert(ps.take(1).drop_last() =~= Seq::<Seq<char>>::empty());
    assert(join_texts(ps.take(1), to@) == ps.take(1)[0]);
    let mut i: usize = 1;
    while i < n
        invariant
            n == pieces@.len(),
            ps == texts_of(pieces@),
            1 <= i <= n,
            out@ == join_texts(ps.take(i as int), to@),
        decreases n - i,
    {
        push_text(&mut out, to);
        push_text(&mut out, pieces[i].as_str());
        assert(ps.take(i + 1).drop_last() =~= ps.take(i as int));
        assert(ps.take(i + 1).last() == ps[i as int]);
        i = i + 1;
    }
    assert(ps.take(n as int) =~= ps);
    out
}

} // verus!
