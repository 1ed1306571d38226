use vstd::prelude::*;

verus! {

/// Whether `c` is one of the ASCII digits `0` to `9`.
pub open spec fn is_digit(c: char) -> bool {
    '0' <= c && c <= '9'
}

/// The numeric value of an ASCII digit.
pub open spec fn digit_value(c: char) -> nat {
    (c as int - '0' as int) as nat
}

/// The ASCII digit for a value below ten.
pub open spec fn digit_char(d: nat) -> char {
    (d + '0' as int) as char
}

/// Whether every character of `s` is an ASCII digit (true of the empty sequence).
pub open spec fn all_digits(s: Seq<char>) -> bool {
    forall|i: int| 0 <= i < s.len() ==> is_digit(#[trigger] s[i])
}

/// The value of a sequence of decimal digits, most significant first.
pub open spec fn digits_value(s: Seq<char>) -> nat
    decreases s.len(),
{
    if s.len() == 0 {
        0
    } else {
        digits_value(s.drop_last()) * 10 + digit_value(s.last())
    }
}

/// The shortest decimal spelling of `n` (no leading zeros; `0` is "0").
pub open spec fn decimal(n: nat) -> Seq<char>
    decreases n,
{
    if n < 10 {
        seq![digit_char(n)]
    } else {
        decimal(n / 10).push(digit_char(n % 10))
    }
}

/// `s` with every leading occurrence of `c` removed.
pub open spec fn skip_leading(s: Seq<char>, c: char) -> Seq<char>
    decreases s.len(),
{
    if s.len() > 0 && s[0] == c {
        skip_leading(s.drop_first(), c)
    } else {
        s
    }
}

/// The pieces of `s` between occurrences of `sep` (always at least one piece).
pub open spec fn split_on(s: Seq<char>, sep: char) -> Seq<Seq<char>>
    decreases s.len(),
{
    if s.len() == 0 {
        seq![Seq::<char>::empty()]
    } else {
        let init = split_on(s.drop_last(), sep);
        if s.last() == sep {
            init.push(Seq::<char>::empty())
        } else {
            init.update(init.len() - 1, init.last().push(s.last()))
        }
    }
}

/// The pieces joined with `sep` between consecutive pieces.
pub open spec fn join_on(pieces: Seq<Seq<char>>, sep: char) -> Seq<char>
    decreases pieces.len(),
{
    if pieces.len() == 0 {
        Seq::<char>::empty()
    } else if pieces.len() == 1 {
        pieces[0]
    } else {
        join_on(pieces.drop_last(), sep).push(sep) + pieces.last()
    }
}

/// Each piece followed by `sep`, all concatenated.
pub open spec fn terminated_by(pieces: Seq<Seq<char>>, sep: char) -> Seq<char>
    decreases pieces.len(),
{
    if pieces.len() == 0 {
        Seq::<char>::empty()
    } else {
        (terminated_by(pieces.drop_last(), sep) + pieces.last()).push(sep)
    }
}

pub proof fn lemma_split_on_nonempty(s: Seq<char>, sep: char)
    ensures
        split_on(s, sep).len() >= 1,
    decreases s.len(),
{
    if s.len() > 0 {
        lemma_split_on_nonempty(s.drop_last(), sep);
    }
}

/// Joining a list with one more piece is the terminated list followed by that piece.
pub proof fn lemma_join_push(pieces: Seq<Seq<char>>, last: Seq<char>, sep: char)
    ensures
        join_on(pieces.push(last), sep) == terminated_by(pieces, sep) + last,
    decreases pieces.len(),
{
    if pieces.len() == 0 {
        assert(pieces.push(last).len() == 1);
        assert(join_on(pieces.push(last), sep) == last);
        assert(terminated_by(pieces, sep) + last =~= last);
    } else {
        let init = pieces.drop_last();
        let y = pieces.last();
        lemma_join_push(init, y, sep);
        assert(init.push(y) =~= pieces);
        assert(pieces.push(last).drop_last() =~= pieces);
        assert(join_on(pieces.push(last), sep) == join_on(pieces, sep).push(sep) + last);
        assert(join_on(pieces, sep) == terminated_by(init, sep) + y);
        assert(terminated_by(pieces, sep) == (terminated_by(init, sep) + y).push(sep));
        assert((terminated_by(init, sep) + y).push(sep) + last =~= (terminated_by(init, sep) + y).push(
            sep,
        ) + last);
    }
}


/// A digit string's value is at least the value of any of its prefixes.
pub proof fn lemma_digits_value_prefix(s: Seq<char>, k: int)
    requires
        0 <= k <= s.len(),
    ensures
        digits_value(s.take(k)) <= digits_value(s),
    decreases s.len(),
{
    if k < s.len() {
        lemma_digits_value_prefix(s.drop_last(), k);
        assert(s.drop_last().take(k) =~= s.take(k));
    } else {
        assert(s.take(k) =~= s);
    }
}

/// The value of a non-empty all-digit character slice, when it fits in a `u64`.
pub fn parse_digits(seg: &[char]) -> (res: Option<u64>)
    ensures
        res == (if seg@.len() > 0 && all_digits(seg@) && digits_value(seg@) <= u64::MAX {
            Some(digits_value(seg@) as u64)
        } else {
            None::<u64>
        }),
{
    if seg.len() == 0 {
        return None;
    }
    let mut value: u64 = 0;
    let mut i: usize = 0;
    while i < seg.len()
        invariant
            0 <= i <= seg@.len(),
            all_digits(seg@.take(i as int)),
            value == digits_value(seg@.take(i as int)),
        decreases seg@.len() - i,
    {
        let c = seg[i];
        if !('0' <= c && c <= '9') {
            return None;
        }
        let d: u64 = ((c as u32) - 48u32) as u64;
        assert(seg@.take(i + 1).drop_last() =~= seg@.take(i as int));
        assert(seg@.take(i + 1).last() == c);
        match value.checked_mul(10) {
            Some(m) => match m.checked_add(d) {
                Some(v) => {
                    value = v;
                },
                None => {
                    proof {
                        if all_digits(seg@) {
                            lemma_digits_value_prefix(seg@, i + 1);
                        }
                    }
                    return None;
                },
            },
            None => {
                proof {
                    if all_digits(seg@) {
                        lemma_digits_value_prefix(seg@, i + 1);
                    }
                }
                return None;
            },
        }
        i = i + 1;
    }
    assert(seg@.take(seg@.len() as int) =~= seg@);
    Some(value)
}


/// Whether every character of `s` is ASCII.
pub open spec fn all_ascii(s: Seq<char>) -> bool {
    forall|i: int| 0 <= i < s.len() ==> (#[trigger] s[i] as int) < 128
}

/// ASCII lower-casing of one character: `A`..`Z` become `a`..`z`, all else stays.
pub open spec fn ascii_lower(c: char) -> char {
    if 'A' <= c && c <= 'Z' {
        (c as int + 32) as char
    } else {
        c
    }
}

/// What `str::to_lowercase` returns for `s`: the Unicode lower-case mapping,
/// whose tables this library does not restate.
pub uninterp spec fn unicode_lowercase(s: Seq<char>) -> Seq<char>;

/// What `str::to_lowercase` gives for `s`: ASCII lower-casing when `s` is all
/// ASCII, otherwise the (named) Unicode lower-case mapping.
pub open spec fn lowercase_text(s: Seq<char>) -> Seq<char> {
    if all_ascii(s) {
        s.map_values(|c: char| ascii_lower(c))
    } else {
        unicode_lowercase(s)
    }
}

/// `str::to_lowercase`: the Unicode lower-case form of `s`. The contract names
/// the result and states only what the documentation makes plain for ASCII
/// text: each character is mapped by itself, `A`..`Z` to `a`..`z`, and every
/// other ASCII character is kept. What it does to other characters is left
/// unsaid.
#[verifier::external_body]
pub(crate) fn to_lowercase(s: &str) -> (res: String)
    ensures
        res@ == unicode_lowercase(s@),
        all_ascii(s@) ==> res@ == s@.map_values(|c: char| ascii_lower(c)),
{
    s.to_lowercase()
}


/// `decimal(n)` is a non-empty digit string without a leading zero (unless it
/// is `0`) whose value is `n`.
pub proof fn lemma_decimal(n: nat)
    ensures
        decimal(n).len() > 0,
        all_digits(decimal(n)),
        decimal(n).len() == 1 || decimal(n)[0] != '0',
        n > 0 ==> decimal(n)[0] != '0',
        digits_value(decimal(n)) == n,
    decreases n,
{
    if n < 10 {
        assert(decimal(n) =~= seq![digit_char(n)]);
        assert(seq![digit_char(n)].drop_last() =~= Seq::<char>::empty());
        assert(digit_value(digit_char(n)) == n);
        assert(digits_value(decimal(n)) == digits_value(Seq::<char>::empty()) * 10 + digit_value(
            digit_char(n),
        ));
    } else {
        let q = n / 10;
        let r = n % 10;
        lemma_decimal(q);
        let d = decimal(q);
        assert(decimal(n) == d.push(digit_char(r)));
        assert(d.push(digit_char(r)).drop_last() =~= d);
        assert(digit_value(digit_char(r)) == r);
        assert(q * 10 + r == n) by (nonlinear_arith)
            requires
                q == n / 10,
                r == n % 10,
        ;
        assert(q > 0);
        assert(d.push(digit_char(r))[0] == d[0]);
    }
}

/// A text without `sep` splits into itself alone.
pub proof fn lemma_split_on_without_sep(s: Seq<char>, sep: char)
    requires
        forall|i: int| 0 <= i < s.len() ==> s[i] != sep,
    ensures
        split_on(s, sep) == seq![s],
    decreases s.len(),
{
    if s.len() > 0 {
        lemma_split_on_without_sep(s.drop_last(), sep);
        assert(s.drop_last().push(s.last()) =~= s);
        assert(seq![s.drop_last()].update(0, s.drop_last().push(s.last())) =~= seq![s]);
    } else {
        assert(s =~= Seq::<char>::empty());
    }
}

/// Appending `sep` and then a text without `sep` adds that text as one more piece.
pub proof fn lemma_split_on_append(prefix: Seq<char>, s: Seq<char>, sep: char)
    requires
        forall|i: int| 0 <= i < s.len() ==> s[i] != sep,
    ensures
        split_on(prefix.push(sep) + s, sep) == split_on(prefix, sep).push(s),
    decreases s.len(),
{
    lemma_split_on_nonempty(prefix, sep);
    if s.len() == 0 {
        assert(prefix.push(sep) + s =~= prefix.push(sep));
        assert(prefix.push(sep).drop_last() =~= prefix);
        assert(s =~= Seq::<char>::empty());
    } else {
        let x = prefix.push(sep) + s;
        lemma_split_on_append(prefix, s.drop_last(), sep);
        assert(x.drop_last() =~= prefix.push(sep) + s.drop_last());
        assert(x.last() == s.last());
        let init = split_on(prefix, sep).push(s.drop_last());
        assert(s.drop_last().push(s.last()) =~= s);
        assert(init.update(init.len() - 1, init.last().push(s.last())) =~= split_on(prefix, sep).push(
            s,
        ));
    }
}


/// The pieces terminated by `sep` are the joined pieces followed by one `sep`.
pub proof fn lemma_terminated_is_joined(pieces: Seq<Seq<char>>, sep: char)
    requires
        pieces.len() > 0,
    ensures
        terminated_by(pieces, sep) == join_on(pieces, sep).push(sep),
{
    let init = pieces.drop_last();
    assert(init.push(pieces.last()) =~= pieces);
    lemma_join_push(init, pieces.last(), sep);
}

/// Joining the pieces of a split gives the text back.
pub proof fn lemma_join_split(s: Seq<char>, sep: char)
    ensures
        join_on(split_on(s, sep), sep) == s,
    decreases s.len(),
{
    if s.len() == 0 {
        assert(s =~= Seq::<char>::empty());
    } else {
        let init = split_on(s.drop_last(), sep);
        lemma_join_split(s.drop_last(), sep);
        lemma_split_on_nonempty(s.drop_last(), sep);
        if s.last() == sep {
            lemma_join_push(init, Seq::<char>::empty(), sep);
            lemma_terminated_is_joined(init, sep);
            assert(terminated_by(init, sep) + Seq::<char>::empty() =~= s);
        } else {
            let rest = init.drop_last();
            let piece = init.last();
            assert(init.update(init.len() - 1, piece.push(s.last())) =~= rest.push(
                piece.push(s.last()),
            ));
            assert(rest.push(piece) =~= init);
            lemma_join_push(rest, piece.push(s.last()), sep);
            lemma_join_push(rest, piece, sep);
            assert(terminated_by(rest, sep) + piece.push(s.last()) =~= (terminated_by(rest, sep)
                + piece).push(s.last()));
            assert(s.drop_last().push(s.last()) =~= s);
        }
    }
}

/// The joined pieces start with the first piece, followed by `sep` when there
/// is more than one piece.
pub proof fn lemma_join_starts_with(pieces: Seq<Seq<char>>, sep: char)
    requires
        pieces.len() > 0,
    ensures
        join_on(pieces, sep).len() >= pieces[0].len(),
        join_on(pieces, sep).take(pieces[0].len() as int) == pieces[0],
        pieces.len() >= 2 ==> join_on(pieces, sep).len() > pieces[0].len() && join_on(pieces, sep)[pieces[0].len() as int] == sep,
    decreases pieces.len(),
{
    let p0 = pieces[0];
    if pieces.len() == 1 {
        assert(join_on(pieces, sep).take(p0.len() as int) =~= p0);
    } else {
        let init = pieces.drop_last();
        lemma_join_starts_with(init, sep);
        let j = join_on(init, sep);
        assert(join_on(pieces, sep) == j.push(sep) + pieces.last());
        assert(init[0] == p0);
        if init.len() == 1 {
            assert(j == p0);
        }
        assert(join_on(pieces, sep).take(p0.len() as int) =~= j.take(p0.len() as int));
        assert(join_on(pieces, sep)[p0.len() as int] == (j.push(sep))[p0.len() as int]);
    }
}

/// Splitting joined pieces that do not contain `sep` gives the pieces back.
pub proof fn lemma_split_join(pieces: Seq<Seq<char>>, sep: char)
    requires
        pieces.len() > 0,
        forall|i: int, j: int|
            0 <= i < pieces.len() && 0 <= j < pieces[i].len() ==> #[trigger] pieces[i][j] != sep,
    ensures
        split_on(join_on(pieces, sep), sep) == pieces,
    decreases pieces.len(),
{
    if pieces.len() == 1 {
        let p = pieces[0];
        assert forall|j: int| 0 <= j < p.len() implies p[j] != sep by {
            assert(pieces[0][j] != sep);
        }
        lemma_split_on_without_sep(p, sep);
        assert(seq![p] =~= pieces);
    } else {
        let init = pieces.drop_last();
        let last = pieces.last();
        assert forall|i: int, j: int|
            0 <= i < init.len() && 0 <= j < init[i].len() implies #[trigger] init[i][j] != sep by {
            assert(init[i] == pieces[i]);
        }
        lemma_split_join(init, sep);
        assert forall|j: int| 0 <= j < last.len() implies last[j] != sep by {
            assert(pieces[pieces.len() - 1][j] != sep);
        }
        lemma_split_on_append(join_on(init, sep), last, sep);
        assert(init.push(last) =~= pieces);
    }
}

/// Every character of every piece of a split is a character of the text other
/// than `sep`; so a property of the text's other characters holds of them.
pub proof fn lemma_split_chars(s: Seq<char>, sep: char, q: spec_fn(char) -> bool)
    requires
        forall|m: int| 0 <= m < s.len() && s[m] != sep ==> q(#[trigger] s[m]),
    ensures
        forall|i: int, j: int|
            0 <= i < split_on(s, sep).len() && 0 <= j < split_on(s, sep)[i].len() ==> q(
                #[trigger] split_on(s, sep)[i][j],
            ) && split_on(s, sep)[i][j] != sep,
    decreases s.len(),
{
    if s.len() > 0 {
        let d = s.drop_last();
        assert forall|m: int| 0 <= m < d.len() && d[m] != sep implies q(#[trigger] d[m]) by {
            assert(d[m] == s[m]);
        }
        lemma_split_chars(d, sep, q);
        lemma_split_on_nonempty(d, sep);
        let init = split_on(d, sep);
        let ps = split_on(s, sep);
        if s.last() != sep {
            assert(q(s[s.len() - 1]));
            assert forall|i: int, j: int|
                0 <= i < ps.len() && 0 <= j < ps[i].len() implies q(#[trigger] ps[i][j])
                && ps[i][j] != sep by {
                if i < init.len() - 1 {
                    assert(ps[i] == init[i]);
                } else if j < init.last().len() {
                    assert(ps[i][j] == init[i][j]);
                } else {
                    assert(ps[i][j] == s.last());
                }
            }
        } else {
            assert forall|i: int, j: int|
                0 <= i < ps.len() && 0 <= j < ps[i].len() implies q(#[trigger] ps[i][j])
                && ps[i][j] != sep by {
                assert(ps[i] == init[i]);
            }
        }
    }
}

/// Every character of joined pieces is `sep` or a character of a piece; so a
/// property of the pieces' characters holds of the joined text's other characters.
pub proof fn lemma_join_chars(pieces: Seq<Seq<char>>, sep: char, q: spec_fn(char) -> bool)
    requires
        forall|i: int, j: int|
            0 <= i < pieces.len() && 0 <= j < pieces[i].len() ==> q(#[trigger] pieces[i][j]),
    ensures
        forall|m: int|
            0 <= m < join_on(pieces, sep).len() ==> #[trigger] join_on(pieces, sep)[m] == sep || q(
                join_on(pieces, sep)[m],
            ),
    decreases pieces.len(),
{
    let r = join_on(pieces, sep);
    if pieces.len() == 1 {
        assert forall|m: int| 0 <= m < r.len() implies #[trigger] r[m] == sep || q(r[m]) by {
            assert(r[m] == pieces[0][m]);
        }
    } else if pieces.len() > 1 {
        let init = pieces.drop_last();
        assert forall|i: int, j: int|
            0 <= i < init.len() && 0 <= j < init[i].len() implies q(#[trigger] init[i][j]) by {
            assert(init[i] == pieces[i]);
        }
        lemma_join_chars(init, sep, q);
        let j0 = join_on(init, sep);
        let last = pieces.last();
        assert(r == j0.push(sep) + last);
        assert forall|m: int| 0 <= m < r.len() implies #[trigger] r[m] == sep || q(r[m]) by {
            if m < j0.len() {
                assert(r[m] == j0[m]);
            } else if m > j0.len() {
                assert(r[m] == last[m - j0.len() - 1]);
                assert(pieces[pieces.len() - 1][m - j0.len() - 1] == last[m - j0.len() - 1]);
            }
        }
    }
}

/// `skip_leading` stops at the first character other than `c`.
pub proof fn lemma_skip_leading_stops(s: Seq<char>, c: char)
    ensures
        skip_leading(s, c).len() == 0 || skip_leading(s, c)[0] != c,
    decreases s.len(),
{
    if s.len() > 0 && s[0] == c {
        lemma_skip_leading_stops(s.drop_first(), c);
    }
}

/// The characters of a string slice, in order.
pub fn chars_of(s: &str) -> (res: Vec<char>)
    ensures
        res@ == s@,
{
    let mut res: Vec<char> = Vec::new();
    for c in it: s.chars()
        invariant
            res@ == it.seq().take(it.index() as int),
    {
        res.push(c);
    }
    res
}

#[verifier::external_body]
fn push_char(s: &mut String, c: char)
    ensures
        final(s)@ == old(s)@.push(c),
{
    s.push(c);
}

/// A string holding the given characters, in order.
pub fn string_of(cs: &[char]) -> (res: String)
    ensures
        res@ == cs@,
{
    let mut res = String::new();
    for i in 0..cs.len()
        invariant
            res@ == cs@.take(i as int),
    {
        push_char(&mut res, cs[i]);
        assert(cs@.take(i + 1) == cs@.take(i as int).push(cs@[i as int]));
    }
    assert(cs@.take(cs@.len() as int) == cs@);
    res
}

/// The decimal spelling of `n`.
pub fn decimal_of(n: u64) -> (res: Vec<char>)
    ensures
        res@ == decimal(n as nat),
    decreases n,
{
    let d: u64 = n % 10;
    let c: char = ((d as u8) + 48u8) as char;
    assert(c == digit_char((n % 10) as nat));
    if n < 10 {
        let mut v: Vec<char> = Vec::new();
        v.push(c);
        assert(v@ =~= seq![digit_char(n as nat)]);
        v
    } else {
        let mut v = decimal_of(n / 10);
        v.push(c);
        v
    }
}

} // verus!
