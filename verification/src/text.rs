//! Text helpers: decimal rendering of integers and splitting at a separator.

use vstd::prelude::*;
use vstd::utf8::is_ascii_chars;

verus! {

/// The decimal digit character for `d` (which is below ten).
pub open spec fn digit_char(d: nat) -> char {
    if d == 0 { '0' } else if d == 1 { '1' } else if d == 2 { '2' } else if d == 3 { '3' }
    else if d == 4 { '4' } else if d == 5 { '5' } else if d == 6 { '6' } else if d == 7 { '7' }
    else if d == 8 { '8' } else { '9' }
}

/// The decimal digits of a natural number, most significant first, without
/// leading zeros (zero itself is the single digit `0`).
pub open spec fn nat_decimal(n: nat) -> Seq<char>
    decreases n,
{
    if n < 10 {
        seq![digit_char(n)]
    } else {
        nat_decimal(n / 10) + seq![digit_char(n % 10)]
    }
}

/// The decimal rendering of an integer: a minus sign before the digits of
/// its magnitude when it is negative.
pub open spec fn int_decimal(n: int) -> Seq<char> {
    if n < 0 {
        seq!['-'] + nat_decimal((-n) as nat)
    } else {
        nat_decimal(n as nat)
    }
}

/// The value of a decimal digit character.
pub open spec fn digit_value(c: char) -> int {
    (c as int) - ('0' as int)
}

/// The number that a string of decimal digits denotes, most significant
/// digit first.
pub open spec fn decimal_value(s: Seq<char>) -> int
    decreases s.len(),
{
    if s.len() == 0 {
        0
    } else {
        decimal_value(s.drop_last()) * 10 + digit_value(s.last())
    }
}

proof fn lemma_digit_char_value(d: nat)
    requires
        d < 10,
    ensures
        digit_value(digit_char(d)) == d,
        '0' <= digit_char(d) <= '9',
{
    assert(('0' as int) == 48 && ('1' as int) == 49 && ('2' as int) == 50 && ('3' as int) == 51
        && ('4' as int) == 52 && ('5' as int) == 53 && ('6' as int) == 54 && ('7' as int) == 55
        && ('8' as int) == 56 && ('9' as int) == 57);
}

/// The decimal rendering of a natural number is a non-empty string of the
/// digits `0` to `9`, without a leading zero unless it is zero itself, and
/// it denotes that number.
pub proof fn lemma_nat_decimal_denotes(n: nat)
    ensures
        nat_decimal(n).len() >= 1,
        forall|i: int| 0 <= i < nat_decimal(n).len() ==> '0' <= #[trigger] nat_decimal(n)[i] <= '9',
        n > 0 ==> nat_decimal(n)[0] != '0',
        decimal_value(nat_decimal(n)) == n,
    decreases n,
{
    if n < 10 {
        lemma_digit_char_value(n);
        assert(nat_decimal(n) =~= seq![digit_char(n)]);
        assert(nat_decimal(n).drop_last() =~= Seq::<char>::empty());
        assert(decimal_value(Seq::<char>::empty()) == 0);
    } else {
        lemma_nat_decimal_denotes(n / 10);
        let prefix = nat_decimal(n / 10);
        let d = digit_char(n % 10);
        lemma_digit_char_value(n % 10);
        assert(nat_decimal(n) == prefix + seq![d]);
        assert((prefix + seq![d]).drop_last() =~= prefix);
        assert((prefix + seq![d]).last() == d);
        assert(decimal_value(prefix + seq![d]) == decimal_value(prefix) * 10 + digit_value(d));
        assert((n / 10) * 10 + n % 10 == n) by (nonlinear_arith);
        assert((prefix + seq![d])[0] == prefix[0]);
        assert forall|i: int| 0 <= i < nat_decimal(n).len() implies '0' <= #[trigger] nat_decimal(n)[i] <= '9' by {
            if i < prefix.len() {
                assert(nat_decimal(n)[i] == prefix[i]);
            }
        }
    }
}

/// The decimal rendering of a negative number is a minus sign followed by
/// the rendering of its magnitude; that of any other number is its digits.
pub proof fn lemma_int_decimal_sign(n: int)
    ensures
        n < 0 ==> int_decimal(n)[0] == '-' && int_decimal(n).drop_first() == nat_decimal((-n) as nat)
            && decimal_value(int_decimal(n).drop_first()) == -n,
        n >= 0 ==> decimal_value(int_decimal(n)) == n && int_decimal(n)[0] != '-',
{
    if n < 0 {
        assert((seq!['-'] + nat_decimal((-n) as nat)).drop_first() =~= nat_decimal((-n) as nat));
        lemma_nat_decimal_denotes((-n) as nat);
    } else {
        lemma_nat_decimal_denotes(n as nat);
        assert('0' <= int_decimal(n)[0] <= '9');
    }
}

fn digit_str(d: u64) -> (s: &'static str)
    requires
        d < 10,
    ensures
        s@ == seq![digit_char(d as nat)],
{
    proof {
        reveal_strlit("0");
        reveal_strlit("1");
        reveal_strlit("2");
        reveal_strlit("3");
        reveal_strlit("4");
        reveal_strlit("5");
        reveal_strlit("6");
        reveal_strlit("7");
        reveal_strlit("8");
        reveal_strlit("9");
    }
    if d == 0 { "0" } else if d == 1 { "1" } else if d == 2 { "2" } else if d == 3 { "3" }
    else if d == 4 { "4" } else if d == 5 { "5" } else if d == 6 { "6" } else if d == 7 { "7" }
    else if d == 8 { "8" } else { "9" }
}

fn push_decimal(out: &mut String, n: u64)
    ensures
        final(out)@ == old(out)@ + nat_decimal(n as nat),
    decreases n,
{
    if n >= 10 {
        push_decimal(out, n / 10);
    }
    out.append(digit_str(n % 10));
}

/// Appends the decimal rendering of `n` to `out`.
pub fn push_i64_decimal(out: &mut String, n: i64)
    ensures
        final(out)@ == old(out)@ + int_decimal(n as int),
{
    if n < 0 {
        proof {
            reveal_strlit("-");
        }
        out.append("-");
        let magnitude: u64 = if n == i64::MIN { 9223372036854775808u64 } else { (-n) as u64 };
        push_decimal(out, magnitude);
        assert(final(out)@ =~= old(out)@ + int_decimal(n as int));
    } else {
        push_decimal(out, n as u64);
    }
}


/// The pieces joined with `sep` between each two neighbours.
pub open spec fn join_with(parts: Seq<Seq<char>>, sep: char) -> Seq<char>
    decreases parts.len(),
{
    if parts.len() == 0 {
        Seq::empty()
    } else if parts.len() == 1 {
        parts[0]
    } else {
        join_with(parts.drop_last(), sep) + seq![sep] + parts.last()
    }
}

/// `parts` is what splitting `s` at every `sep` yields: at least one piece,
/// no piece holds `sep`, and joining the pieces with `sep` gives `s` back.
pub open spec fn is_split_of(parts: Seq<Seq<char>>, s: Seq<char>, sep: char) -> bool {
    &&& parts.len() >= 1
    &&& join_with(parts, sep) == s
    &&& forall|i: int| 0 <= i < parts.len() ==> !(#[trigger] parts[i]).contains(sep)
}

/// The pieces of `s` between the occurrences of `sep` (empty pieces
/// included), as `str::split` with a `char` pattern yields them.
pub open spec fn split_on(s: Seq<char>, sep: char) -> Seq<Seq<char>> {
    choose|parts: Seq<Seq<char>>| is_split_of(parts, s, sep)
}

/// Adding text to the last piece adds it to the end of the joined text.
pub proof fn lemma_join_extend_last(parts: Seq<Seq<char>>, sep: char, tail: Seq<char>)
    requires
        parts.len() >= 1,
    ensures
        join_with(parts.update(parts.len() - 1, parts.last() + tail), sep)
            == join_with(parts, sep) + tail,
{
    let updated = parts.update(parts.len() - 1, parts.last() + tail);
    if parts.len() > 1 {
        assert(updated.drop_last() =~= parts.drop_last());
        assert(join_with(updated, sep) =~= join_with(parts, sep) + tail);
    } else {
        assert(join_with(updated, sep) =~= join_with(parts, sep) + tail);
    }
}

/// A new empty last piece adds one separator to the joined text.
pub proof fn lemma_join_push_empty(parts: Seq<Seq<char>>, sep: char)
    requires
        parts.len() >= 1,
    ensures
        join_with(parts.push(Seq::empty()), sep) == join_with(parts, sep) + seq![sep],
{
    assert(parts.push(Seq::empty()).drop_last() =~= parts);
    assert(join_with(parts.push(Seq::empty()), sep) =~= join_with(parts, sep) + seq![sep]);
}

/// When `x + [sep] + y` equals `u + [sep] + v` and neither `y` nor `v` holds
/// `sep`, the two splits at the last separator agree.
proof fn lemma_last_separator(x: Seq<char>, y: Seq<char>, u: Seq<char>, v: Seq<char>, sep: char)
    requires
        x + seq![sep] + y == u + seq![sep] + v,
        !y.contains(sep),
        !v.contains(sep),
    ensures
        x == u,
        y == v,
{
    let s = x + seq![sep] + y;
    assert(s.len() == u.len() + 1 + v.len());
    if y.len() < v.len() {
        let k = v.len() - y.len() - 1;
        assert(s[x.len() as int] == sep);
        assert(v[k] == s[u.len() + 1 + k]);
        assert(v.contains(sep));
    } else if v.len() < y.len() {
        let k = y.len() - v.len() - 1;
        assert(s[u.len() as int] == (u + seq![sep] + v)[u.len() as int]);
        assert(y[k] == s[x.len() + 1 + k]);
        assert(y.contains(sep));
    }
    assert(x =~= s.subrange(0, x.len() as int));
    assert(u =~= (u + seq![sep] + v).subrange(0, u.len() as int));
    assert(y =~= s.subrange(x.len() as int + 1, s.len() as int));
    assert(v =~= (u + seq![sep] + v).subrange(u.len() as int + 1, s.len() as int));
}

/// Two or more pieces joined hold the separator.
proof fn lemma_join_contains_sep(parts: Seq<Seq<char>>, sep: char)
    requires
        parts.len() >= 2,
    ensures
        join_with(parts, sep).contains(sep),
{
    let x = join_with(parts.drop_last(), sep);
    assert((x + seq![sep] + parts.last())[x.len() as int] == sep);
}

/// Splitting is determined: two splits of one text at one separator are
/// the same sequence of pieces.
pub proof fn lemma_split_unique(a: Seq<Seq<char>>, b: Seq<Seq<char>>, s: Seq<char>, sep: char)
    requires
        is_split_of(a, s, sep),
        is_split_of(b, s, sep),
    ensures
        a == b,
    decreases a.len() + b.len(),
{
    if a.len() == 1 && b.len() == 1 {
        assert(a =~= b);
    } else if a.len() == 1 {
        lemma_join_contains_sep(b, sep);
        assert(!a[0].contains(sep));
    } else if b.len() == 1 {
        lemma_join_contains_sep(a, sep);
        assert(!b[0].contains(sep));
    } else {
        assert(!a[a.len() - 1].contains(sep));
        assert(!b[b.len() - 1].contains(sep));
        lemma_last_separator(
            join_with(a.drop_last(), sep),
            a.last(),
            join_with(b.drop_last(), sep),
            b.last(),
            sep,
        );
        let p = join_with(a.drop_last(), sep);
        assert forall|i: int| 0 <= i < a.drop_last().len() implies !(#[trigger] a.drop_last()[i]).contains(sep) by {
            assert(a.drop_last()[i] == a[i]);
        }
        assert forall|i: int| 0 <= i < b.drop_last().len() implies !(#[trigger] b.drop_last()[i]).contains(sep) by {
            assert(b.drop_last()[i] == b[i]);
        }
        lemma_split_unique(a.drop_last(), b.drop_last(), p, sep);
        assert(a =~= a.drop_last().push(a.last()));
        assert(b =~= b.drop_last().push(b.last()));
    }
}

/// Every text splits at every separator: the pieces that `split_on` names
/// exist, and joining them gives the text back.
pub proof fn lemma_split_join(s: Seq<char>, sep: char)
    ensures
        is_split_of(split_on(s, sep), s, sep),
        join_with(split_on(s, sep), sep) == s,
    decreases s.len(),
{
    if s.len() == 0 {
        let parts = seq![Seq::<char>::empty()];
        assert(s =~= Seq::<char>::empty());
        assert(!parts[0].contains(sep));
        assert(is_split_of(parts, s, sep));
    } else {
        let init = s.drop_last();
        let c = s.last();
        lemma_split_join(init, sep);
        let prev = split_on(init, sep);
        assert(s =~= init + seq![c]);
        if c == sep {
            let parts = prev.push(Seq::empty());
            lemma_join_push_empty(prev, sep);
            assert forall|i: int| 0 <= i < parts.len() implies !(#[trigger] parts[i]).contains(sep) by {
                if i < prev.len() {
                    assert(parts[i] == prev[i]);
                }
            }
            assert(is_split_of(parts, s, sep));
        } else {
            let parts = prev.update(prev.len() - 1, prev.last() + seq![c]);
            lemma_join_extend_last(prev, sep, seq![c]);
            assert forall|i: int| 0 <= i < parts.len() implies !(#[trigger] parts[i]).contains(sep) by {
                if i < prev.len() - 1 {
                    assert(parts[i] == prev[i]);
                } else {
                    assert(!prev[prev.len() - 1].contains(sep));
                    if (prev.last() + seq![c]).contains(sep) {
                        let k = choose|k: int| 0 <= k < (prev.last() + seq![c]).len() && (prev.last() + seq![c])[k] == sep;
                        if k < prev.last().len() {
                            assert(prev.last()[k] == sep);
                        }
                    }
                }
            }
            assert(is_split_of(parts, s, sep));
        }
    }
}

/// Splits `s` at every `sep`, keeping empty pieces, as `str::split` does.
pub fn split_at_char(s: &str, sep: char) -> (parts: Vec<String>)
    ensures
        parts.deep_view() == split_on(s@, sep),
{
    let n = s.unicode_len();
    let mut parts: Vec<String> = Vec::new();
    let mut start: usize = 0;
    let mut i: usize = 0;
    while i < n
        invariant
            n == s@.len(),
            start <= i <= n,
            is_split_of(parts.deep_view().push(s@.subrange(start as int, i as int)), s@.subrange(0, i as int), sep),
        decreases n - i,
    {
        let c = s.get_char(i);
        let ghost before = parts.deep_view().push(s@.subrange(start as int, i as int));
        if c == sep {
            let piece = s.substring_char(start, i).to_owned();
            parts.push(piece);
            start = i + 1;
            proof {
                assert(parts.deep_view() =~= before);
                lemma_join_push_empty(before, sep);
                let now = parts.deep_view().push(s@.subrange(start as int, (i + 1) as int));
                assert(s@.subrange(start as int, (i + 1) as int) =~= Seq::<char>::empty());
                assert(now =~= before.push(Seq::empty()));
                assert(s@.subrange(0, (i + 1) as int) =~= s@.subrange(0, i as int) + seq![sep]);
                assert forall|k: int| 0 <= k < now.len() implies !(#[trigger] now[k]).contains(sep) by {
                    if k < before.len() {
                        assert(now[k] == before[k]);
                    }
                }
            }
        } else {
            proof {
                let now = parts.deep_view().push(s@.subrange(start as int, (i + 1) as int));
                lemma_join_extend_last(before, sep, seq![c]);
                assert(s@.subrange(start as int, (i + 1) as int) =~= s@.subrange(start as int, i as int) + seq![c]);
                assert(now =~= before.update(before.len() - 1, before.last() + seq![c]));
                assert(s@.subrange(0, (i + 1) as int) =~= s@.subrange(0, i as int) + seq![c]);
                assert forall|k: int| 0 <= k < now.len() implies !(#[trigger] now[k]).contains(sep) by {
                    if k < before.len() - 1 {
                        assert(now[k] == before[k]);
                    } else {
                        assert(!before[before.len() - 1].contains(sep));
                        if now[k].contains(sep) {
                            let j = choose|j: int| 0 <= j < now[k].len() && now[k][j] == sep;
                            if j < before.last().len() {
                                assert(before.last()[j] == sep);
                            }
                        }
                    }
                }
            }
        }
        i = i + 1;
    }
    let last = s.substring_char(start, n).to_owned();
    let ghost before = parts.deep_view().push(s@.subrange(start as int, n as int));
    parts.push(last);
    proof {
        assert(parts.deep_view() =~= before);
        assert(s@.subrange(0, n as int) =~= s@);
        lemma_split_join(s@, sep);
        lemma_split_unique(parts.deep_view(), split_on(s@, sep), s@, sep);
    }
    parts
}


/// The uppercase form of a text under Unicode's case mapping, as
/// `str::to_uppercase` computes it.
pub uninterp spec fn unicode_uppercase(s: Seq<char>) -> Seq<char>;

/// A letter `a` to `z` made uppercase; every other character unchanged.
pub open spec fn ascii_upper_char(c: char) -> char {
    if 'a' <= c && c <= 'z' {
        ((c as int) - 32) as char
    } else {
        c
    }
}

/// A text with letters `a` to `z` made uppercase, every other character
/// unchanged.
pub open spec fn ascii_uppercase(s: Seq<char>) -> Seq<char> {
    s.map_values(|c: char| ascii_upper_char(c))
}

/// `str::to_uppercase`: the text under Unicode's uppercase mapping, which
/// this library names and does not restate (one character can become
/// several, as `ß` becomes `SS`). On ASCII text Unicode's mapping is the
/// ASCII one: `a` to `z` become `A` to `Z`, the rest stays.
#[verifier::external_body]
pub(crate) fn to_uppercase(s: &str) -> (r: String)
    ensures
        r@ == unicode_uppercase(s@),
        is_ascii_chars(s@) ==> r@ == ascii_uppercase(s@),
{
    s.to_uppercase()
}

/// `str::to_ascii_uppercase`: letters `a` to `z` become `A` to `Z`, every
/// other character stays as it is, as std documents.
#[verifier::external_body]
pub(crate) fn to_ascii_uppercase(s: &str) -> (r: String)
    ensures
        r@ == ascii_uppercase(s@),
{
    s.to_ascii_uppercase()
}

} // verus!
