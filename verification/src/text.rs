//! Verified text utilities: decimal formatting and parsing, splitting a
//! string at a separator character, and joining pieces with a separator.
//! The durability-log grammar, watch ids and transaction ids are all built
//! from these.
use vstd::prelude::*;

verus! {

/// The character for one decimal digit value (`d < 10`).
pub open spec fn digit_char(d: nat) -> char {
    ('0' as u8 + d as u8) as char
}

/// Decimal digits of `n`, most significant first, no leading zeros.
pub open spec fn dec_digits(n: nat) -> Seq<char>
    decreases n,
{
    if n < 10 {
        seq![digit_char(n)]
    } else {
        dec_digits(n / 10).push(digit_char(n % 10))
    }
}

/// Whether `c` is an ASCII decimal digit.
pub open spec fn is_digit(c: char) -> bool {
    '0' as u32 <= c as u32 && c as u32 <= '9' as u32
}

/// The value of one ASCII digit character.
pub open spec fn digit_val(c: char) -> nat {
    (c as u32 - '0' as u32) as nat
}

/// Whether every character of `s` is an ASCII decimal digit.
pub open spec fn all_digits(s: Seq<char>) -> bool {
    forall|i: int| 0 <= i < s.len() ==> is_digit(#[trigger] s[i])
}

/// The number denoted by a sequence of ASCII digits, most significant first.
pub open spec fn dec_val(s: Seq<char>) -> nat
    decreases s.len(),
{
    if s.len() == 0 {
        0
    } else {
        dec_val(s.drop_last()) * 10 + digit_val(s.last())
    }
}

/// A digit character reads back as the digit it was printed from.
pub proof fn lemma_digit_char_val(d: nat)
    requires
        d < 10,
    ensures
        is_digit(digit_char(d)),
        digit_val(digit_char(d)) == d,
{
    assert(('0' as u8 + d as u8) as char as u32 == 48 + d);
}

/// The digits printed for `n` read back as `n`.
pub proof fn lemma_dec_digits_val(n: nat)
    ensures
        all_digits(dec_digits(n)),
        dec_val(dec_digits(n)) == n,
        dec_digits(n).len() >= 1,
    decreases n,
{
    if n < 10 {
        lemma_digit_char_val(n);
        assert(dec_digits(n) =~= seq![digit_char(n)]);
        assert(dec_digits(n).drop_last() =~= Seq::<char>::empty());
        assert(dec_digits(n).last() == digit_char(n));
        assert(dec_val(Seq::<char>::empty()) == 0);
        assert(dec_val(dec_digits(n)) == 0 * 10 + digit_val(digit_char(n)));
    } else {
        lemma_digit_char_val(n % 10);
        lemma_dec_digits_val(n / 10);
        assert(dec_digits(n).drop_last() =~= dec_digits(n / 10));
        assert(dec_digits(n).last() == digit_char(n % 10));
        assert(dec_val(dec_digits(n)) == dec_val(dec_digits(n / 10)) * 10 + digit_val(
            digit_char(n % 10),
        ));
        assert forall|i: int| 0 <= i < dec_digits(n).len() implies is_digit(
            #[trigger] dec_digits(n)[i],
        ) by {
            if i < dec_digits(n / 10).len() {
                assert(dec_digits(n)[i] == dec_digits(n / 10)[i]);
            }
        }
    }
}

/// Append one character to a string, in place.
///
/// Relies on `String::push`: appends the given character onto the end of the
/// string.
#[verifier::external_body]
pub fn push_char(s: &mut String, c: char)
    ensures
        final(s)@ == old(s)@.push(c),
{
    s.push(c)
}

/// Print `n` in decimal.
pub fn u64_to_string(n: u64) -> (s: String)
    ensures
        s@ == dec_digits(n as nat),
{
    let mut rev: Vec<char> = Vec::new();
    let mut m: u64 = n;
    while m >= 10
        invariant
            dec_digits(n as nat) =~= dec_digits(m as nat) + rev@.reverse(),
        decreases m,
    {
        let d: u8 = (m % 10) as u8;
        let c: char = (48u8 + d) as char;
        proof {
            assert(c == digit_char((m % 10) as nat));
            assert(dec_digits(m as nat) =~= dec_digits((m / 10) as nat).push(c));
            assert((dec_digits((m / 10) as nat).push(c) + rev@.reverse()) =~= dec_digits(
                (m / 10) as nat,
            ) + rev@.push(c).reverse());
        }
        rev.push(c);
        m = m / 10;
    }
    let d: u8 = m as u8;
    let c: char = (48u8 + d) as char;
    proof {
        assert(c == digit_char(m as nat));
        assert(dec_digits(m as nat) =~= seq![c]);
        assert(dec_digits(n as nat) =~= rev@.push(c).reverse());
    }
    rev.push(c);
    let mut s = String::new();
    let mut i: usize = rev.len();
    while i > 0
        invariant
            i <= rev.len(),
            dec_digits(n as nat) =~= rev@.reverse(),
            s@ =~= rev@.reverse().take(rev@.len() - i),
        decreases i,
    {
        i = i - 1;
        let c = rev[i];
        push_char(&mut s, c);
        proof {
            assert(rev@.reverse()[rev@.len() - i - 1] == rev@[i as int]);
            assert(s@ =~= rev@.reverse().take(rev@.len() - i));
        }
    }
    proof {
        assert(s@ =~= rev@.reverse());
    }
    s
}

/// Parse an unsigned decimal number; `None` unless the whole string is one
/// or more ASCII digits denoting a value that fits in a `u64`.
pub fn parse_u64(s: &str) -> (r: Option<u64>)
    ensures
        r is Some <==> s@.len() > 0 && all_digits(s@) && dec_val(s@) <= u64::MAX,
        r is Some ==> r->0 == dec_val(s@),
{
    let n = s.unicode_len();
    if n == 0 {
        return None;
    }
    let mut i: usize = 0;
    let mut acc: u64 = 0;
    while i < n
        invariant
            0 < n == s@.len(),
            0 <= i <= n,
            all_digits(s@.take(i as int)),
            acc == dec_val(s@.take(i as int)),
        decreases n - i,
    {
        let c = s.get_char(i);
        let cv = c as u32;
        if cv < '0' as u32 || cv > '9' as u32 {
            proof {
                lemma_not_all_digits(s@, i as int);
            }
            return None;
        }
        let d: u64 = (cv - '0' as u32) as u64;
        proof {
            assert(s@.take(i + 1).drop_last() =~= s@.take(i as int));
            assert(s@.take(i + 1).last() == s@[i as int]);
        }
        if acc > (u64::MAX - d) / 10 {
            proof {
                assert(dec_val(s@.take(i + 1)) == acc * 10 + d);
                assert(acc * 10 + d > u64::MAX) by (nonlinear_arith)
                    requires
                        acc > (u64::MAX - d) / 10,
                        d <= 9,
                ;
                if all_digits(s@) {
                    lemma_dec_val_monotone(s@, i + 1);
                }
            }
            return None;
        }
        proof {
            assert(acc * 10 + d <= u64::MAX) by (nonlinear_arith)
                requires
                    acc <= (u64::MAX - d) / 10,
                    d <= 9,
            ;
            assert forall|j: int| 0 <= j < i + 1 implies is_digit(#[trigger] s@.take(i + 1)[j]) by {
                if j < i {
                    assert(s@.take(i + 1)[j] == s@.take(i as int)[j]);
                }
            }
        }
        acc = acc * 10 + d;
        i = i + 1;
    }
    proof {
        assert(s@.take(n as int) =~= s@);
    }
    Some(acc)
}

/// The pieces of `s` between occurrences of `sep`, in order.  Splitting the
/// empty string gives one empty piece, as `str::split` does.
pub open spec fn split_chars(s: Seq<char>, sep: char) -> Seq<Seq<char>>
    decreases s.len(),
{
    if s.len() == 0 {
        seq![Seq::<char>::empty()]
    } else if s[0] == sep {
        seq![Seq::<char>::empty()] + split_chars(s.drop_first(), sep)
    } else {
        let rest = split_chars(s.drop_first(), sep);
        rest.update(0, seq![s[0]] + rest[0])
    }
}

/// The pieces joined back together with `sep` between them.
pub open spec fn join_chars(pieces: Seq<Seq<char>>, sep: char) -> Seq<char>
    decreases pieces.len(),
{
    if pieces.len() == 0 {
        Seq::<char>::empty()
    } else if pieces.len() == 1 {
        pieces[0]
    } else {
        pieces[0] + seq![sep] + join_chars(pieces.drop_first(), sep)
    }
}

/// Whether `s` is free of the character `sep`.
pub open spec fn free_of(s: Seq<char>, sep: char) -> bool {
    forall|i: int| 0 <= i < s.len() ==> (#[trigger] s[i]) != sep
}

/// Splitting always yields at least one piece.
pub proof fn lemma_split_len(s: Seq<char>, sep: char)
    ensures
        split_chars(s, sep).len() >= 1,
    decreases s.len(),
{
    if s.len() > 0 {
        lemma_split_len(s.drop_first(), sep);
    }
}

/// How the split of a string grows when one character is appended: a
/// separator starts a new empty piece, any other character extends the last
/// piece.
pub proof fn lemma_split_push(s: Seq<char>, sep: char, c: char)
    ensures
        c == sep ==> split_chars(s.push(c), sep) =~~= split_chars(s, sep).push(
            Seq::<char>::empty(),
        ),
        c != sep ==> split_chars(s.push(c), sep) =~~= split_chars(s, sep).update(
            split_chars(s, sep).len() - 1,
            split_chars(s, sep).last().push(c),
        ),
    decreases s.len(),
{
    lemma_split_len(s, sep);
    if s.len() == 0 {
        assert(s =~= Seq::<char>::empty());
        assert(s.push(c).drop_first() =~= Seq::<char>::empty());
        assert(split_chars(Seq::<char>::empty(), sep) =~~= seq![Seq::<char>::empty()]);
        if c == sep {
            assert(split_chars(s.push(c), sep) =~~= seq![
                Seq::<char>::empty(),
                Seq::<char>::empty(),
            ]);
        } else {
            assert(split_chars(s.push(c), sep) =~~= seq![seq![c]]);
            assert(split_chars(s, sep).last().push(c) =~= seq![c]);
        }
    } else {
        lemma_split_len(s.drop_first(), sep);
        lemma_split_push(s.drop_first(), sep, c);
        assert(s.push(c).drop_first() =~= s.drop_first().push(c));
        assert(s.push(c)[0] == s[0]);
    }
}

/// A string without the separator splits into itself alone.
pub proof fn lemma_split_nosep(s: Seq<char>, sep: char)
    requires
        free_of(s, sep),
    ensures
        split_chars(s, sep) =~~= seq![s],
    decreases s.len(),
{
    if s.len() > 0 {
        assert(s[0] != sep);
        lemma_split_nosep(s.drop_first(), sep);
        assert(seq![s[0]] + s.drop_first() =~= s);
    }
}

/// Splitting a string that starts with a separator-free piece, then the
/// separator, peels off that piece.
pub proof fn lemma_split_prefix(x: Seq<char>, rest: Seq<char>, sep: char)
    requires
        free_of(x, sep),
    ensures
        split_chars(x + seq![sep] + rest, sep) =~~= seq![x] + split_chars(rest, sep),
    decreases x.len(),
{
    lemma_split_len(rest, sep);
    if x.len() == 0 {
        assert((x + seq![sep] + rest)[0] == sep);
        assert((x + seq![sep] + rest).drop_first() =~= rest);
    } else {
        lemma_split_prefix(x.drop_first(), rest, sep);
        let s = x + seq![sep] + rest;
        assert(s[0] == x[0]);
        assert(s.drop_first() =~= x.drop_first() + seq![sep] + rest);
        assert(seq![x[0]] + x.drop_first() =~= x);
    }
}

/// Joining separator-free pieces and splitting again gives the pieces back.
pub proof fn lemma_split_join(pieces: Seq<Seq<char>>, sep: char)
    requires
        pieces.len() >= 1,
        forall|i: int| 0 <= i < pieces.len() ==> free_of(#[trigger] pieces[i], sep),
    ensures
        split_chars(join_chars(pieces, sep), sep) =~~= pieces,
    decreases pieces.len(),
{
    if pieces.len() == 1 {
        lemma_split_nosep(pieces[0], sep);
    } else {
        lemma_split_join(pieces.drop_first(), sep);
        lemma_split_prefix(pieces[0], join_chars(pieces.drop_first(), sep), sep);
        assert(seq![pieces[0]] + pieces.drop_first() =~= pieces);
    }
}

/// How a join grows when one piece is appended at the end.
pub proof fn lemma_join_push(pieces: Seq<Seq<char>>, sep: char, p: Seq<char>)
    requires
        pieces.len() >= 1,
    ensures
        join_chars(pieces.push(p), sep) =~~= join_chars(pieces, sep) + seq![sep] + p,
    decreases pieces.len(),
{
    if pieces.len() == 1 {
        assert(pieces.push(p).drop_first() =~= seq![p]);
        assert(join_chars(seq![p], sep) == p);
    } else {
        lemma_join_push(pieces.drop_first(), sep, p);
        assert(pieces.push(p).drop_first() =~= pieces.drop_first().push(p));
        assert(pieces.push(p)[0] == pieces[0]);
    }
}

/// Split a string at every occurrence of `sep`.
pub fn split_string(s: &str, sep: char) -> (r: Vec<String>)
    ensures
        r.deep_view() == split_chars(s@, sep),
        r@.len() >= 1,
{
    let n = s.unicode_len();
    let mut out: Vec<String> = Vec::new();
    let mut cur = String::new();
    let mut i: usize = 0;
    while i < n
        invariant
            i <= n == s@.len(),
            out.deep_view().push(cur@) =~~= split_chars(s@.take(i as int), sep),
        decreases n - i,
    {
        let c = s.get_char(i);
        proof {
            lemma_split_push(s@.take(i as int), sep, c);
            assert(s@.take(i + 1) =~= s@.take(i as int).push(s@[i as int]));
            lemma_split_len(s@.take(i as int), sep);
        }
        if c == sep {
            out.push(cur);
            cur = String::new();
            proof {
                assert(out.deep_view().push(cur@) =~~= split_chars(s@.take(i + 1), sep));
            }
        } else {
            push_char(&mut cur, c);
            proof {
                assert(out.deep_view().push(cur@) =~~= split_chars(s@.take(i + 1), sep));
            }
        }
        i = i + 1;
    }
    proof {
        assert(s@.take(n as int) =~= s@);
    }
    out.push(cur);
    proof {
        lemma_split_len(s@, sep);
        assert(out.deep_view() =~~= split_chars(s@, sep));
    }
    out
}

/// Break a command line into its space-separated words, as the interactive
/// client does.
pub fn parse_command(buf: &String) -> (r: Vec<String>)
    ensures
        r.deep_view() == split_chars(buf@, ' '),
        r@.len() >= 1,
{
    split_string(buf.as_str(), ' ')
}

/// Read a decimal number out of a digit sequence, as the interactive client
/// does for the receiver count that a publish reports.
pub fn get_num(v: &Vec<char>) -> (r: i32)
    requires
        all_digits(v@),
        dec_val(v@) <= i32::MAX,
    ensures
        r == dec_val(v@),
{
    let mut index: usize = 0;
    let mut res: i32 = 0;
    while index < v.len()
        invariant
            all_digits(v@),
            dec_val(v@) <= i32::MAX,
            index <= v@.len(),
            res == dec_val(v@.take(index as int)),
        decreases v@.len() - index,
    {
        proof {
            assert(v@.take(index + 1).drop_last() =~= v@.take(index as int));
            assert(v@.take(index + 1).last() == v@[index as int]);
            lemma_dec_val_monotone(v@, index + 1);
        }
        let cv = v[index] as u32;
        res = res * 10 + (cv - 48) as i32;
        index = index + 1;
    }
    proof {
        assert(v@.take(v@.len() as int) =~= v@);
    }
    res
}

/// If some character of `s` is not a digit, not all of `s` is digits.
proof fn lemma_not_all_digits(s: Seq<char>, i: int)
    requires
        0 <= i < s.len(),
        !is_digit(s[i]),
    ensures
        !all_digits(s),
{
}

/// A digit string is worth at least any of its prefixes: if a prefix already
/// exceeds a bound, the whole string does too.
proof fn lemma_dec_val_monotone(s: Seq<char>, i: int)
    requires
        0 <= i <= s.len(),
        all_digits(s),
    ensures
        dec_val(s) >= dec_val(s.take(i)),
    decreases s.len() - i,
{
    if i < s.len() {
        assert(s.take(i + 1).drop_last() =~= s.take(i));
        assert(dec_val(s.take(i + 1)) == dec_val(s.take(i)) * 10 + digit_val(s.take(i + 1).last()));
        assert(dec_val(s.take(i)) * 10 >= dec_val(s.take(i))) by (nonlinear_arith);
        lemma_dec_val_monotone(s, i + 1);
        assert(s.take(s.len() as int) =~= s);
    } else {
        assert(s.take(i) =~= s);
    }
}

} // verus!
