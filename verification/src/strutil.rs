//! Verified string primitives: splitting, whitespace tokens, trimming, and
//! decimal rendering of integers.  These are the building blocks of request
//! parsing, route matching, and response serialization.

use vstd::prelude::*;
use vstd::string::*;

verus! {

/// The whitespace characters recognized when tokenizing a request line.
pub open spec fn is_space(c: char) -> bool {
    c == ' ' || c == '\t' || c == '\r' || c == '\n'
}

/// Splitting a character sequence at every occurrence of `sep`, keeping
/// empty pieces, as `str::split` does: the result always has at least one
/// piece, and joining the pieces with `sep` gives back `s`.
pub open spec fn split_chars(s: Seq<char>, sep: char) -> Seq<Seq<char>>
    decreases s.len(),
{
    if s.len() == 0 {
        seq![Seq::<char>::empty()]
    } else if s[0] == sep {
        seq![Seq::<char>::empty()] + split_chars(s.skip(1), sep)
    } else {
        let rest = split_chars(s.skip(1), sep);
        seq![seq![s[0]] + rest[0]] + rest.skip(1)
    }
}

pub proof fn lemma_split_chars_len(s: Seq<char>, sep: char)
    ensures
        split_chars(s, sep).len() >= 1,
    decreases s.len(),
{
    if s.len() == 0 {
    } else if s[0] == sep {
    } else {
        lemma_split_chars_len(s.skip(1), sep);
    }
}

/// The splitting model is faithful: joining the pieces with the separator
/// gives back the sequence that was split.
pub proof fn lemma_split_chars_join(s: Seq<char>, sep: char)
    ensures
        join_char(split_chars(s, sep), sep) =~= s,
    decreases s.len(),
{
    lemma_split_chars_len(s, sep);
    if s.len() == 0 {
    } else if s[0] == sep {
        lemma_split_chars_join(s.skip(1), sep);
        lemma_split_chars_len(s.skip(1), sep);
        let parts = seq![Seq::<char>::empty()] + split_chars(s.skip(1), sep);
        assert(parts.skip(1) =~~= split_chars(s.skip(1), sep));
        assert(join_char(parts, sep) == parts[0] + seq![sep] + join_char(parts.skip(1), sep));
        assert(Seq::<char>::empty() + seq![sep] + s.skip(1) =~= s);
    } else {
        lemma_split_chars_join(s.skip(1), sep);
        lemma_split_chars_len(s.skip(1), sep);
        let r = split_chars(s.skip(1), sep);
        let parts = seq![seq![s[0]] + r[0]] + r.skip(1);
        if r.len() == 1 {
            assert(parts =~~= seq![seq![s[0]] + r[0]]);
            assert(join_char(r, sep) == r[0]);
            assert(seq![s[0]] + r[0] =~= s);
        } else {
            assert(parts.skip(1) =~~= r.skip(1));
            assert(parts[0] == seq![s[0]] + r[0]);
            assert(join_char(parts, sep) == (seq![s[0]] + r[0]) + seq![sep] + join_char(
                r.skip(1),
                sep,
            ));
            assert(join_char(r, sep) == r[0] + seq![sep] + join_char(r.skip(1), sep));
            assert((seq![s[0]] + r[0]) + seq![sep] + join_char(r.skip(1), sep) =~= seq![s[0]] + (
            r[0] + seq![sep] + join_char(r.skip(1), sep)));
            assert(seq![s[0]] + s.skip(1) =~= s);
        }
    }
}

/// A piece free of the separator is split into itself alone.
pub proof fn lemma_split_chars_no_sep(s: Seq<char>, sep: char)
    requires
        forall|i: int| 0 <= i < s.len() ==> s[i] != sep,
    ensures
        split_chars(s, sep) =~~= seq![s],
    decreases s.len(),
{
    if s.len() == 0 {
        assert(split_chars(s, sep) == seq![Seq::<char>::empty()]);
        assert(s =~= Seq::<char>::empty());
    } else {
        lemma_split_chars_no_sep(s.skip(1), sep);
        assert(seq![s[0]] + s.skip(1) =~= s);
    }
}

/// Splitting starts with the first separator-free piece.
pub proof fn lemma_split_chars_step(a: Seq<char>, b: Seq<char>, sep: char)
    requires
        forall|i: int| 0 <= i < a.len() ==> a[i] != sep,
    ensures
        split_chars(a + seq![sep] + b, sep) =~~= seq![a] + split_chars(b, sep),
    decreases a.len(),
{
    let s = a + seq![sep] + b;
    if a.len() == 0 {
        assert(s[0] == sep);
        assert(s.skip(1) =~= b);
    } else {
        assert(s[0] == a[0]);
        assert(s.skip(1) =~= a.skip(1) + seq![sep] + b);
        lemma_split_chars_step(a.skip(1), b, sep);
        let rest = split_chars(s.skip(1), sep);
        lemma_split_chars_len(b, sep);
        assert(rest[0] == a.skip(1));
        assert(seq![s[0]] + rest[0] =~= a);
    }
}

/// The whitespace-separated tokens of a character sequence, in order, with
/// no empty tokens, as `str::split_whitespace` yields them.
pub open spec fn ws_tokens(s: Seq<char>) -> Seq<Seq<char>>
    decreases s.len(),
{
    if s.len() == 0 {
        Seq::<Seq<char>>::empty()
    } else if is_space(s[0]) {
        ws_tokens(s.skip(1))
    } else {
        let rest = ws_tokens(s.skip(1));
        if s.len() > 1 && !is_space(s[1]) {
            rest.update(0, seq![s[0]] + rest[0])
        } else {
            seq![seq![s[0]]] + rest
        }
    }
}

/// A sequence of nothing but whitespace has no tokens.
pub proof fn lemma_ws_tokens_all_space(s: Seq<char>)
    requires
        forall|i: int| 0 <= i < s.len() ==> is_space(s[i]),
    ensures
        ws_tokens(s) =~~= Seq::<Seq<char>>::empty(),
    decreases s.len(),
{
    if s.len() > 0 {
        lemma_ws_tokens_all_space(s.skip(1));
    }
}

/// Tokenizing steps over a leading run of whitespace.
pub proof fn lemma_ws_tokens_skip_space(s: Seq<char>, k: int)
    requires
        0 <= k <= s.len(),
        forall|i: int| 0 <= i < k ==> is_space(s[i]),
    ensures
        ws_tokens(s) =~~= ws_tokens(s.skip(k)),
    decreases k,
{
    if k > 0 {
        assert(ws_tokens(s) == ws_tokens(s.skip(1)));
        lemma_ws_tokens_skip_space(s.skip(1), k - 1);
        assert(s.skip(1).skip(k - 1) =~= s.skip(k));
    } else {
        assert(s.skip(0) =~= s);
    }
}

/// A maximal space-free run at the front is the first token.
pub proof fn lemma_ws_tokens_step(t: Seq<char>, rest: Seq<char>)
    requires
        t.len() > 0,
        forall|i: int| 0 <= i < t.len() ==> !is_space(t[i]),
        rest.len() == 0 || is_space(rest[0]),
    ensures
        ws_tokens(t + rest) =~~= seq![t] + ws_tokens(rest),
    decreases t.len(),
{
    let s = t + rest;
    assert(s[0] == t[0]);
    assert(s.skip(1) =~= t.skip(1) + rest);
    if t.len() == 1 {
        assert(t.skip(1) + rest =~= rest);
        assert(seq![s[0]] =~= t);
        if rest.len() == 0 {
            assert(seq![seq![s[0]]] + ws_tokens(rest) =~~= seq![t] + ws_tokens(rest));
        } else {
            assert(s.len() > 1 && is_space(s[1]));
            assert(seq![seq![s[0]]] + ws_tokens(rest) =~~= seq![t] + ws_tokens(rest));
        }
    } else {
        assert(s.len() > 1 && !is_space(s[1]));
        lemma_ws_tokens_step(t.skip(1), rest);
        let r = ws_tokens(s.skip(1));
        assert(r == seq![t.skip(1)] + ws_tokens(rest));
        assert(r[0] == t.skip(1));
        assert(seq![s[0]] + r[0] =~= t);
        assert(r.update(0, seq![s[0]] + r[0]) =~~= seq![t] + ws_tokens(rest));
    }
}

/// What remains of `s` after the leading run of whitespace.
pub open spec fn trim_left_chars(s: Seq<char>) -> Seq<char>
    decreases s.len(),
{
    if s.len() > 0 && is_space(s[0]) {
        trim_left_chars(s.skip(1))
    } else {
        s
    }
}

pub proof fn lemma_trim_left_chars(s: Seq<char>, k: int)
    requires
        0 <= k <= s.len(),
        forall|i: int| 0 <= i < k ==> is_space(s[i]),
        k == s.len() || !is_space(s[k]),
    ensures
        trim_left_chars(s) =~= s.skip(k),
    decreases k,
{
    if k > 0 {
        lemma_trim_left_chars(s.skip(1), k - 1);
        assert(s.skip(1).skip(k - 1) =~= s.skip(k));
    } else {
        assert(s.skip(0) =~= s);
    }
}

/// A line with one trailing carriage return removed, as `str::lines` strips
/// `\r\n` endings.
pub open spec fn strip_cr(l: Seq<char>) -> Seq<char> {
    if l.len() > 0 && l.last() == '\r' {
        l.drop_last()
    } else {
        l
    }
}

/// The index of the first occurrence of `c` in `s`, if any.
pub open spec fn find_char(s: Seq<char>, c: char) -> Option<int>
    decreases s.len(),
{
    if s.len() == 0 {
        None
    } else if s[0] == c {
        Some(0)
    } else {
        match find_char(s.skip(1), c) {
            Some(i) => Some(i + 1),
            None => None,
        }
    }
}

/// The first occurrence determines `find_char`.
pub proof fn lemma_find_char_from_witness(s: Seq<char>, c: char, i: int)
    requires
        0 <= i < s.len(),
        s[i] == c,
        forall|j: int| 0 <= j < i ==> s[j] != c,
    ensures
        find_char(s, c) == Some(i),
    decreases i,
{
    if i > 0 {
        lemma_find_char_from_witness(s.skip(1), c, i - 1);
    }
}

pub proof fn lemma_find_char_none(s: Seq<char>, c: char)
    requires
        forall|j: int| 0 <= j < s.len() ==> s[j] != c,
    ensures
        find_char(s, c) is None,
    decreases s.len(),
{
    if s.len() > 0 {
        lemma_find_char_none(s.skip(1), c);
    }
}

/// The index of the last occurrence of `c` in `s`, if any.
pub open spec fn find_last_char(s: Seq<char>, c: char) -> Option<int>
    decreases s.len(),
{
    if s.len() == 0 {
        None
    } else if s.last() == c {
        Some(s.len() - 1)
    } else {
        find_last_char(s.drop_last(), c)
    }
}

/// The last occurrence determines `find_last_char`.
pub proof fn lemma_find_last_char_from_witness(s: Seq<char>, c: char, i: int)
    requires
        0 <= i < s.len(),
        s[i] == c,
        forall|j: int| i < j < s.len() ==> s[j] != c,
    ensures
        find_last_char(s, c) == Some(i),
    decreases s.len(),
{
    if i < s.len() - 1 {
        lemma_find_last_char_from_witness(s.drop_last(), c, i);
    }
}

pub proof fn lemma_find_last_char_none(s: Seq<char>, c: char)
    requires
        forall|j: int| 0 <= j < s.len() ==> s[j] != c,
    ensures
        find_last_char(s, c) is None,
    decreases s.len(),
{
    if s.len() > 0 {
        lemma_find_last_char_none(s.drop_last(), c);
    }
}

/// The pieces joined with `sep` between them, the inverse of `split_chars`.
pub open spec fn join_char(parts: Seq<Seq<char>>, sep: char) -> Seq<char>
    decreases parts.len(),
{
    if parts.len() == 0 {
        Seq::<char>::empty()
    } else if parts.len() == 1 {
        parts[0]
    } else {
        parts[0] + seq![sep] + join_char(parts.skip(1), sep)
    }
}

/// The character for a single decimal digit.
pub open spec fn dec_digit(d: nat) -> char {
    if d == 0 {
        '0'
    } else if d == 1 {
        '1'
    } else if d == 2 {
        '2'
    } else if d == 3 {
        '3'
    } else if d == 4 {
        '4'
    } else if d == 5 {
        '5'
    } else if d == 6 {
        '6'
    } else if d == 7 {
        '7'
    } else if d == 8 {
        '8'
    } else {
        '9'
    }
}

/// The numeric value of a decimal digit character; ten for non-digits.
pub open spec fn digit_val(c: char) -> nat {
    if c == '0' {
        0
    } else if c == '1' {
        1
    } else if c == '2' {
        2
    } else if c == '3' {
        3
    } else if c == '4' {
        4
    } else if c == '5' {
        5
    } else if c == '6' {
        6
    } else if c == '7' {
        7
    } else if c == '8' {
        8
    } else if c == '9' {
        9
    } else {
        10
    }
}

/// The decimal digits of `n`, most significant first, with no leading zeros
/// (a single `'0'` for zero).
pub open spec fn dec_chars(n: nat) -> Seq<char>
    decreases n,
{
    if n < 10 {
        seq![dec_digit(n)]
    } else {
        dec_chars(n / 10).push(dec_digit(n % 10))
    }
}

/// The decimal rendering of a possibly negative integer.
pub open spec fn dec_int_chars(i: int) -> Seq<char> {
    if i < 0 {
        seq!['-'] + dec_chars((-i) as nat)
    } else {
        dec_chars(i as nat)
    }
}

/// The number denoted by a sequence of decimal digit characters.
pub open spec fn dec_val(s: Seq<char>) -> nat
    decreases s.len(),
{
    if s.len() == 0 {
        0
    } else {
        dec_val(s.drop_last()) * 10 + digit_val(s.last())
    }
}

/// Rendering a number in decimal and reading the digits back yields the
/// number itself, so the rendering is exact and injective.
pub proof fn lemma_dec_chars_val(n: nat)
    ensures
        dec_val(dec_chars(n)) == n,
        dec_chars(n).len() >= 1,
        forall|i: int| 0 <= i < dec_chars(n).len() ==> digit_val(#[trigger] dec_chars(n)[i]) < 10,
    decreases n,
{
    if n < 10 {
        assert(dec_chars(n).drop_last() =~= Seq::<char>::empty());
        assert(dec_chars(n).last() == dec_digit(n));
        assert(digit_val(dec_digit(n)) == n);
        assert(dec_val(dec_chars(n)) == dec_val(Seq::<char>::empty()) * 10 + digit_val(
            dec_digit(n),
        ));
    } else {
        lemma_dec_chars_val(n / 10);
        assert(dec_chars(n).drop_last() =~= dec_chars(n / 10));
        assert(dec_chars(n).last() == dec_digit(n % 10));
        assert(n % 10 < 10);
        assert(digit_val(dec_digit(n % 10)) == n % 10);
        assert((n / 10) * 10 + n % 10 == n) by (nonlinear_arith);
        assert(dec_val(dec_chars(n)) == dec_val(dec_chars(n / 10)) * 10 + digit_val(
            dec_chars(n).last(),
        ));
    }
}

/// Character-wise string equality, usable wherever contracts speak of the
/// views of two strings.
pub fn str_eq(a: &str, b: &str) -> (r: bool)
    ensures
        r == (a@ == b@),
{
    let alen = a.unicode_len();
    let blen = b.unicode_len();
    if alen != blen {
        return false;
    }
    let mut i: usize = 0;
    while i < alen
        invariant
            0 <= i <= alen,
            alen == a@.len(),
            alen == b@.len(),
            forall|j: int| 0 <= j < i ==> a@[j] == b@[j],
        decreases alen - i,
    {
        if a.get_char(i) != b.get_char(i) {
            return false;
        }
        i = i + 1;
    }
    proof {
        assert(a@ =~= b@);
    }
    true
}

/// Whether `c` is one of the recognized whitespace characters.
pub fn is_space_char(c: char) -> (r: bool)
    ensures
        r == is_space(c),
{
    c == ' ' || c == '\t' || c == '\r' || c == '\n'
}

/// The first occurrence of `c` in `s` at or after `from`, if any.
pub fn find_in(s: &str, from: usize, c: char) -> (r: Option<usize>)
    requires
        from <= s@.len(),
    ensures
        match r {
            Some(i) => from <= i < s@.len() && s@[i as int] == c && forall|j: int|
                from <= j < i ==> s@[j] != c,
            None => forall|j: int| from <= j < s@.len() ==> s@[j] != c,
        },
{
    let len = s.unicode_len();
    let mut i = from;
    while i < len
        invariant
            from <= i <= len,
            len == s@.len(),
            forall|j: int| from <= j < i ==> s@[j] != c,
        decreases len - i,
    {
        if s.get_char(i) == c {
            return Some(i);
        }
        i = i + 1;
    }
    None
}

/// The first index at or after `from` holding a non-whitespace character,
/// or the length of `s` if the rest is all whitespace.
pub fn find_non_space_in(s: &str, from: usize) -> (r: usize)
    requires
        from <= s@.len(),
    ensures
        from <= r <= s@.len(),
        forall|j: int| from <= j < r ==> is_space(s@[j]),
        r < s@.len() ==> !is_space(s@[r as int]),
{
    let len = s.unicode_len();
    let mut i = from;
    while i < len
        invariant
            from <= i <= len,
            len == s@.len(),
            forall|j: int| from <= j < i ==> is_space(s@[j]),
        decreases len - i,
    {
        if !is_space_char(s.get_char(i)) {
            return i;
        }
        i = i + 1;
    }
    len
}

/// The first index at or after `from` holding a whitespace character, or
/// the length of `s` if none follows.
pub fn find_space_in(s: &str, from: usize) -> (r: usize)
    requires
        from <= s@.len(),
    ensures
        from <= r <= s@.len(),
        forall|j: int| from <= j < r ==> !is_space(s@[j]),
        r < s@.len() ==> is_space(s@[r as int]),
{
    let len = s.unicode_len();
    let mut i = from;
    while i < len
        invariant
            from <= i <= len,
            len == s@.len(),
            forall|j: int| from <= j < i ==> !is_space(s@[j]),
        decreases len - i,
    {
        if is_space_char(s.get_char(i)) {
            return i;
        }
        i = i + 1;
    }
    len
}

/// Splits `s` at every occurrence of `sep`, keeping empty pieces.
pub fn split_str(s: &str, sep: char) -> (r: Vec<String>)
    ensures
        r.deep_view() == split_chars(s@, sep),
        r.len() >= 1,
{
    let len = s.unicode_len();
    let mut out: Vec<String> = Vec::new();
    let mut start: usize = 0;
    proof {
        assert(s@.skip(0) =~= s@);
    }
    loop
        invariant
            start <= len,
            len == s@.len(),
            split_chars(s@, sep) =~~= out.deep_view() + split_chars(s@.skip(start as int), sep),
        decreases len - start,
    {
        match find_in(s, start, sep) {
            Some(i) => {
                let piece = s.substring_char(start, i).to_owned();
                proof {
                    let pv = s@.subrange(start as int, i as int);
                    assert(s@.skip(start as int) =~= pv + seq![sep] + s@.skip(i + 1));
                    lemma_split_chars_step(pv, s@.skip(i + 1), sep);
                    assert(out.deep_view().push(pv) =~~= out.deep_view() + seq![pv]);
                }
                out.push(piece);
                start = i + 1;
            },
            None => {
                let piece = s.substring_char(start, len).to_owned();
                proof {
                    let pv = s@.skip(start as int);
                    lemma_split_chars_no_sep(pv, sep);
                    assert(out.deep_view().push(pv) =~~= out.deep_view() + seq![pv]);
                    lemma_split_chars_len(s@, sep);
                }
                out.push(piece);
                return out;
            },
        }
    }
}

/// The whitespace-separated tokens of `s`, in order.
pub fn ws_tokens_of(s: &str) -> (r: Vec<String>)
    ensures
        r.deep_view() == ws_tokens(s@),
{
    let len = s.unicode_len();
    let mut out: Vec<String> = Vec::new();
    let mut pos: usize = 0;
    proof {
        assert(s@.skip(0) =~= s@);
    }
    loop
        invariant
            pos <= len,
            len == s@.len(),
            ws_tokens(s@) =~~= out.deep_view() + ws_tokens(s@.skip(pos as int)),
        decreases len - pos,
    {
        let i = find_non_space_in(s, pos);
        proof {
            assert(forall|j: int|
                0 <= j < i - pos ==> is_space(#[trigger] s@.skip(pos as int)[j]));
            lemma_ws_tokens_skip_space(s@.skip(pos as int), i - pos);
            assert(s@.skip(pos as int).skip(i - pos) =~= s@.skip(i as int));
        }
        if i == len {
            proof {
                lemma_ws_tokens_all_space(s@.skip(i as int));
                assert(out.deep_view() + Seq::<Seq<char>>::empty() =~~= out.deep_view());
            }
            return out;
        }
        let j = find_space_in(s, i);
        let tok = s.substring_char(i, j).to_owned();
        proof {
            let tv = s@.subrange(i as int, j as int);
            assert(s@.skip(i as int) =~= tv + s@.skip(j as int));
            lemma_ws_tokens_step(tv, s@.skip(j as int));
            assert(out.deep_view().push(tv) =~~= out.deep_view() + seq![tv]);
        }
        out.push(tok);
        pos = j;
    }
}

/// Removes the leading run of whitespace from `s`.
pub fn trim_start_str(s: &str) -> (r: String)
    ensures
        r@ == trim_left_chars(s@),
{
    let len = s.unicode_len();
    let k = find_non_space_in(s, 0);
    proof {
        lemma_trim_left_chars(s@, k as int);
    }
    s.substring_char(k, len).to_owned()
}

/// Removes one trailing carriage return, as `str::lines` does for `\r\n`.
pub fn chop_cr(s: &str) -> (r: String)
    ensures
        r@ == strip_cr(s@),
{
    let len = s.unicode_len();
    if len > 0 && s.get_char(len - 1) == '\r' {
        proof {
            assert(s@.subrange(0, s@.len() - 1) =~= s@.drop_last());
        }
        s.substring_char(0, len - 1).to_owned()
    } else {
        s.to_owned()
    }
}

/// A single decimal digit as a string slice.
fn digit_str(d: u64) -> (r: &'static str)
    requires
        d < 10,
    ensures
        r@ =~= seq![dec_digit(d as nat)],
{
    proof {
        reveal_strlit("0");
        reveal_strlit("1");
        reveal_strlit("2");
        reveal_strlit("3");
        reveal_strlit("4");
        reveal_strlit("5");
        reveal_strlit("6");
        reveal_strlit("7");
        reveal_strlit("8");
        reveal_strlit("9");
    }
    if d == 0 {
        "0"
    } else if d == 1 {
        "1"
    } else if d == 2 {
        "2"
    } else if d == 3 {
        "3"
    } else if d == 4 {
        "4"
    } else if d == 5 {
        "5"
    } else if d == 6 {
        "6"
    } else if d == 7 {
        "7"
    } else if d == 8 {
        "8"
    } else {
        "9"
    }
}

/// Renders `n` in decimal.
pub fn u64_to_string(n: u64) -> (r: String)
    ensures
        r@ == dec_chars(n as nat),
    decreases n,
{
    if n < 10 {
        digit_str(n).to_owned()
    } else {
        let mut r = u64_to_string(n / 10);
        r.append(digit_str(n % 10));
        proof {
            assert(r@ =~= dec_chars((n / 10) as nat).push(dec_digit((n % 10) as nat)));
        }
        r
    }
}

/// Renders `n` in decimal.
pub fn usize_to_string(n: usize) -> (r: String)
    ensures
        r@ == dec_chars(n as nat),
{
    u64_to_string(n as u64)
}

/// Renders `n` in decimal, with a leading minus sign when negative.
pub fn i32_to_string(n: i32) -> (r: String)
    ensures
        r@ == dec_int_chars(n as int),
{
    if n < 0 {
        let mag: u64 = (-(n as i64)) as u64;
        let mut r = String::from_str("-");
        proof {
            reveal_strlit("-");
            assert(r@ =~= seq!['-']);
        }
        r.append(u64_to_string(mag).as_str());
        r
    } else {
        u64_to_string(n as u64)
    }
}

proof fn lemma_join_char_take_step(p: Seq<Seq<char>>, sep: char, i: int)
    requires
        1 <= i < p.len(),
    ensures
        join_char(p.take(i + 1), sep) =~= join_char(p.take(i), sep) + seq![sep] + p[i],
    decreases i,
{
    if i == 1 {
        assert(p.take(2)[0] == p[0]);
        assert(p.take(2).skip(1) =~~= seq![p[1]]);
        assert(p.take(1) =~~= seq![p[0]]);
        assert(join_char(seq![p[1]], sep) == p[1]);
        assert(join_char(p.take(2), sep) == p.take(2)[0] + seq![sep] + join_char(
            p.take(2).skip(1),
            sep,
        ));
        assert(join_char(p.take(2), sep) =~= p[0] + seq![sep] + p[1]);
        assert(join_char(p.take(1), sep) == p[0]);
    } else {
        lemma_join_char_take_step(p.skip(1), sep, i - 1);
        assert(p.take(i + 1).skip(1) =~~= p.skip(1).take(i));
        assert(p.take(i).skip(1) =~~= p.skip(1).take(i - 1));
        assert(p.take(i + 1)[0] == p[0]);
        assert(p.take(i)[0] == p[0]);
        assert(p.skip(1)[i - 1] == p[i]);
        assert(join_char(p.take(i + 1), sep) == p[0] + seq![sep] + join_char(
            p.skip(1).take(i),
            sep,
        ));
        assert(join_char(p.take(i), sep) == p[0] + seq![sep] + join_char(
            p.skip(1).take(i - 1),
            sep,
        ));
        assert(p[0] + seq![sep] + (join_char(p.skip(1).take(i - 1), sep) + seq![sep] + p[i]) =~= (
        p[0] + seq![sep] + join_char(p.skip(1).take(i - 1), sep)) + seq![sep] + p[i]);
    }
}

/// Joins the pieces with `'/'` between them.
pub fn join_slash(parts: &Vec<String>) -> (r: String)
    ensures
        r@ == join_char(parts.deep_view(), '/'),
{
    if parts.len() == 0 {
        return String::new();
    }
    let mut r: String = parts[0].clone();
    let mut i: usize = 1;
    proof {
        assert(parts.deep_view().take(1) =~~= seq![parts.deep_view()[0]]);
    }
    while i < parts.len()
        invariant
            1 <= i <= parts.len(),
            parts.deep_view().len() == parts.len(),
            r@ == join_char(parts.deep_view().take(i as int), '/'),
        decreases parts.len() - i,
    {
        r.append("/");
        r.append(parts[i].as_str());
        proof {
            reveal_strlit("/");
            assert("/"@ =~= seq!['/']);
            lemma_join_char_take_step(parts.deep_view(), '/', i as int);
        }
        i = i + 1;
    }
    proof {
        assert(parts.deep_view().take(parts.len() as int) =~~= parts.deep_view());
    }
    r
}

} // verus!
