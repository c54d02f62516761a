//! Verified helpers for building the text documents that the emitters
//! produce: decimal and hexadecimal renderings of integers and byte
//! sequences, all specified over `Seq<char>`.

use vstd::prelude::*;

verus! {

/// The character for a single decimal or hexadecimal digit value.
pub open spec fn digit_char(d: nat) -> char {
    if d == 0 {
        '0'
    } else if d == 1 {
        '1'
    } else if d == 2 {
        '2'
    } else if d == 3 {
        '3'
    } else if d == 4 {
        '4'
    } else if d == 5 {
        '5'
    } else if d == 6 {
        '6'
    } else if d == 7 {
        '7'
    } else if d == 8 {
        '8'
    } else if d == 9 {
        '9'
    } else if d == 10 {
        'A'
    } else if d == 11 {
        'B'
    } else if d == 12 {
        'C'
    } else if d == 13 {
        'D'
    } else if d == 14 {
        'E'
    } else {
        'F'
    }
}

/// Two upper-case hexadecimal digits for one byte.
pub open spec fn hex_pair(b: u8) -> Seq<char> {
    seq![digit_char(b as nat / 16), digit_char(b as nat % 16)]
}

/// The bytes rendered as consecutive upper-case hexadecimal pairs.
pub open spec fn hex_pairs(bs: Seq<u8>) -> Seq<char>
    decreases bs.len(),
{
    if bs.len() == 0 {
        Seq::empty()
    } else {
        hex_pair(bs[0]) + hex_pairs(bs.skip(1))
    }
}

/// The bytes rendered as upper-case hexadecimal pairs joined by `:`.
pub open spec fn hex_pairs_colon(bs: Seq<u8>) -> Seq<char>
    decreases bs.len(),
{
    if bs.len() == 0 {
        Seq::empty()
    } else if bs.len() == 1 {
        hex_pair(bs[0])
    } else {
        hex_pair(bs[0]) + seq![':'] + hex_pairs_colon(bs.skip(1))
    }
}

/// The decimal rendering of a non-negative integer, most significant
/// digit first, with no leading zeros (a single `0` for zero).
pub open spec fn dec_digits(n: nat) -> Seq<char>
    decreases n,
{
    if n < 10 {
        seq![digit_char(n)]
    } else {
        dec_digits(n / 10) + seq![digit_char(n % 10)]
    }
}

/// The decimal rendering of a signed integer: a `-` sign for negative
/// values, followed by the digits of the magnitude.
pub open spec fn dec_int(n: int) -> Seq<char> {
    if n < 0 {
        seq!['-'] + dec_digits((-n) as nat)
    } else {
        dec_digits(n as nat)
    }
}

/// The concatenation of `f` rendered over every element, in order.
pub open spec fn concat_map<A>(s: Seq<A>, f: spec_fn(A) -> Seq<char>) -> Seq<char>
    decreases s.len(),
{
    if s.len() == 0 {
        Seq::empty()
    } else {
        f(s[0]) + concat_map(s.skip(1), f)
    }
}

/// The renderings of all elements joined by a separator.
pub open spec fn join_map<A>(s: Seq<A>, f: spec_fn(A) -> Seq<char>, sep: Seq<char>) -> Seq<char>
    decreases s.len(),
{
    if s.len() == 0 {
        Seq::empty()
    } else if s.len() == 1 {
        f(s[0])
    } else {
        f(s[0]) + sep + join_map(s.skip(1), f, sep)
    }
}

/// Extending a concatenated prefix by one element appends exactly that
/// element's rendering.
pub proof fn lemma_concat_map_take_snoc<A>(s: Seq<A>, f: spec_fn(A) -> Seq<char>, i: int)
    requires
        0 <= i < s.len(),
    ensures
        concat_map(s.take(i + 1), f) == concat_map(s.take(i), f) + f(s[i]),
    decreases i,
{
    let a = s.take(i + 1);
    if i == 0 {
        assert(a.skip(1) =~= Seq::<A>::empty());
        assert(concat_map(a, f) == f(a[0]) + concat_map(a.skip(1), f));
        assert(a[0] == s[0]);
        assert(s.take(0).len() == 0);
        assert(concat_map(s.take(0), f) == Seq::<char>::empty());
        assert(concat_map(a, f) =~= concat_map(s.take(0), f) + f(s[0]));
    } else {
        lemma_concat_map_take_snoc(s.skip(1), f, i - 1);
        let b = s.take(i);
        assert(a.skip(1) =~= s.skip(1).take(i));
        assert(b.skip(1) =~= s.skip(1).take(i - 1));
        assert(a[0] == s[0] && b[0] == s[0]);
        assert(s.skip(1)[i - 1] == s[i]);
        assert(concat_map(a, f) == f(s[0]) + concat_map(s.skip(1).take(i), f));
        assert(concat_map(b, f) == f(s[0]) + concat_map(s.skip(1).take(i - 1), f));
        assert(concat_map(a, f) =~= concat_map(b, f) + f(s[i]));
    }
}

/// Extending a joined prefix by one element appends the separator (after
/// the first element) and that element's rendering.
pub proof fn lemma_join_map_take_snoc<A>(s: Seq<A>, f: spec_fn(A) -> Seq<char>, sep: Seq<char>, i: int)
    requires
        0 <= i < s.len(),
    ensures
        i == 0 ==> join_map(s.take(1), f, sep) == f(s[0]),
        i > 0 ==> join_map(s.take(i + 1), f, sep) == join_map(s.take(i), f, sep) + sep + f(s[i]),
    decreases i,
{
    let a = s.take(i + 1);
    if i == 0 {
        assert(a.len() == 1);
        assert(a[0] == s[0]);
        assert(join_map(a, f, sep) == f(s[0]));
    } else {
        lemma_join_map_take_snoc(s.skip(1), f, sep, i - 1);
        let b = s.take(i);
        assert(a.skip(1) =~= s.skip(1).take(i));
        assert(a[0] == s[0] && b[0] == s[0]);
        assert(s.skip(1)[i - 1] == s[i]);
        assert(a.len() >= 2);
        assert(join_map(a, f, sep) == f(s[0]) + sep + join_map(s.skip(1).take(i), f, sep));
        if i == 1 {
            assert(s.skip(1).take(1)[0] == s[1]);
            assert(join_map(s.skip(1).take(1), f, sep) == f(s[1]));
            assert(b.len() == 1);
            assert(join_map(b, f, sep) == f(s[0]));
            assert(join_map(a, f, sep) =~= join_map(b, f, sep) + sep + f(s[1]));
        } else {
            assert(b.skip(1) =~= s.skip(1).take(i - 1));
            assert(b.len() >= 2);
            assert(join_map(b, f, sep) == f(s[0]) + sep + join_map(s.skip(1).take(i - 1), f, sep));
            assert(join_map(s.skip(1).take(i), f, sep) == join_map(s.skip(1).take(i - 1), f, sep)
                + sep + f(s[i]));
            assert(join_map(a, f, sep) =~= join_map(b, f, sep) + sep + f(s[i]));
        }
    }
}

/// Whether the pattern occurs in `s` starting exactly at index `i`.
pub open spec fn occurs_at(s: Seq<char>, pat: Seq<char>, i: int) -> bool {
    0 <= i && i + pat.len() <= s.len() && s.subrange(i, i + pat.len()) == pat
}

/// Whether the pattern occurs anywhere in `s`.
pub open spec fn occurs(s: Seq<char>, pat: Seq<char>) -> bool {
    exists|i: int| occurs_at(s, pat, i)
}

/// `s` with every occurrence of the pattern replaced, scanning left to
/// right and never rescanning replaced text.
pub open spec fn replace_all(s: Seq<char>, pat: Seq<char>, rep: Seq<char>) -> Seq<char>
    decreases s.len(),
{
    if pat.len() == 0 || s.len() < pat.len() {
        s
    } else if s.take(pat.len() as int) == pat {
        rep + replace_all(s.skip(pat.len() as int), pat, rep)
    } else {
        seq![s[0]] + replace_all(s.skip(1), pat, rep)
    }
}

/// Occurrences in a suffix are occurrences of the whole, shifted.
pub proof fn lemma_occurs_at_skip(s: Seq<char>, pat: Seq<char>, off: int, j: int)
    requires
        0 <= off,
        0 <= j,
        off + j + pat.len() <= s.len(),
    ensures
        occurs_at(s.skip(off), pat, j) == occurs_at(s, pat, off + j),
{
    assert(s.skip(off).subrange(j, j + pat.len() as int) =~= s.subrange(
        off + j,
        off + j + pat.len() as int,
    ));
}

/// Replacement walks over a match-free prefix unchanged.
pub proof fn lemma_replace_prefix_skip(s: Seq<char>, pat: Seq<char>, rep: Seq<char>, k: int)
    requires
        pat.len() >= 1,
        0 <= k <= s.len(),
        forall|j: int| 0 <= j < k ==> !occurs_at(s, pat, j),
    ensures
        replace_all(s, pat, rep) == s.take(k) + replace_all(s.skip(k), pat, rep),
    decreases k,
{
    if k == 0 {
        assert(s.skip(0) =~= s);
        assert(s.take(0) + replace_all(s.skip(0), pat, rep) =~= replace_all(s, pat, rep));
    } else if s.len() < pat.len() {
        assert(replace_all(s, pat, rep) == s);
        assert(s.skip(k).len() < pat.len());
        assert(replace_all(s.skip(k), pat, rep) == s.skip(k));
        assert(s.take(k) + s.skip(k) =~= s);
    } else {
        assert(!occurs_at(s, pat, 0));
        assert(s.take(pat.len() as int) =~= s.subrange(0, pat.len() as int));
        assert(s.take(pat.len() as int) != pat);
        assert(replace_all(s, pat, rep) == seq![s[0]] + replace_all(s.skip(1), pat, rep));
        assert forall|j: int| 0 <= j < k - 1 implies !occurs_at(s.skip(1), pat, j) by {
            if 1 + j + pat.len() <= s.len() {
                lemma_occurs_at_skip(s, pat, 1, j);
            }
        }
        lemma_replace_prefix_skip(s.skip(1), pat, rep, k - 1);
        assert(s.skip(1).take(k - 1) =~= s.subrange(1, k));
        assert(s.skip(1).skip(k - 1) =~= s.skip(k));
        assert(seq![s[0]] + (s.subrange(1, k) + replace_all(s.skip(k), pat, rep)) =~= s.take(k)
            + replace_all(s.skip(k), pat, rep));
    }
}

/// Replacement of a pattern that matches at the front substitutes it and
/// continues after it.
pub proof fn lemma_replace_at_match(s: Seq<char>, pat: Seq<char>, rep: Seq<char>)
    requires
        pat.len() >= 1,
        occurs_at(s, pat, 0),
    ensures
        replace_all(s, pat, rep) == rep + replace_all(s.skip(pat.len() as int), pat, rep),
{
    assert(s.take(pat.len() as int) =~= s.subrange(0, pat.len() as int));
}

/// A text without the pattern is left unchanged.
pub proof fn lemma_replace_none(s: Seq<char>, pat: Seq<char>, rep: Seq<char>)
    requires
        pat.len() >= 1,
        !occurs(s, pat),
    ensures
        replace_all(s, pat, rep) == s,
{
    assert forall|j: int| 0 <= j < s.len() implies !occurs_at(s, pat, j) by {
        assert(!occurs(s, pat));
    }
    lemma_replace_prefix_skip(s, pat, rep, s.len() as int);
    assert(s.skip(s.len() as int).len() == 0);
    assert(replace_all(s.skip(s.len() as int), pat, rep) == s.skip(s.len() as int));
    assert(s.take(s.len() as int) + s.skip(s.len() as int) =~= s);
}

/// Replacing a pattern that stands exactly once between two texts free
/// of its first character substitutes it there, and no occurrence
/// remains when the replacement is also free of that character.
pub proof fn lemma_replace_single(a: Seq<char>, pat: Seq<char>, b: Seq<char>, rep: Seq<char>)
    requires
        pat.len() >= 1,
        forall|i: int| 0 <= i < a.len() ==> a[i] != pat[0],
        forall|i: int| 0 <= i < b.len() ==> b[i] != pat[0],
        forall|i: int| 0 <= i < rep.len() ==> rep[i] != pat[0],
    ensures
        occurs(a + pat + b, pat),
        replace_all(a + pat + b, pat, rep) == a + rep + b,
        !occurs(a + rep + b, pat),
{
    let s = a + pat + b;
    let al = a.len() as int;
    let pl = pat.len() as int;
    assert(s.subrange(al, al + pl) =~= pat);
    assert(occurs_at(s, pat, al));
    assert forall|j: int| 0 <= j < al implies !occurs_at(s, pat, j) by {
        if occurs_at(s, pat, j) {
            assert(s.subrange(j, j + pl)[0] == s[j]);
            assert(s[j] == a[j]);
            assert(s[j] == pat[0]);
        }
    }
    lemma_replace_prefix_skip(s, pat, rep, al);
    assert(s.take(al) =~= a);
    let t = s.skip(al);
    assert(t =~= pat + b);
    assert(t.subrange(0, pl) =~= pat);
    assert(occurs_at(t, pat, 0));
    lemma_replace_at_match(t, pat, rep);
    assert(t.skip(pl) =~= b);
    assert(!occurs(b, pat)) by {
        if occurs(b, pat) {
            let j = choose|j: int| occurs_at(b, pat, j);
            assert(b.subrange(j, j + pl)[0] == b[j]);
            assert(b[j] == pat[0]);
        }
    }
    lemma_replace_none(b, pat, rep);
    assert(replace_all(s, pat, rep) == a + (rep + b));
    assert(a + (rep + b) =~= a + rep + b);
    let u = a + rep + b;
    assert(!occurs(u, pat)) by {
        if occurs(u, pat) {
            let j = choose|j: int| occurs_at(u, pat, j);
            assert(u.subrange(j, j + pl)[0] == u[j]);
            assert(u[j] == pat[0]);
            let rl = rep.len() as int;
            if j < a.len() {
                assert(u[j] == a[j]);
            } else if j < a.len() + rl {
                assert(u[j] == rep[j - a.len()]);
            } else {
                assert(u[j] == b[j - a.len() - rl]);
            }
        }
    }
}

/// Relies on `String::push`: appends exactly the given character.
#[verifier::external_body]
pub fn push_char(out: &mut String, c: char)
    ensures
        final(out)@ == old(out)@.push(c),
{
    out.push(c);
}

/// Appends `str` contents to a `String`.
pub fn push_str(out: &mut String, s: &str)
    ensures
        final(out)@ == old(out)@ + s@,
{
    out.append(s);
}

fn digit(d: u8) -> (c: char)
    requires
        d < 16,
    ensures
        c == digit_char(d as nat),
{
    match d {
        0 => '0',
        1 => '1',
        2 => '2',
        3 => '3',
        4 => '4',
        5 => '5',
        6 => '6',
        7 => '7',
        8 => '8',
        9 => '9',
        10 => 'A',
        11 => 'B',
        12 => 'C',
        13 => 'D',
        14 => 'E',
        _ => 'F',
    }
}

/// Appends the two upper-case hexadecimal digits of one byte.
pub fn push_hex_pair(out: &mut String, b: u8)
    ensures
        final(out)@ == old(out)@ + hex_pair(b),
{
    push_char(out, digit(b / 16));
    push_char(out, digit(b % 16));
    proof {
        assert(final(out)@ =~= old(out)@ + hex_pair(b));
    }
}

/// Appends the upper-case hexadecimal pairs of all bytes, unseparated.
pub fn push_hex_pairs(out: &mut String, bs: &[u8])
    ensures
        final(out)@ == old(out)@ + hex_pairs(bs@),
{
    let mut i: usize = 0;
    while i < bs.len()
        invariant
            i <= bs.len(),
            out@ == old(out)@ + hex_pairs(bs@.take(i as int)),
        decreases bs.len() - i,
    {
        push_hex_pair(out, bs[i]);
        proof {
            lemma_hex_pairs_take_snoc(bs@, i as int);
        }
        i = i + 1;
    }
    proof {
        assert(bs@.take(bs@.len() as int) =~= bs@);
    }
}

/// Appends the upper-case hexadecimal pairs of all bytes, joined by `:`.
pub fn push_hex_pairs_colon(out: &mut String, bs: &[u8])
    ensures
        final(out)@ == old(out)@ + hex_pairs_colon(bs@),
{
    let mut i: usize = 0;
    while i < bs.len()
        invariant
            i <= bs.len(),
            out@ == old(out)@ + hex_pairs_colon(bs@.take(i as int)) + (if 0 < i && i < bs@.len() {
                seq![':']
            } else {
                Seq::<char>::empty()
            }),
        decreases bs.len() - i,
    {
        proof {
            lemma_hex_pairs_colon_snoc(bs@, i as int);
        }
        push_hex_pair(out, bs[i]);
        if i + 1 < bs.len() {
            push_char(out, ':');
        }
        proof {
            let full = old(out)@ + hex_pairs_colon(bs@.take(i + 1));
            if i + 1 < bs.len() {
                assert(out@ =~= full + seq![':']);
            } else {
                assert(out@ =~= full);
            }
        }
        i = i + 1;
    }
    proof {
        assert(bs@.take(bs@.len() as int) =~= bs@);
        assert(final(out)@ =~= old(out)@ + hex_pairs_colon(bs@));
    }
}

/// The length of the unseparated hexadecimal rendering: two characters
/// per byte.
pub proof fn lemma_hex_pairs_len(bs: Seq<u8>)
    ensures
        hex_pairs(bs).len() == 2 * bs.len(),
    decreases bs.len(),
{
    if bs.len() > 0 {
        lemma_hex_pairs_len(bs.skip(1));
    }
}

/// Extending the rendered prefix by one byte appends exactly that byte's
/// hexadecimal pair.
pub proof fn lemma_hex_pairs_take_snoc(bs: Seq<u8>, i: int)
    requires
        0 <= i < bs.len(),
    ensures
        hex_pairs(bs.take(i + 1)) == hex_pairs(bs.take(i)) + hex_pair(bs[i]),
    decreases i,
{
    let a = bs.take(i + 1);
    if i == 0 {
        assert(a.len() == 1);
        assert(a.skip(1) =~= Seq::<u8>::empty());
        assert(hex_pairs(a) == hex_pair(a[0]) + hex_pairs(a.skip(1)));
        assert(a[0] == bs[0]);
        assert(bs.take(0).len() == 0);
        assert(hex_pairs(bs.take(0)) == Seq::<char>::empty());
        assert(hex_pairs(a) =~= hex_pairs(bs.take(0)) + hex_pair(bs[0]));
    } else {
        lemma_hex_pairs_take_snoc(bs.skip(1), i - 1);
        let b = bs.take(i);
        assert(a.skip(1) =~= bs.skip(1).take(i));
        assert(b.skip(1) =~= bs.skip(1).take(i - 1));
        assert(a[0] == bs[0] && b[0] == bs[0]);
        assert(bs.skip(1)[i - 1] == bs[i]);
        assert(hex_pairs(a) == hex_pair(bs[0]) + hex_pairs(bs.skip(1).take(i)));
        assert(hex_pairs(b) == hex_pair(bs[0]) + hex_pairs(bs.skip(1).take(i - 1)));
        assert(hex_pairs(a) =~= hex_pairs(b) + hex_pair(bs[i]));
    }
}

proof fn lemma_hex_pairs_colon_snoc(bs: Seq<u8>, i: int)
    requires
        0 <= i < bs.len(),
    ensures
        i == 0 ==> hex_pairs_colon(bs.take(1)) == hex_pair(bs[0]),
        i > 0 ==> hex_pairs_colon(bs.take(i + 1)) == hex_pairs_colon(bs.take(i)) + seq![':']
            + hex_pair(bs[i]),
    decreases i,
{
    let a = bs.take(i + 1);
    if i == 0 {
        assert(a.len() == 1);
        assert(a[0] == bs[0]);
        assert(hex_pairs_colon(a) == hex_pair(bs[0]));
    } else {
        lemma_hex_pairs_colon_snoc(bs.skip(1), i - 1);
        let b = bs.take(i);
        assert(a.skip(1) =~= bs.skip(1).take(i));
        assert(a[0] == bs[0] && b[0] == bs[0]);
        assert(bs.skip(1)[i - 1] == bs[i]);
        assert(a.len() >= 2);
        assert(hex_pairs_colon(a) == hex_pair(bs[0]) + seq![':'] + hex_pairs_colon(
            bs.skip(1).take(i),
        ));
        if i == 1 {
            assert(bs.skip(1).take(1)[0] == bs[1]);
            assert(hex_pairs_colon(bs.skip(1).take(1)) == hex_pair(bs[1]));
            assert(b.len() == 1);
            assert(hex_pairs_colon(b) == hex_pair(bs[0]));
            assert(hex_pairs_colon(a) =~= hex_pairs_colon(b) + seq![':'] + hex_pair(bs[1]));
        } else {
            assert(b.skip(1) =~= bs.skip(1).take(i - 1));
            assert(b.len() >= 2);
            assert(hex_pairs_colon(b) == hex_pair(bs[0]) + seq![':'] + hex_pairs_colon(
                bs.skip(1).take(i - 1),
            ));
            assert(hex_pairs_colon(bs.skip(1).take(i)) == hex_pairs_colon(bs.skip(1).take(i - 1))
                + seq![':'] + hex_pair(bs[i]));
            assert(hex_pairs_colon(a) =~= hex_pairs_colon(b) + seq![':'] + hex_pair(bs[i]));
        }
    }
}

/// Appends the decimal digits of `n`, most significant first.
pub fn push_dec_u64(out: &mut String, n: u64)
    ensures
        final(out)@ == old(out)@ + dec_digits(n as nat),
    decreases n,
{
    if n < 10 {
        push_char(out, digit(n as u8));
        proof {
            assert(final(out)@ =~= old(out)@ + dec_digits(n as nat));
        }
    } else {
        push_dec_u64(out, n / 10);
        push_char(out, digit((n % 10) as u8));
        proof {
            assert(old(out)@ + dec_digits((n / 10) as nat) + seq![digit_char(n as nat % 10)] =~= old(
                out,
            )@ + dec_digits(n as nat));
        }
    }
}

/// The decimal rendering of an unsigned integer as a fresh string.
pub fn u64_string(n: u64) -> (r: String)
    ensures
        r@ == dec_digits(n as nat),
{
    let mut out = String::new();
    push_dec_u64(&mut out, n);
    proof {
        assert(out@ =~= dec_digits(n as nat));
    }
    out
}

/// The decimal rendering of a signed integer as a fresh string.
pub fn i64_string(n: i64) -> (r: String)
    ensures
        r@ == dec_int(n as int),
{
    let mut out = String::new();
    push_dec_i64(&mut out, n);
    proof {
        assert(out@ =~= dec_int(n as int));
    }
    out
}

/// Whether the pattern matches at character position `i`.
fn match_at(s: &str, pat: &str, i: usize) -> (r: bool)
    requires
        i + pat@.len() <= s@.len(),
    ensures
        r == (s@.subrange(i as int, i + pat@.len()) == pat@),
{
    let n = s.unicode_len();
    let plen = pat.unicode_len();
    let mut j: usize = 0;
    while j < plen
        invariant
            n == s@.len(),
            plen == pat@.len(),
            i + plen <= s@.len(),
            j <= plen,
            forall|q: int| 0 <= q < j ==> s@.subrange(i as int, i + plen)[q] == pat@[q],
        decreases plen - j,
    {
        let sc = s.get_char(i + j);
        let pc = pat.get_char(j);
        if sc != pc {
            proof {
                assert(s@.subrange(i as int, i + plen)[j as int] == s@[i + j]);
            }
            return false;
        }
        j = j + 1;
    }
    proof {
        assert(s@.subrange(i as int, i + plen) =~= pat@);
    }
    true
}

/// Finds the first character position where the pattern occurs.
pub fn find_pat(s: &str, pat: &str) -> (r: Option<usize>)
    requires
        pat@.len() >= 1,
    ensures
        match r {
            Some(i) => occurs_at(s@, pat@, i as int),
            None => !occurs(s@, pat@),
        },
{
    let n = s.unicode_len();
    let plen = pat.unicode_len();
    if plen > n {
        return None;
    }
    let mut i: usize = 0;
    while i <= n - plen
        invariant
            n == s@.len(),
            plen == pat@.len(),
            1 <= plen <= n,
            i <= n - plen + 1,
            forall|j: int| 0 <= j < i ==> !occurs_at(s@, pat@, j),
        decreases n - i,
    {
        if match_at(s, pat, i) {
            return Some(i);
        }
        i = i + 1;
    }
    proof {
        assert forall|j: int| !occurs_at(s@, pat@, j) by {
            if 0 <= j && j + plen <= n {
                assert(j < i);
            }
        }
    }
    None
}

/// Replaces every occurrence of the pattern, scanning left to right.
pub fn replace_pat(s: &str, pat: &str, rep: &str) -> (r: String)
    requires
        pat@.len() >= 1,
    ensures
        r@ == replace_all(s@, pat@, rep@),
{
    let n = s.unicode_len();
    let plen = pat.unicode_len();
    let mut out = String::new();
    if plen > n {
        push_str(&mut out, s);
        proof {
            assert(replace_all(s@, pat@, rep@) == s@);
            assert(out@ =~= replace_all(s@, pat@, rep@));
        }
        return out;
    }
    let mut seg: usize = 0;
    let mut i: usize = 0;
    proof {
        assert(s@.skip(0) =~= s@);
        assert(out@ + replace_all(s@, pat@, rep@) =~= replace_all(s@, pat@, rep@));
    }
    while i <= n - plen
        invariant
            n == s@.len(),
            plen == pat@.len(),
            1 <= plen <= n,
            seg <= i <= n,
            forall|j: int| seg <= j < i ==> !occurs_at(s@, pat@, j),
            replace_all(s@, pat@, rep@) == out@ + replace_all(s@.skip(seg as int), pat@, rep@),
        decreases n - i,
    {
        if match_at(s, pat, i) {
            let ghost prev = out@;
            let part = s.substring_char(seg, i);
            push_str(&mut out, part);
            push_str(&mut out, rep);
            proof {
                let t = s@.skip(seg as int);
                assert forall|j: int| 0 <= j < i - seg implies !occurs_at(t, pat@, j) by {
                    if seg + j + plen <= n {
                        lemma_occurs_at_skip(s@, pat@, seg as int, j);
                    }
                }
                lemma_replace_prefix_skip(t, pat@, rep@, i - seg);
                assert(t.take(i - seg) =~= s@.subrange(seg as int, i as int));
                assert(t.skip(i - seg) =~= s@.skip(i as int));
                assert(occurs_at(s@, pat@, i as int));
                lemma_occurs_at_skip(s@, pat@, i as int, 0);
                assert(occurs_at(s@.skip(i as int), pat@, 0));
                lemma_replace_at_match(s@.skip(i as int), pat@, rep@);
                assert(s@.skip(i as int).skip(plen as int) =~= s@.skip(i + plen));
                assert(out@ == prev + s@.subrange(seg as int, i as int) + rep@);
                assert(prev + replace_all(t, pat@, rep@) =~= out@ + replace_all(
                    s@.skip(i + plen),
                    pat@,
                    rep@,
                ));
            }
            seg = i + plen;
            i = i + plen;
        } else {
            i = i + 1;
        }
    }
    let ghost prev = out@;
    let tail = s.substring_char(seg, n);
    push_str(&mut out, tail);
    proof {
        let t = s@.skip(seg as int);
        assert forall|j: int| !occurs_at(t, pat@, j) by {
            if 0 <= j && seg + j + plen <= n {
                lemma_occurs_at_skip(s@, pat@, seg as int, j);
                assert(seg + j <= n - plen);
                assert(seg + j < i);
            }
        }
        lemma_replace_none(t, pat@, rep@);
        assert(t =~= s@.subrange(seg as int, n as int));
        assert(out@ =~= prev + replace_all(t, pat@, rep@));
        assert(out@ =~= replace_all(s@, pat@, rep@));
    }
    out
}

/// Appends the decimal rendering of a signed integer.
pub fn push_dec_i64(out: &mut String, n: i64)
    ensures
        final(out)@ == old(out)@ + dec_int(n as int),
{
    if n >= 0 {
        push_dec_u64(out, n as u64);
    } else {
        push_char(out, '-');
        let m: u64 = (-(n + 1)) as u64;
        let mag: u64 = m + 1;
        assert(mag == -(n as int));
        push_dec_u64(out, mag);
        proof {
            assert(old(out)@.push('-') + dec_digits(mag as nat) =~= old(out)@ + dec_int(n as int));
        }
    }
}

} // verus!
