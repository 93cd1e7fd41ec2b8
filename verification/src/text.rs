use vstd::prelude::*;

verus! {

/// The characters of `s`, in order.
pub fn chars_of(s: &str) -> (v: Vec<char>)
    ensures
        v@ == s@,
{
    let mut v: Vec<char> = Vec::new();
    for c in it: s.chars()
        invariant
            v@ == it.seq().take(it.index() as int),
            it.seq() == s@,
    {
        v.push(c);
    }
    v
}

/// Appends one character to a string (`String::push`).
#[verifier::external_body]
fn push_char(s: &mut String, c: char)
    ensures
        final(s)@ == old(s)@.push(c),
{
    s.push(c);
}

/// Whether two character sequences are equal.
pub fn chars_eq(a: &[char], b: &[char]) -> (eq: bool)
    ensures
        eq == (a@ == b@),
{
    if a.len() != b.len() {
        return false;
    }
    let mut i: usize = 0;
    while i < a.len()
        invariant
            a@.len() == b@.len(),
            i <= a@.len(),
            forall|k: int| 0 <= k < i ==> a@[k] == b@[k],
        decreases a.len() - i,
    {
        if a[i] != b[i] {
            return false;
        }
        i = i + 1;
    }
    assert(a@ == b@);
    true
}

/// A string holding the characters of `v`.
pub fn string_of(v: &[char]) -> (s: String)
    ensures
        s@ == v@,
{
    let mut s = String::new();
    let mut i: usize = 0;
    while i < v.len()
        invariant
            i <= v.len(),
            s@ == v@.take(i as int),
        decreases v.len() - i,
    {
        push_char(&mut s, v[i]);
        assert(v@.take(i as int).push(v@[i as int]) == v@.take(i + 1));
        i = i + 1;
    }
    assert(v@.take(v@.len() as int) == v@);
    s
}

} // verus!

verus! {

/// The views of a sequence of character vectors.
pub open spec fn views(v: Seq<Vec<char>>) -> Seq<Seq<char>> {
    Seq::new(v.len(), |i: int| v[i]@)
}

/// The pieces of `s` between the occurrences of `sep`, as `str::split` with a
/// one-character pattern yields them: one more piece than there are separators.
pub open spec fn split_spec(s: Seq<char>, sep: char) -> Seq<Seq<char>>
    decreases s.len(),
{
    if s.len() == 0 {
        seq![Seq::empty()]
    } else {
        let front = split_spec(s.drop_last(), sep);
        if s.last() == sep {
            front.push(Seq::empty())
        } else {
            front.update(front.len() - 1, front.last().push(s.last()))
        }
    }
}

/// `split_spec` always yields at least one piece.
pub proof fn lemma_split_len(s: Seq<char>, sep: char)
    ensures
        split_spec(s, sep).len() >= 1,
    decreases s.len(),
{
    if s.len() > 0 {
        lemma_split_len(s.drop_last(), sep);
    }
}

/// Splits `s` at every occurrence of `sep`.
pub fn split(s: &[char], sep: char) -> (pieces: Vec<Vec<char>>)
    ensures
        views(pieces@) == split_spec(s@, sep),
{
    let mut done: Vec<Vec<char>> = Vec::new();
    let mut cur: Vec<char> = Vec::new();
    let mut i: usize = 0;
    assert(s@.take(0) == Seq::<char>::empty());
    assert(views(done@).push(cur@) == split_spec(s@.take(0), sep));
    while i < s.len()
        invariant
            i <= s.len(),
            views(done@).push(cur@) == split_spec(s@.take(i as int), sep),
        decreases s.len() - i,
    {
        let c = s[i];
        let ghost before = views(done@);
        let ghost cur_before = cur@;
        proof {
            lemma_split_len(s@.take(i as int), sep);
            assert(s@.take(i + 1).drop_last() == s@.take(i as int));
        }
        if c == sep {
            done.push(cur);
            cur = Vec::new();
            assert(views(done@) == before.push(cur_before));
        } else {
            cur.push(c);
            assert(views(done@) == before);
        }
        i = i + 1;
    }
    assert(s@.take(s@.len() as int) == s@);
    let ghost before = views(done@);
    done.push(cur);
    assert(views(done@) == before.push(cur@));
    done
}

} // verus!

verus! {

/// Characters without the separator extend the last piece.
pub proof fn lemma_split_append_plain(s: Seq<char>, t: Seq<char>, sep: char)
    requires
        !t.contains(sep),
    ensures
        split_spec(s + t, sep) == split_spec(s, sep).update(
            split_spec(s, sep).len() - 1,
            split_spec(s, sep).last() + t,
        ),
    decreases t.len(),
{
    lemma_split_len(s, sep);
    if t.len() == 0 {
        assert(s + t == s);
        assert(split_spec(s, sep).last() + t == split_spec(s, sep).last());
        assert(split_spec(s, sep).update(split_spec(s, sep).len() - 1, split_spec(s, sep).last())
            == split_spec(s, sep));
    } else {
        let t0 = t.drop_last();
        assert(!t0.contains(sep)) by {
            if t0.contains(sep) {
                let k = choose|k: int| 0 <= k < t0.len() && t0[k] == sep;
                assert(t[k] == sep);
            }
        }
        lemma_split_append_plain(s, t0, sep);
        assert((s + t).drop_last() == s + t0);
        assert((s + t).last() == t.last());
        assert(t.last() != sep) by {
            assert(t[t.len() - 1] == t.last());
        }
        assert((split_spec(s, sep).last() + t0).push(t.last()) == split_spec(s, sep).last() + t);
    }
}

/// A separator at the end opens a new, empty piece.
pub proof fn lemma_split_push_sep(s: Seq<char>, sep: char)
    ensures
        split_spec(s.push(sep), sep) == split_spec(s, sep).push(Seq::empty()),
{
    assert(s.push(sep).drop_last() == s);
}

/// A text without the separator is a single piece.
pub proof fn lemma_split_plain(t: Seq<char>, sep: char)
    requires
        !t.contains(sep),
    ensures
        split_spec(t, sep) == seq![t],
{
    lemma_split_append_plain(Seq::empty(), t, sep);
    assert(Seq::<char>::empty() + t == t);
    assert(Seq::<char>::empty() + t == t);
}

/// Two texts without the separator, joined by it, split back into the two.
pub proof fn lemma_split_two(a: Seq<char>, b: Seq<char>, sep: char)
    requires
        !a.contains(sep),
        !b.contains(sep),
    ensures
        split_spec(a.push(sep) + b, sep) == seq![a, b],
{
    lemma_split_plain(a, sep);
    lemma_split_push_sep(a, sep);
    lemma_split_append_plain(a.push(sep), b, sep);
    assert(Seq::<char>::empty() + b == b);
}

} // verus!

verus! {

/// The ASCII digit for `d < 10`.
pub open spec fn digit_char(d: nat) -> char {
    (d + 48) as char
}

/// Whether `c` is an ASCII decimal digit.
pub open spec fn is_digit(c: char) -> bool {
    48 <= (c as int) <= 57
}

/// The decimal representation of `n`, without sign or leading zeros
/// (what `Display` writes for an unsigned integer).
pub open spec fn decimal(n: nat) -> Seq<char>
    decreases n,
{
    if n < 10 {
        seq![digit_char(n)]
    } else {
        decimal(n / 10).push(digit_char(n % 10))
    }
}

/// The value of a sequence of decimal digits.
pub open spec fn digits_value(s: Seq<char>) -> nat
    decreases s.len(),
{
    if s.len() == 0 {
        0
    } else {
        digits_value(s.drop_last()) * 10 + ((s.last() as int - 48) as nat)
    }
}

/// Whether every character of `s` is a decimal digit.
pub open spec fn all_digits(s: Seq<char>) -> bool {
    forall|i: int| 0 <= i < s.len() ==> is_digit(#[trigger] s[i])
}

/// The digits that `u32::from_str` reads: `s` without one leading `+`.
pub open spec fn unsigned_digits(s: Seq<char>) -> Seq<char> {
    if s.len() > 0 && s[0] == '+' {
        s.skip(1)
    } else {
        s
    }
}

/// What `s.parse::<u32>()` gives: the value of an optional `+` followed by at
/// least one decimal digit, when it fits in a `u32`; `None` for every other text.
pub open spec fn parse_u32_spec(s: Seq<char>) -> Option<u32> {
    let d = unsigned_digits(s);
    if d.len() > 0 && all_digits(d) && digits_value(d) <= u32::MAX {
        Some(digits_value(d) as u32)
    } else {
        None
    }
}

fn digit(d: u32) -> (c: char)
    requires
        d < 10,
    ensures
        c == digit_char(d as nat),
{
    let b: u8 = 48u8 + (d as u8);
    b as char
}

/// Appends the decimal representation of `n` to `s`.
pub fn push_decimal(s: &mut String, n: u32)
    ensures
        final(s)@ == old(s)@ + decimal(n as nat),
    decreases n,
{
    if n >= 10 {
        push_decimal(s, n / 10);
    }
    let c = digit(n % 10);
    push_char(s, c);
    proof {
        if n >= 10 {
            assert(old(s)@ + decimal(n as nat) == (old(s)@ + decimal((n / 10) as nat)).push(c));
        } else {
            assert(old(s)@ + decimal(n as nat) == old(s)@.push(c));
        }
    }
}

/// A decimal representation is made of digits, and reads back as its value.
pub proof fn lemma_decimal_digits(n: nat)
    ensures
        decimal(n).len() > 0,
        all_digits(decimal(n)),
        digits_value(decimal(n)) == n,
        decimal(n)[0] != '+',
    decreases n,
{
    assert((n % 10 + 48) as char as int == n % 10 + 48);
    if n >= 10 {
        assert((n / 10) * 10 + n % 10 == n);
        lemma_decimal_digits(n / 10);
        let d = decimal(n / 10);
        assert(decimal(n).drop_last() == d);
        assert forall|i: int| 0 <= i < decimal(n).len() implies is_digit(#[trigger] decimal(n)[i]) by {
            if i < d.len() {
                assert(decimal(n)[i] == d[i]);
            }
        }
        assert(decimal(n)[0] == d[0]);
        assert(decimal(n).last() == digit_char(n % 10));
        assert(digits_value(decimal(n)) == digits_value(d) * 10 + (n % 10));
    } else {
        assert(decimal(n).drop_last() == Seq::<char>::empty());
        assert(digits_value(decimal(n)) == digits_value(Seq::<char>::empty()) * 10 + n);
    }
}

/// Reading back what `push_decimal` writes gives the number again.
pub proof fn lemma_parse_decimal(n: u32)
    ensures
        parse_u32_spec(decimal(n as nat)) == Some(n),
{
    lemma_decimal_digits(n as nat);
}

/// The value of a digit sequence is at least that of each prefix.
pub proof fn lemma_digits_value_prefix(s: Seq<char>, j: int)
    requires
        0 <= j <= s.len(),
        all_digits(s),
    ensures
        digits_value(s.take(j)) <= digits_value(s),
    decreases s.len() - j,
{
    if j < s.len() {
        lemma_digits_value_prefix(s, j + 1);
        assert(s.take(j + 1).drop_last() == s.take(j));
        assert(is_digit(s[j]));
    } else {
        assert(s.take(j) == s);
    }
}

fn digit_value(c: char) -> (v: Option<u64>)
    ensures
        v is Some <==> is_digit(c),
        v matches Some(d) ==> d == c as int - 48,
{
    match c {
        '0' => Some(0),
        '1' => Some(1),
        '2' => Some(2),
        '3' => Some(3),
        '4' => Some(4),
        '5' => Some(5),
        '6' => Some(6),
        '7' => Some(7),
        '8' => Some(8),
        '9' => Some(9),
        _ => None,
    }
}

/// Parses an unsigned decimal number as `str::parse::<u32>` does.
pub fn parse_u32(s: &[char]) -> (res: Option<u32>)
    ensures
        res == parse_u32_spec(s@),
{
    let mut start: usize = 0;
    if s.len() > 0 && s[0] == '+' {
        start = 1;
    }
    let ghost d = unsigned_digits(s@);
    assert(d == s@.skip(start as int));
    if start >= s.len() {
        return None;
    }
    let mut acc: u64 = 0;
    let mut i: usize = start;
    while i < s.len()
        invariant
            start <= i <= s.len(),
            d == s@.skip(start as int),
            d == unsigned_digits(s@),
            all_digits(d.take(i - start)),
            acc == digits_value(d.take(i - start)),
            acc <= u32::MAX,
        decreases s.len() - i,
    {
        let c = s[i];
        let dv = digit_value(c);
        if dv.is_none() {
            proof {
                assert(d[i - start] == s@[i as int]);
                assert(!is_digit(d[i - start]));
                assert(!all_digits(d));
            }
            return None;
        }
        let v: u64 = dv.unwrap();
        let next: u64 = acc * 10 + v;
        proof {
            assert(d.take(i + 1 - start).drop_last() == d.take(i - start));
            assert(d.take(i + 1 - start).last() == c);
            assert forall|k: int| 0 <= k < d.take(i + 1 - start).len() implies is_digit(
                #[trigger] d.take(i + 1 - start)[k],
            ) by {
                if k < i - start {
                    assert(d.take(i + 1 - start)[k] == d.take(i - start)[k]);
                }
            }
        }
        if next > 0xffff_ffff {
            proof {
                if all_digits(d) {
                    lemma_digits_value_prefix(d, i + 1 - start);
                }
            }
            return None;
        }
        acc = next;
        i = i + 1;
    }
    assert(d.take(i - start) == d);
    Some(acc as u32)
}

} // verus!

verus! {

/// What `s.replace(pat, rep)` gives for a non-empty `pat`: scanning from the
/// left, each occurrence of `pat` that does not overlap an earlier replaced one
/// becomes `rep`.
pub open spec fn replace_spec(s: Seq<char>, pat: Seq<char>, rep: Seq<char>) -> Seq<char>
    decreases s.len(),
{
    if pat.len() == 0 || s.len() < pat.len() {
        s
    } else if s.take(pat.len() as int) == pat {
        rep + replace_spec(s.skip(pat.len() as int), pat, rep)
    } else {
        seq![s[0]] + replace_spec(s.skip(1), pat, rep)
    }
}

/// Appends the characters of `v` to `out`.
pub fn push_all(out: &mut Vec<char>, v: &[char])
    ensures
        final(out)@ == old(out)@ + v@,
{
    let mut i: usize = 0;
    while i < v.len()
        invariant
            i <= v.len(),
            out@ == old(out)@ + v@.take(i as int),
        decreases v.len() - i,
    {
        out.push(v[i]);
        assert(v@.take(i + 1) == v@.take(i as int).push(v@[i as int]));
        i = i + 1;
    }
    assert(v@.take(v@.len() as int) == v@);
}

fn matches_at(s: &[char], i: usize, pat: &[char]) -> (b: bool)
    requires
        i + pat@.len() <= s@.len(),
    ensures
        b == (s@.subrange(i as int, i + pat@.len()) == pat@),
{
    let n = s.len();
    let mut j: usize = 0;
    while j < pat.len()
        invariant
            n == s@.len(),
            i + pat@.len() <= s@.len(),
            j <= pat@.len(),
            forall|k: int| 0 <= k < j ==> s@[i + k] == pat@[k],
        decreases pat.len() - j,
    {
        if s[i + j] != pat[j] {
            assert(s@.subrange(i as int, i + pat@.len())[j as int] != pat@[j as int]);
            return false;
        }
        j = j + 1;
    }
    assert(s@.subrange(i as int, i + pat@.len()) == pat@);
    true
}

/// Replaces every occurrence of the non-empty `pat` in `s` by `rep`.
pub fn replace(s: &[char], pat: &[char], rep: &[char]) -> (r: Vec<char>)
    requires
        pat@.len() > 0,
    ensures
        r@ == replace_spec(s@, pat@, rep@),
{
    let mut out: Vec<char> = Vec::new();
    let mut i: usize = 0;
    assert(s@.skip(0) == s@);
    while i < s.len()
        invariant
            pat@.len() > 0,
            i <= s@.len(),
            out@ + replace_spec(s@.skip(i as int), pat@, rep@) == replace_spec(s@, pat@, rep@),
        decreases s.len() - i,
    {
        let ghost x = s@.skip(i as int);
        let ghost before = out@;
        if pat.len() <= s.len() - i && matches_at(s, i, pat) {
            push_all(&mut out, rep);
            proof {
                assert(x.take(pat@.len() as int) == s@.subrange(i as int, i + pat@.len()));
                assert(x.skip(pat@.len() as int) == s@.skip(i + pat@.len()));
                assert(before + replace_spec(x, pat@, rep@) == out@ + replace_spec(
                    s@.skip(i + pat@.len()),
                    pat@,
                    rep@,
                ));
            }
            i = i + pat.len();
        } else {
            out.push(s[i]);
            proof {
                assert(x.skip(1) == s@.skip(i + 1));
                assert(x[0] == s@[i as int]);
                if x.len() < pat@.len() {
                    assert(seq![x[0]] + x.skip(1) == x);
                } else {
                    assert(x.take(pat@.len() as int) == s@.subrange(i as int, i + pat@.len()));
                }
                assert(replace_spec(x, pat@, rep@) == seq![x[0]] + replace_spec(x.skip(1), pat@, rep@));
                assert(before + replace_spec(x, pat@, rep@) == out@ + replace_spec(
                    s@.skip(i + 1),
                    pat@,
                    rep@,
                ));
            }
            i = i + 1;
        }
    }
    assert(s@.skip(i as int) == Seq::<char>::empty());
    assert(out@ + Seq::<char>::empty() == out@);
    out
}

} // verus!

verus! {

/// Replacing a pattern that occurs nowhere in the text leaves the text unchanged.
pub proof fn lemma_replace_absent(s: Seq<char>, pat: Seq<char>, rep: Seq<char>)
    requires
        pat.len() > 0,
        forall|i: int| 0 <= i && i + pat.len() <= s.len() ==> #[trigger] s.subrange(i, i + pat.len()) != pat,
    ensures
        replace_spec(s, pat, rep) == s,
    decreases s.len(),
{
    if s.len() >= pat.len() {
        let t = s.skip(1);
        assert(s.take(pat.len() as int) == s.subrange(0, 0int + pat.len()));
        assert(s.subrange(0, 0int + pat.len()) != pat);
        assert forall|i: int| 0 <= i && i + pat.len() <= t.len() implies #[trigger] t.subrange(
            i,
            i + pat.len(),
        ) != pat by {
            assert(t.subrange(i, i + pat.len()) == s.subrange(i + 1, i + 1 + pat.len()));
        }
        lemma_replace_absent(t, pat, rep);
        assert(seq![s[0]] + t == s);
    }
}

/// Replacing a single character by a text without it removes every occurrence
/// of the character; a one-character replacement keeps the length.
pub proof fn lemma_replace_char(s: Seq<char>, c: char, rep: Seq<char>)
    requires
        !rep.contains(c),
    ensures
        !replace_spec(s, seq![c], rep).contains(c),
        rep.len() == 1 ==> replace_spec(s, seq![c], rep).len() == s.len(),
    decreases s.len(),
{
    let r = replace_spec(s, seq![c], rep);
    if s.len() >= 1 {
        lemma_replace_char(s.skip(1), c, rep);
        let rest = replace_spec(s.skip(1), seq![c], rep);
        if s.take(1) == seq![c] {
            assert(s.skip(1) == s.skip(seq![c].len() as int));
            assert(r == rep + rest);
            if r.contains(c) {
                let k = choose|k: int| 0 <= k < r.len() && r[k] == c;
                if k < rep.len() {
                    assert(rep[k] == c);
                } else {
                    assert(rest[k - rep.len()] == c);
                }
            }
        } else {
            assert(s[0] != c) by {
                if s[0] == c {
                    assert(s.take(1) == seq![c]);
                }
            }
            assert(r == seq![s[0]] + rest);
            if r.contains(c) {
                let k = choose|k: int| 0 <= k < r.len() && r[k] == c;
                if k > 0 {
                    assert(rest[k - 1] == c);
                }
            }
        }
    }
}

} // verus!

verus! {

/// Whether `pat` occurs in `s` starting at `i`.
pub open spec fn occurs_at(s: Seq<char>, pat: Seq<char>, i: int) -> bool {
    0 <= i && i + pat.len() <= s.len() && s.subrange(i, i + pat.len()) == pat
}

/// Whether an occurrence of `pat` in `s` begins before `cut` and ends after it.
pub open spec fn straddles(s: Seq<char>, cut: int, pat: Seq<char>) -> bool {
    exists|i: int| i < cut < i + pat.len() && #[trigger] occurs_at(s, pat, i)
}

/// Replacing in a text cut where no occurrence of the pattern crosses the cut is
/// replacing in each part: replacement works on every occurrence, wherever it is.
pub proof fn lemma_replace_concat(a: Seq<char>, b: Seq<char>, pat: Seq<char>, rep: Seq<char>)
    requires
        pat.len() > 0,
        !straddles(a + b, a.len() as int, pat),
    ensures
        replace_spec(a + b, pat, rep) == replace_spec(a, pat, rep) + replace_spec(b, pat, rep),
    decreases a.len(),
{
    let s = a + b;
    let p = pat.len() as int;
    if a.len() == 0 {
        assert(s == b);
        assert(Seq::<char>::empty() + replace_spec(b, pat, rep) == replace_spec(b, pat, rep));
    } else if s.len() < p {
        assert(replace_spec(a, pat, rep) == a);
        assert(replace_spec(b, pat, rep) == b);
    } else {
        let t = a.skip(1);
        if s.take(p) == pat {
            assert(s.subrange(0, 0 + p) == s.take(p));
            assert(occurs_at(s, pat, 0));
            assert(a.len() >= p);
            assert(a.take(p) == s.take(p));
            let a2 = a.skip(p);
            assert(s.skip(p) == a2 + b);
            assert forall|i: int| i < a2.len() < i + p implies !#[trigger] occurs_at(a2 + b, pat, i) by {
                if occurs_at(a2 + b, pat, i) {
                    assert((a2 + b).subrange(i, i + p) == s.subrange(i + p, i + p + p));
                    assert(occurs_at(s, pat, i + p));
                }
            }
            lemma_replace_concat(a2, b, pat, rep);
            assert(rep + (replace_spec(a2, pat, rep) + replace_spec(b, pat, rep)) == (rep
                + replace_spec(a2, pat, rep)) + replace_spec(b, pat, rep));
        } else {
            assert(s.skip(1) == t + b);
            assert(s[0] == a[0]);
            assert forall|i: int| i < t.len() < i + p implies !#[trigger] occurs_at(t + b, pat, i) by {
                if occurs_at(t + b, pat, i) {
                    assert((t + b).subrange(i, i + p) == s.subrange(i + 1, i + 1 + p));
                    assert(occurs_at(s, pat, i + 1));
                }
            }
            lemma_replace_concat(t, b, pat, rep);
            if a.len() < p {
                assert(replace_spec(a, pat, rep) == a);
                assert(replace_spec(t, pat, rep) == t);
                assert(seq![a[0]] + t == a);
            } else {
                assert(a.take(p) == s.take(p));
            }
            assert(seq![a[0]] + (replace_spec(t, pat, rep) + replace_spec(b, pat, rep)) == (seq![
                a[0],
            ] + replace_spec(t, pat, rep)) + replace_spec(b, pat, rep));
        }
    }
}

/// The pattern alone becomes the replacement.
pub proof fn lemma_replace_whole(pat: Seq<char>, rep: Seq<char>)
    requires
        pat.len() > 0,
    ensures
        replace_spec(pat, pat, rep) == rep,
{
    assert(pat.take(pat.len() as int) == pat);
    assert(pat.skip(pat.len() as int) == Seq::<char>::empty());
    assert(replace_spec(Seq::<char>::empty(), pat, rep) == Seq::<char>::empty());
    assert(rep + Seq::<char>::empty() == rep);
}

/// Every occurrence of the pattern that can be cut out cleanly is replaced: in
/// `a + pat + b`, with no other occurrence crossing either edge of `pat`, the
/// result is the replaced `a`, the replacement, and the replaced `b`.
pub proof fn lemma_replace_every_occurrence(
    a: Seq<char>,
    b: Seq<char>,
    pat: Seq<char>,
    rep: Seq<char>,
)
    requires
        pat.len() > 0,
        !straddles(a + pat + b, a.len() as int, pat),
        !straddles(a + pat + b, (a.len() + pat.len()) as int, pat),
    ensures
        replace_spec(a + pat + b, pat, rep) == replace_spec(a, pat, rep) + rep + replace_spec(
            b,
            pat,
            rep,
        ),
{
    let s = a + pat + b;
    let p = pat.len() as int;
    assert(s == a + (pat + b));
    lemma_replace_concat(a, pat + b, pat, rep);
    assert forall|i: int| i < p < i + p implies !#[trigger] occurs_at(pat + b, pat, i) by {
        if occurs_at(pat + b, pat, i) {
            assert((pat + b).subrange(i, i + p) == s.subrange(a.len() + i, a.len() + i + p));
            assert(occurs_at(s, pat, a.len() + i));
        }
    }
    lemma_replace_concat(pat, b, pat, rep);
    lemma_replace_whole(pat, rep);
}

/// The first `sep`-separated piece of a text is the text up to the first `sep`:
/// a prefix of it without `sep`, followed by `sep` when there are more pieces, or
/// the whole text when there is only one.
pub proof fn lemma_split_first(s: Seq<char>, sep: char)
    ensures
        split_spec(s, sep).len() >= 1,
        split_spec(s, sep)[0].len() <= s.len(),
        s.take(split_spec(s, sep)[0].len() as int) == split_spec(s, sep)[0],
        !split_spec(s, sep)[0].contains(sep),
        split_spec(s, sep).len() == 1 ==> split_spec(s, sep)[0] == s,
        split_spec(s, sep).len() >= 2 ==> split_spec(s, sep)[0].len() < s.len() && s[split_spec(
            s,
            sep,
        )[0].len() as int] == sep,
    decreases s.len(),
{
    lemma_split_len(s, sep);
    if s.len() == 0 {
        assert(split_spec(s, sep)[0] == Seq::<char>::empty());
        assert(s.take(0) == Seq::<char>::empty());
    } else {
        let t = s.drop_last();
        lemma_split_first(t, sep);
        let front = split_spec(t, sep);
        let f = front[0];
        assert(s.take(f.len() as int) == t.take(f.len() as int));
        if s.last() == sep {
            assert(split_spec(s, sep)[0] == f);
            if front.len() == 1 {
                assert(f == t);
                assert(s[t.len() as int] == sep);
            } else {
                assert(s[f.len() as int] == t[f.len() as int]);
            }
        } else {
            if front.len() == 1 {
                assert(split_spec(s, sep)[0] == t.push(s.last()));
                assert(t.push(s.last()) == s);
                assert(s.take(s.len() as int) == s);
                assert(!s.contains(sep)) by {
                    if s.contains(sep) {
                        let k = choose|k: int| 0 <= k < s.len() && s[k] == sep;
                        if k < t.len() {
                            assert(f[k] == sep);
                        }
                    }
                }
            } else {
                assert(split_spec(s, sep)[0] == f);
                assert(s[f.len() as int] == t[f.len() as int]);
            }
        }
    }
}

/// When `data` is `name`, `sep` and more, and `name` holds no `sep`, the first
/// `sep`-separated piece of `data` is `name`.
pub proof fn lemma_split_first_is(name: Seq<char>, rest: Seq<char>, sep: char)
    requires
        !name.contains(sep),
    ensures
        split_spec(name.push(sep) + rest, sep)[0] == name,
        split_spec(name.push(sep) + rest, sep).len() >= 2,
{
    let data = name.push(sep) + rest;
    lemma_split_first(data, sep);
    let f = split_spec(data, sep)[0];
    assert(data[name.len() as int] == sep);
    if split_spec(data, sep).len() == 1 {
        assert(f[name.len() as int] == sep);
    }
    if f.len() < name.len() {
        assert(data[f.len() as int] == name[f.len() as int]);
    }
    if f.len() > name.len() {
        assert(f[name.len() as int] == data[name.len() as int]);
    }
    assert(f.len() == name.len());
    assert(data.take(name.len() as int) == name);
}

} // verus!
