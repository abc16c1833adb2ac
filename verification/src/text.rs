//! Character-level string operations with exact specifications.
use vstd::prelude::*;

verus! {

/// `p` is a prefix of `s`.
pub open spec fn has_prefix(s: Seq<char>, p: Seq<char>) -> bool {
    p.len() <= s.len() && s.subrange(0, p.len() as int) == p
}

/// Every non-overlapping occurrence of `pat` in `s`, scanning from the left,
/// replaced by `rep`, as `str::replace` does. The empty pattern occurs before
/// every character and at the end, so `rep` is put at each of those places.
pub open spec fn replace_all(s: Seq<char>, pat: Seq<char>, rep: Seq<char>) -> Seq<char>
    decreases s.len(),
{
    if pat.len() == 0 {
        if s.len() == 0 {
            rep
        } else {
            rep + seq![s[0]] + replace_all(s.subrange(1, s.len() as int), pat, rep)
        }
    } else if s.len() < pat.len() {
        s
    } else if has_prefix(s, pat) {
        rep + replace_all(s.subrange(pat.len() as int, s.len() as int), pat, rep)
    } else {
        seq![s[0]] + replace_all(s.subrange(1, s.len() as int), pat, rep)
    }
}

/// The characters of `s`, one by one.
pub fn chars_of(s: &str) -> (v: Vec<char>)
    ensures
        v@ == s@,
{
    let n = s.unicode_len();
    let mut v: Vec<char> = Vec::new();
    let mut i: usize = 0;
    while i < n
        invariant
            n == s@.len(),
            i <= n,
            v@ == s@.subrange(0, i as int),
        decreases n - i,
    {
        v.push(s.get_char(i));
        i = i + 1;
    }
    v
}

/// Whether `pat` occurs in `s` at position `at`.
fn occurs_at(s: &Vec<char>, pat: &Vec<char>, at: usize) -> (r: bool)
    requires
        at <= s.len(),
    ensures
        r == has_prefix(s@.subrange(at as int, s@.len() as int), pat@),
{
    if pat.len() > s.len() - at {
        return false;
    }
    let mut k: usize = 0;
    while k < pat.len()
        invariant
            at + pat.len() <= s.len(),
            k <= pat.len(),
            forall|j: int| 0 <= j < k ==> s@[at + j] == pat@[j],
        decreases pat.len() - k,
    {
        if s[at + k] != pat[k] {
            assert(s@.subrange(at as int, s@.len() as int).subrange(0, pat@.len() as int)[k as int] != pat@[k as int]);
            return false;
        }
        k = k + 1;
    }
    assert(s@.subrange(at as int, s@.len() as int).subrange(0, pat@.len() as int) =~= pat@);
    true
}

proof fn lemma_replace_step_match(s: Seq<char>, pat: Seq<char>, rep: Seq<char>, i: int)
    requires
        pat.len() > 0,
        0 <= i <= s.len(),
        has_prefix(s.subrange(i, s.len() as int), pat),
    ensures
        replace_all(s.subrange(i, s.len() as int), pat, rep) == rep + replace_all(
            s.subrange(i + pat.len(), s.len() as int),
            pat,
            rep,
        ),
{
    let t = s.subrange(i, s.len() as int);
    assert(t.subrange(pat.len() as int, t.len() as int) =~= s.subrange(i + pat.len(), s.len() as int));
}

proof fn lemma_replace_step_skip(s: Seq<char>, pat: Seq<char>, rep: Seq<char>, i: int)
    requires
        pat.len() > 0,
        0 <= i < s.len(),
        !has_prefix(s.subrange(i, s.len() as int), pat),
    ensures
        replace_all(s.subrange(i, s.len() as int), pat, rep) == seq![s[i]] + replace_all(
            s.subrange(i + 1, s.len() as int),
            pat,
            rep,
        ),
{
    let t = s.subrange(i, s.len() as int);
    assert(t.subrange(1, t.len() as int) =~= s.subrange(i + 1, s.len() as int));
    if t.len() < pat.len() {
        // no match possible; the spec returns the rest unchanged, which also splits
        lemma_replace_short(t.subrange(1, t.len() as int), pat, rep);
        assert(t =~= seq![s[i]] + t.subrange(1, t.len() as int));
    }
}

proof fn lemma_replace_short(s: Seq<char>, pat: Seq<char>, rep: Seq<char>)
    requires
        s.len() < pat.len(),
    ensures
        replace_all(s, pat, rep) == s,
{
}

/// `s` with `rep` before every character and at the end: what replacing the
/// empty pattern gives.
fn replace_empty_pattern(s: &str, pat: &str, rep: &str) -> (r: String)
    requires
        pat@.len() == 0,
    ensures
        r@ == replace_all(s@, pat@, rep@),
{
    let n = s.unicode_len();
    let mut out = String::new();
    let mut i: usize = 0;
    assert(s@.subrange(0, n as int) =~= s@);
    while i < n
        invariant
            n == s@.len(),
            pat@.len() == 0,
            i <= n,
            replace_all(s@, pat@, rep@) == out@ + replace_all(s@.subrange(i as int, n as int), pat@, rep@),
        decreases n - i,
    {
        let ghost rest = s@.subrange(i as int, n as int);
        assert(rest.subrange(1, rest.len() as int) =~= s@.subrange(i + 1, n as int));
        assert(rest[0] == s@[i as int]);
        let ghost old_out = out@;
        out.append(rep);
        out.append(s.substring_char(i, i + 1));
        assert(s@.subrange(i as int, i + 1) =~= seq![s@[i as int]]);
        assert(out@ + replace_all(s@.subrange(i + 1, n as int), pat@, rep@) =~= old_out + (rep@ + seq![rest[0]]
            + replace_all(rest.subrange(1, rest.len() as int), pat@, rep@)));
        i = i + 1;
    }
    out.append(rep);
    assert(out@ =~= replace_all(s@, pat@, rep@));
    out
}

/// `s` with every non-overlapping occurrence of `pat` (scanning from the left)
/// replaced by `rep`, as `str::replace` does.
pub fn replace_str(s: &str, pat: &str, rep: &str) -> (r: String)
    ensures
        r@ == replace_all(s@, pat@, rep@),
{
    if pat.unicode_len() == 0 {
        replace_empty_pattern(s, pat, rep)
    } else {
        replace_nonempty_pattern(s, pat, rep)
    }
}

fn replace_nonempty_pattern(s: &str, pat: &str, rep: &str) -> (r: String)
    requires
        pat@.len() > 0,
    ensures
        r@ == replace_all(s@, pat@, rep@),
{
    let sv = chars_of(s);
    let pv = chars_of(pat);
    let n = sv.len();
    let m = pv.len();
    let mut out = String::new();
    let mut seg: usize = 0;
    let mut i: usize = 0;
    assert(s@.subrange(0, n as int) =~= s@);
    while i < n
        invariant
            sv@ == s@,
            pv@ == pat@,
            n == s@.len(),
            m == pat@.len(),
            m > 0,
            seg <= i <= n,
            replace_all(s@, pat@, rep@) == out@ + s@.subrange(seg as int, i as int)
                + replace_all(s@.subrange(i as int, n as int), pat@, rep@),
        decreases n - i,
    {
        if occurs_at(&sv, &pv, i) {
            proof {
                lemma_replace_step_match(s@, pat@, rep@, i as int);
            }
            let ghost old_out = out@;
            out.append(s.substring_char(seg, i));
            out.append(rep);
            proof {
                assert(out@ + s@.subrange((i + m) as int, (i + m) as int) =~= old_out + s@.subrange(
                    seg as int,
                    i as int,
                ) + rep@);
            }
            i = i + m;
            seg = i;
        } else {
            proof {
                lemma_replace_step_skip(s@, pat@, rep@, i as int);
                assert(s@.subrange(seg as int, i as int) + seq![s@[i as int]] =~= s@.subrange(
                    seg as int,
                    i + 1,
                ));
            }
            i = i + 1;
        }
    }
    proof {
        assert(s@.subrange(n as int, n as int) =~= Seq::<char>::empty());
    }
    out.append(s.substring_char(seg, n));
    out
}


/// The decimal digit character for `d < 10`.
pub open spec fn digit_char(d: nat) -> char {
    if d == 0 { '0' } else if d == 1 { '1' } else if d == 2 { '2' } else if d == 3 { '3' }
    else if d == 4 { '4' } else if d == 5 { '5' } else if d == 6 { '6' } else if d == 7 { '7' }
    else if d == 8 { '8' } else { '9' }
}

/// Decimal notation of a natural number, most significant digit first.
pub open spec fn decimal(n: nat) -> Seq<char>
    decreases n,
{
    if n < 10 {
        seq![digit_char(n)]
    } else {
        decimal(n / 10).push(digit_char(n % 10))
    }
}

/// Decimal notation of an integer, with a leading `-` when negative.
pub open spec fn int_text(i: int) -> Seq<char> {
    if i < 0 {
        seq!['-'] + decimal((-i) as nat)
    } else {
        decimal(i as nat)
    }
}

fn digit_str(d: u64) -> (r: &'static str)
    requires
        d < 10,
    ensures
        r@ == seq![digit_char(d as nat)],
{
    if d == 0 {
        proof { reveal_strlit("0"); }
        "0"
    } else if d == 1 {
        proof { reveal_strlit("1"); }
        "1"
    } else if d == 2 {
        proof { reveal_strlit("2"); }
        "2"
    } else if d == 3 {
        proof { reveal_strlit("3"); }
        "3"
    } else if d == 4 {
        proof { reveal_strlit("4"); }
        "4"
    } else if d == 5 {
        proof { reveal_strlit("5"); }
        "5"
    } else if d == 6 {
        proof { reveal_strlit("6"); }
        "6"
    } else if d == 7 {
        proof { reveal_strlit("7"); }
        "7"
    } else if d == 8 {
        proof { reveal_strlit("8"); }
        "8"
    } else {
        proof { reveal_strlit("9"); }
        "9"
    }
}

fn append_decimal(out: &mut String, n: u64)
    ensures
        final(out)@ == old(out)@ + decimal(n as nat),
    decreases n,
{
    if n >= 10 {
        append_decimal(out, n / 10);
        out.append(digit_str(n % 10));
        proof {
            assert(old(out)@ + decimal(n as nat) =~= old(out)@ + decimal((n / 10) as nat) + seq![digit_char((n % 10) as nat)]);
        }
    } else {
        out.append(digit_str(n));
        proof {
            assert(old(out)@ + decimal(n as nat) =~= old(out)@ + seq![digit_char(n as nat)]);
        }
    }
}

/// Decimal text of an unsigned 64-bit integer, as `u64::to_string` writes it.
pub fn u64_text(n: u64) -> (r: String)
    ensures
        r@ == decimal(n as nat),
{
    let mut out = String::new();
    append_decimal(&mut out, n);
    assert(out@ =~= decimal(n as nat));
    out
}

/// Decimal text of a signed 64-bit integer, as `i64::to_string` writes it.
pub fn i64_text(x: i64) -> (r: String)
    ensures
        r@ == int_text(x as int),
{
    let mut out = String::new();
    if x < 0 {
        proof { reveal_strlit("-"); }
        out.append("-");
        let mag: u64 = if x == i64::MIN { 9223372036854775808u64 } else { (-x) as u64 };
        append_decimal(&mut out, mag);
        proof {
            assert(out@ =~= seq!['-'] + decimal((-(x as int)) as nat));
        }
    } else {
        append_decimal(&mut out, x as u64);
        proof {
            assert(out@ =~= decimal(x as nat));
        }
    }
    out
}


/// Whether `s` begins with `p`.
pub fn starts_with(s: &str, p: &str) -> (r: bool)
    ensures
        r == has_prefix(s@, p@),
{
    let n = s.unicode_len();
    let m = p.unicode_len();
    if m > n {
        return false;
    }
    let mut k: usize = 0;
    while k < m
        invariant
            n == s@.len(),
            m == p@.len(),
            m <= n,
            k <= m,
            forall|j: int| 0 <= j < k ==> s@[j] == p@[j],
        decreases m - k,
    {
        if s.get_char(k) != p.get_char(k) {
            assert(s@.subrange(0, m as int)[k as int] != p@[k as int]);
            return false;
        }
        k = k + 1;
    }
    assert(s@.subrange(0, m as int) =~= p@);
    true
}

/// `s` without its trailing run of `c`.
pub open spec fn trim_end_char(s: Seq<char>, c: char) -> Seq<char>
    decreases s.len(),
{
    if s.len() > 0 && s.last() == c {
        trim_end_char(s.drop_last(), c)
    } else {
        s
    }
}

/// `s` with every trailing `c` removed, as `str::trim_end_matches(c)` does.
pub fn trim_end_matches_char(s: &str, c: char) -> (r: String)
    ensures
        r@ == trim_end_char(s@, c),
{
    let n = s.unicode_len();
    let mut j: usize = n;
    assert(s@.subrange(0, n as int) =~= s@);
    while j > 0 && s.get_char(j - 1) == c
        invariant
            n == s@.len(),
            j <= n,
            trim_end_char(s@.subrange(0, j as int), c) == trim_end_char(s@, c),
        decreases j,
    {
        assert(s@.subrange(0, j as int).drop_last() =~= s@.subrange(0, j - 1));
        j = j - 1;
    }
    let r = String::from_str(s.substring_char(0, j));
    r
}

/// `n` copies of the character sequence `unit`, one after another.
pub open spec fn repeat(unit: Seq<char>, n: nat) -> Seq<char>
    decreases n,
{
    if n == 0 {
        Seq::empty()
    } else {
        repeat(unit, (n - 1) as nat) + unit
    }
}

/// Appends `n` copies of `unit` to `out`.
pub fn append_repeat(out: &mut String, unit: &str, n: usize)
    ensures
        final(out)@ == old(out)@ + repeat(unit@, n as nat),
{
    let mut k: usize = 0;
    assert(old(out)@ + repeat(unit@, 0) =~= old(out)@);
    while k < n
        invariant
            k <= n,
            out@ == old(out)@ + repeat(unit@, k as nat),
        decreases n - k,
    {
        out.append(unit);
        proof {
            assert(old(out)@ + repeat(unit@, k as nat) + unit@ =~= old(out)@ + repeat(unit@, (k + 1) as nat));
        }
        k = k + 1;
    }
}


/// `pat` occurs somewhere in `s`.
pub open spec fn occurs_in(s: Seq<char>, pat: Seq<char>) -> bool {
    exists|i: int| 0 <= i && i + pat.len() <= s.len() && #[trigger] s.subrange(i, i + pat.len()) == pat
}

/// Replacing a pattern that does not occur changes nothing.
pub proof fn law_replace_absent(s: Seq<char>, pat: Seq<char>, rep: Seq<char>)
    requires
        !occurs_in(s, pat),
    ensures
        replace_all(s, pat, rep) == s,
    decreases s.len(),
{
    if pat.len() == 0 {
        assert(s.subrange(0int, 0int + pat.len()) =~= pat);
    }
    if pat.len() > 0 && s.len() >= pat.len() {
        if has_prefix(s, pat) {
            assert(s.subrange(0int, 0int + pat.len()) == pat);
        }
        let t = s.subrange(1, s.len() as int);
        if occurs_in(t, pat) {
            let i = choose|i: int| 0 <= i && i + pat.len() <= t.len() && #[trigger] t.subrange(i, i + pat.len()) == pat;
            assert(s.subrange(i + 1, i + 1 + pat.len()) =~= t.subrange(i, i + pat.len()));
        }
        law_replace_absent(t, pat, rep);
        assert(seq![s[0]] + t =~= s);
    }
}

/// Replacing a pattern by itself changes nothing.
pub proof fn law_replace_with_itself(s: Seq<char>, pat: Seq<char>)
    ensures
        replace_all(s, pat, pat) == s,
    decreases s.len(),
{
    if pat.len() == 0 {
        if s.len() > 0 {
            let t = s.subrange(1, s.len() as int);
            law_replace_with_itself(t, pat);
            assert(pat + seq![s[0]] + t =~= s);
        } else {
            assert(pat =~= s);
        }
    } else if s.len() >= pat.len() {
        if has_prefix(s, pat) {
            let t = s.subrange(pat.len() as int, s.len() as int);
            law_replace_with_itself(t, pat);
            assert(pat + t =~= s);
        } else {
            let t = s.subrange(1, s.len() as int);
            law_replace_with_itself(t, pat);
            assert(seq![s[0]] + t =~= s);
        }
    }
}

/// A pattern whose first character does not appear in `s` does not occur in it.
pub proof fn lemma_absent_first_char(s: Seq<char>, pat: Seq<char>)
    requires
        pat.len() > 0,
        !s.contains(pat[0]),
    ensures
        !occurs_in(s, pat),
{
    if occurs_in(s, pat) {
        let i = choose|i: int| 0 <= i && i + pat.len() <= s.len() && #[trigger] s.subrange(i, i + pat.len()) == pat;
        assert(s[i] == s.subrange(i, i + pat.len())[0]);
    }
}


/// A text that is exactly the pattern is replaced by the replacement.
pub proof fn lemma_replace_exact(pat: Seq<char>, rep: Seq<char>)
    requires
        pat.len() > 0,
    ensures
        replace_all(pat, pat, rep) == rep,
{
    assert(pat.subrange(0, pat.len() as int) =~= pat);
    assert(has_prefix(pat, pat));
    let rest = pat.subrange(pat.len() as int, pat.len() as int);
    assert(rest =~= Seq::<char>::empty());
    assert(replace_all(rest, pat, rep) == rest);
    assert(replace_all(pat, pat, rep) == rep + replace_all(rest, pat, rep));
    assert(rep + rest =~= rep);
}


/// The value of a decimal digit character.
pub open spec fn digit_value(c: char) -> int {
    (c as int) - ('0' as int)
}

/// The number a string of decimal digits stands for.
pub open spec fn digits_value(s: Seq<char>) -> int
    decreases s.len(),
{
    if s.len() == 0 {
        0
    } else {
        10 * digits_value(s.drop_last()) + digit_value(s.last())
    }
}

/// The decimal text of a number consists of digits only, starts with a
/// non-zero digit unless the number is zero, and reads back as the number.
pub proof fn law_decimal_reads_back(n: nat)
    ensures
        forall|i: int| 0 <= i < decimal(n).len() ==> '0' <= #[trigger] decimal(n)[i] <= '9',
        decimal(n).len() > 0,
        decimal(n)[0] == '0' ==> n == 0,
        digits_value(decimal(n)) == n,
    decreases n,
{
    lemma_digit_value_of_digit_char((n % 10) as nat);
    if n >= 10 {
        law_decimal_reads_back(n / 10);
        let d = decimal(n);
        assert(d.drop_last() =~= decimal(n / 10));
        assert(d[0] == decimal(n / 10)[0]);
        assert(d.last() == digit_char((n % 10) as nat));
        assert(n == 10 * (n / 10) + n % 10);
        assert(digits_value(d) == 10 * digits_value(d.drop_last()) + digit_value(d.last()));
    } else {
        lemma_digit_value_of_digit_char(n);
        let d = decimal(n);
        assert(d.drop_last() =~= Seq::<char>::empty());
        assert(digits_value(d.drop_last()) == 0);
        assert(d.last() == digit_char(n));
        assert(digits_value(d) == 10 * digits_value(d.drop_last()) + digit_value(d.last()));
    }
}

proof fn lemma_digit_value_of_digit_char(d: nat)
    requires
        d < 10,
    ensures
        digit_value(digit_char(d)) == d,
        '0' <= digit_char(d) <= '9',
{
}

/// An occurrence of `pat` in `x + y` that starts in `x` and ends in `y`.
pub open spec fn straddles(x: Seq<char>, y: Seq<char>, pat: Seq<char>) -> bool {
    exists|i: int|
        0 <= i < x.len() && x.len() < i + pat.len() <= x.len() + y.len()
            && #[trigger] (x + y).subrange(i, i + pat.len()) == pat
}

/// Where no occurrence of `pat` crosses the seam between `x` and `y`,
/// replacing in `x + y` is replacing in each part.
pub proof fn lemma_replace_split(x: Seq<char>, y: Seq<char>, pat: Seq<char>, rep: Seq<char>)
    requires
        pat.len() > 0,
        !straddles(x, y, pat),
    ensures
        replace_all(x + y, pat, rep) == replace_all(x, pat, rep) + replace_all(y, pat, rep),
    decreases x.len(),
{
    let s = x + y;
    if x.len() == 0 {
        assert(s =~= y);
        assert(replace_all(x, pat, rep) =~= Seq::<char>::empty());
        assert(Seq::<char>::empty() + replace_all(y, pat, rep) =~= replace_all(y, pat, rep));
    } else if s.len() < pat.len() {
        lemma_replace_short(x, pat, rep);
        lemma_replace_short(y, pat, rep);
    } else if has_prefix(s, pat) {
        if pat.len() > x.len() {
            assert(s.subrange(0, 0 + pat.len() as int) == pat);
            assert(false);
        }
        let k = pat.len() as int;
        let x2 = x.subrange(k, x.len() as int);
        assert(x.subrange(0, k) =~= s.subrange(0, k));
        assert(s.subrange(k, s.len() as int) =~= x2 + y);
        if straddles(x2, y, pat) {
            let i = choose|i: int|
                0 <= i < x2.len() && x2.len() < i + pat.len() <= x2.len() + y.len()
                    && #[trigger] (x2 + y).subrange(i, i + pat.len()) == pat;
            assert((x2 + y).subrange(i, i + pat.len()) =~= s.subrange(i + k, i + k + pat.len()));
            assert(s.subrange(i + k, i + k + pat.len()) == pat);
            assert(false);
        }
        lemma_replace_split(x2, y, pat, rep);
        assert(rep + (replace_all(x2, pat, rep) + replace_all(y, pat, rep)) =~= (rep + replace_all(x2, pat, rep))
            + replace_all(y, pat, rep));
    } else {
        let x2 = x.subrange(1, x.len() as int);
        assert(s.subrange(1, s.len() as int) =~= x2 + y);
        if straddles(x2, y, pat) {
            let i = choose|i: int|
                0 <= i < x2.len() && x2.len() < i + pat.len() <= x2.len() + y.len()
                    && #[trigger] (x2 + y).subrange(i, i + pat.len()) == pat;
            assert((x2 + y).subrange(i, i + pat.len()) =~= s.subrange(i + 1, i + 1 + pat.len()));
            assert(s.subrange(i + 1, i + 1 + pat.len()) == pat);
            assert(false);
        }
        lemma_replace_split(x2, y, pat, rep);
        if x.len() < pat.len() {
            lemma_replace_short(x, pat, rep);
            lemma_replace_short(x2, pat, rep);
            assert(seq![s[0]] + (x2 + replace_all(y, pat, rep)) =~= x + replace_all(y, pat, rep));
        } else {
            assert(x.subrange(0, pat.len() as int) =~= s.subrange(0, pat.len() as int));
            assert(!has_prefix(x, pat));
            assert(seq![s[0]] + (replace_all(x2, pat, rep) + replace_all(y, pat, rep)) =~= (seq![x[0]]
                + replace_all(x2, pat, rep)) + replace_all(y, pat, rep));
        }
    }
}

/// No occurrence crosses a seam at which `y` starts with the first character
/// of a pattern in which that character occurs only first.
pub proof fn lemma_no_straddle_before(x: Seq<char>, y: Seq<char>, pat: Seq<char>)
    requires
        pat.len() > 0,
        y.len() > 0,
        y[0] == pat[0],
        forall|j: int| 0 < j < pat.len() ==> #[trigger] pat[j] != pat[0],
    ensures
        !straddles(x, y, pat),
{
    if straddles(x, y, pat) {
        let i = choose|i: int|
            0 <= i < x.len() && x.len() < i + pat.len() <= x.len() + y.len()
                && #[trigger] (x + y).subrange(i, i + pat.len()) == pat;
        let j = x.len() - i;
        assert((x + y).subrange(i, i + pat.len())[j] == (x + y)[x.len() as int]);
        assert(pat[j] == pat[0]);
    }
}

/// No occurrence crosses a seam at which `x` ends with the last character of
/// a pattern in which that character occurs only last.
pub proof fn lemma_no_straddle_after(x: Seq<char>, y: Seq<char>, pat: Seq<char>)
    requires
        pat.len() > 0,
        x.len() > 0,
        x.last() == pat.last(),
        forall|j: int| 0 <= j < pat.len() - 1 ==> #[trigger] pat[j] != pat.last(),
    ensures
        !straddles(x, y, pat),
{
    if straddles(x, y, pat) {
        let i = choose|i: int|
            0 <= i < x.len() && x.len() < i + pat.len() <= x.len() + y.len()
                && #[trigger] (x + y).subrange(i, i + pat.len()) == pat;
        let j = x.len() - 1 - i;
        assert((x + y).subrange(i, i + pat.len())[j] == (x + y)[x.len() - 1]);
        assert(pat[j] == pat.last());
    }
}

} // verus!
